//! The credential directory the connection engine consumes, and the
//! process-wide registry of authenticated client names.
//!
//! The directory is an in-memory table of named clients; the persistent
//! store behind it (a flat file or a SQL table) is managed outside the
//! verified core, which only reads credentials through `validate_user_auth`
//! and `get_client_key`.

use vstd::prelude::*;

use rand::distributions::Alphanumeric;
use rand::{thread_rng, Rng};

verus! {

/// A named client and its secret key, as the credential store hands it out.
/// Fields are optional because callers may submit partial records (a new
/// client has no id or key yet).
#[derive(Debug)]
pub struct Client {
    pub id: Option<i64>,
    pub name: Option<String>,
    pub key: Option<String>,
}

impl Clone for Client {
    fn clone(&self) -> (r: Self)
        ensures
            r == *self,
    {
        Client {
            id: match &self.id {
                Some(i) => Some(*i),
                None => None,
            },
            name: match &self.name {
                Some(n) => Some(n.clone()),
                None => None,
            },
            key: match &self.key {
                Some(k) => Some(k.clone()),
                None => None,
            },
        }
    }
}

/// Whether `c` carries the name `name`.
pub open spec fn client_named(c: Client, name: Seq<char>) -> bool {
    c.name is Some && c.name->0@ == name
}

/// The first client of `s` named `name`, if any.
pub open spec fn spec_get_client(s: Seq<Client>, name: Seq<char>) -> Option<Client>
    decreases s.len(),
{
    if s.len() == 0 {
        None
    } else if client_named(s[0], name) {
        Some(s[0])
    } else {
        spec_get_client(s.drop_first(), name)
    }
}

/// Whether some client of `s` carries the name `name`.
pub open spec fn spec_has_client(s: Seq<Client>, name: Seq<char>) -> bool {
    exists|i: int| 0 <= i < s.len() && client_named(#[trigger] s[i], name)
}

/// Whether some client of `s` carries exactly the pair `(name, key)`.
pub open spec fn spec_validate(s: Seq<Client>, name: Seq<char>, key: Seq<char>) -> bool {
    exists|i: int|
        0 <= i < s.len() && client_named(#[trigger] s[i], name) && s[i].key is Some
            && s[i].key->0@ == key
}

/// Relies on rand's `Alphanumeric` distribution and `Iterator::take`: the
/// sampled iterator is endless, so taking `size` ASCII characters yields a
/// string of exactly `size` characters.
#[verifier::external_body]
fn gen_str(size: usize) -> (r: String)
    ensures
        r@.len() == size,
{
    thread_rng().sample_iter(&Alphanumeric).take(size).map(char::from).collect()
}

/// The in-memory client directory: the minimal credential interface the
/// connection engine needs (validate a pair, look a key up), plus the
/// bookkeeping to register clients for tests and tooling.
pub struct ClientDirectory {
    clients: Vec<Client>,
}

impl ClientDirectory {
    /// The stored clients, in insertion order.
    pub closed spec fn clients_seq(&self) -> Seq<Client> {
        self.clients@
    }

    /// Every stored client is complete (id, name and key present) and
    /// names are unique.
    pub open spec fn wf(&self) -> bool {
        &&& forall|i: int|
            0 <= i < self.clients_seq().len() ==> {
                &&& (#[trigger] self.clients_seq()[i]).id is Some
                &&& self.clients_seq()[i].name is Some
                &&& self.clients_seq()[i].key is Some
            }
        &&& forall|i: int, j: int|
            0 <= i < j < self.clients_seq().len() ==> (#[trigger] self.clients_seq()[i]).name->0@
                != (#[trigger] self.clients_seq()[j]).name->0@
    }

    pub fn new() -> (r: ClientDirectory)
        ensures
            r.wf(),
            r.clients_seq().len() == 0,
    {
        ClientDirectory { clients: Vec::new() }
    }

    /// A copy of the stored client list.
    pub fn get_clients(&self) -> (r: Vec<Client>)
        ensures
            r@ =~= self.clients_seq(),
    {
        let r = self.clients.clone();
        proof {
            assert forall|i: int| 0 <= i < r@.len() implies r@[i] == self.clients@[i] by {
                assert(vstd::pervasive::cloned::<Client>(self.clients@[i], r@[i]));
            }
        }
        r
    }

    /// The first stored client named `client_name`, if any.
    pub fn get_client_by_name(&self, client_name: String) -> (r: Option<Client>)
        ensures
            r == spec_get_client(self.clients_seq(), client_name@),
    {
        proof {
            assert(self.clients@.skip(0) =~= self.clients@);
        }
        let n = self.clients.len();
        let mut i: usize = 0;
        while i < n
            invariant
                n == self.clients@.len(),
                0 <= i <= n,
                spec_get_client(self.clients@, client_name@) == spec_get_client(
                    self.clients@.skip(i as int),
                    client_name@,
                ),
            decreases n - i,
        {
            let c = &self.clients[i];
            let name_matches = match &c.name {
                Some(m) => *m == client_name,
                None => false,
            };
            proof {
                assert(self.clients@.skip(i as int)[0] == self.clients@[i as int]);
                assert(self.clients@.skip(i as int).drop_first() =~= self.clients@.skip(
                    i as int + 1,
                ));
            }
            if name_matches {
                return Some(c.clone());
            }
            i = i + 1;
        }
        proof {
            assert(self.clients@.skip(n as int) =~= Seq::<Client>::empty());
        }
        None
    }

    /// Whether some stored client carries exactly the pair `(name, key)`:
    /// the credential check behind `AuthMsg`.
    pub fn validate_user_auth(&self, name: String, key: String) -> (r: bool)
        ensures
            r == spec_validate(self.clients_seq(), name@, key@),
    {
        let n = self.clients.len();
        let mut i: usize = 0;
        while i < n
            invariant
                n == self.clients@.len(),
                0 <= i <= n,
                forall|k: int|
                    0 <= k < i ==> !(client_named(#[trigger] self.clients@[k], name@)
                        && self.clients@[k].key is Some && self.clients@[k].key->0@ == key@),
            decreases n - i,
        {
            let c = &self.clients[i];
            let name_matches = match &c.name {
                Some(m) => *m == name,
                None => false,
            };
            let key_matches = match &c.key {
                Some(m) => *m == key,
                None => false,
            };
            if name_matches && key_matches {
                return true;
            }
            i = i + 1;
        }
        false
    }

    /// The key of the client named `client_name`, if such a client exists:
    /// the directory's key lookup for tests and tooling.
    pub fn get_client_key(&self, client_name: String) -> (r: Option<String>)
        requires
            self.wf(),
        ensures
            r is Some <==> spec_get_client(self.clients_seq(), client_name@) is Some,
            r is Some ==> spec_get_client(self.clients_seq(), client_name@)->0.key
                == Some(r->0),
    {
        let found = self.get_client_by_name(client_name);
        proof {
            if found is Some {
                lemma_get_client_in(self.clients@, client_name@);
                let c0 = spec_get_client(self.clients@, client_name@)->0;
                let i = choose|i: int| 0 <= i < self.clients@.len() && self.clients@[i] == c0;
                assert(self.clients_seq()[i].key is Some);
            }
        }
        match found {
            Some(c) => match c.key {
                Some(k) => Some(k),
                None => vstd::pervasive::unreached(),
            },
            None => None,
        }
    }

    /// Loads a complete client record from the external credential store
    /// into the directory; a record whose name is already present is
    /// ignored.
    pub fn add_client(&mut self, client: Client)
        requires
            old(self).wf(),
            client.id is Some,
            client.name is Some,
            client.key is Some,
        ensures
            final(self).wf(),
            spec_has_client(old(self).clients_seq(), client.name->0@) ==> *final(self)
                == *old(self),
            !spec_has_client(old(self).clients_seq(), client.name->0@)
                ==> final(self).clients_seq() =~= old(self).clients_seq().push(client),
    {
        let name = match &client.name {
            Some(n) => n.clone(),
            None => vstd::pervasive::unreached(),
        };
        proof {
            lemma_get_client_some_iff_has(self.clients@, name@);
        }
        match self.get_client_by_name(name) {
            Some(_) => {},
            None => {
                self.clients.push(client);
                proof {
                    let s = self.clients@;
                    let prior = old(self).clients@;
                    assert forall|i: int, j: int| 0 <= i < j < s.len() implies (
                    #[trigger] s[i]).name->0@ != (#[trigger] s[j]).name->0@ by {
                        if j == s.len() - 1 {
                            assert(prior[i].name is Some);
                            assert(!client_named(prior[i], client.name->0@));
                        }
                    }
                }
            },
        }
    }

    /// Registers `client` under a freshly generated key, unless a client of
    /// that name already exists, in which case the existing record is
    /// returned and nothing changes.
    pub fn new_client(&mut self, client: Client) -> (r: Client)
        requires
            old(self).wf(),
            client.name is Some,
        ensures
            final(self).wf(),
            spec_has_client(old(self).clients_seq(), client.name->0@) ==> {
                &&& *final(self) == *old(self)
                &&& Some(r) == spec_get_client(final(self).clients_seq(), client.name->0@)
            },
            !spec_has_client(old(self).clients_seq(), client.name->0@) ==> {
                &&& final(self).clients_seq() =~= old(self).clients_seq().push(r)
                &&& client_named(r, client.name->0@)
                &&& r.key is Some
                &&& r.key->0@.len() == 16
                &&& r.id is Some
            },
    {
        let name = match &client.name {
            Some(n) => n.clone(),
            None => vstd::pervasive::unreached(),
        };
        proof {
            lemma_get_client_some_iff_has(self.clients@, name@);
        }
        match self.get_client_by_name(name.clone()) {
            Some(existing) => existing,
            None => {
                proof {
                    reveal_strlit("-");
                }
                let mut key = gen_str(10);
                key.append("-");
                let tail = gen_str(5);
                key.append(tail.as_str());
                let n = self.clients.len();
                let id: i64 = if n < 0x7fff_ffff {
                    (n as i64) + 1
                } else {
                    1
                };
                let record = Client { id: Some(id), name: Some(name), key: Some(key) };
                let r = record.clone();
                self.clients.push(record);
                proof {
                    let s = self.clients@;
                    let prior = old(self).clients@;
                    assert forall|i: int, j: int| 0 <= i < j < s.len() implies (
                        #[trigger] s[i]).name->0@ != (#[trigger] s[j]).name->0@ by {
                        if j == s.len() - 1 {
                            assert(prior[i].name is Some);
                            assert(!client_named(prior[i], record.name->0@));
                        }
                    }
                }
                r
            },
        }
    }
}

/// If a lookup finds a client, that client is one of the stored records, so
/// a well-formed directory guarantees its fields are present.
proof fn lemma_get_client_in(s: Seq<Client>, name: Seq<char>)
    ensures
        spec_get_client(s, name) is Some ==> {
            &&& s.contains(spec_get_client(s, name)->0)
            &&& client_named(spec_get_client(s, name)->0, name)
        },
    decreases s.len(),
{
    if s.len() > 0 && !client_named(s[0], name) {
        lemma_get_client_in(s.drop_first(), name);
        if spec_get_client(s, name) is Some {
            let c = spec_get_client(s, name)->0;
            let i = choose|i: int| 0 <= i < s.drop_first().len() && s.drop_first()[i] == c;
            assert(s[i + 1] == c);
        }
    }
}

/// A lookup succeeds exactly when some stored client carries the name.
proof fn lemma_get_client_some_iff_has(s: Seq<Client>, name: Seq<char>)
    ensures
        spec_get_client(s, name) is Some <==> spec_has_client(s, name),
    decreases s.len(),
{
    if s.len() > 0 {
        lemma_get_client_some_iff_has(s.drop_first(), name);
        if client_named(s[0], name) {
        } else {
            if spec_has_client(s, name) {
                let i = choose|i: int| 0 <= i < s.len() && client_named(s[i], name);
                assert(client_named(s.drop_first()[i - 1], name));
            }
            if spec_has_client(s.drop_first(), name) {
                let i = choose|i: int|
                    0 <= i < s.drop_first().len() && client_named(s.drop_first()[i], name);
                assert(client_named(s[i + 1], name));
            }
        }
    }
}

/// The process-wide set of client names that currently hold a successfully
/// authenticated connection. Used for observability; each connection's own
/// state is the authorization source of truth.
pub struct AuthenticatedRegistry {
    connection_status: Vec<String>,
}

impl AuthenticatedRegistry {
    /// The registered names.
    pub closed spec fn names(&self) -> Seq<Seq<char>> {
        self.connection_status@.map_values(|s: String| s@)
    }

    /// Whether `name` is currently registered.
    pub open spec fn has(&self, name: Seq<char>) -> bool {
        self.names().contains(name)
    }

    /// Names are registered at most once.
    pub open spec fn wf(&self) -> bool {
        forall|i: int, j: int|
            0 <= i < j < self.names().len() ==> #[trigger] self.names()[i]
                != #[trigger] self.names()[j]
    }

    pub fn new() -> (r: AuthenticatedRegistry)
        ensures
            r.wf(),
            forall|m: Seq<char>| !r.has(m),
    {
        let r = AuthenticatedRegistry { connection_status: Vec::new() };
        proof {
            assert(r.names() =~= Seq::<Seq<char>>::empty());
        }
        r
    }

    /// Whether `name` currently holds an authenticated connection.
    pub fn contains(&self, name: &String) -> (r: bool)
        ensures
            r == self.has(name@),
    {
        let n = self.connection_status.len();
        let mut i: usize = 0;
        while i < n
            invariant
                n == self.connection_status@.len(),
                0 <= i <= n,
                forall|k: int| 0 <= k < i ==> #[trigger] self.names()[k] != name@,
            decreases n - i,
        {
            proof {
                assert(self.names()[i as int] == self.connection_status@[i as int]@);
            }
            if self.connection_status[i] == *name {
                return true;
            }
            i = i + 1;
        }
        false
    }

    /// Registers `name`; registering an already present name is a no-op.
    pub fn insert(&mut self, name: String)
        requires
            old(self).wf(),
        ensures
            final(self).wf(),
            forall|m: Seq<char>| final(self).has(m) <==> (old(self).has(m) || m == name@),
    {
        let absent = !self.contains(&name);
        if absent {
            let ghost prior = self.names();
            self.connection_status.push(name);
            proof {
                let ghost added = name@;
                assert(self.names() =~= prior.push(added));
                assert forall|m: Seq<char>| self.has(m) <==> (old(self).has(m) || m
                    == added) by {
                    if self.has(m) {
                        let i = choose|i: int| 0 <= i < self.names().len() && self.names()[i] == m;
                        if i < prior.len() {
                            assert(prior[i] == m);
                        }
                    }
                    if old(self).has(m) {
                        let i = choose|i: int| 0 <= i < prior.len() && prior[i] == m;
                        assert(self.names()[i] == m);
                    }
                    if m == added {
                        assert(self.names()[prior.len() as int] == m);
                    }
                }
                assert forall|i: int, j: int| 0 <= i < j < self.names().len() implies #[trigger] self.names()[i] != #[trigger] self.names()[j] by {
                    if j == self.names().len() - 1 {
                        assert(prior[i] == self.names()[i]);
                    }
                }
            }
        }
    }

    /// Unregisters `name`; removing an absent name is a no-op.
    pub fn remove(&mut self, name: &String)
        requires
            old(self).wf(),
        ensures
            final(self).wf(),
            forall|m: Seq<char>| final(self).has(m) <==> (old(self).has(m) && m != name@),
    {
        let n = self.connection_status.len();
        let mut i: usize = 0;
        while i < n
            invariant
                old(self).wf(),
                n == self.connection_status@.len(),
                0 <= i <= n,
                *self == *old(self),
                forall|k: int| 0 <= k < i ==> #[trigger] self.names()[k] != name@,
            decreases n - i,
        {
            proof {
                assert(self.names()[i as int] == self.connection_status@[i as int]@);
            }
            if self.connection_status[i] == *name {
                proof {
                    assert(self.names()[i as int] == name@);
                }
                let ghost prior = old(self).names();
                let ghost at = i as int;
                proof {
                    assert(prior[at] == name@);
                }
                self.connection_status.remove(i);
                proof {
                    assert(self.names() =~= prior.remove(at));
                    let removed = self.names();
                    assert forall|m: Seq<char>| removed.contains(m) <==> (prior.contains(m) && m
                        != name@) by {
                        if removed.contains(m) {
                            let k = choose|k: int| 0 <= k < removed.len() && removed[k] == m;
                            if k < at {
                                assert(prior[k] == m);
                                if m == name@ {
                                    assert(prior[k] == prior[at]);
                                }
                            } else {
                                assert(prior[k + 1] == m);
                                if m == name@ {
                                    assert(prior[at] == prior[k + 1]);
                                }
                            }
                        }
                        if prior.contains(m) && m != name@ {
                            let k = choose|k: int| 0 <= k < prior.len() && prior[k] == m;
                            if k < at {
                                assert(removed[k] == m);
                            } else {
                                assert(k != at);
                                assert(removed[k - 1] == m);
                            }
                        }
                    }
                    assert forall|x: int, y: int| 0 <= x < y < removed.len() implies #[trigger] removed[x] != #[trigger] removed[y] by {
                        let px = if x < at { x } else { x + 1 };
                        let py = if y < at { y } else { y + 1 };
                        assert(removed[x] == prior[px]);
                        assert(removed[y] == prior[py]);
                    }
                }
                return ;
            }
            i = i + 1;
        }
        proof {
            assert forall|m: Seq<char>| self.has(m) <==> (old(self).has(m) && m != name@) by {
                if self.has(m) && m == name@ {
                    let k = choose|k: int| 0 <= k < self.names().len() && self.names()[k] == m;
                }
            }
        }
    }
}

} // verus!
