//! The per-connection protocol engine: the authentication state machine,
//! per-message authorization, dispatch to the catalog and cache, and the
//! responses it produces.
//!
//! The engine is driven by the surrounding application, which reads frames
//! off the transport, parses them, and performs what the engine asks
//! (`Step`): send a reply, close the connection, or walk the share and call
//! again with the snapshot. Messages of one connection are handled strictly
//! one at a time, in arrival order.

pub mod ws_message;

use vstd::prelude::*;

use crate::data::{spec_validate, AuthenticatedRegistry, ClientDirectory};
use crate::file::{
    base64_of, dir_children_match, FileService, ProvideFile, SourceDir, SourceFile,
};
use crate::ws::ws_message::{
    AuthMsg, AuthRes, CopyMsg, CopyRes, ErrRes, Message, Response, TreeMsg, TreeRes,
};

verus! {

/// Why a message was rejected: bad or missing authentication, or a copy
/// request whose file could not be resolved or read.
#[derive(Debug)]
pub enum MessageError {
    AuthError,
    ReadFileError(String),
}

/// Per-connection session state: the name this connection authenticated
/// as, if it has. This state — not the shared registry — is what
/// authorizes Tree/Copy requests on the connection.
pub struct ConnectionState {
    pub client_name: Option<String>,
}

impl ConnectionState {
    /// An unauthenticated connection, as every connection starts.
    pub fn new() -> (r: ConnectionState)
        ensures
            r.client_name is None,
    {
        ConnectionState { client_name: None }
    }
}

/// Whether the connection may issue Tree/Copy requests.
pub open spec fn spec_authorized(conn: ConnectionState) -> bool {
    conn.client_name is Some
}

/// What the engine asks of its caller after one inbound message.
#[derive(Debug)]
pub enum Step {
    /// Send `res`; then close the connection if `close` says so.
    Reply { res: Response, close: bool },
    /// Send nothing and close the connection.
    Close,
    /// The message needs the share: walk it and call again with the
    /// snapshot.
    NeedShare,
}

/// The reply a `CopyMsg` earns when the file it resolved to is `sf`: the
/// request's correlation id and start, the clamped end, the end-of-file
/// flag, and the encoded bytes of the clamped range.
pub open spec fn copy_reply_ok(c: CopyMsg, sf: SourceFile, cr: CopyRes) -> bool {
    &&& cr.id == c.id
    &&& cr.start == c.start
    &&& cr.end == if c.end <= sf.data@.len() {
        c.end as int
    } else {
        sf.data@.len() as int
    }
    &&& cr.last_data == (c.end >= sf.data@.len())
    &&& cr.data@ == base64_of(sf.data@.subrange(c.start as int, cr.end as int))
}

/// Decides an `AuthMsg`: validates the pair against the directory, records
/// the identity in the connection's own state, and mirrors the outcome in
/// the shared registry (inserted on success, removed on failure). The
/// reply's status is `"accepted"` or `"denied"`; a denial also asks the
/// caller to terminate the connection.
pub fn handle_auth_msg(
    msg: AuthMsg,
    directory: &ClientDirectory,
    conn: &mut ConnectionState,
    registry: &mut AuthenticatedRegistry,
) -> (r: (AuthRes, Result<(), MessageError>))
    requires
        old(registry).wf(),
    ensures
        final(registry).wf(),
        r.0.id == msg.id,
        spec_validate(directory.clients_seq(), msg.name@, msg.key@) ==> {
            &&& r.0.status@ == "accepted"@
            &&& r.1 is Ok
            &&& (final(conn).client_name matches Some(n) && n@ == msg.name@)
            &&& (forall|m: Seq<char>|
                final(registry).has(m) <==> (old(registry).has(m) || m == msg.name@))
        },
        !spec_validate(directory.clients_seq(), msg.name@, msg.key@) ==> {
            &&& r.0.status@ == "denied"@
            &&& (r.1 matches Err(e) && e is AuthError)
            &&& final(conn).client_name is None
            &&& (forall|m: Seq<char>|
                final(registry).has(m) <==> (old(registry).has(m) && m != msg.name@))
        },
{
    let accept = directory.validate_user_auth(msg.name.clone(), msg.key.clone());
    if accept {
        let res = AuthRes { id: msg.id, status: "accepted".to_owned() };
        conn.client_name = Some(msg.name.clone());
        registry.insert(msg.name);
        (res, Ok(()))
    } else {
        let res = AuthRes { id: msg.id, status: "denied".to_owned() };
        conn.client_name = None;
        registry.remove(&msg.name);
        (res, Err(MessageError::AuthError))
    }
}

/// Answers a `TreeMsg` with the catalog tree of the share snapshot. Every
/// file in the reply carries the content hash of its bytes.
pub fn handle_tree_msg(msg: TreeMsg, file_service: &FileService, share: &SourceDir) -> (r:
    TreeRes)
    requires
        file_service.wf(),
    ensures
        r.id == msg.id,
        r.root.name@ == "root"@,
        dir_children_match(*share, r.root),
{
    match file_service.get_tree(share) {
        Ok(root) => TreeRes { id: msg.id, root },
        Err(_) => vstd::pervasive::unreached(),
    }
}

/// Answers a `CopyMsg` with the requested chunk of the file its hash
/// resolves to, or reports why it could not.
pub fn handle_copy_msg(
    msg: CopyMsg,
    file_service: &mut FileService,
    share: &SourceDir,
    now: u64,
) -> (r: Result<CopyRes, MessageError>)
    requires
        old(file_service).wf(),
    ensures
        final(file_service).wf(),
        final(file_service).root() == old(file_service).root(),
        r is Ok <==> (old(file_service).spec_resolution(*share, msg.file_hash@, now)
            matches Some(sf) && msg.start <= msg.end && msg.start <= sf.data@.len()),
        (r matches Ok(cr) ==> copy_reply_ok(
            msg,
            old(file_service).spec_resolution(*share, msg.file_hash@, now)->0,
            cr,
        )),
        (r matches Err(e) ==> (e matches MessageError::ReadFileError(s) && s@.len() > 0)),
        old(file_service).resolution_hit(msg.file_hash@, now) ==> *final(file_service) == *old(
            file_service,
        ),
        (!old(file_service).resolution_hit(msg.file_hash@, now)
            && crate::file::first_with_hash(crate::file::all_files(*share), msg.file_hash@)
            is Some) ==> final(file_service).resolution_hit(msg.file_hash@, now),
        (!old(file_service).resolution_hit(msg.file_hash@, now)
            && crate::file::first_with_hash(crate::file::all_files(*share), msg.file_hash@)
            is None) ==> *final(file_service) == *old(file_service),
{
    let hash = msg.file_hash.clone();
    let data_res = file_service.get_file_data(share, now, msg.start, msg.end, hash);
    match data_res {
        Ok(d) => Ok(
            CopyRes {
                id: msg.id,
                start: msg.start,
                end: d.end,
                data: d.data,
                last_data: d.last_data,
            },
        ),
        Err(_) => {
            proof {
                reveal_strlit("Problems to find the file with hash: ");
            }
            let mut e = "Problems to find the file with hash: ".to_owned();
            e.append(msg.file_hash.as_str());
            Err(MessageError::ReadFileError(e))
        },
    }
}

/// Whether `client_name` currently holds an authenticated connection, as
/// the shared registry records it. Observability only: dispatch authorizes
/// against the connection's own state.
pub fn user_is_auth(registry: &AuthenticatedRegistry, client_name: &String) -> (r: bool)
    ensures
        r == registry.has(client_name@),
{
    registry.contains(client_name)
}

/// Releases the connection's claim on the registry when the transport
/// closes. Idempotent: a connection that never authenticated, or whose
/// name was already removed, changes nothing.
pub fn handle_close(conn: &ConnectionState, registry: &mut AuthenticatedRegistry)
    requires
        old(registry).wf(),
    ensures
        final(registry).wf(),
        (conn.client_name matches Some(n) ==> forall|m: Seq<char>|
            final(registry).has(m) <==> (old(registry).has(m) && m != n@)),
        conn.client_name is None ==> *final(registry) == *old(registry),
{
    match &conn.client_name {
        Some(n) => registry.remove(n),
        None => {},
    }
}

/// Handles one inbound frame. An `AuthMsg` is decided against the
/// directory whatever the current phase. A Tree/Copy request is authorized
/// against this connection's own state before anything else: an
/// unauthorized one closes the connection with no reply and at zero share
/// cost — the share snapshot is only requested (`Step::NeedShare`) after
/// authorization passes.
pub fn process_message(
    directory: &ClientDirectory,
    file_service: &mut FileService,
    conn: &mut ConnectionState,
    registry: &mut AuthenticatedRegistry,
    share: Option<&SourceDir>,
    now: u64,
    msg: Message,
) -> (r: Step)
    requires
        old(file_service).wf(),
        old(registry).wf(),
    ensures
        final(file_service).wf(),
        final(registry).wf(),
        (msg matches Message::AuthMsg(a) ==> {
            let ok = spec_validate(directory.clients_seq(), a.name@, a.key@);
            &&& *final(file_service) == *old(file_service)
            &&& (r matches Step::Reply { res, close } && res matches Response::AuthRes(ar)
                && ar.id == a.id)
            &&& ok ==> (r matches Step::Reply { res, close } && res matches Response::AuthRes(
                ar,
            ) && (!close && ar.status@ == "accepted"@ && (final(conn).client_name matches Some(n)
                && n@ == a.name@) && (forall|m: Seq<char>|
                final(registry).has(m) <==> (old(registry).has(m) || m == a.name@))))
            &&& !ok ==> (r matches Step::Reply { res, close } && res matches Response::AuthRes(
                ar,
            ) && (close && ar.status@ == "denied"@ && final(conn).client_name is None && (
            forall|m: Seq<char>|
                final(registry).has(m) <==> (old(registry).has(m) && m != a.name@))))
        }),
        ((msg matches Message::TreeMsg(_) || msg matches Message::CopyMsg(_))
            && !spec_authorized(*old(conn))) ==> {
            &&& r is Close
            &&& *final(file_service) == *old(file_service)
            &&& *final(conn) == *old(conn)
            &&& *final(registry) == *old(registry)
        },
        ((msg matches Message::TreeMsg(_) || msg matches Message::CopyMsg(_))
            && spec_authorized(*old(conn)) && share is None) ==> {
            &&& r is NeedShare
            &&& *final(file_service) == *old(file_service)
            &&& *final(conn) == *old(conn)
            &&& *final(registry) == *old(registry)
        },
        (msg matches Message::TreeMsg(t) ==> (spec_authorized(*old(conn)) ==> (
        share matches Some(s) ==> {
            &&& (r matches Step::Reply { res, close } && res matches Response::TreeRes(tr) && (
            !close && tr.id == t.id && tr.root.name@ == "root"@ && dir_children_match(
                *s,
                tr.root,
            )))
            &&& *final(file_service) == *old(file_service)
            &&& *final(conn) == *old(conn)
            &&& *final(registry) == *old(registry)
        }))),
        (msg matches Message::CopyMsg(c) ==> (spec_authorized(*old(conn)) ==> (
        share matches Some(s) ==> {
            let served = old(file_service).spec_resolution(*s, c.file_hash@, now);
            &&& *final(conn) == *old(conn)
            &&& *final(registry) == *old(registry)
            &&& final(file_service).root() == old(file_service).root()
            &&& ((served matches Some(sf) && c.start <= c.end && c.start <= sf.data@.len())
                <==> (r matches Step::Reply { res, close } && !close
                && res matches Response::CopyRes(cr)))
            &&& (r matches Step::Reply { res, close } ==> (res matches Response::CopyRes(cr)
                ==> copy_reply_ok(c, served->0, cr)))
            &&& (!(served matches Some(sf) && c.start <= c.end && c.start <= sf.data@.len())
                ==> (r matches Step::Reply { res, close } && res matches Response::ErrRes(er) && (
            close && er.id == c.id && er.err@.len() > 0)))
            &&& (old(file_service).resolution_hit(c.file_hash@, now) ==> *final(file_service)
                == *old(file_service))
            &&& ((!old(file_service).resolution_hit(c.file_hash@, now)
                && crate::file::first_with_hash(crate::file::all_files(*s), c.file_hash@)
                is Some) ==> final(file_service).resolution_hit(c.file_hash@, now))
        }))),
{
    match msg {
        Message::AuthMsg(a) => {
            let (res, outcome) = handle_auth_msg(a, directory, conn, registry);
            match outcome {
                Ok(()) => Step::Reply { res: Response::AuthRes(res), close: false },
                Err(_) => Step::Reply { res: Response::AuthRes(res), close: true },
            }
        },
        Message::TreeMsg(t) => {
            let authed = match &conn.client_name {
                Some(_) => true,
                None => false,
            };
            if !authed {
                Step::Close
            } else {
                match share {
                    None => Step::NeedShare,
                    Some(s) => {
                        let tr = handle_tree_msg(t, file_service, s);
                        Step::Reply { res: Response::TreeRes(tr), close: false }
                    },
                }
            }
        },
        Message::CopyMsg(c) => {
            let authed = match &conn.client_name {
                Some(_) => true,
                None => false,
            };
            if !authed {
                Step::Close
            } else {
                match share {
                    None => Step::NeedShare,
                    Some(s) => {
                        let id = c.id;
                        match handle_copy_msg(c, file_service, s, now) {
                            Ok(cr) => Step::Reply {
                                res: Response::CopyRes(cr),
                                close: false,
                            },
                            Err(e) => match e {
                                MessageError::ReadFileError(err) => Step::Reply {
                                    res: Response::ErrRes(ErrRes { err, id }),
                                    close: true,
                                },
                                MessageError::AuthError => vstd::pervasive::unreached(),
                            },
                        }
                    },
                }
            }
        },
    }
}

/// A denied authentication leaves the connection unauthorized: besides
/// asking the caller to terminate, the engine strips the session identity,
/// so even a transport that kept the connection open would see every
/// following Tree/Copy request rejected without a reply.
pub proof fn lemma_denied_then_unauthorized(conn_after: ConnectionState)
    requires
        conn_after.client_name is None,
    ensures
        !spec_authorized(conn_after),
{
}

/// Valid credentials authorize the connection for the requests that
/// follow: the connection state an accepted `AuthMsg` leaves behind
/// satisfies `spec_authorized`, so an immediately following Tree/Copy
/// message on the same connection is dispatched and answered rather than
/// rejected.
pub proof fn lemma_accepted_then_authorized(
    directory: ClientDirectory,
    conn_after: ConnectionState,
    a: AuthMsg,
)
    requires
        spec_validate(directory.clients_seq(), a.name@, a.key@),
        conn_after.client_name matches Some(n) && n@ == a.name@,
    ensures
        spec_authorized(conn_after),
{
}

} // verus!
