//! The content-addressed file catalog, the hash-to-path resolution cache
//! with time-based eviction, and the chunked byte-range reader.
//!
//! The filesystem never appears here directly: the surrounding application
//! walks the share and hands the catalog an in-memory snapshot
//! (`SourceDir`), under which every file carries its full byte content.
//! Hashing and the transport encoding are the two outside computations the
//! catalog relies on.

use vstd::prelude::*;

use base64::Engine;

use crate::ws::ws_message::{Directory, File};

verus! {

/// The hex digest that `sha256::digest` computes for a byte string.
pub uninterp spec fn digest_of(data: Seq<u8>) -> Seq<char>;

/// The text that base64's standard engine encodes a byte string to.
pub uninterp spec fn base64_of(data: Seq<u8>) -> Seq<char>;

/// Relies on `sha256::digest`: the hex digest of a byte string is a pure
/// function of the bytes.
#[verifier::external_body]
fn hash_bytes(data: &Vec<u8>) -> (r: String)
    ensures
        r@ == digest_of(data@),
{
    sha256::digest(data)
}

/// Relies on base64's `STANDARD` engine: the encoding of a byte string is
/// a pure function of the bytes.
#[verifier::external_body]
fn base64_encode(data: &Vec<u8>) -> (r: String)
    ensures
        r@ == base64_of(data@),
{
    base64::engine::general_purpose::STANDARD.encode(data)
}

/// Relies on base64's `STANDARD` engine: decoding inverts encoding, so a
/// string that is the encoding of some byte string decodes to exactly
/// those bytes.
#[verifier::external_body]
fn base64_decode(text: &str) -> (r: Option<Vec<u8>>)
    ensures
        forall|b: Seq<u8>| text@ == base64_of(b) ==> r is Some && r->0@ == b,
{
    match base64::engine::general_purpose::STANDARD.decode(text) {
        Ok(v) => Some(v),
        Err(_) => None,
    }
}

/// One chunk of a file as the reader returns it: the bytes of the clamped
/// range in the transport encoding, the actual end offset, and whether the
/// range reaches the end of the file.
#[derive(Clone, Debug)]
pub struct ReadedData {
    pub data: String,
    pub end: u64,
    pub last_data: bool,
}

/// Reads the half-open range `[start, end)` out of `contents`, clamping
/// `end` to the file size. Fails exactly when `start` is not a valid
/// offset of the requested range: when the range is inverted or `start`
/// lies past the end of the file.
pub fn read_data(contents: &Vec<u8>, start: u64, end: u64) -> (r: Result<ReadedData, String>)
    ensures
        r is Ok <==> (start <= end && start <= contents@.len()),
        (r matches Ok(d) ==> {
            &&& d.end == if end <= contents@.len() {
                end as int
            } else {
                contents@.len() as int
            }
            &&& d.last_data == (end >= contents@.len())
            &&& d.data@ == base64_of(contents@.subrange(start as int, d.end as int))
        }),
        (r matches Err(e) ==> e@.len() > 0),
{
    let file_len: u64 = contents.len() as u64;
    if start > end || start > file_len {
        proof {
            reveal_strlit("out of range");
        }
        return Err("out of range".to_owned());
    }
    let end_c: u64 = if end < file_len {
        end
    } else {
        file_len
    };
    let mut chunk: Vec<u8> = Vec::new();
    let mut i: usize = start as usize;
    let end_u: usize = end_c as usize;
    while i < end_u
        invariant
            start <= end_c <= contents@.len(),
            end_u == end_c,
            start <= i <= end_u,
            chunk@ =~= contents@.subrange(start as int, i as int),
        decreases end_u - i,
    {
        let b = contents[i];
        chunk.push(b);
        proof {
            assert(chunk@ =~= contents@.subrange(start as int, i as int + 1));
        }
        i = i + 1;
    }
    Ok(ReadedData { data: base64_encode(&chunk), end: end_c, last_data: end_c >= file_len })
}

/// Decodes the transport encoding a chunk travels in: the client-side
/// inverse of the encoding `read_data` applies.
pub fn decode_chunk(data: &String) -> (r: Option<Vec<u8>>)
    ensures
        forall|b: Seq<u8>| data@ == base64_of(b) ==> r is Some && r->0@ == b,
{
    base64_decode(data.as_str())
}

/// Chunks of contiguous ranges concatenate to the chunk of the combined
/// range: a client that streams a file in successive `[start, mid)` and
/// `[mid, end)` requests holds exactly the bytes `[start, end)` after
/// concatenating the decoded payloads.
pub proof fn lemma_contiguous_chunks(contents: Seq<u8>, start: int, mid: int, end: int)
    requires
        0 <= start <= mid <= end <= contents.len(),
    ensures
        contents.subrange(start, mid) + contents.subrange(mid, end) == contents.subrange(
            start,
            end,
        ),
{
    assert(contents.subrange(start, mid) + contents.subrange(mid, end) =~= contents.subrange(
        start,
        end,
    ));
}

/// The concatenation of the byte ranges between successive cut points:
/// `[cuts[0], cuts[1])`, then `[cuts[1], cuts[2])`, and so on.
pub open spec fn concat_chunks(contents: Seq<u8>, cuts: Seq<int>) -> Seq<u8>
    decreases cuts.len(),
{
    if cuts.len() < 2 {
        Seq::empty()
    } else {
        contents.subrange(cuts[0], cuts[1]) + concat_chunks(contents, cuts.drop_first())
    }
}

/// The round-trip law for a whole transfer: pulling a file in successive
/// contiguous ranges, in any number of chunks, and concatenating the
/// decoded payloads reconstructs exactly the bytes between the first and
/// the last cut point.
pub proof fn lemma_chunks_reconstruct(contents: Seq<u8>, cuts: Seq<int>)
    requires
        cuts.len() >= 2,
        forall|i: int, j: int| 0 <= i <= j < cuts.len() ==> #[trigger] cuts[i] <= #[trigger] cuts[j],
        0 <= cuts[0],
        cuts[cuts.len() - 1] <= contents.len(),
    ensures
        concat_chunks(contents, cuts) == contents.subrange(cuts[0], cuts[cuts.len() - 1]),
    decreases cuts.len(),
{
    if cuts.len() == 2 {
        reveal_with_fuel(concat_chunks, 2);
        assert(cuts.drop_first().len() < 2);
        assert(contents.subrange(cuts[0], cuts[1]) + Seq::<u8>::empty() =~= contents.subrange(
            cuts[0],
            cuts[1],
        ));
    } else {
        let rest = cuts.drop_first();
        assert forall|i: int, j: int| 0 <= i <= j < rest.len() implies #[trigger] rest[i]
            <= #[trigger] rest[j] by {
            assert(cuts[i + 1] <= cuts[j + 1]);
        }
        assert(rest[0] == cuts[1]);
        assert(rest[rest.len() - 1] == cuts[cuts.len() - 1]);
        lemma_chunks_reconstruct(contents, rest);
        lemma_contiguous_chunks(contents, cuts[0], cuts[1], cuts[cuts.len() - 1]);
    }
}

/// One file of the share snapshot: its name, its absolute path on the
/// serving host, and its full byte content.
pub struct SourceFile {
    pub name: String,
    pub path: String,
    pub data: Vec<u8>,
}

/// One directory of the share snapshot with its immediate children, as the
/// application's walk of the share hands it to the catalog.
pub struct SourceDir {
    pub name: String,
    pub path: String,
    pub files: Vec<SourceFile>,
    pub dirs: Vec<SourceDir>,
}

/// The catalog entry that describes the snapshot file `sf`: same name, the
/// internal path kept aside, the content hash, and the size in bytes.
pub open spec fn file_matches(sf: SourceFile, f: File) -> bool {
    &&& f.name@ == sf.name@
    &&& (f.path matches Some(p) && p@ == sf.path@)
    &&& f.hash@ == digest_of(sf.data@)
    &&& f.size == sf.data@.len()
}

/// The catalog tree `d` describes the snapshot directory `src`: children
/// in order, every file tagged with its content hash and size.
pub open spec fn dir_children_match(src: SourceDir, d: Directory) -> bool
    decreases src,
{
    &&& d.files@.len() == src.files@.len()
    &&& (forall|i: int|
        0 <= i < src.files@.len() ==> file_matches(src.files@[i], #[trigger] d.files@[i]))
    &&& d.dirs@.len() == src.dirs@.len()
    &&& (forall|i: int|
        0 <= i < src.dirs@.len() ==> {
            &&& (#[trigger] d.dirs@[i]).name@ == src.dirs@[i].name@
            &&& (d.dirs@[i].path matches Some(p) && p@ == src.dirs@[i].path@)
            &&& dir_children_match(src.dirs@[i], d.dirs@[i])
        })
}

/// Every file under `src`: the directory's own files first, then the
/// subdirectories' files in order.
pub open spec fn all_files(src: SourceDir) -> Seq<SourceFile>
    decreases src,
{
    src.files@ + flatten_dir_files(src.dirs@)
}

/// Every file under the directories of `ds`, in order.
pub open spec fn flatten_dir_files(ds: Seq<SourceDir>) -> Seq<SourceFile>
    decreases ds,
{
    if ds.len() == 0 {
        Seq::empty()
    } else {
        all_files(ds[0]) + flatten_dir_files(ds.drop_first())
    }
}

/// The first file of `fs` whose content hash is `hash`, if any.
pub open spec fn first_with_hash(fs: Seq<SourceFile>, hash: Seq<char>) -> Option<SourceFile>
    decreases fs.len(),
{
    if fs.len() == 0 {
        None
    } else if digest_of(fs[0].data@) == hash {
        Some(fs[0])
    } else {
        first_with_hash(fs.drop_first(), hash)
    }
}

/// The first file of `fs` that sits at `path`, if any.
pub open spec fn first_at(fs: Seq<SourceFile>, path: Seq<char>) -> Option<SourceFile>
    decreases fs.len(),
{
    if fs.len() == 0 {
        None
    } else if fs[0].path@ == path {
        Some(fs[0])
    } else {
        first_at(fs.drop_first(), path)
    }
}

/// A hash search scans a concatenation left to right.
proof fn lemma_first_with_hash_concat(a: Seq<SourceFile>, b: Seq<SourceFile>, hash: Seq<char>)
    ensures
        first_with_hash(a + b, hash) == if first_with_hash(a, hash) is Some {
            first_with_hash(a, hash)
        } else {
            first_with_hash(b, hash)
        },
    decreases a.len(),
{
    if a.len() == 0 {
        assert(a + b =~= b);
    } else {
        assert((a + b)[0] == a[0]);
        assert((a + b).drop_first() =~= a.drop_first() + b);
        lemma_first_with_hash_concat(a.drop_first(), b, hash);
    }
}

/// A path search scans a concatenation left to right.
proof fn lemma_first_at_concat(a: Seq<SourceFile>, b: Seq<SourceFile>, path: Seq<char>)
    ensures
        first_at(a + b, path) == if first_at(a, path) is Some {
            first_at(a, path)
        } else {
            first_at(b, path)
        },
    decreases a.len(),
{
    if a.len() == 0 {
        assert(a + b =~= b);
    } else {
        assert((a + b)[0] == a[0]);
        assert((a + b).drop_first() =~= a.drop_first() + b);
        lemma_first_at_concat(a.drop_first(), b, path);
    }
}

/// A found hash match is an element of the searched sequence and carries
/// the hash.
proof fn lemma_first_with_hash_found(fs: Seq<SourceFile>, hash: Seq<char>)
    ensures
        (first_with_hash(fs, hash) matches Some(sf) ==> fs.contains(sf) && digest_of(sf.data@)
            == hash),
    decreases fs.len(),
{
    if fs.len() > 0 {
        if digest_of(fs[0].data@) == hash {
            assert(fs[0] == fs[0]);
        } else {
            lemma_first_with_hash_found(fs.drop_first(), hash);
            let found = first_with_hash(fs, hash);
            if found is Some {
                let sf = found->0;
                let i = choose|i: int|
                    0 <= i < fs.drop_first().len() && fs.drop_first()[i] == sf;
                assert(fs[i + 1] == sf);
            }
        }
    }
}

/// A found path match is an element of the searched sequence and sits at
/// the path.
proof fn lemma_first_at_found(fs: Seq<SourceFile>, path: Seq<char>)
    ensures
        (first_at(fs, path) matches Some(sf) ==> fs.contains(sf) && sf.path@ == path),
    decreases fs.len(),
{
    if fs.len() > 0 {
        if fs[0].path@ == path {
            assert(fs[0] == fs[0]);
        } else {
            lemma_first_at_found(fs.drop_first(), path);
            let found = first_at(fs, path);
            if found is Some {
                let sf = found->0;
                let i = choose|i: int|
                    0 <= i < fs.drop_first().len() && fs.drop_first()[i] == sf;
                assert(fs[i + 1] == sf);
            }
        }
    }
}

/// Builds the catalog tree of the snapshot directory `src`, hashing every
/// file's content along the way.
fn get_tree_rec(src: &SourceDir) -> (d: Directory)
    ensures
        d.name@ == src.name@,
        (d.path matches Some(p) && p@ == src.path@),
        dir_children_match(*src, d),
    decreases *src,
{
    let mut files: Vec<File> = Vec::new();
    let nf = src.files.len();
    let mut i: usize = 0;
    while i < nf
        invariant
            nf == src.files@.len(),
            0 <= i <= nf,
            files@.len() == i,
            forall|k: int| 0 <= k < i ==> file_matches(src.files@[k], #[trigger] files@[k]),
        decreases nf - i,
    {
        let sf = &src.files[i];
        let f = File {
            name: sf.name.clone(),
            path: Some(sf.path.clone()),
            hash: hash_bytes(&sf.data),
            size: sf.data.len() as u64,
        };
        files.push(f);
        i = i + 1;
    }
    let mut dirs: Vec<Directory> = Vec::new();
    let nd = src.dirs.len();
    let mut j: usize = 0;
    while j < nd
        invariant
            nd == src.dirs@.len(),
            0 <= j <= nd,
            dirs@.len() == j,
            forall|k: int|
                0 <= k < j ==> {
                    &&& (#[trigger] dirs@[k]).name@ == src.dirs@[k].name@
                    &&& (dirs@[k].path matches Some(p) && p@ == src.dirs@[k].path@)
                    &&& dir_children_match(src.dirs@[k], dirs@[k])
                },
        decreases nd - j,
    {
        proof {
            assert(decreases_to!(*src => src.dirs@[j as int]));
        }
        let sub = get_tree_rec(&src.dirs[j]);
        dirs.push(sub);
        j = j + 1;
    }
    Directory { name: src.name.clone(), path: Some(src.path.clone()), dirs, files }
}

/// Walks the snapshot for the first file whose content hash is
/// `file_key`, short-circuiting on a match: the resolution-cache-miss
/// fallback, cheaper than building the full catalog tree.
pub fn locate_by_hash<'a>(src: &'a SourceDir, file_key: &String) -> (r: Option<&'a SourceFile>)
    ensures
        r is Some <==> first_with_hash(all_files(*src), file_key@) is Some,
        (r matches Some(sf) ==> first_with_hash(all_files(*src), file_key@) == Some(*sf)),
    decreases *src,
{
    let nf = src.files.len();
    let mut i: usize = 0;
    proof {
        assert(src.files@.skip(0) =~= src.files@);
    }
    while i < nf
        invariant
            nf == src.files@.len(),
            0 <= i <= nf,
            first_with_hash(src.files@, file_key@) == first_with_hash(
                src.files@.skip(i as int),
                file_key@,
            ),
        decreases nf - i,
    {
        let sf = &src.files[i];
        let h = hash_bytes(&sf.data);
        proof {
            assert(src.files@.skip(i as int)[0] == src.files@[i as int]);
            assert(src.files@.skip(i as int).drop_first() =~= src.files@.skip(i as int + 1));
        }
        if h == *file_key {
            proof {
                lemma_first_with_hash_concat(
                    src.files@,
                    flatten_dir_files(src.dirs@),
                    file_key@,
                );
            }
            return Some(sf);
        }
        i = i + 1;
    }
    proof {
        assert(src.files@.skip(nf as int) =~= Seq::<SourceFile>::empty());
        lemma_first_with_hash_concat(src.files@, flatten_dir_files(src.dirs@), file_key@);
        assert(flatten_dir_files(src.dirs@.skip(0)) == flatten_dir_files(src.dirs@)) by {
            assert(src.dirs@.skip(0) =~= src.dirs@);
        }
    }
    let nd = src.dirs.len();
    let mut j: usize = 0;
    while j < nd
        invariant
            nd == src.dirs@.len(),
            0 <= j <= nd,
            first_with_hash(all_files(*src), file_key@) == first_with_hash(
                flatten_dir_files(src.dirs@.skip(j as int)),
                file_key@,
            ),
        decreases nd - j,
    {
        proof {
            assert(decreases_to!(*src => src.dirs@[j as int]));
            assert(src.dirs@.skip(j as int)[0] == src.dirs@[j as int]);
            assert(src.dirs@.skip(j as int).drop_first() =~= src.dirs@.skip(j as int + 1));
            lemma_first_with_hash_concat(
                all_files(src.dirs@[j as int]),
                flatten_dir_files(src.dirs@.skip(j as int + 1)),
                file_key@,
            );
        }
        let found = locate_by_hash(&src.dirs[j], file_key);
        if let Some(sf) = found {
            return Some(sf);
        }
        j = j + 1;
    }
    proof {
        assert(src.dirs@.skip(nd as int) =~= Seq::<SourceDir>::empty());
    }
    None
}

/// Finds the first file of the snapshot that sits at `path`: how a cached
/// resolution reaches its bytes again.
pub fn find_by_path<'a>(src: &'a SourceDir, path: &String) -> (r: Option<&'a SourceFile>)
    ensures
        r is Some <==> first_at(all_files(*src), path@) is Some,
        (r matches Some(sf) ==> first_at(all_files(*src), path@) == Some(*sf)),
    decreases *src,
{
    let nf = src.files.len();
    let mut i: usize = 0;
    proof {
        assert(src.files@.skip(0) =~= src.files@);
    }
    while i < nf
        invariant
            nf == src.files@.len(),
            0 <= i <= nf,
            first_at(src.files@, path@) == first_at(src.files@.skip(i as int), path@),
        decreases nf - i,
    {
        let sf = &src.files[i];
        proof {
            assert(src.files@.skip(i as int)[0] == src.files@[i as int]);
            assert(src.files@.skip(i as int).drop_first() =~= src.files@.skip(i as int + 1));
        }
        if sf.path == *path {
            proof {
                lemma_first_at_concat(src.files@, flatten_dir_files(src.dirs@), path@);
            }
            return Some(sf);
        }
        i = i + 1;
    }
    proof {
        assert(src.files@.skip(nf as int) =~= Seq::<SourceFile>::empty());
        lemma_first_at_concat(src.files@, flatten_dir_files(src.dirs@), path@);
        assert(flatten_dir_files(src.dirs@.skip(0)) == flatten_dir_files(src.dirs@)) by {
            assert(src.dirs@.skip(0) =~= src.dirs@);
        }
    }
    let nd = src.dirs.len();
    let mut j: usize = 0;
    while j < nd
        invariant
            nd == src.dirs@.len(),
            0 <= j <= nd,
            first_at(all_files(*src), path@) == first_at(
                flatten_dir_files(src.dirs@.skip(j as int)),
                path@,
            ),
        decreases nd - j,
    {
        proof {
            assert(decreases_to!(*src => src.dirs@[j as int]));
            assert(src.dirs@.skip(j as int)[0] == src.dirs@[j as int]);
            assert(src.dirs@.skip(j as int).drop_first() =~= src.dirs@.skip(j as int + 1));
            lemma_first_at_concat(
                all_files(src.dirs@[j as int]),
                flatten_dir_files(src.dirs@.skip(j as int + 1)),
                path@,
            );
        }
        let found = find_by_path(&src.dirs[j], path);
        if let Some(sf) = found {
            return Some(sf);
        }
        j = j + 1;
    }
    proof {
        assert(src.dirs@.skip(nd as int) =~= Seq::<SourceDir>::empty());
    }
    None
}

/// Appending one directory to a flattening appends its files.
proof fn lemma_flatten_snoc(ds: Seq<SourceDir>, d: SourceDir)
    ensures
        flatten_dir_files(ds.push(d)) == flatten_dir_files(ds) + all_files(d),
    decreases ds.len(),
{
    if ds.len() == 0 {
        reveal_with_fuel(flatten_dir_files, 2);
        assert(ds.push(d)[0] == d);
        assert(ds.push(d).drop_first() =~= Seq::<SourceDir>::empty());
        assert(flatten_dir_files(ds.push(d)) =~= flatten_dir_files(ds) + all_files(d));
    } else {
        assert(ds.push(d)[0] == ds[0]);
        assert(ds.push(d).drop_first() =~= ds.drop_first().push(d));
        lemma_flatten_snoc(ds.drop_first(), d);
        assert(flatten_dir_files(ds.push(d)) =~= flatten_dir_files(ds) + all_files(d));
    }
}

/// Lists every file under the snapshot as a catalog entry, in the
/// flattening's order: the full-walk counterpart of `locate_by_hash`.
pub fn get_file_list(src: &SourceDir) -> (r: Vec<File>)
    ensures
        r@.len() == all_files(*src).len(),
        forall|k: int|
            0 <= k < r@.len() ==> file_matches(all_files(*src)[k], #[trigger] r@[k]),
    decreases *src,
{
    let mut res: Vec<File> = Vec::new();
    let nf = src.files.len();
    let mut i: usize = 0;
    while i < nf
        invariant
            nf == src.files@.len(),
            0 <= i <= nf,
            res@.len() == i,
            forall|k: int| 0 <= k < i ==> file_matches(src.files@[k], #[trigger] res@[k]),
        decreases nf - i,
    {
        let sf = &src.files[i];
        res.push(
            File {
                name: sf.name.clone(),
                path: Some(sf.path.clone()),
                hash: hash_bytes(&sf.data),
                size: sf.data.len() as u64,
            },
        );
        i = i + 1;
    }
    proof {
        assert(src.dirs@.take(0) =~= Seq::<SourceDir>::empty());
        assert(src.files@ + flatten_dir_files(src.dirs@.take(0)) =~= src.files@);
    }
    let nd = src.dirs.len();
    let mut j: usize = 0;
    while j < nd
        invariant
            nd == src.dirs@.len(),
            0 <= j <= nd,
            res@.len() == (src.files@ + flatten_dir_files(src.dirs@.take(j as int))).len(),
            forall|k: int|
                0 <= k < res@.len() ==> file_matches(
                    (src.files@ + flatten_dir_files(src.dirs@.take(j as int)))[k],
                    #[trigger] res@[k],
                ),
        decreases nd - j,
    {
        proof {
            assert(decreases_to!(*src => src.dirs@[j as int]));
        }
        let mut sub = get_file_list(&src.dirs[j]);
        let ghost res_pre = res@;
        res.append(&mut sub);
        proof {
            assert(src.dirs@.take(j as int + 1) =~= src.dirs@.take(j as int).push(
                src.dirs@[j as int],
            ));
            lemma_flatten_snoc(src.dirs@.take(j as int), src.dirs@[j as int]);
            assert(src.files@ + flatten_dir_files(src.dirs@.take(j as int + 1)) =~= (src.files@
                + flatten_dir_files(src.dirs@.take(j as int))) + all_files(src.dirs@[j as int]));
        }
        j = j + 1;
    }
    proof {
        assert(src.dirs@.take(nd as int) =~= src.dirs@);
    }
    res
}

/// One resolution-cache entry: a content hash resolved to the file's
/// absolute path and size, stamped with its insertion time in seconds.
#[derive(Debug)]
pub struct PathCash {
    pub hash: String,
    pub path: String,
    pub size: u64,
    pub time: u64,
}

impl Clone for PathCash {
    fn clone(&self) -> (r: Self)
        ensures
            r == *self,
    {
        PathCash {
            hash: self.hash.clone(),
            path: self.path.clone(),
            size: self.size,
            time: self.time,
        }
    }
}

/// How long a cache entry stays valid, in seconds.
pub const CASH_TIMEOUT_SECS: u64 = 30000;

/// Whether entry `e` is still valid at time `now`: inserted no more than
/// the timeout ago. An entry stamped later than `now` counts as expired.
pub open spec fn entry_fresh(e: PathCash, now: u64) -> bool {
    e.time <= now && now - e.time <= CASH_TIMEOUT_SECS
}

/// The first entry of `c` for `hash`, if any (a well-formed cache holds at
/// most one).
pub open spec fn spec_entry(c: Seq<PathCash>, hash: Seq<char>) -> Option<PathCash>
    decreases c.len(),
{
    if c.len() == 0 {
        None
    } else if c[0].hash@ == hash {
        Some(c[0])
    } else {
        spec_entry(c.drop_first(), hash)
    }
}

/// `d` is the correctly clamped and encoded chunk `[start, end)` of `sf`.
pub open spec fn served_chunk(sf: SourceFile, start: u64, end: u64, d: ReadedData) -> bool {
    &&& start <= end
    &&& start <= sf.data@.len()
    &&& d.end == if end <= sf.data@.len() {
        end as int
    } else {
        sf.data@.len() as int
    }
    &&& d.last_data == (end >= sf.data@.len())
    &&& d.data@ == base64_of(sf.data@.subrange(start as int, d.end as int))
}

/// What the share snapshot the protocol serves from: a trait so that the
/// connection engine can be driven by any catalog provider.
pub trait ProvideFile {
    /// Validity the provider maintains across calls.
    spec fn inv(&self) -> bool;

    /// Produces the catalog tree of the given share snapshot. Producing
    /// the tree never fails: the snapshot is already in memory.
    fn get_tree(&self, share: &SourceDir) -> (r: Result<Directory, String>)
        requires
            self.inv(),
        ensures
            r is Ok,
            (r matches Ok(root) ==> root.name@ == "root"@ && dir_children_match(*share, root)),
    ;

    /// Serves one encoded chunk of the share file identified by content
    /// hash `file_key`.
    fn get_file_data(
        &mut self,
        share: &SourceDir,
        now: u64,
        start: u64,
        end: u64,
        file_key: String,
    ) -> (r: Result<ReadedData, String>)
        requires
            old(self).inv(),
        ensures
            final(self).inv(),
            (r matches Ok(d) ==> exists|sf: SourceFile|
                #[trigger] all_files(*share).contains(sf) && served_chunk(sf, start, end, d)),
    ;
}

/// The catalog and cache service: the configured share root and the
/// hash-to-path resolution cache. The surrounding application owns the
/// clock and the periodic sweep timer, and hands in the time in seconds.
pub struct FileService {
    root_path: String,
    files_hash: Vec<PathCash>,
}

impl FileService {
    /// The cached resolutions, oldest first.
    pub closed spec fn cache(&self) -> Seq<PathCash> {
        self.files_hash@
    }

    /// The configured share root.
    pub closed spec fn root(&self) -> Seq<char> {
        self.root_path@
    }

    /// Each hash is cached at most once.
    pub open spec fn wf(&self) -> bool {
        forall|i: int, j: int|
            0 <= i < j < self.cache().len() ==> (#[trigger] self.cache()[i]).hash@ != (
            #[trigger] self.cache()[j]).hash@
    }

    /// Whether a resolution of `hash` at `now` is a cache hit: the cached
    /// entry for `hash` exists and is still fresh.
    pub open spec fn resolution_hit(&self, hash: Seq<char>, now: u64) -> bool {
        spec_entry(self.cache(), hash) matches Some(e) && entry_fresh(e, now)
    }

    /// The file a resolution of `hash` at `now` reaches under `share`: on a
    /// cache hit, the file at the cached path; otherwise the first share
    /// file carrying the hash.
    pub open spec fn spec_resolution(
        &self,
        share: SourceDir,
        hash: Seq<char>,
        now: u64,
    ) -> Option<SourceFile> {
        if self.resolution_hit(hash, now) {
            first_at(all_files(share), spec_entry(self.cache(), hash)->0.path@)
        } else {
            first_with_hash(all_files(share), hash)
        }
    }

    /// A service over the share rooted at `root_path`, with an empty
    /// cache. The application starts the timer that calls `sweep_cache`.
    pub fn new(root_path: String) -> (r: FileService)
        ensures
            r.wf(),
            r.cache().len() == 0,
            r.root() == root_path@,
    {
        FileService { root_path, files_hash: Vec::new() }
    }

    /// Looks `file_key` up in the cache alone: a fresh entry resolves to
    /// its recorded path and size without touching the share.
    pub fn resolve_cached(&self, file_key: &String, now: u64) -> (r: Option<(String, u64)>)
        requires
            self.wf(),
        ensures
            r is Some <==> self.resolution_hit(file_key@, now),
            (r matches Some(p) ==> {
                &&& spec_entry(self.cache(), file_key@) matches Some(e)
                &&& spec_entry(self.cache(), file_key@)->0.path@ == p.0@
                &&& spec_entry(self.cache(), file_key@)->0.size == p.1
            }),
    {
        proof {
            assert(self.files_hash@.skip(0) =~= self.files_hash@);
        }
        let n = self.files_hash.len();
        let mut i: usize = 0;
        while i < n
            invariant
                n == self.files_hash@.len(),
                0 <= i <= n,
                spec_entry(self.files_hash@, file_key@) == spec_entry(
                    self.files_hash@.skip(i as int),
                    file_key@,
                ),
            decreases n - i,
        {
            let e = &self.files_hash[i];
            proof {
                assert(self.files_hash@.skip(i as int)[0] == self.files_hash@[i as int]);
                assert(self.files_hash@.skip(i as int).drop_first() =~= self.files_hash@.skip(
                    i as int + 1,
                ));
            }
            if e.hash == *file_key {
                if e.time <= now && now - e.time <= CASH_TIMEOUT_SECS {
                    return Some((e.path.clone(), e.size));
                } else {
                    return None;
                }
            }
            i = i + 1;
        }
        proof {
            assert(self.files_hash@.skip(n as int) =~= Seq::<PathCash>::empty());
        }
        None
    }

    /// Caches `entry`, replacing any previous entry for the same hash.
    fn cash_insert(&mut self, entry: PathCash)
        requires
            old(self).wf(),
        ensures
            final(self).wf(),
            final(self).root() == old(self).root(),
            forall|m: PathCash|
                final(self).cache().contains(m) <==> ((old(self).cache().contains(m)
                    && m.hash@ != entry.hash@) || m == entry),
            spec_entry(final(self).cache(), entry.hash@) == Some(entry),
    {
        let n = self.files_hash.len();
        let mut i: usize = 0;
        while i < n
            invariant
                old(self).wf(),
                n == self.files_hash@.len(),
                0 <= i <= n,
                *self == *old(self),
                forall|k: int|
                    0 <= k < i ==> (#[trigger] self.cache()[k]).hash@ != entry.hash@,
            decreases n - i,
        {
            if self.files_hash[i].hash == entry.hash {
                let ghost prior = old(self).cache();
                let ghost at = i as int;
                proof {
                    assert(prior[at].hash@ == entry.hash@);
                }
                self.files_hash.remove(i);
                self.files_hash.push(entry);
                proof {
                    let now_c = self.cache();
                    assert(now_c =~= prior.remove(at).push(entry));
                    assert forall|m: PathCash| now_c.contains(m) <==> ((prior.contains(m)
                        && m.hash@ != entry.hash@) || m == entry) by {
                        if now_c.contains(m) {
                            let k = choose|k: int| 0 <= k < now_c.len() && now_c[k] == m;
                            if k < at {
                                assert(prior[k] == m);
                                if m.hash@ == entry.hash@ && m != entry {
                                    assert(prior[k].hash@ == prior[at].hash@);
                                }
                            } else if k < now_c.len() - 1 {
                                assert(prior[k + 1] == m);
                                if m.hash@ == entry.hash@ && m != entry {
                                    assert(prior[at].hash@ == prior[k + 1].hash@);
                                }
                            }
                        }
                        if prior.contains(m) && m.hash@ != entry.hash@ {
                            let k = choose|k: int| 0 <= k < prior.len() && prior[k] == m;
                            if k < at {
                                assert(now_c[k] == m);
                            } else {
                                assert(k != at);
                                assert(now_c[k - 1] == m);
                            }
                        }
                        if m == entry {
                            assert(now_c[now_c.len() - 1] == m);
                        }
                    }
                    assert forall|x: int, y: int| 0 <= x < y < now_c.len() implies (
                    #[trigger] now_c[x]).hash@ != (#[trigger] now_c[y]).hash@ by {
                        let px = if x < at { x } else { x + 1 };
                        if y < now_c.len() - 1 {
                            let py = if y < at { y } else { y + 1 };
                            assert(now_c[x] == prior[px]);
                            assert(now_c[y] == prior[py]);
                        } else {
                            assert(now_c[x] == prior[px]);
                            assert(now_c[y] == entry);
                            assert(prior[px].hash@ != prior[at].hash@);
                        }
                    }
                    lemma_spec_entry_hit(self.cache(), entry);
                }
                return ;
            }
            i = i + 1;
        }
        self.files_hash.push(entry);
        proof {
            let prior = old(self).cache();
            let now_c = self.cache();
            assert(now_c =~= prior.push(entry));
            assert forall|m: PathCash| now_c.contains(m) <==> ((prior.contains(m) && m.hash@
                != entry.hash@) || m == entry) by {
                if now_c.contains(m) {
                    let k = choose|k: int| 0 <= k < now_c.len() && now_c[k] == m;
                    if k < prior.len() {
                        assert(prior[k] == m);
                        assert(m.hash@ != entry.hash@);
                    }
                }
                if prior.contains(m) && m.hash@ != entry.hash@ {
                    let k = choose|k: int| 0 <= k < prior.len() && prior[k] == m;
                    assert(now_c[k] == m);
                }
                if m == entry {
                    assert(now_c[now_c.len() - 1] == m);
                }
            }
            assert forall|x: int, y: int| 0 <= x < y < now_c.len() implies (
            #[trigger] now_c[x]).hash@ != (#[trigger] now_c[y]).hash@ by {
                if y < now_c.len() - 1 {
                    assert(now_c[x] == prior[x]);
                    assert(now_c[y] == prior[y]);
                } else {
                    assert(now_c[x] == prior[x]);
                    assert(now_c[x].hash@ != entry.hash@);
                }
            }
            lemma_spec_entry_hit(self.cache(), entry);
        }
    }

    /// Removes every entry that is no longer fresh at `now`: the eviction
    /// pass the application's background timer runs at a fixed interval.
    pub fn sweep_cache(&mut self, now: u64)
        requires
            old(self).wf(),
        ensures
            final(self).wf(),
            final(self).root() == old(self).root(),
            forall|e: PathCash|
                final(self).cache().contains(e) <==> (old(self).cache().contains(e)
                    && entry_fresh(e, now)),
    {
        let n = self.files_hash.len();
        let mut kept: Vec<PathCash> = Vec::new();
        let ghost mut idxs: Seq<int> = Seq::empty();
        let mut i: usize = 0;
        while i < n
            invariant
                old(self).wf(),
                n == self.files_hash@.len(),
                0 <= i <= n,
                *self == *old(self),
                idxs.len() == kept@.len(),
                forall|k: int|
                    0 <= k < idxs.len() ==> 0 <= #[trigger] idxs[k] < i && kept@[k]
                        == self.cache()[idxs[k]] && entry_fresh(kept@[k], now),
                forall|a: int, b: int| 0 <= a < b < idxs.len() ==> idxs[a] < idxs[b],
                forall|l: int|
                    0 <= l < i && entry_fresh(#[trigger] self.cache()[l], now)
                        ==> kept@.contains(self.cache()[l]),
            decreases n - i,
        {
            let e = &self.files_hash[i];
            if e.time <= now && now - e.time <= CASH_TIMEOUT_SECS {
                let ghost kept_pre = kept@;
                kept.push(e.clone());
                proof {
                    idxs = idxs.push(i as int);
                    assert(vstd::pervasive::cloned::<PathCash>(
                        self.cache()[i as int],
                        kept@.last(),
                    ));
                    assert(kept@.last() == self.cache()[i as int]);
                    assert forall|l: int|
                        0 <= l < i + 1 && entry_fresh(#[trigger] self.cache()[l], now)
                            implies kept@.contains(self.cache()[l]) by {
                        if l < i {
                            assert(kept_pre.contains(self.cache()[l]));
                            let k = choose|k: int|
                                0 <= k < kept_pre.len() && kept_pre[k] == self.cache()[l];
                            assert(kept@[k] == self.cache()[l]);
                        } else {
                            assert(kept@[kept@.len() - 1] == self.cache()[l]);
                        }
                    }
                }
            }
            i = i + 1;
        }
        self.files_hash = kept;
        proof {
            let prior = old(self).cache();
            let now_c = self.cache();
            assert forall|e: PathCash| now_c.contains(e) <==> (prior.contains(e) && entry_fresh(
                e,
                now,
            )) by {
                if now_c.contains(e) {
                    let k = choose|k: int| 0 <= k < now_c.len() && now_c[k] == e;
                    assert(prior[idxs[k]] == e);
                }
                if prior.contains(e) && entry_fresh(e, now) {
                    let l = choose|l: int| 0 <= l < prior.len() && prior[l] == e;
                }
            }
            assert forall|x: int, y: int| 0 <= x < y < now_c.len() implies (
            #[trigger] now_c[x]).hash@ != (#[trigger] now_c[y]).hash@ by {
                assert(now_c[x] == prior[idxs[x]]);
                assert(now_c[y] == prior[idxs[y]]);
            }
        }
    }

    /// Serves the byte range `[start, end)` of the file whose content hash
    /// is `file_key`: resolves the hash through the cache with the share
    /// walk as fallback, then reads and encodes the range.
    ///
    /// A cache hit leaves its entry in place, so one entry serves the many
    /// sequential chunks of a single transfer until it expires (removing an
    /// entry on each hit would force a full rescan per chunk and is
    /// deliberately not done). A miss that resolves caches the resolution,
    /// stamped `now`.
    pub fn get_file_data(
        &mut self,
        share: &SourceDir,
        now: u64,
        start: u64,
        end: u64,
        file_key: String,
    ) -> (r: Result<ReadedData, String>)
        requires
            old(self).wf(),
        ensures
            final(self).wf(),
            final(self).root() == old(self).root(),
            r is Ok <==> (old(self).spec_resolution(*share, file_key@, now) matches Some(sf)
                && start <= end && start <= sf.data@.len()),
            (r matches Ok(d) ==> served_chunk(
                old(self).spec_resolution(*share, file_key@, now)->0,
                start,
                end,
                d,
            )),
            (r matches Err(e) ==> e@.len() > 0),
            // a cache hit leaves the cache as it was; a resolving miss
            // caches the resolution; a failing miss changes nothing
            old(self).resolution_hit(file_key@, now) ==> *final(self) == *old(self),
            !old(self).resolution_hit(file_key@, now) ==> (first_with_hash(
                all_files(*share),
                file_key@,
            ) matches Some(sf) ==> {
                let ne = spec_entry(final(self).cache(), file_key@);
                &&& (ne matches Some(e) && e.hash@ == file_key@ && e.path@ == sf.path@ && e.size
                    == sf.data@.len() && e.time == now)
                &&& (forall|m: PathCash|
                    final(self).cache().contains(m) <==> ((old(self).cache().contains(m)
                        && m.hash@ != file_key@) || m == ne->0))
                &&& final(self).resolution_hit(file_key@, now)
            }),
            (!old(self).resolution_hit(file_key@, now) && first_with_hash(
                all_files(*share),
                file_key@,
            ) is None) ==> *final(self) == *old(self),
    {
        let hit = self.resolve_cached(&file_key, now);
        match hit {
            Some((path, _size)) => {
                match find_by_path(share, &path) {
                    Some(sf) => read_data(&sf.data, start, end),
                    None => {
                        proof {
                            reveal_strlit("file don't exist");
                        }
                        Err("file don't exist".to_owned())
                    },
                }
            },
            None => {
                match locate_by_hash(share, &file_key) {
                    Some(sf) => {
                        proof {
                            lemma_first_with_hash_found(all_files(*share), file_key@);
                        }
                        let entry = PathCash {
                            hash: file_key.clone(),
                            path: sf.path.clone(),
                            size: sf.data.len() as u64,
                            time: now,
                        };
                        self.cash_insert(entry);
                        read_data(&sf.data, start, end)
                    },
                    None => {
                        proof {
                            reveal_strlit("file don't exist");
                        }
                        Err("file don't exist".to_owned())
                    },
                }
            },
        }
    }
}

/// A freshly pushed entry is what `spec_entry` finds for its hash.
proof fn lemma_spec_entry_hit(c: Seq<PathCash>, entry: PathCash)
    requires
        c.len() > 0,
        c[c.len() - 1] == entry,
        forall|k: int| 0 <= k < c.len() - 1 ==> (#[trigger] c[k]).hash@ != entry.hash@,
    ensures
        spec_entry(c, entry.hash@) == Some(entry),
    decreases c.len(),
{
    if c.len() > 1 {
        assert(c.drop_first()[c.drop_first().len() - 1] == entry);
        assert forall|k: int| 0 <= k < c.drop_first().len() - 1 implies (
        #[trigger] c.drop_first()[k]).hash@ != entry.hash@ by {
            assert(c[k + 1].hash@ != entry.hash@);
        }
        lemma_spec_entry_hit(c.drop_first(), entry);
    }
}

impl ProvideFile for FileService {
    open spec fn inv(&self) -> bool {
        self.wf()
    }

    fn get_tree(&self, share: &SourceDir) -> (r: Result<Directory, String>) {
        let sub = get_tree_rec(share);
        Ok(Directory {
            name: "root".to_owned(),
            path: Some(self.root_path.clone()),
            dirs: sub.dirs,
            files: sub.files,
        })
    }

    fn get_file_data(
        &mut self,
        share: &SourceDir,
        now: u64,
        start: u64,
        end: u64,
        file_key: String,
    ) -> (r: Result<ReadedData, String>) {
        let ghost pre = *self;
        let r = FileService::get_file_data(self, share, now, start, end, file_key);
        proof {
            if r is Ok {
                let sf = pre.spec_resolution(*share, file_key@, now)->0;
                if pre.resolution_hit(file_key@, now) {
                    lemma_first_at_found(
                        all_files(*share),
                        spec_entry(pre.cache(), file_key@)->0.path@,
                    );
                } else {
                    lemma_first_with_hash_found(all_files(*share), file_key@);
                }
                assert(all_files(*share).contains(sf));
            }
        }
        r
    }
}

/// Within the timeout window a cache entry stays fresh: the sweep keeps it
/// and a second request for the same hash is served from the cache.
pub proof fn lemma_entry_fresh_within_timeout(e: PathCash, now: u64)
    requires
        e.time <= now,
        now <= e.time + CASH_TIMEOUT_SECS,
    ensures
        entry_fresh(e, now),
{
}

/// Once the timeout has elapsed the entry counts as expired: the sweep
/// removes it, and a later request falls back to a fresh share walk.
pub proof fn lemma_entry_expired_after_timeout(e: PathCash, now: u64)
    requires
        now > e.time + CASH_TIMEOUT_SECS,
    ensures
        !entry_fresh(e, now),
{
}

/// A resolution cached at time `t` is a cache hit for the whole timeout
/// window: the successive chunk requests of one transfer, issued within
/// the window for the same hash, are all served without another share
/// walk.
pub proof fn lemma_cached_resolution_stays_fresh(svc: FileService, hash: Seq<char>, t2: u64)
    requires
        (spec_entry(svc.cache(), hash) matches Some(e) && e.time <= t2 <= e.time
            + CASH_TIMEOUT_SECS),
    ensures
        svc.resolution_hit(hash, t2),
{
}

} // verus!

