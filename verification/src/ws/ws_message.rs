//! The wire-level message schema: every frame exchanged over a connection
//! is one of these records, tagged by its variant name.

use vstd::prelude::*;

verus! {

/// Client request: authenticate this connection as `name` with secret `key`.
#[derive(Clone, Debug)]
pub struct AuthMsg {
    pub id: i32,
    pub name: String,
    pub key: String,
}

/// Server reply to an `AuthMsg`: `status` is `"accepted"` or `"denied"`.
#[derive(Clone, Debug)]
pub struct AuthRes {
    pub id: i32,
    pub status: String,
}

/// Client request: list the whole share as a directory tree.
#[derive(Clone, Debug)]
pub struct TreeMsg {
    pub id: i32,
}

/// One file of the share: its name, content hash and size. The absolute
/// `path` is internal to the server and is never serialized.
#[derive(Clone, Debug)]
pub struct File {
    pub name: String,
    pub path: Option<String>,
    pub hash: String,
    pub size: u64,
}

/// One directory of the share with its immediate children. The internal
/// `path` is never serialized.
#[derive(Debug)]
pub struct Directory {
    pub name: String,
    pub path: Option<String>,
    pub dirs: Vec<Directory>,
    pub files: Vec<File>,
}

/// Server reply to a `TreeMsg`: the share's tree snapshot.
#[derive(Debug)]
pub struct TreeRes {
    pub id: i32,
    pub root: Directory,
}

/// Client request: the bytes `[start, end)` of the file whose content hash
/// is `file_hash`.
#[derive(Clone, Debug)]
pub struct CopyMsg {
    pub id: i32,
    pub start: u64,
    pub end: u64,
    pub file_hash: String,
}

/// Server reply to a `CopyMsg`: `data` is the requested range, base64
/// encoded; `end` is the actual (clamped) end offset; `last_data` says
/// whether the range reaches the end of the file.
#[derive(Clone, Debug)]
pub struct CopyRes {
    pub id: i32,
    pub start: u64,
    pub end: u64,
    pub data: String,
    pub last_data: bool,
}

/// Server reply when a well-formed request failed: `err` describes the
/// failure and `id` echoes the request's correlation token.
#[derive(Clone, Debug)]
pub struct ErrRes {
    pub id: i32,
    pub err: String,
}

/// Every message a client may send, tagged by kind.
#[derive(Clone, Debug)]
pub enum Message {
    AuthMsg(AuthMsg),
    TreeMsg(TreeMsg),
    CopyMsg(CopyMsg),
}

/// Every message the server may send back, tagged by kind.
#[derive(Debug)]
pub enum Response {
    AuthRes(AuthRes),
    TreeRes(TreeRes),
    CopyRes(CopyRes),
    ErrRes(ErrRes),
}

} // verus!
