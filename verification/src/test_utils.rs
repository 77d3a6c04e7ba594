//! In-memory test fixtures: the share snapshot the protocol's tests run
//! against, filled with generated file content.

use vstd::prelude::*;

use rand::distributions::Alphanumeric;
use rand::{thread_rng, Rng};

use crate::file::{SourceDir, SourceFile};

verus! {

/// How many bytes each generated test file holds.
pub const TEST_FILE_LEN: usize = 500000;

/// Relies on rand's `Alphanumeric` distribution and `Iterator::take`: the
/// sampled iterator is endless, so taking `size` bytes yields exactly
/// `size` alphanumeric bytes.
#[verifier::external_body]
fn gen_bytes(size: usize) -> (r: Vec<u8>)
    ensures
        r@.len() == size,
{
    thread_rng().sample_iter(&Alphanumeric).take(size).collect()
}

/// One test file named `name` under `dir_path`, holding `TEST_FILE_LEN`
/// generated bytes.
fn test_file(dir_path: &String, name: &str) -> (r: SourceFile)
    ensures
        r.name@ == name@,
        r.data@.len() == TEST_FILE_LEN,
{
    let mut p = dir_path.clone();
    p.append("/");
    p.append(name);
    SourceFile { name: name.to_owned(), path: p, data: gen_bytes(TEST_FILE_LEN) }
}

/// The share the tests serve: `A.txt`, `B.txt`, `C.txt` under the root,
/// and a subdirectory `dir1` holding the same three names, each file
/// filled with `TEST_FILE_LEN` generated bytes.
pub fn setting_up_test_file_tree(data_test_path: String) -> (r: SourceDir)
    ensures
        r.name@ == data_test_path@,
        r.path@ == data_test_path@,
        r.files@.len() == 3,
        r.files@[0].name@ == "A.txt"@ && r.files@[0].data@.len() == TEST_FILE_LEN,
        r.files@[1].name@ == "B.txt"@ && r.files@[1].data@.len() == TEST_FILE_LEN,
        r.files@[2].name@ == "C.txt"@ && r.files@[2].data@.len() == TEST_FILE_LEN,
        r.dirs@.len() == 1,
        r.dirs@[0].name@ == "dir1"@,
        r.dirs@[0].dirs@.len() == 0,
        r.dirs@[0].files@.len() == 3,
        r.dirs@[0].files@[0].name@ == "A.txt"@ && r.dirs@[0].files@[0].data@.len()
            == TEST_FILE_LEN,
        r.dirs@[0].files@[1].name@ == "B.txt"@ && r.dirs@[0].files@[1].data@.len()
            == TEST_FILE_LEN,
        r.dirs@[0].files@[2].name@ == "C.txt"@ && r.dirs@[0].files@[2].data@.len()
            == TEST_FILE_LEN,
{
    let mut dir1_path = data_test_path.clone();
    dir1_path.append("/");
    dir1_path.append("dir1");

    let mut files: Vec<SourceFile> = Vec::new();
    files.push(test_file(&data_test_path, "A.txt"));
    files.push(test_file(&data_test_path, "B.txt"));
    files.push(test_file(&data_test_path, "C.txt"));

    let mut dir1_files: Vec<SourceFile> = Vec::new();
    dir1_files.push(test_file(&dir1_path, "A.txt"));
    dir1_files.push(test_file(&dir1_path, "B.txt"));
    dir1_files.push(test_file(&dir1_path, "C.txt"));

    let dir1 = SourceDir {
        name: "dir1".to_owned(),
        path: dir1_path,
        files: dir1_files,
        dirs: Vec::new(),
    };
    let mut dirs: Vec<SourceDir> = Vec::new();
    dirs.push(dir1);

    SourceDir { name: data_test_path.clone(), path: data_test_path, files, dirs }
}

} // verus!
