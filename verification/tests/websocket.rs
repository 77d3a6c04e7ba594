//! Connection-engine tests: authentication, authorization, tree listing
//! and chunked copies, driven the way the surrounding application drives
//! the engine.

use base64::Engine;

use cs::data::{AuthenticatedRegistry, Client, ClientDirectory};
use cs::file::FileService;
use cs::test_utils::setting_up_test_file_tree;
use cs::ws::ws_message::{AuthMsg, CopyMsg, Message, Response, TreeMsg, TreeRes};
use cs::ws::{handle_close, process_message, user_is_auth, ConnectionState, Step};

fn create_mock_clients(directory: &mut ClientDirectory, clients: Vec<String>) {
    for name in clients {
        directory.new_client(Client {
            id: None,
            key: None,
            name: Some(name),
        });
    }
}

struct Harness {
    directory: ClientDirectory,
    file_service: FileService,
    registry: AuthenticatedRegistry,
    conn: ConnectionState,
    share: cs::file::SourceDir,
}

fn harness(client_name: &str) -> Harness {
    let mut directory = ClientDirectory::new();
    create_mock_clients(&mut directory, vec![client_name.to_string()]);
    Harness {
        directory,
        file_service: FileService::new("data-test".to_string()),
        registry: AuthenticatedRegistry::new(),
        conn: ConnectionState::new(),
        share: setting_up_test_file_tree("data-test".to_string()),
    }
}

/// Sends one message through the engine, walking the share when asked,
/// exactly as the application's connection loop does.
fn send(h: &mut Harness, now: u64, msg: Message) -> Step {
    let step = process_message(
        &h.directory,
        &mut h.file_service,
        &mut h.conn,
        &mut h.registry,
        None,
        now,
        msg.clone(),
    );
    match step {
        Step::NeedShare => process_message(
            &h.directory,
            &mut h.file_service,
            &mut h.conn,
            &mut h.registry,
            Some(&h.share),
            now,
            msg,
        ),
        other => other,
    }
}

fn auth(h: &mut Harness, id: i32, name: &str, key: &str) -> (String, bool) {
    let step = send(
        h,
        0,
        Message::AuthMsg(AuthMsg {
            id,
            name: name.to_string(),
            key: key.to_string(),
        }),
    );
    match step {
        Step::Reply {
            res: Response::AuthRes(ar),
            close,
        } => {
            assert_eq!(ar.id, id);
            (ar.status, close)
        }
        other => panic!("expected an AuthRes reply, got {:?}", other),
    }
}

fn get_tree(h: &mut Harness, id: i32) -> TreeRes {
    match send(h, 0, Message::TreeMsg(TreeMsg { id })) {
        Step::Reply {
            res: Response::TreeRes(tr),
            close: false,
        } => tr,
        other => panic!("expected a TreeRes reply, got {:?}", other),
    }
}

#[test]
fn ws_auth_test() {
    let client_name = "client_auth_test".to_string();
    let mut h = harness(&client_name);
    let key = h.directory.get_client_key(client_name.clone()).unwrap();

    let (status, close) = auth(&mut h, 1, &client_name, &key);
    assert_eq!(status, "accepted");
    assert!(!close);
    assert!(user_is_auth(&h.registry, &client_name));

    // closing the connection releases the registry claim
    handle_close(&h.conn, &mut h.registry);
    assert!(!h.registry.contains(&client_name));

    // a second close of the same connection is a no-op
    handle_close(&h.conn, &mut h.registry);
    assert!(!h.registry.contains(&client_name));
}

#[test]
fn ws_auth_with_wrong_password_test() {
    let client_name = "client2".to_string();
    let mut h = harness(&client_name);

    let (status, close) = auth(&mut h, 2, &client_name, "not_valid_key");
    assert_eq!(status, "denied");
    assert!(close);
    assert!(!h.registry.contains(&client_name));
}

#[test]
fn denied_auth_closes_connection() {
    let mut h = harness("alice");

    let (status, close) = auth(&mut h, 5, "bob", "wrong");
    assert_eq!(status, "denied");
    assert!(close);
}

#[test]
fn unauthenticated_requests_rejected() {
    let mut h = harness("alice");

    // TreeMsg and CopyMsg before any authentication: silently closed
    let step = send(&mut h, 0, Message::TreeMsg(TreeMsg { id: 1 }));
    assert!(matches!(step, Step::Close));

    let step = send(
        &mut h,
        0,
        Message::CopyMsg(CopyMsg {
            id: 2,
            start: 0,
            end: 10,
            file_hash: "ffff".to_string(),
        }),
    );
    assert!(matches!(step, Step::Close));
}

#[test]
fn ws_get_files_tree_test() {
    let client_name = "client_get_file_tree".to_string();
    let mut h = harness(&client_name);
    let key = h.directory.get_client_key(client_name.clone()).unwrap();

    let (status, _) = auth(&mut h, 3, &client_name, &key);
    assert_eq!(status, "accepted");

    let tree_res = get_tree(&mut h, 17);
    assert_eq!(tree_res.id, 17);
    assert_eq!(tree_res.root.name, "root".to_string());
    // three files and one subdirectory holding three files
    assert_eq!(tree_res.root.files.len(), 3);
    assert_eq!(tree_res.root.dirs.len(), 1);
    assert_eq!(tree_res.root.dirs[0].files.len(), 3);
    assert_eq!(tree_res.root.dirs[0].name, "dir1");
}

#[test]
fn ws_copy_file_test() {
    let client_name = "client_copy_test".to_string();
    let mut h = harness(&client_name);
    let key = h.directory.get_client_key(client_name.clone()).unwrap();

    let (status, _) = auth(&mut h, 4, &client_name, &key);
    assert_eq!(status, "accepted");

    let tree_res = get_tree(&mut h, 6);
    let file_entry = tree_res.root.files.first().unwrap();
    let file_hash = file_entry.hash.clone();
    let file_size = file_entry.size;
    let original = h.share.files[0].data.clone();
    assert_eq!(file_size as usize, original.len());

    let read_size: u64 = 300000;
    let mut start: u64 = 0;
    let mut rebuilt: Vec<u8> = Vec::new();
    loop {
        let id = 100 + start as i32 % 1000;
        let end = start + read_size;
        let step = send(
            &mut h,
            0,
            Message::CopyMsg(CopyMsg {
                id,
                start,
                end,
                file_hash: file_hash.clone(),
            }),
        );
        let copy_res = match step {
            Step::Reply {
                res: Response::CopyRes(cr),
                close: false,
            } => cr,
            other => panic!("expected a CopyRes reply, got {:?}", other),
        };
        assert_eq!(copy_res.id, id);
        assert_eq!(copy_res.start, start);
        assert_eq!(copy_res.end, end.min(file_size));
        assert_eq!(copy_res.last_data, end >= file_size);

        // validate data through the engine's own decoder and the base64
        // crate itself: both must see the original bytes
        let decoded = cs::file::decode_chunk(&copy_res.data).unwrap();
        let reference = base64::engine::general_purpose::STANDARD
            .decode(&copy_res.data)
            .unwrap();
        assert_eq!(decoded, reference);
        assert_eq!(
            decoded.as_slice(),
            &original[start as usize..copy_res.end as usize]
        );
        rebuilt.extend_from_slice(&decoded);

        if copy_res.last_data {
            break;
        }
        start = copy_res.end;
    }
    // the concatenated decoded payloads are the file's exact bytes
    assert_eq!(rebuilt, original);
}

#[test]
fn copy_unknown_hash_errres() {
    let client_name = "client_missing_hash".to_string();
    let mut h = harness(&client_name);
    let key = h.directory.get_client_key(client_name.clone()).unwrap();
    auth(&mut h, 8, &client_name, &key);

    let step = send(
        &mut h,
        0,
        Message::CopyMsg(CopyMsg {
            id: 9,
            start: 0,
            end: 100,
            file_hash: "0000000000000000000000000000000000000000000000000000000000000000"
                .to_string(),
        }),
    );
    match step {
        Step::Reply {
            res: Response::ErrRes(er),
            close,
        } => {
            assert_eq!(er.id, 9);
            assert!(!er.err.is_empty());
            assert!(close);
        }
        other => panic!("expected an ErrRes reply, got {:?}", other),
    }
}

#[test]
fn accepted_auth_enables_following_requests() {
    // valid pair -> accepted, and an immediately following TreeMsg and
    // CopyMsg on the same connection succeed
    let client_name = "alice".to_string();
    let mut h = harness(&client_name);
    let key = h.directory.get_client_key(client_name.clone()).unwrap();

    let (status, close) = auth(&mut h, 1, &client_name, &key);
    assert_eq!(status, "accepted");
    assert!(!close);

    let tree_res = get_tree(&mut h, 2);
    assert_eq!(tree_res.id, 2);
    assert_eq!(tree_res.root.name, "root");
    assert_eq!(tree_res.root.files.len(), 3);
    assert_eq!(tree_res.root.dirs.len(), 1);
    assert_eq!(tree_res.root.dirs[0].files.len(), 3);

    // A.txt is 500,000 bytes: a strict sub-range, then a range past the end
    let hash = tree_res.root.files[0].hash.clone();
    let copy = |h: &mut Harness, id: i32, start: u64, end: u64| {
        match send(
            h,
            0,
            Message::CopyMsg(CopyMsg {
                id,
                start,
                end,
                file_hash: hash.clone(),
            }),
        ) {
            Step::Reply {
                res: Response::CopyRes(cr),
                close: false,
            } => cr,
            other => panic!("expected a CopyRes reply, got {:?}", other),
        }
    };

    let first = copy(&mut h, 3, 0, 300000);
    assert_eq!(first.id, 3);
    assert_eq!(first.start, 0);
    assert_eq!(first.end, 300000);
    assert!(!first.last_data);

    let second = copy(&mut h, 4, 300000, 600000);
    assert_eq!(second.id, 4);
    assert_eq!(second.start, 300000);
    assert_eq!(second.end, 500000);
    assert!(second.last_data);
}

#[test]
fn copy_twice_within_ttl_hits_cache() {
    let client_name = "client_cache_test".to_string();
    let mut h = harness(&client_name);
    let key = h.directory.get_client_key(client_name.clone()).unwrap();
    auth(&mut h, 1, &client_name, &key);

    let tree_res = get_tree(&mut h, 2);
    let hash = tree_res.root.files[0].hash.clone();

    let copy_at = |h: &mut Harness, now: u64, id: i32| {
        match send(
            h,
            now,
            Message::CopyMsg(CopyMsg {
                id,
                start: 0,
                end: 16,
                file_hash: hash.clone(),
            }),
        ) {
            Step::Reply {
                res: Response::CopyRes(cr),
                close: false,
            } => cr,
            other => panic!("expected a CopyRes reply, got {:?}", other),
        }
    };

    // the first request resolves through a walk and caches the resolution
    copy_at(&mut h, 1000, 3);
    assert!(h.file_service.resolve_cached(&hash, 1000).is_some());

    // a second request within the window is served, and from the cache
    copy_at(&mut h, 1000 + cs::file::CASH_TIMEOUT_SECS, 4);
    assert!(h
        .file_service
        .resolve_cached(&hash, 1000 + cs::file::CASH_TIMEOUT_SECS)
        .is_some());

    // after the window the entry no longer hits and the sweep drops it,
    // but a later request transparently resolves afresh and succeeds
    let late = 1001 + cs::file::CASH_TIMEOUT_SECS;
    assert!(h.file_service.resolve_cached(&hash, late).is_none());
    h.file_service.sweep_cache(late);
    copy_at(&mut h, late, 5);
    assert!(h.file_service.resolve_cached(&hash, late).is_some());
}
