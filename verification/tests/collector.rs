use log_collector::collector::{Action, Dispatch, HandleFor, LogMessageCollector};
use log_collector::message::{BuildLogMsg, BuildLogStart, LogFrom, MsgType};
use std::collections::HashMap;

fn make_worker(root: &[u8]) -> LogMessageCollector {
    LogMessageCollector::new(root.to_vec(), 3)
}

fn make_from(id: &str) -> LogFrom {
    LogFrom {
        attempt_id: format!("attempt-id-{}", id).into_bytes(),
        routing_key: format!("routing-key-{}", id).into_bytes(),
    }
}

#[test]
fn test_handle_for() {
    let a = make_from("a.foo/123");
    let b = make_from("b.foo/123");
    let c = make_from("c.foo/123");
    let d = make_from("d.foo/123");

    let mut worker = make_worker(b"log-message-collector-handle_for");
    assert!(worker.handle_for(&a).is_ok());
    assert!(worker.handle_for(&b).is_ok());
    assert!(worker.handle_for(&c).is_ok());
    assert!(worker.handle_for(&d).is_ok());
    assert!(worker.handle_for(&a).is_ok());
}

#[test]
fn test_path_for_metadata() {
    let root = b"log-message-collector-path_for_metadata";
    let worker = make_worker(root);

    let path = worker
        .path_for_metadata(&LogFrom {
            attempt_id: b"my-attempt-id".to_vec(),
            routing_key: b"my-routing-key".to_vec(),
        })
        .expect("the path should be valid");

    assert!(path.starts_with(root));
    assert!(path.ends_with(b"my-routing-key/my-attempt-id.metadata.json"));
}

#[test]
fn test_path_for_log() {
    let root = b"log-message-collector-path_for_log";
    let worker = make_worker(root);

    let path = worker
        .path_for_log(&LogFrom {
            attempt_id: b"my-attempt-id".to_vec(),
            routing_key: b"my-routing-key".to_vec(),
        })
        .expect("the path should be valid");

    assert!(path.starts_with(root));
    assert!(path.ends_with(b"my-routing-key/my-attempt-id"));
}

#[test]
fn test_path_for_log_malicious() {
    let worker = make_worker(b"log-message-collector-for_malicious");

    let path = worker.path_for_log(&LogFrom {
        attempt_id: b"./../../".to_vec(),
        routing_key: b"./../../foobar".to_vec(),
    });

    println!("path: {:?}", path);
    assert!(path.is_err());
}

#[test]
fn lru_evicts_least_recently_used_key() {
    let mut worker = make_worker(b"root");
    let a = make_from("a");
    let b = make_from("b");
    let c = make_from("c");
    let d = make_from("d");

    for key in [&a, &b, &c] {
        match worker.handle_for(key).unwrap() {
            HandleFor::Opened { evicted, .. } => assert!(evicted.is_none()),
            HandleFor::Existing => panic!("key should have been fresh"),
        }
    }
    // Re-access `a` so `b` becomes the least recently used entry.
    match worker.handle_for(&a).unwrap() {
        HandleFor::Existing => {}
        HandleFor::Opened { .. } => panic!("a should already be tracked"),
    }
    // A fourth distinct key exceeds max_open = 3 and must evict exactly `b`.
    match worker.handle_for(&d).unwrap() {
        HandleFor::Opened { evicted, .. } => {
            let evicted = evicted.expect("the pool was full, one key must leave");
            assert_eq!(evicted.routing_key, b.routing_key);
            assert_eq!(evicted.attempt_id, b.attempt_id);
        }
        HandleFor::Existing => panic!("d should have been fresh"),
    }
    // The evicted key can be opened again without conflict.
    match worker.handle_for(&b).unwrap() {
        HandleFor::Opened { evicted, .. } => assert!(evicted.is_some()),
        HandleFor::Existing => panic!("b was evicted and must reopen"),
    }
}

#[test]
fn consumer_acknowledges_each_message_kind_once() {
    let mut worker = make_worker(b"root");
    let from = make_from("foo");

    let start = start_event();
    let (d, actions) = worker
        .consumer(&log_collector::message::LogMessage {
            from: from.clone(),
            message: MsgType::Start(start),
        })
        .unwrap();
    assert_eq!(actions, vec![Action::Ack]);
    match d {
        Dispatch::Metadata(w) => {
            assert!(w.path.ends_with(b"routing-key-foo/attempt-id-foo.metadata.json"));
            assert!(!w.bytes.is_empty());
        }
        _ => panic!("a start event plans a sidecar write"),
    }

    let chunk = BuildLogMsg {
        attempt_id: b"my-attempt-id".to_vec(),
        identity: b"my-identity".to_vec(),
        system: b"foobar-x8664".to_vec(),
        line_number: 1,
        output: b"line-1".to_vec(),
    };
    let (d, actions) = worker
        .consumer(&log_collector::message::LogMessage {
            from: from.clone(),
            message: MsgType::Msg(chunk),
        })
        .unwrap();
    assert_eq!(actions, vec![Action::Ack]);
    match d {
        Dispatch::Chunk(HandleFor::Opened { path, evicted }) => {
            assert!(path.ends_with(b"routing-key-foo/attempt-id-foo"));
            assert!(evicted.is_none());
        }
        _ => panic!("the first chunk for a key opens its resource"),
    }

    let finish = log_collector::message::BuildResult {
        attempt_id: b"my-attempt-id".to_vec(),
    };
    let (d, actions) = worker
        .consumer(&log_collector::message::LogMessage {
            from,
            message: MsgType::Finish(finish),
        })
        .unwrap();
    assert_eq!(actions, vec![Action::Ack]);
    assert!(matches!(d, Dispatch::Nothing));
}

#[test]
fn consumer_rejects_malicious_stream_identity() {
    let mut worker = make_worker(b"root");
    let from = LogFrom {
        routing_key: b"../escape".to_vec(),
        attempt_id: b"id".to_vec(),
    };
    let chunk = BuildLogMsg {
        attempt_id: b"id".to_vec(),
        identity: b"i".to_vec(),
        system: b"s".to_vec(),
        line_number: 1,
        output: b"o".to_vec(),
    };
    let r = worker.consumer(&log_collector::message::LogMessage {
        from,
        message: MsgType::Msg(chunk),
    });
    assert!(r.is_err());
}

fn start_event() -> BuildLogStart {
    BuildLogStart {
        attempt_id: b"my-attempt-id".to_vec(),
        identity: b"my-identity".to_vec(),
        system: b"foobar-x8664".to_vec(),
        attempted_attrs: Some(vec![b"foo".to_vec()]),
        skipped_attrs: Some(vec![b"bar".to_vec()]),
    }
}

/// The whole ingestion flow, with the filesystem modeled by a map from
/// path to contents: dispatch a start event and three chunks, then compare
/// the assembled files byte for byte.
#[test]
fn logs_collect_assembles_files() {
    let root = b"scratch";
    let mut worker = make_worker(root);
    let mut files: HashMap<Vec<u8>, Vec<u8>> = HashMap::new();

    let start = start_event();
    let from_foo = make_from("foo");
    let (d, actions) = worker
        .consumer(&log_collector::message::LogMessage {
            from: from_foo.clone(),
            message: MsgType::Start(start),
        })
        .unwrap();
    assert_eq!(actions, vec![Action::Ack]);
    if let Dispatch::Metadata(w) = d {
        files.entry(w.path).or_default().extend_from_slice(&w.bytes);
    } else {
        panic!("expected a metadata write");
    }

    let mut send_chunk = |worker: &mut LogMessageCollector,
                          files: &mut HashMap<Vec<u8>, Vec<u8>>,
                          from: &LogFrom,
                          line_number: u64,
                          output: &[u8]| {
        let msg = BuildLogMsg {
            attempt_id: from.attempt_id.clone(),
            identity: b"my-identity".to_vec(),
            system: b"foobar-x8664".to_vec(),
            line_number,
            output: output.to_vec(),
        };
        let (d, actions) = worker
            .consumer(&log_collector::message::LogMessage {
                from: from.clone(),
                message: MsgType::Msg(msg),
            })
            .unwrap();
        assert_eq!(actions, vec![Action::Ack]);
        let path = match d {
            Dispatch::Chunk(HandleFor::Opened { path, evicted }) => {
                if let Some(gone) = evicted {
                    // Dropping the file handle closes it; contents stay.
                    let _ = gone;
                }
                let existing = files.entry(path.clone()).or_default();
                let lines = log_collector::writer::line_count(existing);
                assert!(worker.set_cursor(from, lines));
                path
            }
            Dispatch::Chunk(HandleFor::Existing) => {
                worker.path_for_log(from).unwrap()
            }
            _ => panic!("expected a chunk dispatch"),
        };
        let bytes = worker.write_line(from, line_number, output).unwrap();
        files.get_mut(&path).unwrap().extend_from_slice(&bytes);
    };

    send_chunk(&mut worker, &mut files, &from_foo, 1, b"line-1");
    send_chunk(&mut worker, &mut files, &from_foo, 5, b"line-5");

    let mut from_other = make_from("foo");
    from_other.attempt_id = b"my-other-attempt".to_vec();
    send_chunk(&mut worker, &mut files, &from_other, 3, b"line-3");

    let meta = files
        .get(b"scratch/routing-key-foo/attempt-id-foo.metadata.json".as_slice())
        .expect("sidecar must exist");
    assert_eq!(
        meta,
        b"{\"system\":\"foobar-x8664\",\"identity\":\"my-identity\",\"attempt_id\":\"my-attempt-id\",\"attempted_attrs\":[\"foo\"],\"skipped_attrs\":[\"bar\"]}"
    );

    let log = files
        .get(b"scratch/routing-key-foo/attempt-id-foo".as_slice())
        .expect("log must exist");
    assert_eq!(log, b"line-1\n\n\n\nline-5\n");

    let other = files
        .get(b"scratch/routing-key-foo/my-other-attempt".as_slice())
        .expect("log must exist");
    assert_eq!(other, b"\n\nline-3\n");
}
