use log_collector::collector::{DecodeError, LogMessageCollector};
use log_collector::message::MsgType;

#[test]
fn chunk_payload_classifies_as_chunk() {
    let body = br#"{"attempt_id":"my-attempt-id","identity":"my-identity","system":"foobar-x8664","line_number":1,"output":"line-1"}"#;
    let job = LogMessageCollector::msg_to_job(b"routing-key-foo", body).unwrap();
    assert_eq!(job.from.routing_key, b"routing-key-foo".to_vec());
    assert_eq!(job.from.attempt_id, b"my-attempt-id".to_vec());
    match job.message {
        MsgType::Msg(m) => {
            assert_eq!(m.attempt_id, b"my-attempt-id".to_vec());
            assert_eq!(m.identity, b"my-identity".to_vec());
            assert_eq!(m.system, b"foobar-x8664".to_vec());
            assert_eq!(m.line_number, 1);
            assert_eq!(m.output, b"line-1".to_vec());
        }
        _ => panic!("a payload with all chunk fields is a chunk"),
    }
}

#[test]
fn start_payload_classifies_as_start() {
    let body = br#"{"system":"foobar-x8664","identity":"my-identity","attempt_id":"my-attempt-id","attempted_attrs":["foo"],"skipped_attrs":null}"#;
    let job = LogMessageCollector::msg_to_job(b"rk", body).unwrap();
    match job.message {
        MsgType::Start(st) => {
            assert_eq!(st.attempt_id, b"my-attempt-id".to_vec());
            assert_eq!(st.identity, b"my-identity".to_vec());
            assert_eq!(st.system, b"foobar-x8664".to_vec());
            assert_eq!(st.attempted_attrs, Some(vec![b"foo".to_vec()]));
            assert_eq!(st.skipped_attrs, None);
        }
        _ => panic!("a start payload without a line number is a start"),
    }
}

#[test]
fn start_payload_attrs_may_be_absent() {
    let body = br#"{"system":"s","identity":"i","attempt_id":"a"}"#;
    let job = LogMessageCollector::msg_to_job(b"rk", body).unwrap();
    match job.message {
        MsgType::Start(st) => {
            assert_eq!(st.attempted_attrs, None);
            assert_eq!(st.skipped_attrs, None);
        }
        _ => panic!("expected a start"),
    }
}

#[test]
fn finish_payload_classifies_as_finish() {
    let body = br#"{"attempt_id":"my-attempt-id","success":true,"status":42,"nested":{"k":[1,2,3]}}"#;
    let job = LogMessageCollector::msg_to_job(b"rk", body).unwrap();
    match job.message {
        MsgType::Finish(f) => assert_eq!(f.attempt_id, b"my-attempt-id".to_vec()),
        _ => panic!("an object with an attempt id alone is a finish"),
    }
}

#[test]
fn classification_order_is_chunk_before_start() {
    // A fractional line number fails the chunk shape, so the same payload
    // falls through to the start shape, which ignores unknown fields.
    let body = br#"{"attempt_id":"a","identity":"i","system":"s","line_number":1.5,"output":"o"}"#;
    let job = LogMessageCollector::msg_to_job(b"rk", body).unwrap();
    assert!(matches!(job.message, MsgType::Start(_)));
}

#[test]
fn line_numbers_beyond_u64_or_negative_fail_the_chunk_shape() {
    for ln in ["18446744073709551616", "-1", "1e3", "\"5\""] {
        let body = format!(
            r#"{{"attempt_id":"a","identity":"i","system":"s","line_number":{},"output":"o"}}"#,
            ln
        );
        let job = LogMessageCollector::msg_to_job(b"rk", body.as_bytes()).unwrap();
        assert!(matches!(job.message, MsgType::Start(_)), "line_number {}", ln);
    }
    // The largest representable line number still makes a chunk.
    let body = br#"{"attempt_id":"a","identity":"i","system":"s","line_number":18446744073709551615,"output":"o"}"#;
    let job = LogMessageCollector::msg_to_job(b"rk", body).unwrap();
    match job.message {
        MsgType::Msg(m) => assert_eq!(m.line_number, u64::MAX),
        _ => panic!("expected a chunk"),
    }
}

#[test]
fn malformed_numbers_fail_the_whole_payload() {
    for body in [
        br#"{"attempt_id":"a","n":01}"# as &[u8],
        br#"{"attempt_id":"a","n":1.}"#,
        br#"{"attempt_id":"a","n":+1}"#,
        br#"{"attempt_id":"a","n":1e}"#,
    ] {
        assert!(LogMessageCollector::msg_to_job(b"rk", body).is_err());
    }
}

#[test]
fn duplicate_known_field_fails_the_shape() {
    // A duplicated attempt_id fails every shape that knows the field.
    let body = br#"{"attempt_id":"a","attempt_id":"b"}"#;
    assert_eq!(
        LogMessageCollector::msg_to_job(b"rk", body).unwrap_err(),
        DecodeError
    );
}

#[test]
fn undecodable_payloads_are_rejected() {
    for body in [
        b"" as &[u8],
        b"not json",
        b"[1,2,3]",
        b"{\"other\":1}",
        b"{\"attempt_id\":7}",
        b"{\"attempt_id\":\"a\"",
        b"{\"attempt_id\":\"a\"} trailing",
    ] {
        assert!(LogMessageCollector::msg_to_job(b"rk", body).is_err());
    }
}

#[test]
fn string_escapes_are_decoded() {
    let body = br#"{"attempt_id":"a\nb\t\"q\" \u0041 \ud834\udd1e","success":false}"#;
    let job = LogMessageCollector::msg_to_job(b"rk", body).unwrap();
    match job.message {
        MsgType::Finish(f) => {
            assert_eq!(
                f.attempt_id,
                "a\nb\t\"q\" A \u{1d11e}".as_bytes().to_vec()
            );
        }
        _ => panic!("expected a finish"),
    }
}

#[test]
fn whitespace_around_the_object_is_accepted() {
    let body = b" \t\r\n {\"attempt_id\" : \"a\"} \n ";
    assert!(LogMessageCollector::msg_to_job(b"rk", body).is_ok());
}

#[test]
fn metadata_document_is_byte_exact() {
    let worker = LogMessageCollector::new(b"log-message-collector-path_for_log".to_vec(), 3);
    let from = log_collector::message::LogFrom {
        routing_key: b"routing-key-foo".to_vec(),
        attempt_id: b"attempt-id-foo".to_vec(),
    };
    let start = log_collector::message::BuildLogStart {
        attempt_id: b"my-attempt-id".to_vec(),
        identity: b"my-identity".to_vec(),
        system: b"foobar-x8664".to_vec(),
        attempted_attrs: Some(vec![b"foo".to_vec()]),
        skipped_attrs: Some(vec![b"bar".to_vec()]),
    };
    let w = worker.write_metadata(&from, &start).unwrap();
    assert!(w.path.ends_with(b"routing-key-foo/attempt-id-foo.metadata.json"));
    assert_eq!(
        w.bytes,
        b"{\"system\":\"foobar-x8664\",\"identity\":\"my-identity\",\"attempt_id\":\"my-attempt-id\",\"attempted_attrs\":[\"foo\"],\"skipped_attrs\":[\"bar\"]}".to_vec()
    );
}

#[test]
fn metadata_document_escapes_and_null_attrs() {
    let worker = LogMessageCollector::new(b"r".to_vec(), 1);
    let from = log_collector::message::LogFrom {
        routing_key: b"k".to_vec(),
        attempt_id: b"a".to_vec(),
    };
    let start = log_collector::message::BuildLogStart {
        attempt_id: b"a\"b\\c".to_vec(),
        identity: b"line\nbreak".to_vec(),
        system: b"ctl\x01".to_vec(),
        attempted_attrs: None,
        skipped_attrs: Some(vec![]),
    };
    let w = worker.write_metadata(&from, &start).unwrap();
    assert_eq!(
        w.bytes,
        b"{\"system\":\"ctl\\u0001\",\"identity\":\"line\\nbreak\",\"attempt_id\":\"a\\\"b\\\\c\",\"attempted_attrs\":null,\"skipped_attrs\":[]}".to_vec()
    );
}

#[test]
fn round_trip_start_event_through_the_wire() {
    // Encode a start event, read the document back through the classifier:
    // the fields survive byte-identically.
    let worker = LogMessageCollector::new(b"r".to_vec(), 1);
    let from = log_collector::message::LogFrom {
        routing_key: b"k".to_vec(),
        attempt_id: b"a".to_vec(),
    };
    let start = log_collector::message::BuildLogStart {
        attempt_id: b"my-attempt-id".to_vec(),
        identity: b"id\"quoted\"".to_vec(),
        system: b"sys".to_vec(),
        attempted_attrs: Some(vec![b"x".to_vec(), b"y".to_vec()]),
        skipped_attrs: None,
    };
    let w = worker.write_metadata(&from, &start).unwrap();
    let job = LogMessageCollector::msg_to_job(b"k", &w.bytes).unwrap();
    match job.message {
        MsgType::Start(st) => {
            assert_eq!(st.attempt_id, start.attempt_id);
            assert_eq!(st.identity, start.identity);
            assert_eq!(st.system, start.system);
            assert_eq!(st.attempted_attrs, start.attempted_attrs);
            assert_eq!(st.skipped_attrs, start.skipped_attrs);
        }
        _ => panic!("an encoded start event must classify as a start"),
    }
}
