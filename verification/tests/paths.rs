use log_collector::paths::{validate_path_segment, PathError};

#[test]
fn test_validate_path_segment() {
    assert!(validate_path_segment(b"foo").is_ok());
    assert!(validate_path_segment(b"foo/bar").is_ok());
    assert!(validate_path_segment(b"foo.bar/123").is_ok());
    assert!(validate_path_segment(b"..").is_err());
    assert!(validate_path_segment(b".").is_err());
    assert!(validate_path_segment(b"./././").is_err());
    assert!(validate_path_segment(b"").is_err());
    assert!(validate_path_segment(b"foo/..").is_err());
    assert!(validate_path_segment(b"foo/../bar").is_err());
    assert!(validate_path_segment(b"foo/./bar").is_ok());
    assert!(validate_path_segment(b"/foo/bar").is_err());
    assert!(validate_path_segment(b"/foo").is_err());
}

#[test]
fn empty_segment_has_its_own_error() {
    assert_eq!(validate_path_segment(b""), Err(PathError::NoComponents));
    assert_eq!(validate_path_segment(b".."), Err(PathError::InvalidComponent));
    assert_eq!(validate_path_segment(b"/abs"), Err(PathError::InvalidComponent));
    assert_eq!(validate_path_segment(b"ok"), Ok(()));
}

#[test]
fn metadata_path_replaces_an_existing_extension() {
    let worker = log_collector::collector::LogMessageCollector::new(b"r".to_vec(), 1);
    let from = log_collector::message::LogFrom {
        routing_key: b"key".to_vec(),
        attempt_id: b"name.log".to_vec(),
    };
    let log = worker.path_for_log(&from).unwrap();
    assert_eq!(log, b"r/key/name.log".to_vec());
    let meta = worker.path_for_metadata(&from).unwrap();
    assert_eq!(meta, b"r/key/name.metadata.json".to_vec());
}

#[test]
fn metadata_path_appends_when_there_is_no_extension() {
    let worker = log_collector::collector::LogMessageCollector::new(b"r".to_vec(), 1);
    let from = log_collector::message::LogFrom {
        routing_key: b"a.b/c".to_vec(),
        attempt_id: b"123".to_vec(),
    };
    assert_eq!(worker.path_for_log(&from).unwrap(), b"r/a.b/c/123".to_vec());
    assert_eq!(
        worker.path_for_metadata(&from).unwrap(),
        b"r/a.b/c/123.metadata.json".to_vec()
    );
}
