use rpytest::framing::{
    check_payload, default_socket_path, frame_contents, frame_payload, parse_frame_header,
    FramingError, MAX_MESSAGE_SIZE,
};
use rpytest::error::DaemonError;
use rpytest::storage::{
    check_schema, inventory_prefix, keys_to_clear, meta_key, node_key, read_version, schema_key,
    schema_value, StorageError, SCHEMA_VERSION,
};

#[test]
fn frame_roundtrip() {
    let payload = vec![1u8, 2, 3, 4, 5];
    let frame = frame_payload(payload.clone()).unwrap();
    assert_eq!(frame, vec![5, 0, 0, 0, 1, 2, 3, 4, 5]);
    let (len, offset) = parse_frame_header(&frame).unwrap();
    assert_eq!(offset, 4);
    assert_eq!(len, frame.len() - 4);
    assert_eq!(&frame[offset..], &payload[..]);
    assert_eq!(frame_contents(&frame), Ok(payload));
}

#[test]
fn oversized_payload_is_refused() {
    let large = vec![0u8; MAX_MESSAGE_SIZE + 1];
    assert_eq!(
        frame_payload(large.clone()),
        Err(FramingError::MessageTooLarge(MAX_MESSAGE_SIZE + 1, MAX_MESSAGE_SIZE))
    );
    assert!(matches!(check_payload(large), Err(FramingError::MessageTooLarge(_, _))));
    assert_eq!(check_payload(vec![7u8]), Ok(vec![7u8]));
}

#[test]
fn parse_short_header_fails() {
    let short_data = vec![0u8, 1u8, 2u8];
    assert!(matches!(parse_frame_header(&short_data), Err(FramingError::InvalidFrame(_))));
    let too_large = vec![0u8, 0, 0, 2];
    assert_eq!(
        parse_frame_header(&too_large),
        Err(FramingError::MessageTooLarge(0x0200_0000, MAX_MESSAGE_SIZE))
    );
}

#[test]
fn received_frames() {
    assert_eq!(
        frame_contents(&[1, 0]),
        Err(DaemonError::Other("Message too short for length prefix".to_string()))
    );
    assert_eq!(
        frame_contents(&[3, 0, 0, 0, 9]),
        Err(DaemonError::Other("Message incomplete: expected 7 bytes, got 5".to_string()))
    );
    assert_eq!(frame_contents(&[1, 0, 0, 0, 9, 8]), Ok(vec![9]));
}

#[test]
fn socket_path() {
    assert_eq!(default_socket_path(None), "/tmp/rpytest.sock");
    assert_eq!(default_socket_path(Some("/run/user/1000")), "/run/user/1000/rpytest.sock");
    assert_eq!(default_socket_path(Some("/run/")), "/run/rpytest.sock");
}

#[test]
fn storage_keys() {
    assert_eq!(inventory_prefix("ctx-1"), b"inv:ctx-1:".to_vec());
    assert_eq!(node_key("ctx-1", "a.py::t"), b"inv:ctx-1:a.py::t".to_vec());
    assert_eq!(meta_key("ctx-1"), b"ctx:ctx-1:_meta".to_vec());
    assert_eq!(schema_key(), b"_schema_version".to_vec());
    assert_eq!(schema_value(), SCHEMA_VERSION.to_le_bytes().to_vec());
    let found = vec![(b"inv:c:a".to_vec(), vec![1u8]), (b"inv:c:b".to_vec(), vec![2u8])];
    assert_eq!(
        keys_to_clear("c", &found),
        vec![b"inv:c:a".to_vec(), b"inv:c:b".to_vec(), b"ctx:c:_meta".to_vec()]
    );
}

#[test]
fn schema_checks() {
    assert_eq!(check_schema(None), Ok(()));
    assert_eq!(check_schema(Some(&[1, 0, 0, 0])), Ok(()));
    assert_eq!(check_schema(Some(&[2, 0])), Ok(()));
    assert_eq!(read_version(&[7, 1, 0, 0, 9]), Some(263));
    assert_eq!(
        check_schema(Some(&[7, 1, 0, 0])),
        Err(StorageError::Corrupted(
            "Schema version mismatch: expected 1, found 263".to_string()
        ))
    );
}

#[test]
fn rejects_oversized_message() {
    let large_data = vec![0u8; MAX_MESSAGE_SIZE + 1];
    let result = check_payload(large_data);
    assert!(matches!(result, Err(FramingError::MessageTooLarge(_, _))));
}
