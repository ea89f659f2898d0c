use redis_starter_rust::encoder::{
    append_bulk_string, append_error, append_integer, append_null_string, append_simple_string,
};
use redis_starter_rust::command_executer::append_pong;
use redis_starter_rust::resp::Type;
use redis_starter_rust::resp_decoder::RESPDecoder;

#[test]
fn simple_string_round_trip() {
    let mut bytes = Vec::new();
    append_simple_string(&mut bytes, "hello world");
    assert_eq!(bytes, b"+hello world\r\n".to_vec());
    let resp = RESPDecoder::new(bytes).next_resp().unwrap();
    assert_eq!(resp.kind(), Type::SimpleString);
    assert_eq!(resp.bytes(), b"hello world");
}

#[test]
fn bulk_string_round_trip_with_binary_bytes() {
    let payload: Vec<u8> = vec![0, 0xff, 13, 10, 0xc3, 0x28, 42];
    let mut bytes = Vec::new();
    append_bulk_string(&mut bytes, &payload);
    let mut expected = b"$7\r\n".to_vec();
    expected.extend_from_slice(&payload);
    expected.extend_from_slice(b"\r\n");
    assert_eq!(bytes, expected);
    let resp = RESPDecoder::new(bytes).next_resp().unwrap();
    assert_eq!(resp.kind(), Type::BulkString);
    assert_eq!(resp.bytes(), &payload[..]);
}

#[test]
fn integer_round_trip() {
    for n in [0i64, 7, -7, 1000, i64::MAX, i64::MIN] {
        let mut bytes = Vec::new();
        append_integer(&mut bytes, n);
        assert_eq!(bytes, format!(":{}\r\n", n).into_bytes());
        let resp = RESPDecoder::new(bytes).next_resp().unwrap();
        assert_eq!(resp.kind(), Type::Integer);
        assert_eq!(resp.integer(), Ok(n));
    }
}

#[test]
fn array_of_encoded_values_keeps_count_and_order() {
    let mut bytes = b"*3\r\n".to_vec();
    append_bulk_string(&mut bytes, b"first");
    append_integer(&mut bytes, -12);
    append_simple_string(&mut bytes, "third");
    let resp = RESPDecoder::new(bytes).next_resp().unwrap();
    assert_eq!(resp.kind(), Type::Array);
    let children = resp.array();
    assert_eq!(children.len(), 3);
    assert_eq!(children[0].bytes(), b"first");
    assert_eq!(children[1].integer(), Ok(-12));
    assert_eq!(children[2].string(), "third");
}

#[test]
fn array_with_zero_values() {
    let resp = RESPDecoder::new(b"*0\r\n+after\r\n".to_vec()).next_resp().unwrap();
    assert_eq!(resp.kind(), Type::Array);
    assert_eq!(resp.array().len(), 0);
}

#[test]
fn other_reply_encoders() {
    let mut bytes = Vec::new();
    append_null_string(&mut bytes);
    append_error(&mut bytes, "ERR", "boom");
    append_pong(&mut bytes);
    assert_eq!(bytes, b"$-1\r\n-ERR boom\r\n+PONG\r\n".to_vec());
}

#[test]
fn string_accessor_replaces_invalid_bytes() {
    let resp = RESPDecoder::new(b"$3\r\na\xffb\r\n".to_vec()).next_resp().unwrap();
    assert_eq!(resp.string(), "a\u{FFFD}b");
}
