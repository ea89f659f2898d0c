use redis_starter_rust::resp::{DecodeError, Type};
use redis_starter_rust::resp_decoder::RESPDecoder;

#[test]
fn it_should_decode_simple_string() {
    let simple_string = b"+OK\r\n";
    let resp = RESPDecoder::new(simple_string.to_vec()).next_resp().unwrap();
    assert_eq!(resp.string(), "OK");
}

#[test]
fn it_should_decode_bulk_string() {
    let bulk_string = b"$5\r\nhello\r\n";
    let resp = RESPDecoder::new(bulk_string.to_vec()).next_resp().unwrap();
    assert_eq!(resp.string(), "hello");
}

#[test]
fn it_should_decode_integer_string() {
    let integer = b":1000\r\n";
    let resp = RESPDecoder::new(integer.to_vec()).next_resp().unwrap();
    assert_eq!(resp.integer(), Ok(1000));
}

#[test]
fn it_should_decode_error_string() {
    let error = b"-ERR unknown command 'helloworld'\r\n";
    let resp = RESPDecoder::new(error.to_vec()).next_resp().unwrap();
    assert_eq!(resp.string(), "ERR unknown command 'helloworld'");
}

#[test]
fn it_should_decode_array_string() {
    let error = b"*2\r\n$5\r\nhello\r\n$5\r\nworld\r\n";
    let resp = RESPDecoder::new(error.to_vec()).next_resp().unwrap();
    let children = resp.array();
    assert_eq!(children.len(), 2);
    assert_eq!(children[0].string(), "hello");
    assert_eq!(children[1].string(), "world");
}

#[test]
fn it_should_decode_nested_array_string() {
    let error = b"*2\r\n*3\r\n:1\r\n:2\r\n:3\r\n*2\r\n+Hello\r\n-World\r\n";

    let resp = RESPDecoder::new(error.to_vec()).next_resp().unwrap();
    assert_eq!(resp.value_type, Type::Array);

    let children = resp.array();
    assert_eq!(children.len(), 2);

    let first_child = &children[0];
    let second_child = &children[1];
    assert_eq!(first_child.value_type, Type::Array);
    assert_eq!(second_child.value_type, Type::Array);
    let first_child_array = first_child.array();
    let second_child_array = second_child.array();
    assert_eq!(first_child_array[0].integer(), Ok(1));
    assert_eq!(first_child_array[1].integer(), Ok(2));
    assert_eq!(first_child_array[2].integer(), Ok(3));
    assert_eq!(second_child_array[0].string(), "Hello");
    assert_eq!(second_child_array[1].string(), "World");
}

#[test]
fn decode_rejects_unknown_type_byte() {
    let r = RESPDecoder::new(b"?OK\r\n".to_vec()).next_resp();
    assert_eq!(r.err(), Some(DecodeError::InvalidTypeByte));
}

#[test]
fn decode_reports_missing_terminator() {
    let r = RESPDecoder::new(b"+OK".to_vec()).next_resp();
    assert_eq!(r.err(), Some(DecodeError::MalformedFrame));
}

#[test]
fn decode_reports_short_bulk_string() {
    let r = RESPDecoder::new(b"$10\r\nhello\r\n".to_vec()).next_resp();
    assert_eq!(r.err(), Some(DecodeError::MalformedFrame));
}

#[test]
fn decode_reports_bad_length() {
    let r = RESPDecoder::new(b"$abc\r\nhello\r\n".to_vec()).next_resp();
    assert_eq!(r.err(), Some(DecodeError::InvalidLength));
    let r = RESPDecoder::new(b"*-3\r\n".to_vec()).next_resp();
    assert_eq!(r.err(), Some(DecodeError::InvalidLength));
}

#[test]
fn integer_accessor_reports_invalid_integer() {
    let resp = RESPDecoder::new(b":12x\r\n".to_vec()).next_resp().unwrap();
    assert_eq!(resp.integer(), Err(DecodeError::InvalidInteger));
    let resp = RESPDecoder::new(b":-9223372036854775808\r\n".to_vec()).next_resp().unwrap();
    assert_eq!(resp.integer(), Ok(i64::MIN));
    let resp = RESPDecoder::new(b":9223372036854775808\r\n".to_vec()).next_resp().unwrap();
    assert_eq!(resp.integer(), Err(DecodeError::InvalidInteger));
}

#[test]
fn decode_null_bulk_string_and_empty_array() {
    let resp = RESPDecoder::new(b"$-1\r\n".to_vec()).next_resp().unwrap();
    assert_eq!(resp.kind(), Type::BulkString);
    assert_eq!(resp.bytes().len(), 0);
    let resp = RESPDecoder::new(b"*0\r\n".to_vec()).next_resp().unwrap();
    assert_eq!(resp.kind(), Type::Array);
    assert_eq!(resp.array().len(), 0);
}

#[test]
fn bulk_string_keeps_binary_payload() {
    let resp = RESPDecoder::new(b"$4\r\n\xff\r\n\x00\r\n".to_vec()).next_resp().unwrap();
    assert_eq!(resp.bytes(), &[0xffu8, 13, 10, 0][..]);
}

#[test]
fn decoder_reads_pipelined_requests_in_turn() {
    let mut d = RESPDecoder::new(b"+A\r\n:7\r\n".to_vec());
    assert_eq!(d.next_resp().unwrap().string(), "A");
    assert_eq!(d.next_resp().unwrap().integer(), Ok(7));
    assert_eq!(d.next_resp().err(), Some(DecodeError::MalformedFrame));
}

#[test]
fn read_until_crlf_returns_line() {
    let mut d = RESPDecoder::new(b"abc\r\ndef".to_vec());
    assert_eq!(d.read_until_crlf(), Ok(b"abc".to_vec()));
    assert_eq!(d.read_until_crlf(), Err(DecodeError::MalformedFrame));
}

#[test]
fn consumed_counts_decoded_bytes() {
    let mut d = RESPDecoder::new(b"+A\r\n$3\r\nab".to_vec());
    assert_eq!(d.consumed(), 0);
    d.next_resp().unwrap();
    assert_eq!(d.consumed(), 4);
    assert_eq!(d.next_resp().err(), Some(DecodeError::MalformedFrame));
}
