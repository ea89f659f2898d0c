use crate::decimal::{decimal, decimal_of, signed_decimal, signed_decimal_of};
use crate::resp::{Frame, Type};
use vstd::prelude::*;
use vstd::utf8::encode_utf8;

verus! {

/// The two-byte line terminator CR LF.
pub open spec fn crlf() -> Seq<u8> {
    seq![13u8, 10u8]
}

/// `+<text>\r\n`
pub open spec fn simple_string_wire(t: Seq<u8>) -> Seq<u8> {
    seq![43u8] + t + crlf()
}

/// `-<code> <message>\r\n`
pub open spec fn error_wire(code: Seq<u8>, message: Seq<u8>) -> Seq<u8> {
    seq![45u8] + code + seq![32u8] + message + crlf()
}

/// `:<decimal>\r\n`
pub open spec fn integer_wire(n: int) -> Seq<u8> {
    seq![58u8] + signed_decimal(n) + crlf()
}

/// `$<len>\r\n<bytes>\r\n`
pub open spec fn bulk_string_wire(t: Seq<u8>) -> Seq<u8> {
    seq![36u8] + decimal(t.len()) + crlf() + t + crlf()
}

/// `$-1\r\n`, the null bulk string.
pub open spec fn null_string_wire() -> Seq<u8> {
    seq![36u8, 45u8, 49u8, 13u8, 10u8]
}

/// No CR LF pair inside: the bytes can stand on one line.
pub open spec fn line_safe(t: Seq<u8>) -> bool {
    forall|i: int| 0 <= i < t.len() - 1 ==> !(#[trigger] t[i] == 13 && t[i + 1] == 10)
}

/// The wire form of a value: its leading byte, then its payload on one line,
/// its length-prefixed payload, or its count and its children one after another.
pub open spec fn frame_wire(f: Frame) -> Seq<u8>
    decreases f,
{
    match f.kind {
        Type::SimpleString => simple_string_wire(f.data),
        Type::Error => seq![45u8] + f.data + crlf(),
        Type::Integer => seq![58u8] + f.data + crlf(),
        Type::BulkString => bulk_string_wire(f.data),
        Type::Array => seq![42u8] + decimal(f.children.len()) + crlf() + frames_wire(f.children),
    }
}

/// The wire forms of a sequence of values, one after another.
pub open spec fn frames_wire(fs: Seq<Frame>) -> Seq<u8>
    decreases fs,
{
    if fs.len() == 0 {
        Seq::empty()
    } else {
        frame_wire(fs[0]) + frames_wire(fs.subrange(1, fs.len() as int))
    }
}

/// A value that has a wire form: a line payload holds no CR LF, only an array
/// has children and it has no payload, and lengths and counts fit in `i64`.
pub open spec fn encodable(f: Frame) -> bool
    decreases f,
{
    match f.kind {
        Type::Array => f.data.len() == 0 && f.children.len() <= i64::MAX && forall|i: int|
            0 <= i < f.children.len() ==> encodable(#[trigger] f.children[i]),
        Type::BulkString => f.children.len() == 0 && f.data.len() <= i64::MAX,
        _ => f.children.len() == 0 && line_safe(f.data),
    }
}

/// Appends the bytes of `t` to `bytes`.
fn extend(bytes: &mut Vec<u8>, t: &[u8])
    ensures
        final(bytes)@ == old(bytes)@ + t@,
{
    let mut i: usize = 0;
    while i < t.len()
        invariant
            i <= t@.len(),
            bytes@ == old(bytes)@ + t@.subrange(0, i as int),
        decreases t@.len() - i,
    {
        bytes.push(t[i]);
        i = i + 1;
        proof {
            assert(bytes@ =~= old(bytes)@ + t@.subrange(0, i as int));
        }
    }
    proof {
        assert(t@.subrange(0, i as int) =~= t@);
    }
}

fn push_crlf(bytes: &mut Vec<u8>)
    ensures
        final(bytes)@ == old(bytes)@ + crlf(),
{
    bytes.push(13);
    bytes.push(10);
    proof {
        assert(bytes@ =~= old(bytes)@ + crlf());
    }
}

/// Appends a simple string reply carrying `value`.
pub fn append_simple_string(bytes: &mut Vec<u8>, value: &str)
    ensures
        final(bytes)@ == old(bytes)@ + simple_string_wire(encode_utf8(value@)),
{
    bytes.push(43);
    extend(bytes, value.as_bytes());
    push_crlf(bytes);
    proof {
        assert(bytes@ =~= old(bytes)@ + simple_string_wire(encode_utf8(value@)));
    }
}

/// Appends a bulk string reply carrying the bytes `value`.
pub fn append_bulk_string(bytes: &mut Vec<u8>, value: &[u8])
    ensures
        final(bytes)@ == old(bytes)@ + bulk_string_wire(value@),
{
    bytes.push(36);
    let len = decimal_of(value.len() as u64);
    extend(bytes, len.as_slice());
    push_crlf(bytes);
    extend(bytes, value);
    push_crlf(bytes);
    proof {
        assert(bytes@ =~= old(bytes)@ + bulk_string_wire(value@));
    }
}

/// Appends the null bulk string reply.
pub fn append_null_string(bytes: &mut Vec<u8>)
    ensures
        final(bytes)@ == old(bytes)@ + null_string_wire(),
{
    bytes.push(36);
    bytes.push(45);
    bytes.push(49);
    push_crlf(bytes);
    proof {
        assert(bytes@ =~= old(bytes)@ + null_string_wire());
    }
}

/// Appends an integer reply.
pub fn append_integer(bytes: &mut Vec<u8>, n: i64)
    ensures
        final(bytes)@ == old(bytes)@ + integer_wire(n as int),
{
    bytes.push(58);
    let digits = signed_decimal_of(n);
    extend(bytes, digits.as_slice());
    push_crlf(bytes);
    proof {
        assert(bytes@ =~= old(bytes)@ + integer_wire(n as int));
    }
}

/// Appends an error reply with its code and message.
pub fn append_error(bytes: &mut Vec<u8>, error_type: &str, message: &str)
    ensures
        final(bytes)@ == old(bytes)@ + error_wire(encode_utf8(error_type@), encode_utf8(message@)),
{
    bytes.push(45);
    extend(bytes, error_type.as_bytes());
    bytes.push(32);
    extend(bytes, message.as_bytes());
    push_crlf(bytes);
    proof {
        assert(bytes@ =~= old(bytes)@ + error_wire(encode_utf8(error_type@), encode_utf8(message@)));
    }
}

} // verus!
