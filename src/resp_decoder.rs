use crate::decimal::{all_digits, decimal, lemma_decimal, lemma_parse_signed_decimal, parse_i64, parse_int, signed_decimal};
use crate::encoder::{bulk_string_wire, crlf, encodable, frame_wire, frames_wire, integer_wire, line_safe, simple_string_wire};
use crate::resp::{type_byte, type_of_byte, views, DecodeError, Frame, Type, RESP};
use vstd::prelude::*;

verus! {

/// Index of the first CR LF pair that starts at or after `i`, if any.
pub open spec fn crlf_from(s: Seq<u8>, i: int) -> Option<int>
    decreases s.len() - i,
{
    if i < 0 || i + 1 >= s.len() {
        None
    } else if s[i] == 13 && s[i + 1] == 10 {
        Some(i)
    } else {
        crlf_from(s, i + 1)
    }
}

/// The line that starts at `p`: its bytes before the first CR LF, and the
/// position just past that terminator.
pub open spec fn line_at(s: Seq<u8>, p: int) -> Option<(Seq<u8>, int)> {
    match crlf_from(s, p) {
        Some(e) => Some((s.subrange(p, e), e + 2)),
        None => None,
    }
}

pub open spec fn empty_frame(kind: Type) -> Frame {
    Frame { kind, data: Seq::empty(), children: Seq::empty() }
}

/// Outcome of decoding one value that starts at `pos`: the value and the
/// position just past it.
pub open spec fn decode_spec(s: Seq<u8>, pos: int) -> Result<(Frame, int), DecodeError>
    decreases s.len() - pos, 0int,
{
    if pos < 0 || pos >= s.len() {
        Err(DecodeError::MalformedFrame)
    } else {
        match type_of_byte(s[pos]) {
            None => Err(DecodeError::InvalidTypeByte),
            Some(Type::BulkString) => bulk_spec(s, pos + 1),
            Some(Type::Array) => array_spec(s, pos + 1),
            Some(t) => match line_at(s, pos + 1) {
                Some((line, next)) => Ok((Frame { kind: t, data: line, children: Seq::empty() }, next)),
                None => Err(DecodeError::MalformedFrame),
            },
        }
    }
}

/// Outcome of decoding a bulk string whose length line starts at `p`. The
/// length `-1` stands for the null bulk string, decoded with an empty payload.
pub open spec fn bulk_spec(s: Seq<u8>, p: int) -> Result<(Frame, int), DecodeError> {
    match line_at(s, p) {
        None => Err(DecodeError::MalformedFrame),
        Some((line, next)) => match parse_int(line) {
            None => Err(DecodeError::InvalidLength),
            Some(n) => if n == -1 {
                Ok((empty_frame(Type::BulkString), next))
            } else if n < 0 {
                Err(DecodeError::InvalidLength)
            } else if next + n + 2 > s.len() || s[next + n] != 13 || s[next + n + 1] != 10 {
                Err(DecodeError::MalformedFrame)
            } else {
                Ok((Frame { kind: Type::BulkString, data: s.subrange(next, next + n), children: Seq::empty() }, next + n + 2))
            },
        },
    }
}

/// Outcome of decoding an array whose count line starts at `p`.
pub open spec fn array_spec(s: Seq<u8>, p: int) -> Result<(Frame, int), DecodeError>
    decreases s.len() - p, 0int,
{
    match line_at(s, p) {
        None => Err(DecodeError::MalformedFrame),
        Some((line, next)) => match parse_int(line) {
            None => Err(DecodeError::InvalidLength),
            Some(n) => if n < 0 {
                Err(DecodeError::InvalidLength)
            } else if next <= p || next > s.len() {
                Err(DecodeError::MalformedFrame)
            } else {
                match children_spec(s, next, n) {
                    Ok((fs, e)) => Ok((Frame { kind: Type::Array, data: Seq::empty(), children: fs }, e)),
                    Err(x) => Err(x),
                }
            },
        },
    }
}

/// Puts `k` in front of the values of a successful outcome.
pub open spec fn prepend(k: Seq<Frame>, r: Result<(Seq<Frame>, int), DecodeError>) -> Result<(Seq<Frame>, int), DecodeError> {
    match r {
        Ok((fs, e)) => Ok((k + fs, e)),
        Err(x) => Err(x),
    }
}

/// Outcome of decoding `n` values one after another from `p`.
pub open spec fn children_spec(s: Seq<u8>, p: int, n: int) -> Result<(Seq<Frame>, int), DecodeError>
    decreases s.len() - p, 1int,
{
    if n <= 0 {
        Ok((Seq::empty(), p))
    } else {
        match decode_spec(s, p) {
            Err(x) => Err(x),
            Ok((f, q)) => if q <= p || q > s.len() {
                Err(DecodeError::MalformedFrame)
            } else {
                prepend(seq![f], children_spec(s, q, n - 1))
            },
        }
    }
}

pub proof fn lemma_crlf_from(s: Seq<u8>, i: int)
    ensures
        crlf_from(s, i) matches Some(e) ==> 0 <= i <= e && e + 1 < s.len() && s[e] == 13 && s[e + 1] == 10,
    decreases s.len() - i,
{
    if !(i < 0 || i + 1 >= s.len()) && !(s[i] == 13 && s[i + 1] == 10) {
        lemma_crlf_from(s, i + 1);
    }
}

proof fn lemma_crlf_scan(s: Seq<u8>, i: int, e: int)
    requires
        0 <= i <= e,
        e + 1 < s.len(),
        s[e] == 13 && s[e + 1] == 10,
        forall|j: int| i <= j < e ==> !(#[trigger] s[j] == 13 && s[j + 1] == 10),
    ensures
        crlf_from(s, i) == Some(e),
    decreases e - i,
{
    if i < e {
        lemma_crlf_scan(s, i + 1, e);
    }
}

/// A line-safe payload followed by CR LF at `q` is read back as that line.
proof fn lemma_line(s: Seq<u8>, q: int, t: Seq<u8>)
    requires
        line_safe(t),
        0 <= q,
        q + t.len() + 2 <= s.len(),
        s.subrange(q, q + t.len() + 2) == t + crlf(),
    ensures
        line_at(s, q) == Some((t, q + t.len() + 2)),
{
    let w = t + crlf();
    let e = q + t.len();
    assert forall|k: int| 0 <= k < w.len() implies s[q + k] == #[trigger] w[k] by {
        assert(s.subrange(q, q + t.len() + 2)[k] == s[q + k]);
    }
    assert(s[e] == w[t.len() as int]);
    assert(s[e + 1] == w[t.len() as int + 1]);
    assert forall|j: int| q <= j < e implies !(#[trigger] s[j] == 13 && s[j + 1] == 10) by {
        assert(s[j] == w[j - q]);
        assert(s[j + 1] == w[j - q + 1]);
        if j - q + 1 < t.len() {
            assert(w[j - q] == t[j - q]);
            assert(w[j - q + 1] == t[j - q + 1]);
        } else {
            assert(w[j - q + 1] == 13);
        }
    }
    lemma_crlf_scan(s, q, e);
    assert(s.subrange(q, e) =~= t);
}

proof fn lemma_digits_line_safe(n: nat)
    ensures
        line_safe(decimal(n)),
        decimal(n).len() > 0,
        n <= i64::MAX ==> parse_int(decimal(n)) == Some(n as int),
{
    lemma_decimal(n);
    let t = decimal(n);
    assert forall|i: int| 0 <= i < t.len() - 1 implies !(#[trigger] t[i] == 13 && t[i + 1] == 10) by {
        assert(all_digits(t));
        assert(48 <= t[i]);
    }
    if n <= i64::MAX {
        lemma_parse_signed_decimal(n as int);
    }
}

/// Bytes at `p` that spell the wire form of an encodable value decode to that
/// value, ending just past those bytes, whatever follows them.
pub proof fn lemma_decode_frame_wire(s: Seq<u8>, p: int, f: Frame)
    requires
        encodable(f),
        0 <= p,
        p + frame_wire(f).len() <= s.len(),
        s.subrange(p, p + frame_wire(f).len()) == frame_wire(f),
    ensures
        decode_spec(s, p) == Ok::<(Frame, int), DecodeError>((f, p + frame_wire(f).len())),
    decreases f,
{
    let w = frame_wire(f);
    assert(s[p] == w[0]) by {
        assert(s.subrange(p, p + w.len())[0] == s[p]);
    }
    assert(s.subrange(p + 1, p + w.len()) =~= w.subrange(1, w.len() as int)) by {
        assert forall|k: int| 0 <= k < w.len() - 1 implies s.subrange(p + 1, p + w.len())[k] == w.subrange(1, w.len() as int)[k] by {
            assert(s.subrange(p, p + w.len())[k + 1] == s[p + 1 + k]);
        }
    }
    match f.kind {
        Type::BulkString => {
            let t = f.data;
            let n = t.len();
            let d = decimal(n);
            lemma_digits_line_safe(n);
            let next = p + 1 + d.len() + 2;
            assert(w =~= seq![36u8] + d + crlf() + t + crlf());
            assert(s.subrange(p + 1, p + 1 + d.len() + 2) =~= d + crlf()) by {
                assert(s.subrange(p + 1, p + 1 + d.len() + 2) =~= s.subrange(p + 1, p + w.len()).subrange(0, d.len() as int + 2));
            }
            lemma_line(s, p + 1, d);
            assert(s.subrange(next, next + n) =~= t) by {
                assert forall|k: int| 0 <= k < n implies s.subrange(next, next + n)[k] == t[k] by {
                    assert(s.subrange(p, p + w.len())[1 + d.len() + 2 + k] == s[next + k]);
                    assert(w[1 + d.len() + 2 + k] == t[k]);
                }
            }
            assert(s[next + n] == 13) by {
                assert(s.subrange(p, p + w.len())[1 + d.len() as int + 2 + n as int] == s[next + n]);
            }
            assert(s[next + n + 1] == 10) by {
                assert(s.subrange(p, p + w.len())[1 + d.len() as int + 2 + n as int + 1] == s[next + n + 1]);
            }
            assert(f.children =~= Seq::<Frame>::empty());
        },
        Type::Array => {
            let fs = f.children;
            let n = fs.len();
            let d = decimal(n);
            lemma_digits_line_safe(n);
            let next = p + 1 + d.len() + 2;
            let body = frames_wire(fs);
            assert(w =~= seq![42u8] + d + crlf() + body);
            assert(s.subrange(p + 1, p + 1 + d.len() + 2) =~= d + crlf()) by {
                assert(s.subrange(p + 1, p + 1 + d.len() + 2) =~= s.subrange(p + 1, p + w.len()).subrange(0, d.len() as int + 2));
            }
            lemma_line(s, p + 1, d);
            assert(s.subrange(next, next + body.len()) =~= body) by {
                assert forall|k: int| 0 <= k < body.len() implies s.subrange(next, next + body.len())[k] == body[k] by {
                    assert(s.subrange(p, p + w.len())[1 + d.len() + 2 + k] == s[next + k]);
                    assert(w[1 + d.len() + 2 + k] == body[k]);
                }
            }
            lemma_decode_frames_wire(s, next, fs);
            assert(f.data =~= Seq::<u8>::empty());
        },
        _ => {
            let t = f.data;
            assert(w =~= seq![type_byte(f.kind)] + t + crlf());
            assert(s.subrange(p + 1, p + 1 + t.len() + 2) =~= t + crlf()) by {
                assert(s.subrange(p + 1, p + 1 + t.len() + 2) =~= s.subrange(p + 1, p + w.len()));
            }
            lemma_line(s, p + 1, t);
            assert(f.children =~= Seq::<Frame>::empty());
        },
    }
}

/// Bytes at `p` that spell the wire forms of encodable values one after
/// another decode to those values, in order.
pub proof fn lemma_decode_frames_wire(s: Seq<u8>, p: int, fs: Seq<Frame>)
    requires
        forall|i: int| 0 <= i < fs.len() ==> encodable(#[trigger] fs[i]),
        0 <= p,
        p + frames_wire(fs).len() <= s.len(),
        s.subrange(p, p + frames_wire(fs).len()) == frames_wire(fs),
    ensures
        children_spec(s, p, fs.len() as int) == Ok::<(Seq<Frame>, int), DecodeError>((fs, p + frames_wire(fs).len())),
    decreases fs,
{
    if fs.len() > 0 {
        let w = frames_wire(fs);
        let head = frame_wire(fs[0]);
        let rest = fs.subrange(1, fs.len() as int);
        let tail = frames_wire(rest);
        assert(w == head + tail);
        assert(s.subrange(p, p + head.len()) =~= head) by {
            assert forall|k: int| 0 <= k < head.len() implies s.subrange(p, p + head.len())[k] == head[k] by {
                assert(s.subrange(p, p + w.len())[k] == s[p + k]);
                assert(w[k] == head[k]);
            }
        }
        assert(s.subrange(p + head.len(), p + head.len() + tail.len()) =~= tail) by {
            assert forall|k: int| 0 <= k < tail.len() implies s.subrange(p + head.len(), p + head.len() + tail.len())[k] == tail[k] by {
                assert(s.subrange(p, p + w.len())[head.len() + k] == s[p + head.len() + k]);
                assert(w[head.len() + k] == tail[k]);
            }
        }
        lemma_decode_frame_wire(s, p, fs[0]);
        assert forall|i: int| 0 <= i < rest.len() implies encodable(#[trigger] rest[i]) by {
            assert(rest[i] == fs[i + 1]);
        }
        lemma_decode_frames_wire(s, p + head.len(), rest);
        assert(seq![fs[0]] + rest =~= fs);
    } else {
        assert(fs =~= Seq::<Frame>::empty());
    }
}

/// Encoding then decoding gives back an equal value: a simple string written
/// by `append_simple_string` decodes to its text, a bulk string written by
/// `append_bulk_string` to its exact bytes (whatever they hold), and an integer
/// written by `append_integer` to a payload whose integer reading is that integer.
pub proof fn lemma_round_trip(t: Seq<u8>, n: i64, rest: Seq<u8>)
    ensures
        line_safe(t) ==> decode_spec(simple_string_wire(t) + rest, 0) == Ok::<(Frame, int), DecodeError>(
            (Frame { kind: Type::SimpleString, data: t, children: Seq::empty() }, simple_string_wire(t).len() as int),
        ),
        t.len() <= i64::MAX ==> decode_spec(bulk_string_wire(t) + rest, 0) == Ok::<(Frame, int), DecodeError>(
            (Frame { kind: Type::BulkString, data: t, children: Seq::empty() }, bulk_string_wire(t).len() as int),
        ),
        decode_spec(integer_wire(n as int) + rest, 0) == Ok::<(Frame, int), DecodeError>(
            (Frame { kind: Type::Integer, data: signed_decimal(n as int), children: Seq::empty() }, integer_wire(n as int).len() as int),
        ),
        parse_int(signed_decimal(n as int)) == Some(n as int),
{
    if line_safe(t) {
        let f = Frame { kind: Type::SimpleString, data: t, children: Seq::empty() };
        let s = simple_string_wire(t) + rest;
        assert(s.subrange(0, frame_wire(f).len() as int) =~= frame_wire(f));
        lemma_decode_frame_wire(s, 0, f);
    }
    if t.len() <= i64::MAX {
        let f = Frame { kind: Type::BulkString, data: t, children: Seq::empty() };
        let s = bulk_string_wire(t) + rest;
        assert(s.subrange(0, frame_wire(f).len() as int) =~= frame_wire(f));
        lemma_decode_frame_wire(s, 0, f);
    }
    let d = signed_decimal(n as int);
    lemma_parse_signed_decimal(n as int);
    lemma_decimal(if n < 0 { (-n) as nat } else { n as nat });
    assert(line_safe(d)) by {
        let m = if n < 0 { (-n) as nat } else { n as nat };
        assert forall|i: int| 0 <= i < d.len() - 1 implies !(#[trigger] d[i] == 13 && d[i + 1] == 10) by {
            if n < 0 {
                assert(d[i + 1] == decimal(m)[i]);
            } else {
                assert(d[i + 1] == decimal(m)[i + 1]);
            }
        }
    }
    let f = Frame { kind: Type::Integer, data: d, children: Seq::empty() };
    let s = integer_wire(n as int) + rest;
    assert(frame_wire(f) =~= integer_wire(n as int));
    assert(s.subrange(0, frame_wire(f).len() as int) =~= frame_wire(f));
    lemma_decode_frame_wire(s, 0, f);
}

/// For every `N`, an array header announcing `N` followed by `N` encoded values
/// decodes to an array whose children are those `N` values, in the same order.
pub proof fn lemma_array_round_trip(fs: Seq<Frame>, rest: Seq<u8>)
    requires
        fs.len() <= i64::MAX,
        forall|i: int| 0 <= i < fs.len() ==> encodable(#[trigger] fs[i]),
    ensures
        decode_spec(seq![42u8] + decimal(fs.len()) + crlf() + frames_wire(fs) + rest, 0) matches Ok((a, _))
            && a.kind == Type::Array && a.children.len() == fs.len() && a.children == fs,
{
    let f = Frame { kind: Type::Array, data: Seq::empty(), children: fs };
    let s = seq![42u8] + decimal(fs.len()) + crlf() + frames_wire(fs) + rest;
    assert(frame_wire(f) == seq![42u8] + decimal(fs.len()) + crlf() + frames_wire(fs));
    assert(s.subrange(0, frame_wire(f).len() as int) =~= frame_wire(f));
    lemma_decode_frame_wire(s, 0, f);
}

fn copy_range(b: &Vec<u8>, lo: usize, hi: usize) -> (r: Vec<u8>)
    requires
        lo <= hi <= b@.len(),
    ensures
        r@ == b@.subrange(lo as int, hi as int),
{
    let mut out: Vec<u8> = Vec::new();
    let mut i: usize = lo;
    while i < hi
        invariant
            lo <= i <= hi <= b@.len(),
            out@ == b@.subrange(lo as int, i as int),
        decreases hi - i,
    {
        out.push(b[i]);
        i = i + 1;
        proof {
            assert(out@ =~= b@.subrange(lo as int, i as int));
        }
    }
    out
}

/// A decoder that reads protocol values one at a time from a byte buffer.
pub struct RESPDecoder {
    buffer: Vec<u8>,
    pos: usize,
}

impl RESPDecoder {
    /// The bytes being decoded.
    pub closed spec fn input(&self) -> Seq<u8> {
        self.buffer@
    }

    /// Where the next value starts.
    pub closed spec fn position(&self) -> int {
        self.pos as int
    }

    pub fn new(buffer: Vec<u8>) -> (r: Self)
        ensures
            r.input() == buffer@,
            r.position() == 0,
    {
        RESPDecoder { buffer, pos: 0 }
    }

    /// How many bytes have been consumed so far.
    pub fn consumed(&self) -> (r: usize)
        ensures
            r == self.position(),
    {
        self.pos
    }

    /// Whether bytes remain after the current position.
    pub fn has_remaining(&self) -> (r: bool)
        ensures
            r == (self.position() < self.input().len()),
    {
        self.pos < self.buffer.len()
    }

    /// Decodes the value that starts at the current position and moves past it.
    pub fn next_resp(&mut self) -> (r: Result<RESP, DecodeError>)
        ensures
            final(self).input() == old(self).input(),
            match decode_spec(old(self).input(), old(self).position()) {
                Ok((f, e)) => r matches Ok(v) && v@ == f && final(self).position() == e,
                Err(x) => r matches Err(y) && y == x,
            },
        decreases old(self).input().len() - old(self).position(), 1int,
    {
        let data_type = match self.read_data_type() {
            Ok(t) => t,
            Err(e) => return Err(e),
        };
        match data_type {
            Type::BulkString => self.decode_bulk_string(),
            Type::Array => self.decode_array(),
            _ => {
                let bytes = match self.read_until_crlf() {
                    Ok(b) => b,
                    Err(e) => return Err(e),
                };
                let none: Vec<RESP> = Vec::new();
                proof {
                    assert(views(none@) =~= Seq::<Frame>::empty());
                }
                Ok(RESP::new(data_type, bytes, none))
            },
        }
    }

    /// Reads the leading byte and the kind that it announces.
    fn read_data_type(&mut self) -> (r: Result<Type, DecodeError>)
        ensures
            final(self).input() == old(self).input(),
            ({
                let s = old(self).input();
                let p = old(self).position();
                if p >= s.len() {
                    r == Err::<Type, DecodeError>(DecodeError::MalformedFrame)
                } else {
                    match type_of_byte(s[p]) {
                        Some(t) => r == Ok::<Type, DecodeError>(t) && final(self).position() == p + 1,
                        None => r == Err::<Type, DecodeError>(DecodeError::InvalidTypeByte),
                    }
                }
            }),
    {
        if self.pos >= self.buffer.len() {
            return Err(DecodeError::MalformedFrame);
        }
        let b = self.buffer[self.pos];
        match Type::from_byte(b) {
            Some(t) => {
                self.pos = self.pos + 1;
                Ok(t)
            },
            None => Err(DecodeError::InvalidTypeByte),
        }
    }

    /// Reads the bytes up to the next CR LF and moves past that terminator.
    pub fn read_until_crlf(&mut self) -> (r: Result<Vec<u8>, DecodeError>)
        ensures
            final(self).input() == old(self).input(),
            match line_at(old(self).input(), old(self).position()) {
                Some((line, next)) => r matches Ok(v) && v@ == line && final(self).position() == next,
                None => r matches Err(y) && y == DecodeError::MalformedFrame,
            },
    {
        let start = self.pos;
        let mut i: usize = self.pos;
        while i < self.buffer.len() && self.buffer.len() - i > 1
            invariant
                self.buffer@ == old(self).buffer@,
                start == self.pos,
                start == old(self).pos,
                start <= i,
                crlf_from(self.buffer@, start as int) == crlf_from(self.buffer@, i as int),
            decreases self.buffer@.len() - i,
        {
            if self.buffer[i] == 13 && self.buffer[i + 1] == 10 {
                let line = copy_range(&self.buffer, start, i);
                self.pos = i + 2;
                return Ok(line);
            }
            i = i + 1;
        }
        Err(DecodeError::MalformedFrame)
    }

    /// Reads a bulk string whose length line starts at the current position.
    fn decode_bulk_string(&mut self) -> (r: Result<RESP, DecodeError>)
        ensures
            final(self).input() == old(self).input(),
            match bulk_spec(old(self).input(), old(self).position()) {
                Ok((f, e)) => r matches Ok(v) && v@ == f && final(self).position() == e,
                Err(x) => r matches Err(y) && y == x,
            },
    {
        let ghost p = self.pos as int;
        let line = match self.read_until_crlf() {
            Ok(b) => b,
            Err(e) => return Err(e),
        };
        proof {
            lemma_crlf_from(self.buffer@, p);
        }
        let n = match parse_i64(line.as_slice()) {
            Some(n) => n,
            None => return Err(DecodeError::InvalidLength),
        };
        if n == -1 {
            let none: Vec<RESP> = Vec::new();
            proof {
                assert(views(none@) =~= Seq::<Frame>::empty());
            }
            return Ok(RESP::new(Type::BulkString, Vec::new(), none));
        }
        if n < 0 {
            return Err(DecodeError::InvalidLength);
        }
        let next = self.pos;
        let len = self.buffer.len();
        if (n as u128) + 2 > (len - next) as u128 {
            return Err(DecodeError::MalformedFrame);
        }
        let end = next + n as usize;
        if self.buffer[end] != 13 || self.buffer[end + 1] != 10 {
            return Err(DecodeError::MalformedFrame);
        }
        let data = copy_range(&self.buffer, next, end);
        self.pos = end + 2;
        let none: Vec<RESP> = Vec::new();
        proof {
            assert(views(none@) =~= Seq::<Frame>::empty());
        }
        Ok(RESP::new(Type::BulkString, data, none))
    }

    /// Reads an array whose count line starts at the current position, and
    /// then each of its children.
    fn decode_array(&mut self) -> (r: Result<RESP, DecodeError>)
        ensures
            final(self).input() == old(self).input(),
            match array_spec(old(self).input(), old(self).position()) {
                Ok((f, e)) => r matches Ok(v) && v@ == f && final(self).position() == e,
                Err(x) => r matches Err(y) && y == x,
            },
        decreases old(self).input().len() - old(self).position(), 0int,
    {
        let ghost s = self.buffer@;
        let ghost p = self.pos as int;
        let line = match self.read_until_crlf() {
            Ok(b) => b,
            Err(e) => return Err(e),
        };
        proof {
            lemma_crlf_from(s, p);
        }
        let count = match parse_i64(line.as_slice()) {
            Some(n) => n,
            None => return Err(DecodeError::InvalidLength),
        };
        if count < 0 {
            return Err(DecodeError::InvalidLength);
        }
        let next = self.pos;
        proof {
            assert(array_spec(s, p) == match children_spec(s, next as int, count as int) {
                Ok((fs, e)) => Ok((Frame { kind: Type::Array, data: Seq::empty(), children: fs }, e)),
                Err(x) => Err(x),
            });
        }
        let mut children: Vec<RESP> = Vec::new();
        let mut i: i64 = 0;
        while i < count
            invariant
                self.buffer@ == s,
                s == old(self).input(),
                p == old(self).position(),
                array_spec(s, p) == match children_spec(s, next as int, count as int) {
                    Ok((fs, e)) => Ok((Frame { kind: Type::Array, data: Seq::empty(), children: fs }, e)),
                    Err(x) => Err(x),
                },
                0 <= i <= count,
                p < next <= self.pos <= s.len(),
                children_spec(s, next as int, count as int) == prepend(
                    views(children@),
                    children_spec(s, self.pos as int, (count - i) as int),
                ),
            decreases count - i,
        {
            let here = self.pos;
            let child = match self.next_resp() {
                Ok(c) => c,
                Err(e) => {
                    proof {
                        assert(children_spec(s, here as int, (count - i) as int) == Err::<(Seq<Frame>, int), DecodeError>(e));
                        assert(children_spec(s, next as int, count as int) == Err::<(Seq<Frame>, int), DecodeError>(e));
                    }
                    return Err(e);
                },
            };
            if self.pos <= here || self.pos > self.buffer.len() {
                proof {
                    assert(children_spec(s, here as int, (count - i) as int) == Err::<(Seq<Frame>, int), DecodeError>(DecodeError::MalformedFrame));
                }
                return Err(DecodeError::MalformedFrame);
            }
            let ghost before = views(children@);
            children.push(child);
            proof {
                assert(views(children@) =~= before + seq![child@]);
                let rest = children_spec(s, self.pos as int, (count - i - 1) as int);
                match rest {
                    Ok((fs, e)) => {
                        assert(before + (seq![child@] + fs) =~= views(children@) + fs);
                    },
                    Err(x) => {},
                }
            }
            i = i + 1;
        }
        proof {
            assert(views(children@) + Seq::<Frame>::empty() =~= views(children@));
        }
        Ok(RESP::new(Type::Array, Vec::new(), children))
    }
}

} // verus!
