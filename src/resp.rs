use crate::decimal::{parse_i64, parse_int};
use crate::text::{lossy_of, utf8_lossy};
use vstd::prelude::*;

verus! {

/// The five kinds of protocol value, each announced on the wire by its own leading byte.
#[derive(Debug, Clone, Copy, PartialEq, Eq, Structural)]
pub enum Type {
    SimpleString,
    Error,
    Integer,
    BulkString,
    Array,
}

/// The leading byte of each kind: `+`, `-`, `:`, `$`, `*`.
pub open spec fn type_byte(t: Type) -> u8 {
    match t {
        Type::SimpleString => 43,
        Type::Error => 45,
        Type::Integer => 58,
        Type::BulkString => 36,
        Type::Array => 42,
    }
}

/// The kind that a leading byte announces, if any.
pub open spec fn type_of_byte(b: u8) -> Option<Type> {
    if b == 43 {
        Some(Type::SimpleString)
    } else if b == 45 {
        Some(Type::Error)
    } else if b == 58 {
        Some(Type::Integer)
    } else if b == 36 {
        Some(Type::BulkString)
    } else if b == 42 {
        Some(Type::Array)
    } else {
        None
    }
}

impl Type {
    /// The kind that a leading byte announces, or `None` for any other byte.
    pub fn from_byte(b: u8) -> (r: Option<Type>)
        ensures
            r == type_of_byte(b),
    {
        if b == 43 {
            Some(Type::SimpleString)
        } else if b == 45 {
            Some(Type::Error)
        } else if b == 58 {
            Some(Type::Integer)
        } else if b == 36 {
            Some(Type::BulkString)
        } else if b == 42 {
            Some(Type::Array)
        } else {
            None
        }
    }

    /// The leading byte that announces this kind on the wire.
    pub fn symbol(&self) -> (r: u8)
        ensures
            r == type_byte(*self),
            type_of_byte(r) == Some(*self),
    {
        match self {
            Type::SimpleString => 43,
            Type::Error => 45,
            Type::Integer => 58,
            Type::BulkString => 36,
            Type::Array => 42,
        }
    }
}

/// Why a decode attempt failed.
#[derive(Debug, Clone, Copy, PartialEq, Eq, Structural)]
pub enum DecodeError {
    /// The leading byte announces none of the five kinds.
    InvalidTypeByte,
    /// The frame ends before its terminator or its announced bytes.
    MalformedFrame,
    /// A length or count line is not an integer, or is out of range.
    InvalidLength,
    /// An integer payload does not spell a signed 64-bit integer.
    InvalidInteger,
}

/// An error reply: its code (such as `ERR`) and its message.
#[derive(Debug, Clone, PartialEq)]
pub struct RESPError {
    pub error_type: String,
    pub message: String,
}

impl RESPError {
    pub fn new(error_type: String, message: String) -> (r: Self)
        ensures
            r.error_type == error_type,
            r.message == message,
    {
        RESPError { error_type, message }
    }
}

/// Mathematical model of a protocol value: its kind, its raw payload and its children.
pub struct Frame {
    pub kind: Type,
    pub data: Seq<u8>,
    pub children: Seq<Frame>,
}

/// The models of a sequence of values.
pub open spec fn views(s: Seq<RESP>) -> Seq<Frame> {
    s.map_values(|c: RESP| c@)
}

/// One decoded protocol unit.
#[derive(Debug)]
pub struct RESP {
    pub value_type: Type,
    data: Vec<u8>,
    children: Vec<RESP>,
}

impl RESP {
    pub closed spec fn view(&self) -> Frame
        decreases self,
    {
        Frame {
            kind: self.value_type,
            data: self.data@,
            children: Seq::new(
                self.children@.len(),
                |i: int|
                    if 0 <= i < self.children@.len() {
                        self.children@[i].view()
                    } else {
                        Frame { kind: Type::Array, data: Seq::empty(), children: Seq::empty() }
                    },
            ),
        }
    }

    proof fn lemma_view(&self)
        ensures
            self@ == (Frame { kind: self.value_type, data: self.data@, children: views(self.children@) }),
    {
        assert(self@.children =~= views(self.children@));
    }

    pub fn new(value_type: Type, data: Vec<u8>, children: Vec<RESP>) -> (r: Self)
        ensures
            r@ == (Frame { kind: value_type, data: data@, children: views(children@) }),
    {
        let r = RESP { value_type, data, children };
        proof {
            r.lemma_view();
        }
        r
    }

    /// The payload read as text, invalid sequences replaced.
    pub fn string(&self) -> (r: String)
        ensures
            r@ == lossy_of(self@.data),
    {
        proof {
            self.lemma_view();
        }
        utf8_lossy(self.data.as_slice())
    }

    /// The kind of the value.
    pub fn kind(&self) -> (r: Type)
        ensures
            r == self@.kind,
    {
        proof {
            self.lemma_view();
        }
        self.value_type
    }

    /// The raw payload.
    pub fn bytes(&self) -> (r: &[u8])
        ensures
            r@ == self@.data,
    {
        proof {
            self.lemma_view();
        }
        self.data.as_slice()
    }

    /// The payload read as a signed 64-bit integer.
    pub fn integer(&self) -> (r: Result<i64, DecodeError>)
        ensures
            match parse_int(self@.data) {
                Some(x) => r == Ok::<i64, DecodeError>(x as i64),
                None => r == Err::<i64, DecodeError>(DecodeError::InvalidInteger),
            },
    {
        proof {
            self.lemma_view();
        }
        match parse_i64(self.data.as_slice()) {
            Some(v) => Ok(v),
            None => Err(DecodeError::InvalidInteger),
        }
    }

    /// The children of an array; empty for every other kind.
    pub fn array(&self) -> (r: &Vec<RESP>)
        ensures
            views(r@) == self@.children,
    {
        proof {
            self.lemma_view();
        }
        &self.children
    }
}

} // verus!
