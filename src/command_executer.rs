use crate::encoder::{append_bulk_string, append_integer, append_simple_string, bulk_string_wire, integer_wire, simple_string_wire};
use crate::resp::RESP;
use crate::text::{lossy_of, lower_of, lowercase, same_text};
use vstd::prelude::*;
use vstd::utf8::encode_utf8;

verus! {

/// The lowercased command name of a request, empty when it holds no value.
pub open spec fn name_of(args: Seq<RESP>) -> Seq<char> {
    if args.len() == 0 {
        Seq::empty()
    } else {
        lower_of(lossy_of(args[0]@.data))
    }
}

/// The text of the first argument of a request, empty when there is none.
pub open spec fn first_argument(args: Seq<RESP>) -> Seq<char> {
    if args.len() <= 1 {
        Seq::empty()
    } else {
        lossy_of(args[1]@.data)
    }
}

/// The reply of the store-less executor: `PONG` to `ping`, the argument to
/// `echo`, and the integer 0 to anything else.
pub open spec fn stateless_reply(args: Seq<RESP>) -> Seq<u8> {
    let name = name_of(args);
    if name == "ping"@ {
        simple_string_wire(encode_utf8("PONG"@))
    } else if name == "echo"@ {
        bulk_string_wire(encode_utf8(first_argument(args)))
    } else {
        integer_wire(0)
    }
}

/// Executes the commands that need no store: `ping` and `echo`.
pub struct CommandExecuter<'a> {
    args: &'a Vec<RESP>,
}

impl<'a> CommandExecuter<'a> {
    /// The values of the request.
    pub closed spec fn args(&self) -> Seq<RESP> {
        self.args@
    }

    pub fn new(args: &'a Vec<RESP>) -> (r: Self)
        ensures
            r.args() == args@,
    {
        CommandExecuter { args }
    }

    /// The reply bytes for the request.
    pub fn execute(&self) -> (r: Vec<u8>)
        ensures
            r@ == stateless_reply(self.args()),
    {
        let mut response_bytes: Vec<u8> = Vec::new();
        let name = self.command();
        if same_text(name.as_str(), "ping") {
            append_pong(&mut response_bytes);
        } else if same_text(name.as_str(), "echo") {
            let value = self.value();
            append_bulk_string(&mut response_bytes, value.as_str().as_bytes());
        } else {
            append_integer(&mut response_bytes, 0);
        }
        proof {
            assert(response_bytes@ =~= stateless_reply(self.args()));
        }
        response_bytes
    }

    fn command(&self) -> (r: String)
        ensures
            r@ == name_of(self.args()),
    {
        if self.args.len() == 0 {
            return String::new();
        }
        let name = self.args[0].string();
        lowercase(name.as_str())
    }

    fn value(&self) -> (r: String)
        ensures
            r@ == first_argument(self.args()),
    {
        if self.args.len() <= 1 {
            return String::new();
        }
        self.args[1].string()
    }
}

/// Appends the simple string reply `PONG`.
pub fn append_pong(bytes: &mut Vec<u8>)
    ensures
        final(bytes)@ == old(bytes)@ + simple_string_wire(encode_utf8("PONG"@)),
{
    append_simple_string(bytes, "PONG");
}

} // verus!
