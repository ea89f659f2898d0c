use crate::encoder::{
    append_bulk_string, append_error, append_null_string, append_simple_string, bulk_string_wire,
    error_wire, null_string_wire, simple_string_wire,
};
use crate::resp::RESP;
use crate::store::{lookup, text_of, Entry, SetOptions, Store, StoreValue, after_set};
use crate::text::{lossy_of, lower_of, lowercase, same_text};
use std::sync::{RwLock, RwLockReadGuard, RwLockWriteGuard};
use vstd::prelude::*;
use vstd::utf8::encode_utf8;

verus! {

/// `std::sync::RwLock`, the lock that guards the shared store; opaque here.
#[verifier::external_type_specification]
#[verifier::external_body]
#[verifier::reject_recursive_types(T)]
pub struct ExRwLock<T: ?Sized>(std::sync::RwLock<T>);

/// What a request asks for, once its name and its number of arguments are known.
#[derive(Debug, Clone, Copy, PartialEq, Eq, Structural)]
pub enum Plan {
    Ping,
    Echo,
    SetValue,
    GetValue,
    EchoArity,
    SetArity,
    GetArity,
    Unsupported,
}

/// The plan for a request whose lowercased name is `name` and which holds
/// `argc` values, the name included.
pub open spec fn plan_spec(name: Seq<char>, argc: int) -> Plan {
    if name == "ping"@ {
        Plan::Ping
    } else if name == "echo"@ {
        if argc < 2 {
            Plan::EchoArity
        } else {
            Plan::Echo
        }
    } else if name == "set"@ {
        if argc < 3 {
            Plan::SetArity
        } else {
            Plan::SetValue
        }
    } else if name == "get"@ {
        if argc < 2 {
            Plan::GetArity
        } else {
            Plan::GetValue
        }
    } else {
        Plan::Unsupported
    }
}

/// `-ERR <message>\r\n`
pub open spec fn err_reply(message: &str) -> Seq<u8> {
    error_wire(encode_utf8("ERR"@), encode_utf8(message@))
}

pub open spec fn internal_error_reply() -> Seq<u8> {
    err_reply("internal server error occurred")
}

/// The reply to a `set` whose store access gave `r` (`Err` when the lock was poisoned).
pub open spec fn set_reply_spec(r: Result<Option<StoreValue>, ()>) -> Seq<u8> {
    match r {
        Ok(_) => simple_string_wire(encode_utf8("OK"@)),
        Err(_) => internal_error_reply(),
    }
}

/// The reply to a `get` whose store access gave `r` (`Err` when the lock was poisoned).
pub open spec fn get_reply_spec(r: Result<Option<String>, ()>) -> Seq<u8> {
    match r {
        Ok(Some(v)) => bulk_string_wire(encode_utf8(v@)),
        Ok(None) => null_string_wire(),
        Err(_) => internal_error_reply(),
    }
}

/// The reply to a request whose plan needs no store access.
pub open spec fn plain_reply_spec(plan: Plan, args: Seq<RESP>) -> Seq<u8> {
    match plan {
        Plan::Ping => simple_string_wire(encode_utf8("PONG"@)),
        Plan::Echo => bulk_string_wire(args[1]@.data),
        Plan::EchoArity => err_reply("wrong number of arguments for 'echo' command"),
        Plan::SetArity => err_reply("wrong number of arguments for 'set' command"),
        Plan::GetArity => err_reply("wrong number of arguments for 'get' command"),
        _ => err_reply("unsupported command"),
    }
}

/// A request to `echo`, `set` or `get` with fewer values than the command
/// needs gets the error `ERR wrong number of arguments for '<name>' command`.
pub proof fn lemma_arity_error(name: Seq<char>, argc: int, args: Seq<RESP>)
    requires
        (name == "echo"@ && argc < 2) || (name == "set"@ && argc < 3) || (name == "get"@ && argc < 2),
    ensures
        plain_reply_spec(plan_spec(name, argc), args) == error_wire(
            encode_utf8("ERR"@),
            encode_utf8("wrong number of arguments for '"@ + name + "' command"@),
        ),
{
    reveal_strlit("ping");
    reveal_strlit("echo");
    reveal_strlit("set");
    reveal_strlit("get");
    reveal_strlit("wrong number of arguments for '");
    reveal_strlit("' command");
    reveal_strlit("wrong number of arguments for 'echo' command");
    reveal_strlit("wrong number of arguments for 'set' command");
    reveal_strlit("wrong number of arguments for 'get' command");
    assert("echo"@[0] != "ping"@[0]);
    assert("set"@.len() != "ping"@.len() && "set"@.len() != "echo"@.len());
    assert("get"@.len() != "ping"@.len() && "get"@.len() != "echo"@.len() && "get"@[0] != "set"@[0]);
    if name == "echo"@ {
        assert(name != "ping"@);
        assert("wrong number of arguments for '"@ + name + "' command"@ =~= "wrong number of arguments for 'echo' command"@);
    } else if name == "set"@ {
        assert(name != "ping"@);
        assert(name != "echo"@);
        assert("wrong number of arguments for '"@ + name + "' command"@ =~= "wrong number of arguments for 'set' command"@);
    } else {
        assert(name != "ping"@);
        assert(name != "echo"@);
        assert(name != "set"@);
        assert("wrong number of arguments for '"@ + name + "' command"@ =~= "wrong number of arguments for 'get' command"@);
    }
}

/// Chooses what to do for a request from its lowercased name and its number
/// of values.
pub fn plan_command(name: &str, argc: usize) -> (r: Plan)
    ensures
        r == plan_spec(name@, argc as int),
{
    if same_text(name, "ping") {
        Plan::Ping
    } else if same_text(name, "echo") {
        if argc < 2 {
            Plan::EchoArity
        } else {
            Plan::Echo
        }
    } else if same_text(name, "set") {
        if argc < 3 {
            Plan::SetArity
        } else {
            Plan::SetValue
        }
    } else if same_text(name, "get") {
        if argc < 2 {
            Plan::GetArity
        } else {
            Plan::GetValue
        }
    } else {
        Plan::Unsupported
    }
}

/// The reply to a `set`, given the outcome of the store access.
pub fn set_reply(r: Result<Option<StoreValue>, ()>) -> (out: Vec<u8>)
    ensures
        out@ == set_reply_spec(r),
{
    let mut out: Vec<u8> = Vec::new();
    match r {
        Ok(_) => append_simple_string(&mut out, "OK"),
        Err(_) => append_error(&mut out, "ERR", "internal server error occurred"),
    }
    proof {
        assert(out@ =~= set_reply_spec(r));
    }
    out
}

/// The reply to a `get`, given the outcome of the store access.
pub fn get_reply(r: Result<Option<String>, ()>) -> (out: Vec<u8>)
    ensures
        out@ == get_reply_spec(r),
{
    let mut out: Vec<u8> = Vec::new();
    match &r {
        Ok(Some(v)) => append_bulk_string(&mut out, v.as_str().as_bytes()),
        Ok(None) => append_null_string(&mut out),
        Err(_) => append_error(&mut out, "ERR", "internal server error occurred"),
    }
    proof {
        assert(out@ =~= get_reply_spec(r));
    }
    out
}

/// The reply to a request whose plan needs no store access.
pub fn plain_reply(plan: Plan, args: &Vec<RESP>) -> (out: Vec<u8>)
    requires
        plan != Plan::SetValue,
        plan != Plan::GetValue,
        plan == Plan::Echo ==> args@.len() >= 2,
    ensures
        out@ == plain_reply_spec(plan, args@),
{
    let mut out: Vec<u8> = Vec::new();
    match plan {
        Plan::Ping => append_simple_string(&mut out, "PONG"),
        Plan::Echo => append_bulk_string(&mut out, args[1].bytes()),
        Plan::EchoArity => append_error(&mut out, "ERR", "wrong number of arguments for 'echo' command"),
        Plan::SetArity => append_error(&mut out, "ERR", "wrong number of arguments for 'set' command"),
        Plan::GetArity => append_error(&mut out, "ERR", "wrong number of arguments for 'get' command"),
        _ => append_error(&mut out, "ERR", "unsupported command"),
    }
    proof {
        assert(out@ =~= plain_reply_spec(plan, args@));
    }
    out
}

/// `std::sync::RwLockReadGuard`, shared access held until it is dropped; opaque here.
#[verifier::external_type_specification]
#[verifier::external_body]
#[verifier::reject_recursive_types(T)]
pub struct ExRwLockReadGuard<'a, T: ?Sized>(std::sync::RwLockReadGuard<'a, T>);

/// `std::sync::RwLockWriteGuard`, exclusive access held until it is dropped; opaque here.
#[verifier::external_type_specification]
#[verifier::external_body]
#[verifier::reject_recursive_types(T)]
pub struct ExRwLockWriteGuard<'a, T: ?Sized + 'a>(std::sync::RwLockWriteGuard<'a, T>);

/// Relies on `RwLock::write`: blocks until no other reader or writer holds the
/// lock, then gives exclusive access; `Err` when the lock is poisoned.
#[verifier::external_body]
fn write_lock<'a>(lock: &'a RwLock<Store>) -> (r: Result<RwLockWriteGuard<'a, Store>, ()>) {
    lock.write().map_err(|_| ())
}

/// Relies on `RwLock::read`: blocks until no writer holds the lock, then gives
/// shared access; `Err` when the lock is poisoned.
#[verifier::external_body]
fn read_lock<'a>(lock: &'a RwLock<Store>) -> (r: Result<RwLockReadGuard<'a, Store>, ()>) {
    lock.read().map_err(|_| ())
}

/// Relies on `DerefMut` of `RwLockWriteGuard`: the store that the guard holds.
#[verifier::external_body]
fn write_target<'a, 'b>(guard: &'b mut RwLockWriteGuard<'a, Store>) -> (r: &'b mut Store) {
    &mut *guard
}

/// Relies on `Deref` of `RwLockReadGuard`: the store that the guard holds.
#[verifier::external_body]
fn read_target<'a, 'b>(guard: &'b RwLockReadGuard<'a, Store>) -> (r: &'b Store) {
    &*guard
}

/// The reply to `get(k)` on a store `m` at instant `now`: the visible value as
/// a bulk string, or the null bulk string.
pub open spec fn lookup_reply(m: Map<Seq<char>, Entry>, k: Seq<char>, now: int) -> Seq<u8> {
    match lookup(m, k, now) {
        Some(v) => bulk_string_wire(encode_utf8(v)),
        None => null_string_wire(),
    }
}

/// Runs `set` on a store that the caller holds: stores the text of `args[2]`
/// under the text of `args[1]`, with no expiration option, and answers `+OK`.
pub fn set_in_store(store: &mut Store, args: &Vec<RESP>) -> (r: Vec<u8>)
    requires
        args@.len() >= 3,
    ensures
        exists|now: u128|
            final(store)@ == after_set(
                old(store)@,
                lossy_of(args@[1]@.data),
                lossy_of(args@[2]@.data),
                None,
                now as int,
            ),
        r@ == simple_string_wire(encode_utf8("OK"@)),
{
    let key = args[1].string();
    let value = args[2].string();
    let options = SetOptions::new();
    let previous = store.set(key, value, &options);
    set_reply(Ok(previous))
}

/// Runs `get` on a store that the caller holds: the value visible under the
/// key `args[1]`, read as text, as a bulk string, or the null bulk string.
pub fn get_from_store(store: &Store, args: &Vec<RESP>) -> (r: Vec<u8>)
    requires
        args@.len() >= 2,
    ensures
        exists|now: u128| r@ == #[trigger] lookup_reply(store@, lossy_of(args@[1]@.data), now as int),
{
    let key = args[1].string();
    let value = store.get(key);
    let r = get_reply(Ok(value));
    proof {
        let now = choose|now: u128| text_of(value) == lookup(store@, lossy_of(args@[1]@.data), now as int);
        assert(r@ == lookup_reply(store@, lossy_of(args@[1]@.data), now as int));
    }
    r
}

/// Runs `set` on the shared store under its write lock; `Err` when the lock
/// is poisoned.
fn locked_set(lock: &RwLock<Store>, args: &Vec<RESP>) -> (r: Result<Vec<u8>, ()>)
    requires
        args@.len() >= 3,
    ensures
        r matches Ok(reply) ==> reply@ == simple_string_wire(encode_utf8("OK"@)),
{
    match write_lock(lock) {
        Ok(mut guard) => {
            let store = write_target(&mut guard);
            Ok(set_in_store(store, args))
        },
        Err(_) => Err(()),
    }
}

/// Runs `get` on the shared store under its read lock; `Err` when the lock
/// is poisoned.
fn locked_get(lock: &RwLock<Store>, args: &Vec<RESP>) -> (r: Result<Vec<u8>, ()>)
    requires
        args@.len() >= 2,
    ensures
        r matches Ok(reply) ==> exists|m: Map<Seq<char>, Entry>, now: u128|
            reply@ == #[trigger] lookup_reply(m, lossy_of(args@[1]@.data), now as int),
{
    match read_lock(lock) {
        Ok(guard) => {
            let store = read_target(&guard);
            let reply = get_from_store(store, args);
            proof {
                let now = choose|now: u128| reply@ == #[trigger] lookup_reply(store@, lossy_of(args@[1]@.data), now as int);
                assert(reply@ == lookup_reply(store@, lossy_of(args@[1]@.data), now as int));
            }
            Ok(reply)
        },
        Err(_) => Err(()),
    }
}

/// Executes one request (its values, the command name first) against a shared store.
pub struct CommandExecutor<'a> {
    args: &'a Vec<RESP>,
    store: &'a RwLock<Store>,
}

impl<'a> CommandExecutor<'a> {
    /// The values of the request.
    pub closed spec fn args(&self) -> Seq<RESP> {
        self.args@
    }

    pub fn new(args: &'a Vec<RESP>, store: &'a RwLock<Store>) -> (r: Self)
        ensures
            r.args() == args@,
    {
        CommandExecutor { args, store }
    }

    /// The lowercased name of the command, if the request holds any value.
    fn command(&self) -> (r: Option<String>)
        ensures
            match r {
                Some(n) => self.args().len() > 0 && n@ == lower_of(lossy_of(self.args()[0]@.data)),
                None => self.args().len() == 0,
            },
    {
        if self.args.len() == 0 {
            return None;
        }
        let name = self.args[0].string();
        Some(lowercase(name.as_str()))
    }

    /// The reply bytes for the request.
    pub fn execute(&self) -> (r: Vec<u8>)
        ensures
            self.args().len() == 0 ==> r@ == err_reply("command is not provided"),
            self.args().len() > 0 ==> ({
                let plan = plan_spec(lower_of(lossy_of(self.args()[0]@.data)), self.args().len() as int);
                match plan {
                    Plan::SetValue => r@ == simple_string_wire(encode_utf8("OK"@)) || r@ == internal_error_reply(),
                    Plan::GetValue => r@ == internal_error_reply() || exists|m: Map<Seq<char>, Entry>, now: u128|
                        r@ == #[trigger] lookup_reply(m, lossy_of(self.args()[1]@.data), now as int),
                    _ => r@ == plain_reply_spec(plan, self.args()),
                }
            }),
    {
        match self.command() {
            Some(name) => {
                let plan = plan_command(name.as_str(), self.args.len());
                match plan {
                    Plan::SetValue => self.execute_set_command(),
                    Plan::GetValue => self.execute_get_command(),
                    _ => plain_reply(plan, self.args),
                }
            },
            None => {
                let mut out: Vec<u8> = Vec::new();
                append_error(&mut out, "ERR", "command is not provided");
                proof {
                    assert(out@ =~= err_reply("command is not provided"));
                }
                out
            },
        }
    }

    fn execute_set_command(&self) -> (r: Vec<u8>)
        requires
            self.args().len() >= 3,
        ensures
            r@ == simple_string_wire(encode_utf8("OK"@)) || r@ == internal_error_reply(),
    {
        match locked_set(self.store, self.args) {
            Ok(reply) => reply,
            Err(_) => {
                let mut out: Vec<u8> = Vec::new();
                append_error(&mut out, "ERR", "internal server error occurred");
                proof {
                    assert(out@ =~= internal_error_reply());
                }
                out
            },
        }
    }

    fn execute_get_command(&self) -> (r: Vec<u8>)
        requires
            self.args().len() >= 2,
        ensures
            r@ == internal_error_reply() || exists|m: Map<Seq<char>, Entry>, now: u128|
                r@ == #[trigger] lookup_reply(m, lossy_of(self.args()[1]@.data), now as int),
    {
        match locked_get(self.store, self.args) {
            Ok(reply) => reply,
            Err(_) => {
                let mut out: Vec<u8> = Vec::new();
                append_error(&mut out, "ERR", "internal server error occurred");
                proof {
                    assert(out@ =~= internal_error_reply());
                }
                out
            },
        }
    }
}

} // verus!
