//! Commands: the requests that a client sends.

use vstd::prelude::*;
use vstd::string::is_ascii_spec_bytes;
use crate::bytes::{byte_strings, bytes_of, text};
use crate::digits::{decimal, render_decimal};

verus! {

/// A request: the command's name, then its arguments, each a byte string.
#[derive(Clone, Debug, PartialEq, Eq)]
pub struct Command {
    pub args: Vec<Vec<u8>>,
}

impl View for Command {
    type V = Seq<Seq<u8>>;

    open spec fn view(&self) -> Seq<Seq<u8>> {
        byte_strings(self.args@)
    }
}

impl Command {
    /// The command made of `args`, in that order.
    pub fn new(args: Vec<Vec<u8>>) -> (command: Command)
        ensures
            command@ == byte_strings(args@),
    {
        Command { args }
    }
}

/// The request that fetches the string stored at `key`.
pub open spec fn get_request(key: Seq<u8>) -> Seq<Seq<u8>> {
    seq![text("GET"), key]
}

/// The request that stores the string `value` at `key`.
pub open spec fn set_request(key: Seq<u8>, value: Seq<u8>) -> Seq<Seq<u8>> {
    seq![text("SET"), key, value]
}

/// The request that pushes `values`, in that order, onto the head of the
/// list at `key`: the value pushed last is popped first.
pub open spec fn lpush_request(key: Seq<u8>, values: Seq<Seq<u8>>) -> Seq<Seq<u8>> {
    seq![text("LPUSH"), key] + values
}

/// The request that pops up to `count` values off the head of the list at
/// `key`.
pub open spec fn lpop_request(key: Seq<u8>, count: nat) -> Seq<Seq<u8>> {
    seq![text("LPOP"), key, decimal(count)]
}

/// The request that gives `field` the value `value` in the hash at `key`.
pub open spec fn hset_request(key: Seq<u8>, field: Seq<u8>, value: Seq<u8>) -> Seq<Seq<u8>> {
    seq![text("HSET"), key, field, value]
}

/// The request that fetches the value of `field` in the hash at `key`.
pub open spec fn hget_request(key: Seq<u8>, field: Seq<u8>) -> Seq<Seq<u8>> {
    seq![text("HGET"), key, field]
}

/// The request that fetches every field and value of the hash at `key`.
pub open spec fn hgetall_request(key: Seq<u8>) -> Seq<Seq<u8>> {
    seq![text("HGETALL"), key]
}

/// The request that lets `key` expire after `seconds` seconds.
pub open spec fn expire_request(key: Seq<u8>, seconds: nat) -> Seq<Seq<u8>> {
    seq![text("EXPIRE"), key, decimal(seconds)]
}

/// The request that deletes `keys`.
pub open spec fn del_request(keys: Seq<Seq<u8>>) -> Seq<Seq<u8>> {
    seq![text("DEL")] + keys
}

/// The request that lists the keys that match the glob `pattern`.
pub open spec fn keys_request(pattern: Seq<u8>) -> Seq<Seq<u8>> {
    seq![text("KEYS"), pattern]
}

/// The request that asks for the type of the value stored at `key`.
pub open spec fn type_request(key: Seq<u8>) -> Seq<Seq<u8>> {
    seq![text("TYPE"), key]
}

impl Command {
    /// `GET key`.
    pub fn get(key: Vec<u8>) -> (command: Command)
        ensures
            command@ == get_request(key@),
    {
        let mut args: Vec<Vec<u8>> = Vec::new();
        args.push(bytes_of("GET"));
        args.push(key);
        assert(byte_strings(args@) =~= get_request(key@));
        Command { args }
    }

    /// `SET key value`.
    pub fn set(key: Vec<u8>, value: Vec<u8>) -> (command: Command)
        ensures
            command@ == set_request(key@, value@),
    {
        let mut args: Vec<Vec<u8>> = Vec::new();
        args.push(bytes_of("SET"));
        args.push(key);
        args.push(value);
        assert(byte_strings(args@) =~= set_request(key@, value@));
        Command { args }
    }

    /// `LPUSH key value ...`.
    pub fn lpush(key: Vec<u8>, values: Vec<Vec<u8>>) -> (command: Command)
        ensures
            command@ == lpush_request(key@, byte_strings(values@)),
    {
        let mut args: Vec<Vec<u8>> = Vec::new();
        let mut values = values;
        let ghost pushed = byte_strings(values@);
        args.push(bytes_of("LPUSH"));
        args.push(key);
        args.append(&mut values);
        assert(byte_strings(args@) =~= lpush_request(key@, pushed));
        Command { args }
    }

    /// `LPOP key count`.
    pub fn lpop(key: Vec<u8>, count: u32) -> (command: Command)
        ensures
            command@ == lpop_request(key@, count as nat),
    {
        let mut args: Vec<Vec<u8>> = Vec::new();
        args.push(bytes_of("LPOP"));
        args.push(key);
        args.push(render_decimal(count as u64));
        assert(byte_strings(args@) =~= lpop_request(key@, count as nat));
        Command { args }
    }

    /// `HSET key field value`.
    pub fn hset(key: Vec<u8>, field: Vec<u8>, value: Vec<u8>) -> (command: Command)
        ensures
            command@ == hset_request(key@, field@, value@),
    {
        let mut args: Vec<Vec<u8>> = Vec::new();
        args.push(bytes_of("HSET"));
        args.push(key);
        args.push(field);
        args.push(value);
        assert(byte_strings(args@) =~= hset_request(key@, field@, value@));
        Command { args }
    }

    /// `HGET key field`.
    pub fn hget(key: Vec<u8>, field: Vec<u8>) -> (command: Command)
        ensures
            command@ == hget_request(key@, field@),
    {
        let mut args: Vec<Vec<u8>> = Vec::new();
        args.push(bytes_of("HGET"));
        args.push(key);
        args.push(field);
        assert(byte_strings(args@) =~= hget_request(key@, field@));
        Command { args }
    }

    /// `HGETALL key`.
    pub fn hgetall(key: Vec<u8>) -> (command: Command)
        ensures
            command@ == hgetall_request(key@),
    {
        let mut args: Vec<Vec<u8>> = Vec::new();
        args.push(bytes_of("HGETALL"));
        args.push(key);
        assert(byte_strings(args@) =~= hgetall_request(key@));
        Command { args }
    }

    /// `EXPIRE key seconds`.
    pub fn expire(key: Vec<u8>, seconds: u32) -> (command: Command)
        ensures
            command@ == expire_request(key@, seconds as nat),
    {
        let mut args: Vec<Vec<u8>> = Vec::new();
        args.push(bytes_of("EXPIRE"));
        args.push(key);
        args.push(render_decimal(seconds as u64));
        assert(byte_strings(args@) =~= expire_request(key@, seconds as nat));
        Command { args }
    }

    /// `DEL key ...`.
    pub fn del(keys: Vec<Vec<u8>>) -> (command: Command)
        ensures
            command@ == del_request(byte_strings(keys@)),
    {
        let mut args: Vec<Vec<u8>> = Vec::new();
        let mut keys = keys;
        let ghost named = byte_strings(keys@);
        args.push(bytes_of("DEL"));
        args.append(&mut keys);
        assert(byte_strings(args@) =~= del_request(named));
        Command { args }
    }

    /// `KEYS pattern`.
    pub fn keys(pattern: Vec<u8>) -> (command: Command)
        ensures
            command@ == keys_request(pattern@),
    {
        let mut args: Vec<Vec<u8>> = Vec::new();
        args.push(bytes_of("KEYS"));
        args.push(pattern);
        assert(byte_strings(args@) =~= keys_request(pattern@));
        Command { args }
    }

    /// `TYPE key`.
    pub fn type_of(key: Vec<u8>) -> (command: Command)
        ensures
            command@ == type_request(key@),
    {
        let mut args: Vec<Vec<u8>> = Vec::new();
        args.push(bytes_of("TYPE"));
        args.push(key);
        assert(byte_strings(args@) =~= type_request(key@));
        Command { args }
    }
}

/// The names of the catalog's commands are a few bytes long.
pub proof fn lemma_names_are_short()
    ensures
        text("GET").len() == 3,
        text("SET").len() == 3,
        text("LPUSH").len() == 5,
        text("LPOP").len() == 4,
        text("HSET").len() == 4,
        text("HGET").len() == 4,
        text("HGETALL").len() == 7,
        text("EXPIRE").len() == 6,
        text("DEL").len() == 3,
        text("KEYS").len() == 4,
        text("TYPE").len() == 4,
{
    broadcast use is_ascii_spec_bytes;

    reveal_strlit("GET");
    reveal_strlit("SET");
    reveal_strlit("LPUSH");
    reveal_strlit("LPOP");
    reveal_strlit("HSET");
    reveal_strlit("HGET");
    reveal_strlit("HGETALL");
    reveal_strlit("EXPIRE");
    reveal_strlit("DEL");
    reveal_strlit("KEYS");
    reveal_strlit("TYPE");
    assert(vstd::string::is_ascii("GET"));
    assert(vstd::string::is_ascii("SET"));
    assert(vstd::string::is_ascii("LPUSH"));
    assert(vstd::string::is_ascii("LPOP"));
    assert(vstd::string::is_ascii("HSET"));
    assert(vstd::string::is_ascii("HGET"));
    assert(vstd::string::is_ascii("HGETALL"));
    assert(vstd::string::is_ascii("EXPIRE"));
    assert(vstd::string::is_ascii("DEL"));
    assert(vstd::string::is_ascii("KEYS"));
    assert(vstd::string::is_ascii("TYPE"));
}

} // verus!
