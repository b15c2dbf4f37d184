//! Commands as mathematics: which command a frame asks for, and what a
//! command does to the store.
use crate::backend::store::Entries;
use crate::backend::Store;
use crate::resp::unicode::lossy_utf8;
use crate::resp::wire::{number_text, to_lower, Fault, Frame};
use vstd::prelude::*;
use vstd::utf8::{decode_utf8, encode_utf8, valid_utf8};

verus! {

/// A command, with its arguments.
#[allow(inconsistent_fields)]
pub enum Request {
    Get { key: Seq<char> },
    SetCmd { key: Seq<char>, value: Frame },
    HGet { key: Seq<char>, field: Seq<char> },
    HSet { key: Seq<char>, field: Seq<char>, value: Frame },
    HGetAll { key: Seq<char> },
    HMGet { key: Seq<char>, fields: Seq<Seq<char>> },
    Echo { value: Seq<char> },
    SAdd { key: Seq<char>, value: Frame },
    SIsmember { key: Seq<char>, value: Frame },
    Unrecognized,
}

/// Why a frame is no command.
pub enum CommandFault {
    InvalidCommand(Seq<char>),
    InvalidArgument(Seq<char>),
    RespError(Fault),
    Utf8Error,
}

/// The bytes of `s` with the ASCII capitals made small.
pub open spec fn lowered(s: Seq<u8>) -> Seq<u8> {
    Seq::new(s.len(), |i: int| to_lower(s[i]))
}

/// The payload of a bulk string; empty for the null bulk string.
pub open spec fn payload(b: Option<Seq<u8>>) -> Seq<u8> {
    match b {
        Some(bytes) => bytes,
        None => Seq::empty(),
    }
}

/// The items of an array; none for the null array.
pub open spec fn items_of(a: Option<Seq<Frame>>) -> Seq<Frame> {
    match a {
        Some(v) => v,
        None => Seq::empty(),
    }
}

/// The message for a command with the wrong number of arguments.
pub open spec fn arity_text(name: Seq<char>, n_args: nat) -> Seq<char> {
    name + " command must have exactly "@ + number_text(n_args) + " argument"@
}

/// The message for a command under another name than the expected one.
pub open spec fn other_name_text(name: Seq<char>, got: Seq<u8>) -> Seq<char> {
    "Invalid command: expect "@ + name + ", got "@ + lossy_utf8(got)
}

/// What is wrong with `items` as the command `name` with `n_args`
/// arguments, if anything: the number of items, or the first item.
pub open spec fn shape_fault(items: Seq<Frame>, name: Seq<char>, n_args: nat) -> Option<
    CommandFault,
> {
    if items.len() != n_args + 1 {
        Some(CommandFault::InvalidCommand(arity_text(name, n_args)))
    } else {
        match items[0] {
            Frame::BulkString(b) => if lowered(payload(b)) != encode_utf8(name) {
                Some(CommandFault::InvalidCommand(other_name_text(name, payload(b))))
            } else {
                None
            },
            _ => Some(
                CommandFault::InvalidCommand("Command must have a BulkString as first argument."@),
            ),
        }
    }
}

/// The text of an argument that has to be a string: a bulk string that is
/// not null and holds UTF-8. `what` names the argument in the error.
pub open spec fn text_arg(f: Frame, what: Seq<char>) -> Result<Seq<char>, CommandFault> {
    match f {
        Frame::BulkString(Some(bytes)) => if valid_utf8(bytes) {
            Ok(decode_utf8(bytes))
        } else {
            Err(CommandFault::Utf8Error)
        },
        _ => Err(CommandFault::InvalidArgument(what)),
    }
}

/// The message for an argument that is no bulk string where a text was
/// expected.
pub open spec fn invalid_key() -> Seq<char> {
    "Invalid key"@
}

/// The message for a field of `hmget` that is no bulk string.
pub open spec fn invalid_field() -> Seq<char> {
    "Invalid field"@
}

/// `get key`.
pub open spec fn get_request(items: Seq<Frame>) -> Result<Request, CommandFault> {
    match shape_fault(items, "get"@, 1) {
        Some(e) => Err(e),
        None => match text_arg(items[1], invalid_key()) {
            Err(e) => Err(e),
            Ok(key) => Ok(Request::Get { key }),
        },
    }
}

/// `set key value`: the value is any frame.
pub open spec fn set_request(items: Seq<Frame>) -> Result<Request, CommandFault> {
    match shape_fault(items, "set"@, 2) {
        Some(e) => Err(e),
        None => match text_arg(items[1], invalid_key()) {
            Err(e) => Err(e),
            Ok(key) => Ok(Request::SetCmd { key, value: items[2] }),
        },
    }
}

/// `hget key field`: both are bulk strings, and both are UTF-8.
pub open spec fn hget_request(items: Seq<Frame>) -> Result<Request, CommandFault> {
    match shape_fault(items, "hget"@, 2) {
        Some(e) => Err(e),
        None => if !(items[1] is BulkString && items[2] is BulkString) {
            Err(CommandFault::InvalidArgument(invalid_key()))
        } else {
            match text_arg(items[1], invalid_key()) {
                Err(e) => Err(e),
                Ok(key) => match text_arg(items[2], invalid_key()) {
                    Err(e) => Err(e),
                    Ok(field) => Ok(Request::HGet { key, field }),
                },
            }
        },
    }
}

/// `hset key field value`: key and field are bulk strings, and both are
/// UTF-8; the value is any frame.
pub open spec fn hset_request(items: Seq<Frame>) -> Result<Request, CommandFault> {
    match shape_fault(items, "hset"@, 3) {
        Some(e) => Err(e),
        None => if !(items[1] is BulkString && items[2] is BulkString) {
            Err(CommandFault::InvalidArgument(invalid_key()))
        } else {
            match text_arg(items[1], invalid_key()) {
                Err(e) => Err(e),
                Ok(key) => match text_arg(items[2], invalid_key()) {
                    Err(e) => Err(e),
                    Ok(field) => Ok(Request::HSet { key, field, value: items[3] }),
                },
            }
        },
    }
}

/// `hgetall key`.
pub open spec fn hgetall_request(items: Seq<Frame>) -> Result<Request, CommandFault> {
    match shape_fault(items, "hgetall"@, 1) {
        Some(e) => Err(e),
        None => match text_arg(items[1], invalid_key()) {
            Err(e) => Err(e),
            Ok(key) => Ok(Request::HGetAll { key }),
        },
    }
}

/// The texts of the fields `items[from..]`, or the first fault among them.
pub open spec fn field_args(items: Seq<Frame>, from: int) -> Result<Seq<Seq<char>>, CommandFault>
    decreases items.len() - from,
{
    if from >= items.len() || from < 0 {
        Ok(Seq::empty())
    } else {
        match text_arg(items[from], invalid_field()) {
            Err(e) => Err(e),
            Ok(field) => match field_args(items, from + 1) {
                Err(e) => Err(e),
                Ok(rest) => Ok(seq![field] + rest),
            },
        }
    }
}

/// The number of items behind the first one.
pub open spec fn rest_count(items: Seq<Frame>) -> nat {
    if items.len() == 0 {
        0
    } else {
        (items.len() - 1) as nat
    }
}

/// `hmget key field...`: the key, then any number of fields.
pub open spec fn hmget_request(items: Seq<Frame>) -> Result<Request, CommandFault> {
    match shape_fault(items, "hmget"@, rest_count(items)) {
        Some(e) => Err(e),
        None => if items.len() < 2 {
            Err(CommandFault::InvalidArgument(invalid_key()))
        } else {
            match text_arg(items[1], invalid_key()) {
                Err(e) => Err(e),
                Ok(key) => match field_args(items, 2) {
                    Err(e) => Err(e),
                    Ok(fields) => Ok(Request::HMGet { key, fields }),
                },
            }
        },
    }
}

/// `echo text`.
pub open spec fn echo_request(items: Seq<Frame>) -> Result<Request, CommandFault> {
    match shape_fault(items, "echo"@, 1) {
        Some(e) => Err(e),
        None => match text_arg(items[1], invalid_key()) {
            Err(e) => Err(e),
            Ok(value) => Ok(Request::Echo { value }),
        },
    }
}

/// `sadd key member`: the member is any frame.
pub open spec fn sadd_request(items: Seq<Frame>) -> Result<Request, CommandFault> {
    match shape_fault(items, "sadd"@, 2) {
        Some(e) => Err(e),
        None => match text_arg(items[1], invalid_key()) {
            Err(e) => Err(e),
            Ok(key) => Ok(Request::SAdd { key, value: items[2] }),
        },
    }
}

/// `sismember key member`: the member is any frame.
pub open spec fn sismember_request(items: Seq<Frame>) -> Result<Request, CommandFault> {
    match shape_fault(items, "sismember"@, 2) {
        Some(e) => Err(e),
        None => match text_arg(items[1], invalid_key()) {
            Err(e) => Err(e),
            Ok(key) => Ok(Request::SIsmember { key, value: items[2] }),
        },
    }
}

/// What is behind the first item of `items`, where they have the shape of
/// the command `name` with `n_args` arguments.
pub open spec fn arguments_of(items: Seq<Frame>, name: Seq<char>, n_args: nat) -> Result<
    Seq<Frame>,
    CommandFault,
> {
    match shape_fault(items, name, n_args) {
        Some(e) => Err(e),
        None => Ok(items.skip(1)),
    }
}

/// The command that the items of an array ask for. The name is the first
/// item, a bulk string, read without regard to letter case; a name that is
/// none of the nine gives `Unrecognized`.
pub open spec fn request_of_items(items: Seq<Frame>) -> Result<Request, CommandFault> {
    if items.len() == 0 || !(items[0] is BulkString) {
        Err(
            CommandFault::InvalidCommand(
                "Command must have a BulkString as the first argument"@,
            ),
        )
    } else {
        let name = lowered(payload(items[0]->BulkString_0));
        if name == encode_utf8("get"@) {
            get_request(items)
        } else if name == encode_utf8("set"@) {
            set_request(items)
        } else if name == encode_utf8("hget"@) {
            hget_request(items)
        } else if name == encode_utf8("hset"@) {
            hset_request(items)
        } else if name == encode_utf8("hmget"@) {
            hmget_request(items)
        } else if name == encode_utf8("hgetall"@) {
            hgetall_request(items)
        } else if name == encode_utf8("echo"@) {
            echo_request(items)
        } else if name == encode_utf8("sadd"@) {
            sadd_request(items)
        } else if name == encode_utf8("sismember"@) {
            sismember_request(items)
        } else {
            Ok(Request::Unrecognized)
        }
    }
}

/// The command that a frame asks for: the frame has to be an array.
pub open spec fn request_of(f: Frame) -> Result<Request, CommandFault> {
    match f {
        Frame::Array(a) => request_of_items(items_of(a)),
        _ => Err(CommandFault::InvalidCommand("Command must be an Array"@)),
    }
}

/// The reply that acknowledges a command.
pub open spec fn ok_reply() -> Frame {
    Frame::SimpleString(encode_utf8("OK"@))
}

/// The frame, or the null frame where there is none.
pub open spec fn or_null(f: Option<Frame>) -> Frame {
    match f {
        Some(f) => f,
        None => Frame::Null,
    }
}

/// The key of the `i`-th pair of a flat list of pairs.
pub open spec fn key_at(items: Seq<Frame>, i: int) -> Frame {
    items[2 * i]
}

/// The value of the `i`-th pair of a flat list of pairs.
pub open spec fn value_at(items: Seq<Frame>, i: int) -> Frame {
    items[2 * i + 1]
}

/// The frame that stands for a key in a reply: a bulk string of its bytes.
pub open spec fn key_frame(k: Seq<char>) -> Frame {
    Frame::BulkString(Some(encode_utf8(k)))
}

/// Whether the `i`-th pair of `items` is an entry of `h`.
pub open spec fn pair_from(items: Seq<Frame>, i: int, h: Entries) -> bool {
    exists|k: Seq<char>| #[trigger]
        h.contains_key(k) && key_at(items, i) == key_frame(k) && value_at(items, i) == h[k]
}

/// Whether `items` lays out the hash `h` flat: key, value, key, value, each
/// key once and as a bulk string, in any order.
pub open spec fn flat_hash(items: Seq<Frame>, h: Entries) -> bool {
    &&& items.len() % 2 == 0
    &&& forall|i: int| 0 <= i < items.len() / 2 ==> #[trigger] pair_from(items, i, h)
    &&& forall|i: int, j: int|
        0 <= i < j < items.len() / 2 ==> #[trigger] key_at(items, i) != #[trigger] key_at(
            items,
            j,
        )
    &&& forall|k: Seq<char>| #[trigger]
        h.contains_key(k) ==> exists|i: int|
            0 <= i < items.len() / 2 && #[trigger] key_at(items, i) == key_frame(k)
}

/// The reply to HMGET: for each field its frame, or the null frame.
pub open spec fn hmget_reply(s: Store, key: Seq<char>, fields: Seq<Seq<char>>) -> Frame {
    Frame::Array(Some(Seq::new(fields.len(), |i: int| or_null(s.hget(key, fields[i])))))
}

/// What a command does: the store before, the store after, and the reply.
pub open spec fn executed(req: Request, before: Store, after: Store, reply: Frame) -> bool {
    match req {
        Request::Get { key } => after == before && reply == or_null(before.get(key)),
        Request::SetCmd { key, value } => after == before.set(key, value) && reply == ok_reply(),
        Request::HGet { key, field } => after == before && reply == or_null(
            before.hget(key, field),
        ),
        Request::HSet { key, field, value } => after == before.hset(key, field, value) && reply
            == ok_reply(),
        Request::HGetAll { key } => after == before && match before.hgetall(key) {
            Some(h) => reply matches Frame::Array(Some(items)) && flat_hash(items, h),
            None => reply == Frame::Array(Some(Seq::empty())),
        },
        Request::HMGet { key, fields } => after == before && reply == hmget_reply(
            before,
            key,
            fields,
        ),
        Request::Echo { value } => after == before && reply == Frame::BulkString(
            Some(encode_utf8(value)),
        ),
        Request::SAdd { key, value } => after == before.sadd(value) && reply == Frame::Integer(
            if before.sismember(value) {
                0
            } else {
                1
            },
        ),
        Request::SIsmember { key, value } => after == before && reply == Frame::Integer(
            if before.sismember(value) {
                1
            } else {
                0
            },
        ),
        Request::Unrecognized => after == before && reply == ok_reply(),
    }
}

} // verus!
