//! The commands: which one a frame asks for, and what it does to the store.
pub mod echo;
pub mod hmap;
pub mod laws;
pub mod map;
pub mod model;
pub mod set;

use crate::backend::Backend;
use crate::cmd::model::{
    arguments_of, arity_text, executed, items_of, lowered, ok_reply, request_of, request_of_items,
    shape_fault, text_arg, CommandFault, Request,
};
use crate::resp::array::RespArray;
use crate::resp::bulk_string::BulkString;
use crate::resp::frame::{frames_model, lemma_frame_model, RespFrame};
use crate::resp::message::push_number_text;
use crate::resp::RespError;
use crate::resp::simple_string::SimpleString;
use crate::resp::unicode::{lossy_string, utf8_string};
use crate::resp::wire::Frame;
use vstd::prelude::*;
use vstd::slice::slice_to_vec;
use vstd::std_specs::convert::TryFromSpecImpl;
use vstd::string::{StringExecFns, StringSliceAdditionalSpecFns};
use vstd::utf8::encode_utf8;

verus! {

/// Why a frame is no command.
#[derive(Debug, PartialEq, Eq)]
pub enum CommandError {
    /// The frame has not the shape of the command.
    InvalidCommand(String),
    /// An argument is not of the kind that the command takes.
    InvalidArgument(String),
    /// The frame could not be decoded.
    RespError(RespError),
    /// An argument that has to be text is not UTF-8.
    Utf8Error,
}

impl View for CommandError {
    type V = CommandFault;

    open spec fn view(&self) -> CommandFault {
        match self {
            CommandError::InvalidCommand(m) => CommandFault::InvalidCommand(m@),
            CommandError::InvalidArgument(m) => CommandFault::InvalidArgument(m@),
            CommandError::RespError(e) => CommandFault::RespError(e@),
            CommandError::Utf8Error => CommandFault::Utf8Error,
        }
    }
}

impl CommandFault {
    /// The text that describes the fault.
    pub open spec fn message(self) -> Seq<char> {
        match self {
            CommandFault::InvalidCommand(m) => "Invalid command: "@ + m,
            CommandFault::InvalidArgument(m) => "Invalid argument: "@ + m,
            CommandFault::RespError(e) => e.message(),
            CommandFault::Utf8Error => "Utf8 error: invalid utf-8 sequence"@,
        }
    }
}

impl CommandError {
    /// The text that describes the error.
    pub fn message(&self) -> (m: String)
        ensures
            m@ == self@.message(),
    {
        match self {
            CommandError::InvalidCommand(text) => {
                let mut m = String::from_str("Invalid command: ");
                m.append(text.as_str());
                m
            },
            CommandError::InvalidArgument(text) => {
                let mut m = String::from_str("Invalid argument: ");
                m.append(text.as_str());
                m
            },
            CommandError::RespError(e) => e.message(),
            CommandError::Utf8Error => String::from_str("Utf8 error: invalid utf-8 sequence"),
        }
    }
}

/// A command that can be carried out on a backend.
pub trait CommandExecutor: Sized {
    /// The command that this value stands for.
    spec fn request(&self) -> Request;

    /// Carries the command out and gives the reply.
    fn execute(self, backend: &mut Backend) -> (reply: RespFrame)
        ensures
            executed(self.request(), old(backend)@, final(backend)@, reply@),
    ;
}

/// A command, ready to be carried out.
#[derive(Debug)]
pub enum Command {
    Get(Get),
    SetCmd(SetCmd),
    HGet(HGet),
    HSet(HSet),
    HGetAll(HGetAll),
    HMGet(HMGet),
    Echo(Echo),
    SAdd(SAdd),
    SIsmember(SIsmember),
    Unrecognized(Unrecognized),
}

/// A command under a name that is none of the nine.
#[derive(Debug)]
pub struct Unrecognized;

/// ECHO: the text, back as a bulk string.
#[derive(Debug)]
pub struct Echo {
    pub value: String,
}

/// GET: the frame under a key.
#[derive(Debug)]
pub struct Get {
    pub key: String,
}

/// SET: binds a key to a frame.
#[derive(Debug)]
pub struct SetCmd {
    pub key: String,
    pub value: RespFrame,
}

/// SADD: adds a frame to the set.
#[derive(Debug)]
pub struct SAdd {
    pub key: String,
    pub value: RespFrame,
}

/// SISMEMBER: whether the set holds a frame.
#[derive(Debug)]
pub struct SIsmember {
    pub key: String,
    pub value: RespFrame,
}

/// HGET: the frame under a field of a hash.
#[derive(Debug)]
pub struct HGet {
    pub key: String,
    pub field: String,
}

/// HMGET: the frames under several fields of a hash.
#[derive(Debug)]
pub struct HMGet {
    pub key: String,
    pub fields: Vec<String>,
}

/// HSET: binds a field of a hash to a frame.
#[derive(Debug)]
pub struct HSet {
    pub key: String,
    pub field: String,
    pub value: RespFrame,
}

/// HGETALL: all the entries of a hash.
#[derive(Debug)]
pub struct HGetAll {
    pub key: String,
}

/// The reply that acknowledges a command.
pub fn resp_ok() -> (r: RespFrame)
    ensures
        r@ == ok_reply(),
{
    RespFrame::SimpleString(SimpleString(String::from_str("OK")))
}

/// How the result `r` of reading a command stands to `outcome`.
pub open spec fn asked<T: View<V = Request>>(
    outcome: Result<Request, CommandFault>,
    r: Result<T, CommandError>,
) -> bool {
    match outcome {
        Ok(req) => r matches Ok(c) && c@ == req,
        Err(f) => r matches Err(e) && e@ == f,
    }
}

/// Whether `bytes`, letter case set aside, spell `name`.
pub fn name_is(bytes: &[u8], name: &str) -> (r: bool)
    ensures
        r == (lowered(bytes@) == encode_utf8(name@)),
{
    let want = name.as_bytes();
    if bytes.len() != want.len() {
        assert(lowered(bytes@).len() != encode_utf8(name@).len());
        return false;
    }
    let mut i: usize = 0;
    while i < bytes.len()
        invariant
            i <= bytes@.len() == want@.len(),
            want@ == encode_utf8(name@),
            forall|j: int| 0 <= j < i ==> lowered(bytes@)[j] == want@[j],
        decreases bytes@.len() - i,
    {
        let b = bytes[i];
        let lower = if b >= 65 && b <= 90 {
            b + 32
        } else {
            b
        };
        if lower != want[i] {
            assert(lowered(bytes@)[i as int] != want@[i as int]);
            return false;
        }
        i += 1;
    }
    assert(lowered(bytes@) =~= want@);
    true
}

/// Checks that `value` has the shape of the command `name` with `n_args`
/// arguments: as many items and one more, the first of them a bulk string
/// that spells the name in any letter case.
pub fn validate_command(value: &RespArray, name: &str, n_args: usize) -> (r: Result<
    (),
    CommandError,
>)
    ensures
        match shape_fault(items_of(value@), name@, n_args as nat) {
            Some(f) => r matches Err(e) && e@ == f,
            None => r is Ok,
        },
{
    let arr = match &value.0 {
        Some(arr) => arr,
        None => {
            return Err(CommandError::InvalidCommand(arity_message(name, n_args)));
        },
    };
    assert(items_of(value@) == frames_model(arr@));
    assert(frames_model(arr@).len() == arr@.len());
    let len = arr.len();
    if n_args == usize::MAX || len != n_args + 1 {
        return Err(CommandError::InvalidCommand(arity_message(name, n_args)));
    }
    assert(frames_model(arr@)[0] == arr@[0]@);
    match &arr[0] {
        RespFrame::BulkString(cmd) => {
            if !name_is(cmd.as_bytes(), name) {
                let mut m = String::from_str("Invalid command: expect ");
                m.append(name);
                m.append(", got ");
                let got = lossy_string(cmd.as_bytes());
                m.append(got.as_str());
                return Err(CommandError::InvalidCommand(m));
            }
            Ok(())
        },
        _ => Err(
            CommandError::InvalidCommand(
                String::from_str("Command must have a BulkString as first argument."),
            ),
        ),
    }
}

/// The message for a command with the wrong number of arguments.
pub fn arity_message(name: &str, n_args: usize) -> (m: String)
    ensures
        m@ == arity_text(name@, n_args as nat),
{
    let mut m = String::from_str(name);
    m.append(" command must have exactly ");
    push_number_text(&mut m, n_args);
    m.append(" argument");
    m
}

/// The error for an array that does not begin with the name of a command.
pub fn no_name_error() -> (e: CommandError)
    ensures
        e@ == CommandFault::InvalidCommand("Command must have a BulkString as the first argument"@),
{
    CommandError::InvalidCommand(
        String::from_str("Command must have a BulkString as the first argument"),
    )
}

/// The items of `value` from `start` on. The null array has none to give.
pub fn extract_args(value: RespArray, start: usize) -> (r: Result<Vec<RespFrame>, CommandError>)
    ensures
        match value@ {
            Some(v) => r matches Ok(args) && frames_model(args@) == (if start <= v.len() {
                v.skip(start as int)
            } else {
                Seq::empty()
            }),
            None => r matches Err(e) && e@ == CommandFault::InvalidCommand("RespArray(None)"@),
        },
{
    match value.0 {
        Some(arr) => {
            let mut arr = arr;
            if start <= arr.len() {
                let ghost before = arr@;
                let tail = arr.split_off(start);
                assert(frames_model(tail@) =~= frames_model(before).skip(start as int));
                Ok(tail)
            } else {
                let none: Vec<RespFrame> = Vec::new();
                assert(frames_model(none@) =~= Seq::<Frame>::empty());
                Ok(none)
            }
        },
        None => Err(CommandError::InvalidCommand(String::from_str("RespArray(None)"))),
    }
}

/// The text of an argument that has to be a string. `what` is the message
/// for an argument that is no bulk string, or the null one.
pub fn text_argument(f: &RespFrame, what: &str) -> (r: Result<String, CommandError>)
    ensures
        match text_arg(f@, what@) {
            Ok(t) => r matches Ok(s) && s@ == t,
            Err(e) => r matches Err(x) && x@ == e,
        },
{
    match f {
        RespFrame::BulkString(BulkString(Some(bytes))) => {
            match utf8_string(slice_to_vec(bytes.as_slice())) {
                Some(text) => Ok(text),
                None => Err(CommandError::Utf8Error),
            }
        },
        _ => Err(CommandError::InvalidArgument(String::from_str(what))),
    }
}

/// What is behind the first item of `value`, where it has the shape of the
/// command `name` with `n_args` arguments.
pub fn arguments(value: RespArray, name: &str, n_args: usize) -> (r: Result<
    Vec<RespFrame>,
    CommandError,
>)
    ensures
        match arguments_of(items_of(value@), name@, n_args as nat) {
            Ok(rest) => r matches Ok(args) && frames_model(args@) == rest && args@.len() == n_args,
            Err(f) => r matches Err(e) && e@ == f,
        },
{
    match validate_command(&value, name, n_args) {
        Err(e) => {
            return Err(e);
        },
        Ok(_) => {},
    }
    match extract_args(value, 1) {
        Ok(args) => {
            assert(frames_model(args@).len() == args@.len());
            Ok(args)
        },
        Err(e) => Err(e),
    }
}

impl View for Unrecognized {
    type V = Request;

    open spec fn view(&self) -> Request {
        Request::Unrecognized
    }
}

impl View for Command {
    type V = Request;

    open spec fn view(&self) -> Request {
        match self {
            Command::Get(c) => c@,
            Command::SetCmd(c) => c@,
            Command::HGet(c) => c@,
            Command::HSet(c) => c@,
            Command::HGetAll(c) => c@,
            Command::HMGet(c) => c@,
            Command::Echo(c) => c@,
            Command::SAdd(c) => c@,
            Command::SIsmember(c) => c@,
            Command::Unrecognized(c) => c@,
        }
    }
}

impl CommandExecutor for Unrecognized {
    open spec fn request(&self) -> Request {
        self@
    }

    fn execute(self, backend: &mut Backend) -> (reply: RespFrame) {
        resp_ok()
    }
}

impl CommandExecutor for Command {
    open spec fn request(&self) -> Request {
        self@
    }

    fn execute(self, backend: &mut Backend) -> (reply: RespFrame) {
        match self {
            Command::Get(c) => c.execute(backend),
            Command::SetCmd(c) => c.execute(backend),
            Command::HGet(c) => c.execute(backend),
            Command::HSet(c) => c.execute(backend),
            Command::HGetAll(c) => c.execute(backend),
            Command::HMGet(c) => c.execute(backend),
            Command::Echo(c) => c.execute(backend),
            Command::SAdd(c) => c.execute(backend),
            Command::SIsmember(c) => c.execute(backend),
            Command::Unrecognized(c) => c.execute(backend),
        }
    }
}

impl TryFrom<RespArray> for Command {
    type Error = CommandError;

    /// The command that the items of `v` ask for.
    fn try_from(v: RespArray) -> (r: Result<Self, CommandError>)
        ensures
            asked(request_of_items(items_of(v@)), r),
    {
        let name: Vec<u8> = match &v.0 {
            Some(arr) => {
                if arr.len() == 0 {
                    return Err(no_name_error());
                }
                proof {
                    assert(frames_model(arr@)[0] == arr@[0]@);
                }
                match &arr[0] {
                    RespFrame::BulkString(cmd) => slice_to_vec(cmd.as_bytes()),
                    _ => {
                        return Err(no_name_error());
                    },
                }
            },
            None => {
                return Err(no_name_error());
            },
        };
        let name = name.as_slice();
        if name_is(name, "get") {
            match Get::try_from(v) {
                Ok(c) => Ok(Command::Get(c)),
                Err(e) => Err(e),
            }
        } else if name_is(name, "set") {
            match SetCmd::try_from(v) {
                Ok(c) => Ok(Command::SetCmd(c)),
                Err(e) => Err(e),
            }
        } else if name_is(name, "hget") {
            match HGet::try_from(v) {
                Ok(c) => Ok(Command::HGet(c)),
                Err(e) => Err(e),
            }
        } else if name_is(name, "hset") {
            match HSet::try_from(v) {
                Ok(c) => Ok(Command::HSet(c)),
                Err(e) => Err(e),
            }
        } else if name_is(name, "hmget") {
            match HMGet::try_from(v) {
                Ok(c) => Ok(Command::HMGet(c)),
                Err(e) => Err(e),
            }
        } else if name_is(name, "hgetall") {
            match HGetAll::try_from(v) {
                Ok(c) => Ok(Command::HGetAll(c)),
                Err(e) => Err(e),
            }
        } else if name_is(name, "echo") {
            match Echo::try_from(v) {
                Ok(c) => Ok(Command::Echo(c)),
                Err(e) => Err(e),
            }
        } else if name_is(name, "sadd") {
            match SAdd::try_from(v) {
                Ok(c) => Ok(Command::SAdd(c)),
                Err(e) => Err(e),
            }
        } else if name_is(name, "sismember") {
            match SIsmember::try_from(v) {
                Ok(c) => Ok(Command::SIsmember(c)),
                Err(e) => Err(e),
            }
        } else {
            Ok(Command::Unrecognized(Unrecognized))
        }
    }
}

impl TryFromSpecImpl<RespArray> for Command {
    open spec fn obeys_try_from_spec() -> bool {
        false
    }

    open spec fn try_from_spec(v: RespArray) -> Result<Self, CommandError> {
        arbitrary()
    }
}

impl TryFrom<RespFrame> for Command {
    type Error = CommandError;

    /// The command that the frame `v` asks for.
    fn try_from(v: RespFrame) -> (r: Result<Self, CommandError>)
        ensures
            asked(request_of(v@), r),
    {
        match v {
            RespFrame::Array(array) => {
                proof {
                    lemma_frame_model(v);
                }
                <Command as TryFrom<RespArray>>::try_from(array)
            },
            _ => Err(CommandError::InvalidCommand(String::from_str("Command must be an Array"))),
        }
    }
}

impl TryFromSpecImpl<RespFrame> for Command {
    open spec fn obeys_try_from_spec() -> bool {
        false
    }

    open spec fn try_from_spec(v: RespFrame) -> Result<Self, CommandError> {
        arbitrary()
    }
}

} // verus!
