//! The commands on hashes: HGET, HSET, HGETALL, HMGET.
use crate::backend::Backend;
use crate::backend::store::{lists, Entries};
use crate::cmd::{
    arguments, asked, resp_ok, text_argument, CommandError, CommandExecutor, HGet, HGetAll, HMGet,
    HSet,
};
use crate::cmd::model::{
    field_args, flat_hash, hget_request, hgetall_request, hmget_reply, hmget_request, hset_request,
    invalid_key, items_of, key_at, key_frame, or_null, pair_from, rest_count, shape_fault, text_arg,
    value_at, CommandFault, Request,
};
use crate::resp::array::RespArray;
use crate::resp::bulk_string::BulkString;
use crate::resp::frame::{frames_model, lemma_frame_model, RespFrame};
use crate::resp::map::lemma_same_bytes;
use crate::resp::null::RespNull;
use crate::resp::wire::Frame;
use vstd::prelude::*;
use vstd::std_specs::convert::TryFromSpecImpl;
use vstd::string::{StringExecFns, StringSliceAdditionalSpecFns, StrSliceExecFns};

verus! {

impl View for HGet {
    type V = Request;

    open spec fn view(&self) -> Request {
        Request::HGet { key: self.key@, field: self.field@ }
    }
}

impl View for HSet {
    type V = Request;

    open spec fn view(&self) -> Request {
        Request::HSet { key: self.key@, field: self.field@, value: self.value@ }
    }
}

impl View for HGetAll {
    type V = Request;

    open spec fn view(&self) -> Request {
        Request::HGetAll { key: self.key@ }
    }
}

/// The texts of `fields`.
pub open spec fn texts(fields: Seq<String>) -> Seq<Seq<char>> {
    Seq::new(fields.len(), |i: int| fields[i]@)
}

impl View for HMGet {
    type V = Request;

    open spec fn view(&self) -> Request {
        Request::HMGet { key: self.key@, fields: texts(self.fields@) }
    }
}

impl CommandExecutor for HGet {
    open spec fn request(&self) -> Request {
        self@
    }

    fn execute(self, backend: &mut Backend) -> (reply: RespFrame) {
        match backend.hget(self.key.as_str(), self.field.as_str()) {
            Some(value) => value,
            None => RespFrame::Null(RespNull),
        }
    }
}

impl CommandExecutor for HSet {
    open spec fn request(&self) -> Request {
        self@
    }

    fn execute(self, backend: &mut Backend) -> (reply: RespFrame) {
        backend.hset(self.key, self.field, self.value);
        resp_ok()
    }
}

/// The flat reply for the entries of a hash: for each entry the key as a
/// bulk string, then the value.
pub fn flatten_entries(entries: Vec<(String, RespFrame)>) -> (items: Vec<RespFrame>)
    ensures
        items@.len() == 2 * entries@.len(),
        forall|i: int|
            0 <= i < entries@.len() ==> key_at(frames_model(items@), i) == key_frame(
                (#[trigger] entries@[i]).0@,
            ) && value_at(frames_model(items@), i) == entries@[i].1@,
{
    let mut items: Vec<RespFrame> = Vec::new();
    let mut i: usize = 0;
    while i < entries.len()
        invariant
            i <= entries@.len(),
            items@.len() == 2 * i,
            forall|j: int|
                0 <= j < i ==> key_at(frames_model(items@), j) == key_frame(
                    (#[trigger] entries@[j]).0@,
                ) && value_at(frames_model(items@), j) == entries@[j].1@,
        decreases entries@.len() - i,
    {
        let ghost before = frames_model(items@);
        let key = RespFrame::BulkString(BulkString(Some(entries[i].0.as_str().as_bytes_vec())));
        let value = entries[i].1.clone();
        items.push(key);
        items.push(value);
        proof {
            let after = frames_model(items@);
            assert(after =~= before.push(key@).push(value@));
            assert forall|j: int| 0 <= j < i + 1 implies key_at(after, j) == key_frame(
                (#[trigger] entries@[j]).0@,
            ) && value_at(after, j) == entries@[j].1@ by {
                if j < i {
                    assert(key_at(before, j) == key_frame(entries@[j].0@));
                    assert(after[2 * j] == before[2 * j]);
                    assert(after[2 * j + 1] == before[2 * j + 1]);
                }
            }
        }
        i += 1;
    }
    items
}

/// A flat reply made of a listing of a hash lays that hash out.
pub proof fn lemma_flat_hash(entries: Seq<(String, RespFrame)>, items: Seq<Frame>, h: Entries)
    requires
        lists(entries, h),
        items.len() == 2 * entries.len(),
        forall|i: int|
            0 <= i < entries.len() ==> key_at(items, i) == key_frame((#[trigger] entries[i]).0@)
                && value_at(items, i) == entries[i].1@,
    ensures
        flat_hash(items, h),
{
    assert forall|i: int| 0 <= i < items.len() / 2 implies #[trigger] pair_from(items, i, h) by {
        let k = entries[i].0@;
        assert(h.contains_key(k) && key_at(items, i) == key_frame(k) && value_at(items, i) == h[k]);
    }
    assert forall|i: int, j: int| 0 <= i < j < items.len() / 2 implies #[trigger] key_at(items, i)
        != #[trigger] key_at(items, j) by {
        assert(entries[i].0@ != entries[j].0@);
        if key_frame(entries[i].0@) == key_frame(entries[j].0@) {
            lemma_same_bytes(entries[i].0@, entries[j].0@);
        }
    }
    assert forall|k: Seq<char>| #[trigger] h.contains_key(k) implies exists|i: int|
        0 <= i < items.len() / 2 && #[trigger] key_at(items, i) == key_frame(k) by {
        let i = choose|i: int| 0 <= i < entries.len() && (#[trigger] entries[i]).0@ == k;
        assert(key_at(items, i) == key_frame(k));
    }
}

impl CommandExecutor for HGetAll {
    open spec fn request(&self) -> Request {
        self@
    }

    fn execute(self, backend: &mut Backend) -> (reply: RespFrame) {
        match backend.hash_listing(self.key.as_str()) {
            Some(entries) => {
                let ghost listing = entries@;
                let items = flatten_entries(entries);
                let reply = RespFrame::Array(RespArray(Some(items)));
                proof {
                    lemma_frame_model(reply);
                    lemma_flat_hash(
                        listing,
                        frames_model(items@),
                        old(backend)@.hgetall(self.key@)->0,
                    );
                }
                reply
            },
            None => {
                let reply = RespFrame::Array(RespArray(Some(Vec::new())));
                proof {
                    lemma_frame_model(reply);
                    assert(reply@->Array_0->0 =~= Seq::<Frame>::empty());
                }
                reply
            },
        }
    }
}

impl CommandExecutor for HMGet {
    open spec fn request(&self) -> Request {
        self@
    }

    fn execute(self, backend: &mut Backend) -> (reply: RespFrame) {
        let mut ret: Vec<RespFrame> = Vec::new();
        let mut i: usize = 0;
        while i < self.fields.len()
            invariant
                i <= self.fields@.len(),
                *backend == *old(backend),
                ret@.len() == i,
                forall|j: int|
                    0 <= j < i ==> (#[trigger] ret@[j])@ == or_null(
                        backend@.hget(self.key@, self.fields@[j]@),
                    ),
            decreases self.fields@.len() - i,
        {
            let found = backend.hget(self.key.as_str(), self.fields[i].as_str());
            match found {
                Some(value) => ret.push(value),
                None => ret.push(RespFrame::Null(RespNull)),
            }
            i += 1;
        }
        let reply = RespFrame::Array(RespArray(Some(ret)));
        proof {
            lemma_frame_model(reply);
            assert(reply@->Array_0->0 =~= hmget_reply(
                backend@,
                self.key@,
                texts(self.fields@),
            )->Array_0->0);
        }
        reply
    }
}

impl TryFrom<RespArray> for HGet {
    type Error = CommandError;

    fn try_from(value: RespArray) -> (r: Result<Self, CommandError>)
        ensures
            asked(hget_request(items_of(value@)), r),
    {
        let args = match arguments(value, "hget", 2) {
            Ok(args) => args,
            Err(e) => {
                return Err(e);
            },
        };
        proof {
            assert(frames_model(args@)[0] == items_of(value@)[1]);
            assert(frames_model(args@)[1] == items_of(value@)[2]);
        }
        match (&args[0], &args[1]) {
            (RespFrame::BulkString(_), RespFrame::BulkString(_)) => {},
            _ => {
                return Err(CommandError::InvalidArgument(String::from_str("Invalid key")));
            },
        }
        let key = match text_argument(&args[0], "Invalid key") {
            Ok(key) => key,
            Err(e) => {
                return Err(e);
            },
        };
        match text_argument(&args[1], "Invalid key") {
            Ok(field) => Ok(HGet { key, field }),
            Err(e) => Err(e),
        }
    }
}

impl TryFromSpecImpl<RespArray> for HGet {
    open spec fn obeys_try_from_spec() -> bool {
        false
    }

    open spec fn try_from_spec(v: RespArray) -> Result<Self, CommandError> {
        arbitrary()
    }
}

impl TryFrom<RespArray> for HGetAll {
    type Error = CommandError;

    fn try_from(value: RespArray) -> (r: Result<Self, CommandError>)
        ensures
            asked(hgetall_request(items_of(value@)), r),
    {
        let args = match arguments(value, "hgetall", 1) {
            Ok(args) => args,
            Err(e) => {
                return Err(e);
            },
        };
        proof {
            assert(frames_model(args@)[0] == items_of(value@)[1]);
        }
        match text_argument(&args[0], "Invalid key") {
            Ok(key) => Ok(HGetAll { key }),
            Err(e) => Err(e),
        }
    }
}

impl TryFromSpecImpl<RespArray> for HGetAll {
    open spec fn obeys_try_from_spec() -> bool {
        false
    }

    open spec fn try_from_spec(v: RespArray) -> Result<Self, CommandError> {
        arbitrary()
    }
}

impl TryFrom<RespArray> for HMGet {
    type Error = CommandError;

    fn try_from(value: RespArray) -> (r: Result<Self, CommandError>)
        ensures
            asked(hmget_request(items_of(value@)), r),
    {
        let len = match &value.0 {
            Some(arr) => arr.len(),
            None => 0,
        };
        let capacity = if len == 0 {
            0
        } else {
            len - 1
        };
        let ghost items = items_of(value@);
        let args = match arguments(value, "hmget", capacity) {
            Ok(args) => args,
            Err(e) => {
                return Err(e);
            },
        };
        if args.len() == 0 {
            return Err(CommandError::InvalidArgument(String::from_str("Invalid key")));
        }
        proof {
            assert(frames_model(args@)[0] == items[1]);
        }
        let key = match text_argument(&args[0], "Invalid key") {
            Ok(key) => key,
            Err(e) => {
                return Err(e);
            },
        };
        let mut fields: Vec<String> = Vec::new();
        let mut i: usize = 1;
        proof {
            assert(texts(fields@) + field_args(items, 2)->Ok_0 =~= field_args(items, 2)->Ok_0);
        }
        while i < args.len()
            invariant
                1 <= i <= args@.len(),
                args@.len() + 1 == items.len(),
                items == items_of(value@),
                shape_fault(items, "hmget"@, rest_count(items)) is None,
                text_arg(items[1], invalid_key()) == Ok::<Seq<char>, CommandFault>(key@),
                frames_model(args@) == items.skip(1),
                match field_args(items, i + 1) {
                    Ok(rest) => field_args(items, 2) == Ok::<Seq<Seq<char>>, CommandFault>(
                        texts(fields@) + rest,
                    ),
                    Err(e) => field_args(items, 2) == Err::<Seq<Seq<char>>, CommandFault>(e),
                },
            decreases args@.len() - i,
        {
            proof {
                assert(frames_model(args@)[i as int] == items[i + 1]);
            }
            let ghost before = texts(fields@);
            let field = match text_argument(&args[i], "Invalid field") {
                Ok(field) => field,
                Err(e) => {
                    return Err(e);
                },
            };
            proof {
                match field_args(items, i + 2) {
                    Ok(rest) => {
                        assert(before.push(field@) + rest =~= before + (seq![field@] + rest));
                    },
                    Err(_) => {},
                }
            }
            fields.push(field);
            assert(texts(fields@) =~= before.push(field@));
            i += 1;
        }
        proof {
            assert(texts(fields@) + Seq::<Seq<char>>::empty() =~= texts(fields@));
        }
        Ok(HMGet { key, fields })
    }
}

impl TryFromSpecImpl<RespArray> for HMGet {
    open spec fn obeys_try_from_spec() -> bool {
        false
    }

    open spec fn try_from_spec(v: RespArray) -> Result<Self, CommandError> {
        arbitrary()
    }
}

impl TryFrom<RespArray> for HSet {
    type Error = CommandError;

    fn try_from(value: RespArray) -> (r: Result<Self, CommandError>)
        ensures
            asked(hset_request(items_of(value@)), r),
    {
        let mut args = match arguments(value, "hset", 3) {
            Ok(args) => args,
            Err(e) => {
                return Err(e);
            },
        };
        proof {
            assert(frames_model(args@)[0] == items_of(value@)[1]);
            assert(frames_model(args@)[1] == items_of(value@)[2]);
            assert(frames_model(args@)[2] == items_of(value@)[3]);
        }
        match (&args[0], &args[1]) {
            (RespFrame::BulkString(_), RespFrame::BulkString(_)) => {},
            _ => {
                return Err(CommandError::InvalidArgument(String::from_str("Invalid key")));
            },
        }
        let key = match text_argument(&args[0], "Invalid key") {
            Ok(key) => key,
            Err(e) => {
                return Err(e);
            },
        };
        let field = match text_argument(&args[1], "Invalid key") {
            Ok(field) => field,
            Err(e) => {
                return Err(e);
            },
        };
        let value = args.remove(2);
        Ok(HSet { key, field, value })
    }
}

impl TryFromSpecImpl<RespArray> for HSet {
    open spec fn obeys_try_from_spec() -> bool {
        false
    }

    open spec fn try_from_spec(v: RespArray) -> Result<Self, CommandError> {
        arbitrary()
    }
}

} // verus!
