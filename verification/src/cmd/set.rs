//! The commands on the set: SADD and SISMEMBER.
use crate::backend::{Backend, SAddOutcome};
use crate::cmd::{arguments, asked, text_argument, CommandError, CommandExecutor, SAdd, SIsmember};
use crate::cmd::model::{items_of, sadd_request, sismember_request, Request};
use crate::resp::array::RespArray;
use crate::resp::frame::{frames_model, RespFrame};
use crate::resp::simple_error::SimpleError;
use vstd::prelude::*;
use vstd::std_specs::convert::TryFromSpecImpl;
use vstd::string::StringExecFns;

verus! {

impl View for SAdd {
    type V = Request;

    open spec fn view(&self) -> Request {
        Request::SAdd { key: self.key@, value: self.value@ }
    }
}

impl View for SIsmember {
    type V = Request;

    open spec fn view(&self) -> Request {
        Request::SIsmember { key: self.key@, value: self.value@ }
    }
}

impl CommandExecutor for SAdd {
    open spec fn request(&self) -> Request {
        self@
    }

    fn execute(self, backend: &mut Backend) -> (reply: RespFrame) {
        match backend.sadd(self.key, self.value) {
            SAddOutcome::Added => RespFrame::Integer(1),
            SAddOutcome::Existed => RespFrame::Integer(0),
            SAddOutcome::Error => RespFrame::Error(SimpleError(String::from_str("sadd error!"))),
        }
    }
}

impl CommandExecutor for SIsmember {
    open spec fn request(&self) -> Request {
        self@
    }

    fn execute(self, backend: &mut Backend) -> (reply: RespFrame) {
        if backend.sismember(self.key, &self.value) {
            RespFrame::Integer(1)
        } else {
            RespFrame::Integer(0)
        }
    }
}

impl TryFrom<RespArray> for SAdd {
    type Error = CommandError;

    fn try_from(value: RespArray) -> (r: Result<Self, CommandError>)
        ensures
            asked(sadd_request(items_of(value@)), r),
    {
        let mut args = match arguments(value, "sadd", 2) {
            Ok(args) => args,
            Err(e) => {
                return Err(e);
            },
        };
        proof {
            assert(frames_model(args@)[0] == items_of(value@)[1]);
            assert(frames_model(args@)[1] == items_of(value@)[2]);
        }
        let key = match text_argument(&args[0], "Invalid key") {
            Ok(key) => key,
            Err(e) => {
                return Err(e);
            },
        };
        let value = args.remove(1);
        Ok(SAdd { key, value })
    }
}

impl TryFromSpecImpl<RespArray> for SAdd {
    open spec fn obeys_try_from_spec() -> bool {
        false
    }

    open spec fn try_from_spec(v: RespArray) -> Result<Self, CommandError> {
        arbitrary()
    }
}

impl TryFrom<RespArray> for SIsmember {
    type Error = CommandError;

    fn try_from(value: RespArray) -> (r: Result<Self, CommandError>)
        ensures
            asked(sismember_request(items_of(value@)), r),
    {
        let mut args = match arguments(value, "sismember", 2) {
            Ok(args) => args,
            Err(e) => {
                return Err(e);
            },
        };
        proof {
            assert(frames_model(args@)[0] == items_of(value@)[1]);
            assert(frames_model(args@)[1] == items_of(value@)[2]);
        }
        let key = match text_argument(&args[0], "Invalid key") {
            Ok(key) => key,
            Err(e) => {
                return Err(e);
            },
        };
        let value = args.remove(1);
        Ok(SIsmember { key, value })
    }
}

impl TryFromSpecImpl<RespArray> for SIsmember {
    open spec fn obeys_try_from_spec() -> bool {
        false
    }

    open spec fn try_from_spec(v: RespArray) -> Result<Self, CommandError> {
        arbitrary()
    }
}

} // verus!
