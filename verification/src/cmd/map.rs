//! The commands on the flat store: GET and SET.
use crate::backend::Backend;
use crate::cmd::{
    arguments, asked, resp_ok, text_argument, CommandError, CommandExecutor, Get, SetCmd,
};
use crate::cmd::model::{get_request, items_of, set_request, Request};
use crate::resp::array::RespArray;
use crate::resp::frame::{frames_model, RespFrame};
use crate::resp::null::RespNull;
use vstd::prelude::*;
use vstd::std_specs::convert::TryFromSpecImpl;

verus! {

impl View for Get {
    type V = Request;

    open spec fn view(&self) -> Request {
        Request::Get { key: self.key@ }
    }
}

impl View for SetCmd {
    type V = Request;

    open spec fn view(&self) -> Request {
        Request::SetCmd { key: self.key@, value: self.value@ }
    }
}

impl CommandExecutor for Get {
    open spec fn request(&self) -> Request {
        self@
    }

    fn execute(self, backend: &mut Backend) -> (reply: RespFrame) {
        match backend.get(self.key.as_str()) {
            Some(value) => value,
            None => RespFrame::Null(RespNull),
        }
    }
}

impl CommandExecutor for SetCmd {
    open spec fn request(&self) -> Request {
        self@
    }

    fn execute(self, backend: &mut Backend) -> (reply: RespFrame) {
        backend.set(self.key, self.value);
        resp_ok()
    }
}

impl TryFrom<RespArray> for Get {
    type Error = CommandError;

    fn try_from(value: RespArray) -> (r: Result<Self, CommandError>)
        ensures
            asked(get_request(items_of(value@)), r),
    {
        let args = match arguments(value, "get", 1) {
            Ok(args) => args,
            Err(e) => {
                return Err(e);
            },
        };
        proof {
            assert(frames_model(args@)[0] == items_of(value@)[1]);
        }
        match text_argument(&args[0], "Invalid key") {
            Ok(key) => Ok(Get { key }),
            Err(e) => Err(e),
        }
    }
}

impl TryFromSpecImpl<RespArray> for Get {
    open spec fn obeys_try_from_spec() -> bool {
        false
    }

    open spec fn try_from_spec(v: RespArray) -> Result<Self, CommandError> {
        arbitrary()
    }
}

impl TryFrom<RespArray> for SetCmd {
    type Error = CommandError;

    fn try_from(value: RespArray) -> (r: Result<Self, CommandError>)
        ensures
            asked(set_request(items_of(value@)), r),
    {
        let mut args = match arguments(value, "set", 2) {
            Ok(args) => args,
            Err(e) => {
                return Err(e);
            },
        };
        proof {
            assert(frames_model(args@)[0] == items_of(value@)[1]);
            assert(frames_model(args@)[1] == items_of(value@)[2]);
        }
        let key = match text_argument(&args[0], "Invalid key") {
            Ok(key) => key,
            Err(e) => {
                return Err(e);
            },
        };
        let value = args.remove(1);
        Ok(SetCmd { key, value })
    }
}

impl TryFromSpecImpl<RespArray> for SetCmd {
    open spec fn obeys_try_from_spec() -> bool {
        false
    }

    open spec fn try_from_spec(v: RespArray) -> Result<Self, CommandError> {
        arbitrary()
    }
}

} // verus!
