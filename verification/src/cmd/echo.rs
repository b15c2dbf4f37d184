//! ECHO.
use crate::backend::Backend;
use crate::cmd::{arguments, asked, text_argument, CommandError, CommandExecutor, Echo};
use crate::cmd::model::{echo_request, items_of, Request};
use crate::resp::array::RespArray;
use crate::resp::frame::{frames_model, RespFrame};
use vstd::prelude::*;
use vstd::std_specs::convert::TryFromSpecImpl;

verus! {

impl View for Echo {
    type V = Request;

    open spec fn view(&self) -> Request {
        Request::Echo { value: self.value@ }
    }
}

impl CommandExecutor for Echo {
    open spec fn request(&self) -> Request {
        self@
    }

    fn execute(self, backend: &mut Backend) -> (reply: RespFrame) {
        backend.echo(self.value.as_str())
    }
}

impl TryFrom<RespArray> for Echo {
    type Error = CommandError;

    fn try_from(value: RespArray) -> (r: Result<Self, CommandError>)
        ensures
            asked(echo_request(items_of(value@)), r),
    {
        let args = match arguments(value, "echo", 1) {
            Ok(args) => args,
            Err(e) => {
                return Err(e);
            },
        };
        proof {
            assert(frames_model(args@)[0] == items_of(value@)[1]);
        }
        match text_argument(&args[0], "Invalid key") {
            Ok(value) => Ok(Echo { value }),
            Err(e) => Err(e),
        }
    }
}

impl TryFromSpecImpl<RespArray> for Echo {
    open spec fn obeys_try_from_spec() -> bool {
        false
    }

    open spec fn try_from_spec(v: RespArray) -> Result<Self, CommandError> {
        arbitrary()
    }
}

} // verus!
