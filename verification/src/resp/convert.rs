//! Frames from the values that stand in them.
use crate::resp::array::RespArray;
use crate::resp::bulk_string::BulkString;
use crate::resp::double::RespDouble;
use crate::resp::frame::RespFrame;
use crate::resp::map::RespMap;
use crate::resp::null::RespNull;
use crate::resp::set::RespSet;
use crate::resp::simple_error::SimpleError;
use crate::resp::simple_string::SimpleString;
use crate::resp::wire::Frame;
use vstd::prelude::*;
use vstd::slice::slice_to_vec;
use vstd::std_specs::convert::FromSpecImpl;
use vstd::string::{StringExecFns, StringSliceAdditionalSpecFns, StrSliceExecFns};
use vstd::utf8::encode_utf8;

verus! {

impl From<SimpleString> for RespFrame {
    fn from(value: SimpleString) -> (r: Self) {
        RespFrame::SimpleString(value)
    }
}

impl FromSpecImpl<SimpleString> for RespFrame {
    open spec fn obeys_from_spec() -> bool {
        true
    }

    open spec fn from_spec(value: SimpleString) -> Self {
        RespFrame::SimpleString(value)
    }
}

impl From<SimpleError> for RespFrame {
    fn from(value: SimpleError) -> (r: Self) {
        RespFrame::Error(value)
    }
}

impl FromSpecImpl<SimpleError> for RespFrame {
    open spec fn obeys_from_spec() -> bool {
        true
    }

    open spec fn from_spec(value: SimpleError) -> Self {
        RespFrame::Error(value)
    }
}

impl From<i64> for RespFrame {
    fn from(value: i64) -> (r: Self) {
        RespFrame::Integer(value)
    }
}

impl FromSpecImpl<i64> for RespFrame {
    open spec fn obeys_from_spec() -> bool {
        true
    }

    open spec fn from_spec(value: i64) -> Self {
        RespFrame::Integer(value)
    }
}

impl From<BulkString> for RespFrame {
    fn from(value: BulkString) -> (r: Self) {
        RespFrame::BulkString(value)
    }
}

impl FromSpecImpl<BulkString> for RespFrame {
    open spec fn obeys_from_spec() -> bool {
        true
    }

    open spec fn from_spec(value: BulkString) -> Self {
        RespFrame::BulkString(value)
    }
}

impl From<RespArray> for RespFrame {
    fn from(value: RespArray) -> (r: Self) {
        RespFrame::Array(value)
    }
}

impl FromSpecImpl<RespArray> for RespFrame {
    open spec fn obeys_from_spec() -> bool {
        true
    }

    open spec fn from_spec(value: RespArray) -> Self {
        RespFrame::Array(value)
    }
}

impl From<RespNull> for RespFrame {
    fn from(value: RespNull) -> (r: Self) {
        RespFrame::Null(value)
    }
}

impl FromSpecImpl<RespNull> for RespFrame {
    open spec fn obeys_from_spec() -> bool {
        true
    }

    open spec fn from_spec(value: RespNull) -> Self {
        RespFrame::Null(value)
    }
}

impl From<bool> for RespFrame {
    fn from(value: bool) -> (r: Self) {
        RespFrame::Boolean(value)
    }
}

impl FromSpecImpl<bool> for RespFrame {
    open spec fn obeys_from_spec() -> bool {
        true
    }

    open spec fn from_spec(value: bool) -> Self {
        RespFrame::Boolean(value)
    }
}

impl From<RespDouble> for RespFrame {
    fn from(value: RespDouble) -> (r: Self) {
        RespFrame::Double(value)
    }
}

impl FromSpecImpl<RespDouble> for RespFrame {
    open spec fn obeys_from_spec() -> bool {
        true
    }

    open spec fn from_spec(value: RespDouble) -> Self {
        RespFrame::Double(value)
    }
}

impl From<RespMap> for RespFrame {
    fn from(value: RespMap) -> (r: Self) {
        RespFrame::RespMap(value)
    }
}

impl FromSpecImpl<RespMap> for RespFrame {
    open spec fn obeys_from_spec() -> bool {
        true
    }

    open spec fn from_spec(value: RespMap) -> Self {
        RespFrame::RespMap(value)
    }
}

impl From<RespSet> for RespFrame {
    fn from(value: RespSet) -> (r: Self) {
        RespFrame::RespSet(value)
    }
}

impl FromSpecImpl<RespSet> for RespFrame {
    open spec fn obeys_from_spec() -> bool {
        true
    }

    open spec fn from_spec(value: RespSet) -> Self {
        RespFrame::RespSet(value)
    }
}

impl From<&str> for RespFrame {
    /// The simple string of the text.
    fn from(value: &str) -> (r: Self)
        ensures
            r@ == Frame::SimpleString(encode_utf8(value@)),
    {
        RespFrame::SimpleString(SimpleString(String::from_str(value)))
    }
}

impl FromSpecImpl<&str> for RespFrame {
    open spec fn obeys_from_spec() -> bool {
        false
    }

    open spec fn from_spec(value: &str) -> Self {
        arbitrary()
    }
}

impl From<&[u8]> for RespFrame {
    /// The bulk string of the bytes.
    fn from(value: &[u8]) -> (r: Self)
        ensures
            r@ == Frame::BulkString(Some(value@)),
    {
        RespFrame::BulkString(BulkString(Some(slice_to_vec(value))))
    }
}

impl FromSpecImpl<&[u8]> for RespFrame {
    open spec fn obeys_from_spec() -> bool {
        false
    }

    open spec fn from_spec(value: &[u8]) -> Self {
        arbitrary()
    }
}

impl<const N: usize> From<&[u8; N]> for RespFrame {
    /// The bulk string of the bytes.
    fn from(value: &[u8; N]) -> (r: Self)
        ensures
            r@ == Frame::BulkString(Some(value@)),
    {
        RespFrame::BulkString(BulkString(Some(slice_to_vec(value.as_slice()))))
    }
}

impl<const N: usize> FromSpecImpl<&[u8; N]> for RespFrame {
    open spec fn obeys_from_spec() -> bool {
        false
    }

    open spec fn from_spec(value: &[u8; N]) -> Self {
        arbitrary()
    }
}

impl From<&str> for BulkString {
    /// The bulk string of the bytes of the text.
    fn from(value: &str) -> (r: Self)
        ensures
            r@ == Some(encode_utf8(value@)),
    {
        BulkString(Some(value.as_bytes_vec()))
    }
}

impl FromSpecImpl<&str> for BulkString {
    open spec fn obeys_from_spec() -> bool {
        false
    }

    open spec fn from_spec(value: &str) -> Self {
        arbitrary()
    }
}

impl From<&[u8]> for BulkString {
    fn from(value: &[u8]) -> (r: Self)
        ensures
            r@ == Some(value@),
    {
        BulkString(Some(slice_to_vec(value)))
    }
}

impl FromSpecImpl<&[u8]> for BulkString {
    open spec fn obeys_from_spec() -> bool {
        false
    }

    open spec fn from_spec(value: &[u8]) -> Self {
        arbitrary()
    }
}

impl<const N: usize> From<&[u8; N]> for BulkString {
    fn from(value: &[u8; N]) -> (r: Self)
        ensures
            r@ == Some(value@),
    {
        BulkString(Some(slice_to_vec(value.as_slice())))
    }
}

impl<const N: usize> FromSpecImpl<&[u8; N]> for BulkString {
    open spec fn obeys_from_spec() -> bool {
        false
    }

    open spec fn from_spec(value: &[u8; N]) -> Self {
        arbitrary()
    }
}

impl From<&str> for SimpleError {
    fn from(value: &str) -> (r: Self)
        ensures
            r.0@ == value@,
    {
        SimpleError(String::from_str(value))
    }
}

impl FromSpecImpl<&str> for SimpleError {
    open spec fn obeys_from_spec() -> bool {
        false
    }

    open spec fn from_spec(value: &str) -> Self {
        arbitrary()
    }
}

} // verus!
