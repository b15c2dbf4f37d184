//! One connection, as a machine: given the bytes received so far, what the
//! handler does next. The transport does the reading and the writing.
use bytes::BytesMut;
use crate::backend::{Backend, Store};
use crate::cmd::{Command, CommandError, CommandExecutor};
use crate::cmd::model::{executed, request_of};
use crate::resp::buffer::{buffer_bytes, buffered};
use crate::resp::frame::{write_frame, RespFrame};
use crate::resp::{RespDecode, RespError};
use crate::resp::wire::{decode_frame, encode_frame, Fault, Frame};
use vstd::prelude::*;

verus! {

/// Why a connection ends in failure.
#[derive(Debug, PartialEq, Eq)]
pub enum HandlerError {
    /// The bytes received are no frame.
    Codec(RespError),
    /// The frame received is no command.
    Command(CommandError),
    /// The peer closed the stream in the middle of a frame.
    ClosedMidFrame,
}

/// What the handler does next.
#[derive(Debug, PartialEq, Eq)]
pub enum Action {
    /// Wait for more bytes and append them to the buffer.
    Read,
    /// Send these bytes, the reply to one command, then ask again.
    Write(Vec<u8>),
    /// The peer is gone and nothing is left over: end the connection.
    Finish,
    /// End the connection with this error.
    Fail(HandlerError),
}

/// Takes one frame from the front of `src`, if a whole one is there.
/// `Ok(None)` says that more bytes are needed; the buffer stays as it is
/// then, and on any error.
pub fn decode_next(src: &mut BytesMut) -> (r: Result<Option<RespFrame>, RespError>)
    ensures
        match decode_frame(buffered(*old(src))) {
            Ok((f, n)) => r matches Ok(Some(v)) && v@ == f && n <= buffered(*old(src)).len()
                && buffered(*final(src)) == buffered(*old(src)).skip(n as int),
            Err(Fault::NotComplete) => r matches Ok(None) && buffered(*final(src)) == buffered(
                *old(src),
            ),
            Err(e) => r matches Err(x) && x@ == e && buffered(*final(src)) == buffered(*old(src)),
        },
{
    match RespFrame::decode(src) {
        Ok(frame) => Ok(Some(frame)),
        Err(RespError::NotComplete) => Ok(None),
        Err(e) => Err(e),
    }
}

/// Reads `frame` as a command and carries it out. A frame that is no command
/// leaves the backend as it is.
pub fn respond(frame: RespFrame, backend: &mut Backend) -> (r: Result<RespFrame, CommandError>)
    ensures
        match request_of(frame@) {
            Ok(req) => r matches Ok(reply) && executed(
                req,
                old(backend)@,
                final(backend)@,
                reply@,
            ),
            Err(f) => r matches Err(e) && e@ == f && final(backend)@ == old(backend)@,
        },
{
    match <Command as TryFrom<RespFrame>>::try_from(frame) {
        Ok(cmd) => Ok(cmd.execute(backend)),
        Err(e) => Err(e),
    }
}

/// What `act` is to do, given what decoding makes of the buffer: the bytes
/// in the buffer before and after, the store before and after, and whether
/// the peer has closed the stream.
pub open spec fn acted(
    before: Seq<u8>,
    after: Seq<u8>,
    store: Store,
    store_after: Store,
    closed: bool,
    action: Action,
) -> bool {
    match decode_frame(before) {
        Ok((f, n)) => after == before.skip(n as int) && match request_of(f) {
            Ok(req) => exists|reply: Frame|
                {
                    &&& executed(req, store, store_after, reply)
                    &&& action matches Action::Write(bytes)
                    &&& bytes@ == #[trigger] encode_frame(reply)
                },
            Err(fault) => {
                &&& store_after == store
                &&& action matches Action::Fail(HandlerError::Command(e))
                &&& e@ == fault
            },
        },
        Err(Fault::NotComplete) => after == before && store_after == store && action == (
        if !closed {
            Action::Read
        } else if before.len() == 0 {
            Action::Finish
        } else {
            Action::Fail(HandlerError::ClosedMidFrame)
        }),
        Err(fault) => {
            &&& after == before
            &&& store_after == store
            &&& action matches Action::Fail(HandlerError::Codec(e))
            &&& e@ == fault
        },
    }
}

/// One step of the handler. Where the buffer begins with a whole frame, the
/// frame leaves the buffer, is carried out as a command, and the reply is to
/// be written. Where more bytes are needed, they are to be read, unless the
/// peer has closed the stream: then the connection ends, in failure if bytes
/// are left over. Bytes that are no frame, and a frame that is no command,
/// end the connection in failure.
pub fn act(buf: &mut BytesMut, backend: &mut Backend, closed: bool) -> (action: Action)
    ensures
        acted(
            buffered(*old(buf)),
            buffered(*final(buf)),
            old(backend)@,
            final(backend)@,
            closed,
            action,
        ),
{
    match decode_next(buf) {
        Ok(Some(frame)) => match respond(frame, backend) {
            Ok(reply) => {
                let mut bytes: Vec<u8> = Vec::new();
                write_frame(&reply, &mut bytes);
                assert(bytes@ =~= encode_frame(reply@));
                Action::Write(bytes)
            },
            Err(e) => Action::Fail(HandlerError::Command(e)),
        },
        Ok(None) => {
            if !closed {
                Action::Read
            } else if buffer_bytes(buf).len() == 0 {
                Action::Finish
            } else {
                Action::Fail(HandlerError::ClosedMidFrame)
            }
        },
        Err(e) => Action::Fail(HandlerError::Codec(e)),
    }
}

} // verus!
