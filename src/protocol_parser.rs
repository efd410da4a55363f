//! Reading one request from the start of a buffer of received bytes.
use vstd::prelude::*;
use crate::command::{command_of, parse_command, Command, CommandSpec, ErrorSpec, ProtocolError};
use crate::decoder::{decode_frame, frame_at, Decoded, Frame};

verus! {

/// The result of reading the start of a buffer.
pub enum ParseOutcome {
    /// The buffer holds only the start of a frame.
    Incomplete,
    /// The buffer can never start with a frame; the connection cannot go on.
    Corrupt,
    /// One whole frame of `consumed` bytes, and the command it spells or why
    /// it spells none.
    Parsed { command: Result<Command, ProtocolError>, consumed: usize },
}

/// Whether a parse result agrees with the spec model of the buffer.
pub open spec fn parsed_from(r: ParseOutcome, buf: Seq<u8>) -> bool {
    match r {
        ParseOutcome::Incomplete => frame_at(buf) is Need,
        ParseOutcome::Corrupt => frame_at(buf) is Bad,
        ParseOutcome::Parsed { command, consumed } => match frame_at(buf) {
            Decoded::Found(items, e) => e == consumed as int && match command {
                Ok(c) => command_of(items) == Ok::<CommandSpec, ErrorSpec>(c@),
                Err(err) => command_of(items) == Err::<CommandSpec, ErrorSpec>(err@),
            },
            _ => false,
        },
    }
}

/// Reads the first request of `buf`: incomplete, corrupt, or one frame with
/// its command or protocol error. Bytes after that frame are not looked at.
pub fn parse_protocol(buf: &[u8]) -> (r: ParseOutcome)
    ensures
        parsed_from(r, buf@),
{
    match decode_frame(buf) {
        Frame::Incomplete => ParseOutcome::Incomplete,
        Frame::Malformed => ParseOutcome::Corrupt,
        Frame::Complete { items, consumed } => ParseOutcome::Parsed {
            command: parse_command(&items),
            consumed,
        },
    }
}

} // verus!
