//! Per-connection state: bytes received but not yet decoded, and the server
//! the connection belongs to. The socket itself stays with the caller, which
//! feeds received bytes in, carries out the requests that come out against
//! the shared store, and writes the replies back.
use vstd::prelude::*;
use crate::command::{command_of, error_text, Command};
use crate::decoder::{frame_at, Decoded};
use crate::protocol_parser::{parse_protocol, ParseOutcome};
use crate::resp::error_spec;
use crate::server::ServerInfo;

verus! {

pub struct Session {
    pub server_info: ServerInfo,
    pub buffer: Vec<u8>,
}

/// What the connection loop does next.
pub enum Request {
    /// No whole frame is buffered: read more bytes.
    NeedMore,
    /// Carry out this command and send its reply.
    Execute(Command),
    /// Send these bytes, an error reply for a frame that is no command.
    Reply(Vec<u8>),
    /// The buffered bytes can never form a frame: close the connection.
    Close,
}

impl Session {
    /// A session with nothing received yet.
    pub fn new(server_info: ServerInfo) -> (r: Session)
        ensures
            r.server_info == server_info,
            r.buffer@ == Seq::<u8>::empty(),
    {
        Session { server_info, buffer: Vec::new() }
    }

    /// Appends received bytes to the buffer.
    pub fn receive(&mut self, chunk: &[u8])
        ensures
            final(self).server_info == old(self).server_info,
            final(self).buffer@ == old(self).buffer@ + chunk@,
    {
        crate::resp::push_all(&mut self.buffer, chunk);
    }

    /// Takes the first whole frame off the buffer and says what to do with it.
    pub fn next_request(&mut self) -> (r: Request)
        ensures
            final(self).server_info == old(self).server_info,
            match frame_at(old(self).buffer@) {
                Decoded::Need => r is NeedMore && final(self).buffer@ == old(self).buffer@,
                Decoded::Bad => r is Close && final(self).buffer@ == old(self).buffer@,
                Decoded::Found(items, e) => final(self).buffer@ == old(self).buffer@.subrange(
                    e,
                    old(self).buffer@.len() as int,
                ) && match command_of(items) {
                    Ok(c) => r matches Request::Execute(cmd) && cmd@ == c,
                    Err(err) => r matches Request::Reply(bytes) && bytes@ == error_spec(
                        error_text(err),
                    ),
                },
            },
    {
        match parse_protocol(self.buffer.as_slice()) {
            ParseOutcome::Incomplete => Request::NeedMore,
            ParseOutcome::Corrupt => Request::Close,
            ParseOutcome::Parsed { command, consumed } => {
                proof {
                    crate::decoder::lemma_frame_end_in_buffer(self.buffer@);
                }
                let mut rest: Vec<u8> = Vec::new();
                let mut i: usize = consumed;
                while i < self.buffer.len()
                    invariant
                        consumed <= i <= self.buffer@.len(),
                        rest@ == self.buffer@.subrange(consumed as int, i as int),
                    decreases self.buffer@.len() - i,
                {
                    rest.push(self.buffer[i]);
                    i = i + 1;
                    assert(rest@ =~= self.buffer@.subrange(consumed as int, i as int));
                }
                self.buffer = rest;
                match command {
                    Ok(c) => Request::Execute(c),
                    Err(e) => Request::Reply(e.reply()),
                }
            },
        }
    }
}

} // verus!
