//! The replica bootstrap handshake: the requests a replica sends its primary
//! before it serves clients, and the literal reply each one must get.
//!
//! The caller owns the connection: it sends `request` for the current step,
//! reads the reply and hands it to `advance`. Any other reply than the
//! expected one ends the handshake with an error.
use vstd::prelude::*;
use crate::command::word_ping;
use crate::command_handling::{word_ok, word_pong};
use crate::resp::{array_spec, dec, encode_array, simple_spec, simple_string};
use crate::store::{bytes_eq, copy_bytes};

verus! {

/// Where a handshake stands.
#[derive(Clone, Copy, PartialEq, Eq, Structural, Debug)]
pub enum HandshakeStep {
    /// Send `PING`, expect `+PONG`.
    Ping,
    /// Send `REPLCONF listening-port <port>`, expect `+OK`.
    ListeningPort,
    /// Send `REPLCONF capa psync2`, expect `+OK`.
    Capabilities,
    /// The handshake is complete.
    Done,
}

/// Why a handshake failed. Each is fatal to a replica's startup.
pub enum HandshakeError {
    /// The primary could not be reached, or the connection failed.
    Unreachable,
    /// The primary answered a step with something else than the expected reply.
    UnexpectedReply { step: HandshakeStep, reply: Vec<u8> },
}

/// `REPLCONF`
pub open spec fn word_replconf() -> Seq<u8> {
    seq![82u8, 69u8, 80u8, 76u8, 67u8, 79u8, 78u8, 70u8]
}

/// `listening-port`
pub open spec fn word_listening_port() -> Seq<u8> {
    seq![108u8, 105u8, 115u8, 116u8, 101u8, 110u8, 105u8, 110u8, 103u8, 45u8, 112u8, 111u8, 114u8, 116u8]
}

/// `capa`
pub open spec fn word_capa() -> Seq<u8> {
    seq![99u8, 97u8, 112u8, 97u8]
}

/// `psync2`
pub open spec fn word_psync2() -> Seq<u8> {
    seq![112u8, 115u8, 121u8, 110u8, 99u8, 50u8]
}

/// The bulk strings of the request sent at `step` by a replica listening on `port`.
pub open spec fn request_items(step: HandshakeStep, port: u16) -> Seq<Seq<u8>> {
    match step {
        HandshakeStep::Ping => seq![word_ping()],
        HandshakeStep::ListeningPort => seq![word_replconf(), word_listening_port(), dec(port as nat)],
        HandshakeStep::Capabilities => seq![word_replconf(), word_capa(), word_psync2()],
        HandshakeStep::Done => Seq::empty(),
    }
}

/// The one reply that lets the handshake go past `step`.
pub open spec fn expected_spec(step: HandshakeStep) -> Seq<u8> {
    match step {
        HandshakeStep::Ping => simple_spec(word_pong()),
        _ => simple_spec(word_ok()),
    }
}

/// The step after `step`.
pub open spec fn step_after(step: HandshakeStep) -> HandshakeStep {
    match step {
        HandshakeStep::Ping => HandshakeStep::ListeningPort,
        HandshakeStep::ListeningPort => HandshakeStep::Capabilities,
        _ => HandshakeStep::Done,
    }
}

fn port_digits(port: u16) -> (r: Vec<u8>)
    ensures
        r@ == dec(port as nat),
{
    let mut out: Vec<u8> = Vec::new();
    crate::resp::push_decimal(&mut out, port as usize);
    assert(out@ =~= dec(port as nat));
    out
}

impl HandshakeStep {
    /// The request to send at this step, an array of bulk strings.
    pub fn request(&self, port: u16) -> (r: Vec<u8>)
        requires
            *self != HandshakeStep::Done,
        ensures
            r@ == array_spec(request_items(*self, port)),
    {
        let ping: [u8; 4] = [80u8, 73u8, 78u8, 71u8];
        let replconf: [u8; 8] = [82u8, 69u8, 80u8, 76u8, 67u8, 79u8, 78u8, 70u8];
        let listening_port: [u8; 14] = [108u8, 105u8, 115u8, 116u8, 101u8, 110u8, 105u8, 110u8, 103u8, 45u8, 112u8, 111u8, 114u8, 116u8];
        let capa: [u8; 4] = [99u8, 97u8, 112u8, 97u8];
        let psync2: [u8; 6] = [112u8, 115u8, 121u8, 110u8, 99u8, 50u8];
        assert(ping@ =~= word_ping());
        assert(replconf@ =~= word_replconf());
        assert(listening_port@ =~= word_listening_port());
        assert(capa@ =~= word_capa());
        assert(psync2@ =~= word_psync2());
        let mut items: Vec<Vec<u8>> = Vec::new();
        match self {
            HandshakeStep::Ping => {
                items.push(copy_bytes(&ping));
            },
            HandshakeStep::ListeningPort => {
                items.push(copy_bytes(&replconf));
                items.push(copy_bytes(&listening_port));
                items.push(port_digits(port));
            },
            _ => {
                items.push(copy_bytes(&replconf));
                items.push(copy_bytes(&capa));
                items.push(copy_bytes(&psync2));
            },
        }
        assert(items@.map_values(|v: Vec<u8>| v@) =~= request_items(*self, port));
        encode_array(&items)
    }

    /// The reply the primary must give at this step.
    pub fn expected_reply(&self) -> (r: Vec<u8>)
        ensures
            r@ == expected_spec(*self),
    {
        match self {
            HandshakeStep::Ping => {
                let pong: [u8; 4] = [80u8, 79u8, 78u8, 71u8];
                assert(pong@ =~= word_pong());
                simple_string(&pong)
            },
            _ => {
                let ok: [u8; 2] = [79u8, 75u8];
                assert(ok@ =~= word_ok());
                simple_string(&ok)
            },
        }
    }

    /// Moves past this step if `reply` is exactly the expected reply, and
    /// fails with the step and the reply otherwise.
    pub fn advance(&self, reply: &[u8]) -> (r: Result<HandshakeStep, HandshakeError>)
        requires
            *self != HandshakeStep::Done,
        ensures
            reply@ == expected_spec(*self) <==> r is Ok,
            r matches Ok(next) ==> next == step_after(*self),
            r matches Err(e) ==> e matches HandshakeError::UnexpectedReply { step, reply: got }
                && step == *self && got@ == reply@,
    {
        let expected = self.expected_reply();
        if bytes_eq(reply, expected.as_slice()) {
            Ok(
                match self {
                    HandshakeStep::Ping => HandshakeStep::ListeningPort,
                    HandshakeStep::ListeningPort => HandshakeStep::Capabilities,
                    _ => HandshakeStep::Done,
                },
            )
        } else {
            Err(HandshakeError::UnexpectedReply { step: *self, reply: copy_bytes(reply) })
        }
    }
}


/// The step at position `i` of the handshake, counting from 0.
pub open spec fn step_at(i: int) -> HandshakeStep {
    if i == 0 {
        HandshakeStep::Ping
    } else if i == 1 {
        HandshakeStep::ListeningPort
    } else if i == 2 {
        HandshakeStep::Capabilities
    } else {
        HandshakeStep::Done
    }
}

/// A handshake run from `step` against a primary whose replies, in order,
/// are `replies`, each step going as `advance` says: the steps whose request
/// is sent, and how the run ends. A reply that never comes counts as empty.
pub open spec fn handshake_run(step: HandshakeStep, replies: Seq<Seq<u8>>) -> (
    Seq<HandshakeStep>,
    Result<(), (HandshakeStep, Seq<u8>)>,
)
    decreases replies.len(),
{
    if step == HandshakeStep::Done {
        (Seq::empty(), Ok(()))
    } else if replies.len() == 0 {
        (seq![step], Err((step, Seq::empty())))
    } else if replies[0] == expected_spec(step) {
        let rest = handshake_run(step_after(step), replies.drop_first());
        (seq![step] + rest.0, rest.1)
    } else {
        (seq![step], Err((step, replies[0])))
    }
}

/// A handshake stops at the first reply that differs from its literal: the
/// requests of the steps up to and including that one are sent, no later
/// one, and the run fails at that step with that reply. When the three
/// replies are `+PONG`, `+OK`, `+OK`, all three requests are sent and the
/// run completes.
pub proof fn lemma_handshake_run(replies: Seq<Seq<u8>>, j: int)
    requires
        replies.len() == 3,
        0 <= j <= 3,
        forall|i: int| 0 <= i < j ==> replies[i] == expected_spec(#[trigger] step_at(i)),
        j < 3 ==> replies[j] != expected_spec(step_at(j)),
    ensures
        handshake_run(HandshakeStep::Ping, replies).0.len() == if j < 3 {
            j + 1
        } else {
            3
        },
        forall|i: int|
            0 <= i < handshake_run(HandshakeStep::Ping, replies).0.len() ==> #[trigger] handshake_run(
                HandshakeStep::Ping,
                replies,
            ).0[i] == step_at(i),
        j < 3 ==> handshake_run(HandshakeStep::Ping, replies).1 == Err::<(), (HandshakeStep, Seq<u8>)>(
            (step_at(j), replies[j]),
        ),
        j == 3 ==> handshake_run(HandshakeStep::Ping, replies).1 is Ok,
{
    let r1 = replies.drop_first();
    let r2 = r1.drop_first();
    let r3 = r2.drop_first();
    assert(r1[0] == replies[1]);
    assert(r1[1] == replies[2]);
    assert(r2[0] == replies[2]);
    assert(r3.len() == 0);
    if j > 0 {
        assert(replies[0] == expected_spec(step_at(0)));
    }
    if j > 1 {
        assert(replies[1] == expected_spec(step_at(1)));
    }
    if j > 2 {
        assert(replies[2] == expected_spec(step_at(2)));
    }
    let run3 = handshake_run(HandshakeStep::Done, r3);
    let run2 = handshake_run(HandshakeStep::Capabilities, r2);
    let run1 = handshake_run(HandshakeStep::ListeningPort, r1);
    let run0 = handshake_run(HandshakeStep::Ping, replies);
    if j == 0 {
        assert(run0.0 =~= seq![HandshakeStep::Ping]);
    } else if j == 1 {
        assert(run1.0 =~= seq![HandshakeStep::ListeningPort]);
        assert(run0.0 =~= seq![HandshakeStep::Ping, HandshakeStep::ListeningPort]);
    } else if j == 2 {
        assert(run2.0 =~= seq![HandshakeStep::Capabilities]);
        assert(run1.0 =~= seq![HandshakeStep::ListeningPort, HandshakeStep::Capabilities]);
        assert(run0.0 =~= seq![HandshakeStep::Ping, HandshakeStep::ListeningPort, HandshakeStep::Capabilities]);
    } else {
        assert(run3.0 =~= Seq::<HandshakeStep>::empty());
        assert(run2.0 =~= seq![HandshakeStep::Capabilities]);
        assert(run1.0 =~= seq![HandshakeStep::ListeningPort, HandshakeStep::Capabilities]);
        assert(run0.0 =~= seq![HandshakeStep::Ping, HandshakeStep::ListeningPort, HandshakeStep::Capabilities]);
    }
}

} // verus!
