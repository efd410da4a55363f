//! Server metadata: the role of this process and the replication lines that
//! `INFO` reports.
use vstd::prelude::*;
use crate::resp::{dec, push_all, push_decimal};
use crate::store::copy_bytes;
use vstd::string::StringSliceAdditionalSpecFns;

verus! {

/// The number of random bytes behind a replication id.
pub const REPLID_BYTES: usize = 20;

/// Replication state of a primary.
pub struct MasterServerInfo {
    pub replid: Vec<u8>,
    pub repl_offset: i32,
}

/// Whether this process serves as a primary or replicates one.
pub enum ServerRole {
    Primary(MasterServerInfo),
    Replica { primary_address: String },
}

/// What a session knows of the server it belongs to.
pub struct ServerInfo {
    pub addr: String,
    pub role: ServerRole,
}

/// The upper-case hex digit of a value below sixteen.
pub open spec fn hex_digit(n: nat) -> u8 {
    if n < 10 {
        (48 + n) as u8
    } else {
        (55 + n) as u8
    }
}

/// Two upper-case hex digits per byte, most significant first.
pub open spec fn hex_spec(bytes: Seq<u8>) -> Seq<u8>
    decreases bytes.len(),
{
    if bytes.len() == 0 {
        Seq::empty()
    } else {
        hex_spec(bytes.drop_last()) + seq![
            hex_digit((bytes.last() / 16) as nat),
            hex_digit((bytes.last() % 16) as nat),
        ]
    }
}

pub open spec fn is_hex_char(b: u8) -> bool {
    (48 <= b && b <= 57) || (65 <= b && b <= 70)
}

/// The base-10 representation of an integer, with a leading `-` when negative.
pub open spec fn int_dec(n: int) -> Seq<u8> {
    if n < 0 {
        seq![45u8] + dec((-n) as nat)
    } else {
        dec(n as nat)
    }
}

/// `role:master`
pub open spec fn line_role_master() -> Seq<u8> {
    seq![114u8, 111u8, 108u8, 101u8, 58u8, 109u8, 97u8, 115u8, 116u8, 101u8, 114u8]
}

/// `role:slave`
pub open spec fn line_role_slave() -> Seq<u8> {
    seq![114u8, 111u8, 108u8, 101u8, 58u8, 115u8, 108u8, 97u8, 118u8, 101u8]
}

/// `master_replid:`
pub open spec fn replid_label() -> Seq<u8> {
    seq![109u8, 97u8, 115u8, 116u8, 101u8, 114u8, 95u8, 114u8, 101u8, 112u8, 108u8, 105u8, 100u8, 58u8]
}

/// `master_repl_offset:`
pub open spec fn offset_label() -> Seq<u8> {
    seq![
        109u8, 97u8, 115u8, 116u8, 101u8, 114u8, 95u8, 114u8, 101u8, 112u8, 108u8, 95u8,
        111u8, 102u8, 102u8, 115u8, 101u8, 116u8, 58u8,
    ]
}

impl ServerRole {
    pub open spec fn is_primary(&self) -> bool {
        self is Primary
    }
}

impl ServerInfo {
    /// The lines that `INFO replication` reports for this server.
    pub open spec fn lines_spec(&self) -> Seq<Seq<u8>> {
        match self.role {
            ServerRole::Primary(m) => seq![
                line_role_master(),
                replid_label() + m.replid@,
                offset_label() + int_dec(m.repl_offset as int),
            ],
            ServerRole::Replica { .. } => seq![line_role_slave()],
        }
    }
}

/// Relies on rand's `thread_rng` and `Rng::fill` on a byte slice: overwrites
/// every byte of `buf` with random data. Nothing is known of the bytes; the
/// length stays as it was.
#[verifier::external_body]
fn fill_random(buf: &mut Vec<u8>)
    ensures
        final(buf)@.len() == old(buf)@.len(),
{
    rand::Rng::fill(&mut rand::thread_rng(), buf.as_mut_slice())
}

fn hex_char(n: u8) -> (r: u8)
    requires
        n < 16,
    ensures
        r == hex_digit(n as nat),
{
    if n < 10 {
        48 + n
    } else {
        55 + n
    }
}

/// Upper-case hex encoding of `bytes`.
pub fn hex_encode(bytes: &[u8]) -> (r: Vec<u8>)
    ensures
        r@ == hex_spec(bytes@),
        r@.len() == 2 * bytes@.len(),
        forall|i: int| 0 <= i < r@.len() ==> is_hex_char(#[trigger] r@[i]),
{
    let mut out: Vec<u8> = Vec::new();
    let mut i: usize = 0;
    while i < bytes.len()
        invariant
            i <= bytes@.len(),
            out@ == hex_spec(bytes@.subrange(0, i as int)),
            out@.len() == 2 * i,
            forall|j: int| 0 <= j < out@.len() ==> is_hex_char(#[trigger] out@[j]),
        decreases bytes@.len() - i,
    {
        let b = bytes[i];
        out.push(hex_char(b / 16));
        out.push(hex_char(b % 16));
        assert(bytes@.subrange(0, i as int + 1).drop_last() =~= bytes@.subrange(0, i as int));
        i = i + 1;
        assert(out@ =~= hex_spec(bytes@.subrange(0, i as int)));
    }
    assert(bytes@.subrange(0, i as int) =~= bytes@);
    out
}

/// A fresh replication id: forty upper-case hex digits of random bytes.
pub fn generate_server_id() -> (r: Vec<u8>)
    ensures
        r@.len() == 2 * REPLID_BYTES,
        forall|i: int| 0 <= i < r@.len() ==> is_hex_char(#[trigger] r@[i]),
        exists|b: Seq<u8>| b.len() == REPLID_BYTES && r@ == hex_spec(b),
{
    let mut bytes: Vec<u8> = Vec::new();
    let mut i: usize = 0;
    while i < REPLID_BYTES
        invariant
            i <= REPLID_BYTES,
            bytes@.len() == i,
        decreases REPLID_BYTES - i,
    {
        bytes.push(0u8);
        i = i + 1;
    }
    fill_random(&mut bytes);
    hex_encode(bytes.as_slice())
}

impl MasterServerInfo {
    pub fn new(replid: &str, repl_offset: i32) -> (r: MasterServerInfo)
        ensures
            r.replid@ == replid.spec_bytes(),
            r.repl_offset == repl_offset,
    {
        MasterServerInfo { replid: copy_bytes(replid.as_bytes()), repl_offset }
    }
}

fn push_int(out: &mut Vec<u8>, n: i32)
    ensures
        final(out)@ == old(out)@ + int_dec(n as int),
{
    if n < 0 {
        let ghost start = out@;
        out.push(45u8);
        let m: i64 = -(n as i64);
        push_decimal(out, m as usize);
        assert(out@ =~= start + int_dec(n as int));
    } else {
        push_decimal(out, n as usize);
    }
}

impl ServerInfo {
    /// A primary listening on `addr` whose replication id is the hex
    /// encoding of `id_bytes`, at offset 0.
    pub fn new_master_with_id(addr: &str, id_bytes: &[u8]) -> (r: ServerInfo)
        ensures
            r.addr@ == addr@,
            r.role matches ServerRole::Primary(m) && m.replid@ == hex_spec(id_bytes@)
                && m.repl_offset == 0,
    {
        let replid = hex_encode(id_bytes);
        ServerInfo {
            addr: addr.to_owned(),
            role: ServerRole::Primary(MasterServerInfo { replid, repl_offset: 0 }),
        }
    }

    /// A primary listening on `addr`, with a random replication id of forty
    /// hex digits and offset 0.
    pub fn new_master(addr: &str) -> (r: ServerInfo)
        ensures
            r.addr@ == addr@,
            r.role matches ServerRole::Primary(m) && m.replid@.len() == 2 * REPLID_BYTES
                && (forall|i: int| 0 <= i < m.replid@.len() ==> is_hex_char(#[trigger] m.replid@[i]))
                && m.repl_offset == 0,
    {
        let replid = generate_server_id();
        ServerInfo {
            addr: addr.to_owned(),
            role: ServerRole::Primary(MasterServerInfo { replid, repl_offset: 0 }),
        }
    }

    /// A replica listening on `addr` that follows the primary at `master_addr`.
    pub fn new_slave(addr: &str, master_addr: &str) -> (r: ServerInfo)
        ensures
            r.addr@ == addr@,
            r.role matches ServerRole::Replica { primary_address } && primary_address@
                == master_addr@,
    {
        ServerInfo {
            addr: addr.to_owned(),
            role: ServerRole::Replica { primary_address: master_addr.to_owned() },
        }
    }

    /// The replication lines: `role:master`, `master_replid:<id>` and
    /// `master_repl_offset:<offset>` on a primary; `role:slave` alone on a
    /// replica.
    pub fn replication_info(&self) -> (r: Vec<Vec<u8>>)
        ensures
            r@.map_values(|v: Vec<u8>| v@) == self.lines_spec(),
    {
        let mut lines: Vec<Vec<u8>> = Vec::new();
        match &self.role {
            ServerRole::Primary(m) => {
                let role: [u8; 11] = [114u8, 111u8, 108u8, 101u8, 58u8, 109u8, 97u8, 115u8, 116u8, 101u8, 114u8];
                let id_label: [u8; 14] = [109u8, 97u8, 115u8, 116u8, 101u8, 114u8, 95u8, 114u8, 101u8, 112u8, 108u8, 105u8, 100u8, 58u8];
                let off_label: [u8; 19] = [
                    109u8, 97u8, 115u8, 116u8, 101u8, 114u8, 95u8, 114u8, 101u8, 112u8, 108u8, 95u8,
                    111u8, 102u8, 102u8, 115u8, 101u8, 116u8, 58u8,
                ];
                assert(role@ =~= line_role_master());
                assert(id_label@ =~= replid_label());
                assert(off_label@ =~= offset_label());
                lines.push(copy_bytes(&role));
                let mut id_line: Vec<u8> = copy_bytes(&id_label);
                push_all(&mut id_line, m.replid.as_slice());
                lines.push(id_line);
                let mut off_line: Vec<u8> = copy_bytes(&off_label);
                push_int(&mut off_line, m.repl_offset);
                lines.push(off_line);
            },
            ServerRole::Replica { .. } => {
                let role: [u8; 10] = [114u8, 111u8, 108u8, 101u8, 58u8, 115u8, 108u8, 97u8, 118u8, 101u8];
                assert(role@ =~= line_role_slave());
                lines.push(copy_bytes(&role));
            },
        }
        assert(lines@.map_values(|v: Vec<u8>| v@) =~= self.lines_spec());
        lines
    }
}

} // verus!
