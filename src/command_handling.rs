//! Dispatch: what each command does to the store and which reply it gets.
use vstd::prelude::*;
use crate::clock::now_millis;
use crate::command::{Command, CommandSpec, Section, SectionSpec};
use crate::resp::{
    bulk_spec, bulk_string, crlf, null_bulk, null_bulk_spec, push_all, simple_spec, simple_string,
};
use crate::server::ServerInfo;
use crate::session::Session;
use crate::store::{expiry_of, ttl_of, live_value, CacheValue, EntrySpec, Store};

verus! {

/// `PONG`
pub open spec fn word_pong() -> Seq<u8> {
    seq![80u8, 79u8, 78u8, 71u8]
}

/// `OK`
pub open spec fn word_ok() -> Seq<u8> {
    seq![79u8, 75u8]
}

/// `replication`
pub open spec fn word_replication() -> Seq<u8> {
    seq![114u8, 101u8, 112u8, 108u8, 105u8, 99u8, 97u8, 116u8, 105u8, 111u8, 110u8]
}

/// The lines joined by the frame separator `\r\n`.
pub open spec fn join_lines(lines: Seq<Seq<u8>>) -> Seq<u8>
    decreases lines.len(),
{
    if lines.len() == 0 {
        Seq::empty()
    } else if lines.len() == 1 {
        lines[0]
    } else {
        join_lines(lines.drop_last()) + crlf() + lines.last()
    }
}

/// The payload of an `INFO` reply: the replication lines for all sections or
/// for the section named `replication`, nothing for any other section.
pub open spec fn info_payload(info: ServerInfo, section: SectionSpec) -> Seq<u8> {
    match section {
        SectionSpec::All => join_lines(info.lines_spec()),
        SectionSpec::Named(name) => if name == word_replication() {
            join_lines(info.lines_spec())
        } else {
            Seq::empty()
        },
    }
}

/// The reply to `cmd` on a store holding `store` at time `now`.
pub open spec fn reply_of(
    info: ServerInfo,
    store: Map<Seq<u8>, EntrySpec>,
    cmd: CommandSpec,
    now: int,
) -> Seq<u8> {
    match cmd {
        CommandSpec::Ping => simple_spec(word_pong()),
        CommandSpec::Echo(message) => bulk_spec(message),
        CommandSpec::Info(section) => bulk_spec(info_payload(info, section)),
        CommandSpec::SetValue(_, _, _) => simple_spec(word_ok()),
        CommandSpec::Get(key) => match live_value(store, key, now) {
            Some(v) => bulk_spec(v),
            None => null_bulk_spec(),
        },
    }
}

/// The store after `cmd` at time `now`: `SET` replaces the key's value and
/// expiry, every other command leaves the store as it was.
pub open spec fn store_after(
    store: Map<Seq<u8>, EntrySpec>,
    cmd: CommandSpec,
    now: int,
) -> Map<Seq<u8>, EntrySpec> {
    match cmd {
        CommandSpec::SetValue(key, value, ttl_ms) => store.insert(
            key,
            EntrySpec { value, expires_at: expiry_of(now, ttl_ms) },
        ),
        _ => store,
    }
}

/// The lines joined by `\r\n`.
pub fn join_with_crlf(lines: &Vec<Vec<u8>>) -> (r: Vec<u8>)
    ensures
        r@ == join_lines(lines@.map_values(|v: Vec<u8>| v@)),
{
    let ghost views = lines@.map_values(|v: Vec<u8>| v@);
    let mut out: Vec<u8> = Vec::new();
    let mut i: usize = 0;
    while i < lines.len()
        invariant
            i <= lines@.len(),
            views == lines@.map_values(|v: Vec<u8>| v@),
            out@ == join_lines(views.subrange(0, i as int)),
        decreases lines@.len() - i,
    {
        let ghost before = out@;
        if i > 0 {
            out.push(13u8);
            out.push(10u8);
        }
        push_all(&mut out, lines[i].as_slice());
        proof {
            let s = views.subrange(0, i as int + 1);
            assert(s.drop_last() =~= views.subrange(0, i as int));
            assert(s.last() == lines@[i as int]@);
            if i == 0 {
                assert(out@ =~= s[0]);
            } else {
                assert(out@ =~= before + crlf() + s.last());
            }
        }
        i = i + 1;
    }
    assert(views.subrange(0, i as int) =~= views);
    out
}

fn info_reply(info: &ServerInfo, section: &Section) -> (r: Vec<u8>)
    ensures
        r@ == bulk_spec(info_payload(*info, section@)),
{
    let replication: [u8; 11] = [114u8, 101u8, 112u8, 108u8, 105u8, 99u8, 97u8, 116u8, 105u8, 111u8, 110u8];
    assert(replication@ =~= word_replication());
    let wanted = match section {
        Section::All => true,
        Section::Named(name) => crate::store::bytes_eq(name.as_slice(), &replication),
    };
    if wanted {
        let lines = info.replication_info();
        let payload = join_with_crlf(&lines);
        bulk_string(payload.as_slice())
    } else {
        let empty: Vec<u8> = Vec::new();
        assert(empty@ =~= Seq::<u8>::empty());
        bulk_string(empty.as_slice())
    }
}

/// Carries out `cmd` at time `now` and returns the reply.
pub fn dispatch(info: &ServerInfo, store: &mut Store, cmd: &Command, now: i64) -> (r: Vec<u8>)
    requires
        old(store).wf(),
    ensures
        final(store).wf(),
        final(store)@ == store_after(old(store)@, cmd@, now as int),
        r@ == reply_of(*info, old(store)@, cmd@, now as int),
{
    match cmd {
        Command::Ping => {
            let pong: [u8; 4] = [80u8, 79u8, 78u8, 71u8];
            assert(pong@ =~= word_pong());
            simple_string(&pong)
        },
        Command::Echo { message } => bulk_string(message.as_slice()),
        Command::Info { section } => info_reply(info, section),
        Command::SetValue { key, value, ttl_ms } => {
            let entry = CacheValue::new_at(value.as_slice(), *ttl_ms, now);
            store.put(key.as_slice(), entry);
            assert(entry@ == EntrySpec {
                value: value@,
                expires_at: expiry_of(now as int, ttl_of(*ttl_ms)),
            });
            let ok: [u8; 2] = [79u8, 75u8];
            assert(ok@ =~= word_ok());
            simple_string(&ok)
        },
        Command::Get { key } => match store.get_at(key.as_slice(), now) {
            Some(v) => bulk_string(v.as_slice()),
            None => null_bulk(),
        },
    }
}

/// Carries out commands for the connections of a server.
pub struct CommandHandler;

impl CommandHandler {
    /// Carries out `command` for `session` at the current time and returns
    /// the reply. Whatever the clock reads, the store and the reply are those
    /// of `dispatch` at that time.
    pub fn handle(&mut self, session: &Session, store: &mut Store, command: Command) -> (r: Vec<u8>)
        requires
            old(store).wf(),
        ensures
            final(store).wf(),
            exists|now: i64|
                final(store)@ == store_after(old(store)@, command@, now as int) && r@ == reply_of(
                    session.server_info,
                    old(store)@,
                    command@,
                    now as int,
                ),
    {
        let now = now_millis();
        dispatch(&session.server_info, store, &command, now)
    }
}

} // verus!
