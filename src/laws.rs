//! Properties that hold across commands, stated over the models that the
//! dispatcher, the store and the decoder are verified against.
use vstd::prelude::*;
use crate::command::{CommandSpec, SectionSpec};
use crate::command_handling::{join_lines, reply_of, store_after, word_replication};
use crate::decoder::{
    agree, frame_at, lemma_frame_agree, lemma_frame_encoded, pow10, Decoded, MAX_DIGITS,
};
use crate::resp::{array_spec, bulk_spec, null_bulk_spec};
use crate::server::{
    int_dec, is_hex_char, line_role_master, line_role_slave, offset_label, replid_label,
    ServerInfo, ServerRole,
};
use crate::store::{live_value, EntrySpec};

verus! {

/// A `GET` after a `SET` of the same key returns the value set, when the
/// value has no time to live or is read before its time runs out.
pub proof fn lemma_set_then_get(
    info: ServerInfo,
    store: Map<Seq<u8>, EntrySpec>,
    key: Seq<u8>,
    value: Seq<u8>,
    ttl_ms: Option<nat>,
    set_at: int,
    get_at: int,
)
    requires
        ttl_ms matches Some(t) ==> get_at < set_at + t,
    ensures
        reply_of(
            info,
            store_after(store, CommandSpec::SetValue(key, value, ttl_ms), set_at),
            CommandSpec::Get(key),
            get_at,
        ) == bulk_spec(value),
{
}

/// A `GET` of a key that was never set returns the null bulk reply `$-1\r\n`.
pub proof fn lemma_get_absent(
    info: ServerInfo,
    store: Map<Seq<u8>, EntrySpec>,
    key: Seq<u8>,
    now: int,
)
    requires
        !store.contains_key(key),
    ensures
        reply_of(info, store, CommandSpec::Get(key), now) == null_bulk_spec(),
        null_bulk_spec() == seq![36u8, 45u8, 49u8, 13u8, 10u8],
{
    assert(null_bulk_spec() =~= seq![36u8, 45u8, 49u8, 13u8, 10u8]);
}

/// A value set with a time to live is returned up to the moment the time
/// runs out and is the null bulk reply from then on.
pub proof fn lemma_set_with_ttl_expires(
    info: ServerInfo,
    store: Map<Seq<u8>, EntrySpec>,
    key: Seq<u8>,
    value: Seq<u8>,
    ttl_ms: nat,
    set_at: int,
    get_at: int,
)
    ensures
        get_at < set_at + ttl_ms ==> reply_of(
            info,
            store_after(store, CommandSpec::SetValue(key, value, Some(ttl_ms)), set_at),
            CommandSpec::Get(key),
            get_at,
        ) == bulk_spec(value),
        get_at >= set_at + ttl_ms ==> reply_of(
            info,
            store_after(store, CommandSpec::SetValue(key, value, Some(ttl_ms)), set_at),
            CommandSpec::Get(key),
            get_at,
        ) == null_bulk_spec(),
{
}

/// `PING` is answered `+PONG\r\n` whatever the store holds, and leaves it as it is.
pub proof fn lemma_ping(info: ServerInfo, store: Map<Seq<u8>, EntrySpec>, now: int)
    ensures
        reply_of(info, store, CommandSpec::Ping, now) == seq![43u8, 80u8, 79u8, 78u8, 71u8, 13u8, 10u8],
        store_after(store, CommandSpec::Ping, now) == store,
{
    assert(reply_of(info, store, CommandSpec::Ping, now) =~= seq![43u8, 80u8, 79u8, 78u8, 71u8, 13u8, 10u8]);
}

/// A second `SET` of a key replaces the first entirely: the store is as if
/// only the second had been made, and a value set without a time to live
/// never expires, whatever time to live the first one had.
pub proof fn lemma_set_replaces(
    info: ServerInfo,
    store: Map<Seq<u8>, EntrySpec>,
    key: Seq<u8>,
    first: Seq<u8>,
    first_ttl_ms: Option<nat>,
    first_at: int,
    second: Seq<u8>,
    second_ttl_ms: Option<nat>,
    second_at: int,
)
    ensures
        store_after(
            store_after(store, CommandSpec::SetValue(key, first, first_ttl_ms), first_at),
            CommandSpec::SetValue(key, second, second_ttl_ms),
            second_at,
        ) == store_after(store, CommandSpec::SetValue(key, second, second_ttl_ms), second_at),
        second_ttl_ms is None ==> forall|now: int|
            reply_of(
                info,
                #[trigger] store_after(
                    store_after(store, CommandSpec::SetValue(key, first, first_ttl_ms), first_at),
                    CommandSpec::SetValue(key, second, None),
                    second_at,
                ),
                CommandSpec::Get(key),
                now,
            ) == bulk_spec(second),
{
    assert(store_after(
        store_after(store, CommandSpec::SetValue(key, first, first_ttl_ms), first_at),
        CommandSpec::SetValue(key, second, second_ttl_ms),
        second_at,
    ) =~= store_after(store, CommandSpec::SetValue(key, second, second_ttl_ms), second_at));
}

/// Writes to different keys do not disturb each other: a `SET` leaves what
/// every other key reads unchanged, and two `SET`s of different keys give
/// the same store in either order.
pub proof fn lemma_disjoint_keys(
    store: Map<Seq<u8>, EntrySpec>,
    key_a: Seq<u8>,
    value_a: Seq<u8>,
    ttl_a: Option<nat>,
    at_a: int,
    key_b: Seq<u8>,
    value_b: Seq<u8>,
    ttl_b: Option<nat>,
    at_b: int,
)
    requires
        key_a != key_b,
    ensures
        forall|now: int|
            live_value(
                #[trigger] store_after(store, CommandSpec::SetValue(key_a, value_a, ttl_a), at_a),
                key_b,
                now,
            ) == live_value(store, key_b, now),
        store_after(
            store_after(store, CommandSpec::SetValue(key_a, value_a, ttl_a), at_a),
            CommandSpec::SetValue(key_b, value_b, ttl_b),
            at_b,
        ) == store_after(
            store_after(store, CommandSpec::SetValue(key_b, value_b, ttl_b), at_b),
            CommandSpec::SetValue(key_a, value_a, ttl_a),
            at_a,
        ),
{
    assert(store_after(
        store_after(store, CommandSpec::SetValue(key_a, value_a, ttl_a), at_a),
        CommandSpec::SetValue(key_b, value_b, ttl_b),
        at_b,
    ) =~= store_after(
        store_after(store, CommandSpec::SetValue(key_b, value_b, ttl_b), at_b),
        CommandSpec::SetValue(key_a, value_a, ttl_a),
        at_a,
    ));
}

/// `INFO replication` on a primary with a forty-digit hex replication id at
/// offset 0 reports `role:master`, `master_replid:<id>` and
/// `master_repl_offset:0`; on a replica it reports `role:slave` alone.
pub proof fn lemma_info_replication(
    info: ServerInfo,
    store: Map<Seq<u8>, EntrySpec>,
    now: int,
)
    requires
        info.role matches ServerRole::Primary(m) ==> m.replid@.len() == 40 && (forall|i: int|
            0 <= i < m.replid@.len() ==> is_hex_char(#[trigger] m.replid@[i]))
            && m.repl_offset == 0,
    ensures
        reply_of(info, store, CommandSpec::Info(SectionSpec::Named(word_replication())), now)
            == bulk_spec(join_lines(info.lines_spec())),
        info.role matches ServerRole::Primary(m) ==> info.lines_spec() == seq![
            line_role_master(),
            replid_label() + m.replid@,
            offset_label() + seq![48u8],
        ],
        info.role is Replica ==> info.lines_spec() == seq![line_role_slave()],
{
    assert(int_dec(0) =~= seq![48u8]);
}

/// A frame split across two reads: the first read alone holds no whole
/// frame, and the two together decode to that one frame, all bytes consumed.
pub proof fn lemma_split_frame(first: Seq<u8>, second: Seq<u8>)
    requires
        second.len() > 0,
        frame_at(first + second) matches Decoded::Found(_, e) && e == first.len() + second.len(),
    ensures
        frame_at(first) is Need,
{
    let whole = first + second;
    assert(agree(whole, first, first.len() as int));
    lemma_frame_agree(whole, first);
}

/// A whole frame followed by more bytes decodes to the same frame: the
/// bytes after it are left for the next read.
pub proof fn lemma_frame_then_more(frame: Seq<u8>, more: Seq<u8>)
    requires
        frame_at(frame) matches Decoded::Found(_, e) && e == frame.len(),
    ensures
        frame_at(frame + more) == frame_at(frame),
{
    assert(agree(frame, frame + more, frame.len() as int));
    lemma_frame_agree(frame, frame + more);
}


/// An encoded request decodes to the bulk strings it was made of, taking
/// exactly its own bytes, whatever follows it in the buffer, when the count
/// and every length are below one billion.
pub proof fn lemma_encode_decode(items: Seq<Seq<u8>>, more: Seq<u8>)
    requires
        items.len() < 1000000000,
        forall|i: int| 0 <= i < items.len() ==> (#[trigger] items[i]).len() < 1000000000,
    ensures
        frame_at(array_spec(items) + more) == Decoded::Found(items, array_spec(items).len() as int),
{
    reveal_with_fuel(pow10, 10);
    assert(pow10(MAX_DIGITS as nat) == 1000000000);
    lemma_frame_encoded(items);
    lemma_frame_then_more(array_spec(items), more);
}


/// The store after carrying out `cmds` in order, each at its own time.
pub open spec fn run_commands(
    store: Map<Seq<u8>, EntrySpec>,
    cmds: Seq<(CommandSpec, int)>,
) -> Map<Seq<u8>, EntrySpec>
    decreases cmds.len(),
{
    if cmds.len() == 0 {
        store
    } else {
        store_after(run_commands(store, cmds.drop_last()), cmds.last().0, cmds.last().1)
    }
}

/// Whether `cmd` writes `key`.
pub open spec fn writes_key(cmd: CommandSpec, key: Seq<u8>) -> bool {
    cmd matches CommandSpec::SetValue(k, _, _) && k == key
}

/// `merged` is `mine` and `others` interleaved: each keeps its own order.
pub open spec fn is_interleaving(
    merged: Seq<(CommandSpec, int)>,
    mine: Seq<(CommandSpec, int)>,
    others: Seq<(CommandSpec, int)>,
) -> bool
    decreases merged.len(),
{
    if merged.len() == 0 {
        mine.len() == 0 && others.len() == 0
    } else {
        (mine.len() > 0 && merged.last() == mine.last() && is_interleaving(
            merged.drop_last(),
            mine.drop_last(),
            others,
        )) || (others.len() > 0 && merged.last() == others.last() && is_interleaving(
            merged.drop_last(),
            mine,
            others.drop_last(),
        ))
    }
}

/// Two stores hold the same entry, or none, under `key`.
pub open spec fn same_entry(a: Map<Seq<u8>, EntrySpec>, b: Map<Seq<u8>, EntrySpec>, key: Seq<u8>) -> bool {
    &&& a.contains_key(key) == b.contains_key(key)
    &&& a.contains_key(key) ==> a[key] == b[key]
}

/// Sessions that write disjoint keys do not disturb each other, however their
/// commands interleave: when no command of `others` writes `key`, the entry
/// under `key` after the interleaved run is the one after `mine` alone, and
/// so is what every read of `key` returns at any time. Applied to each prefix
/// of a run, this covers every read a session makes along the way.
pub proof fn lemma_interleaved_sessions(
    store: Map<Seq<u8>, EntrySpec>,
    merged: Seq<(CommandSpec, int)>,
    mine: Seq<(CommandSpec, int)>,
    others: Seq<(CommandSpec, int)>,
    key: Seq<u8>,
)
    requires
        is_interleaving(merged, mine, others),
        forall|i: int| 0 <= i < others.len() ==> !writes_key(#[trigger] others[i].0, key),
    ensures
        same_entry(run_commands(store, merged), run_commands(store, mine), key),
        forall|now: int|
            live_value(#[trigger] run_commands(store, merged), key, now) == live_value(
                run_commands(store, mine),
                key,
                now,
            ),
    decreases merged.len(),
{
    if merged.len() > 0 {
        let c = merged.last();
        if mine.len() > 0 && merged.last() == mine.last() && is_interleaving(
            merged.drop_last(),
            mine.drop_last(),
            others,
        ) {
            lemma_interleaved_sessions(store, merged.drop_last(), mine.drop_last(), others, key);
        } else {
            assert(others.len() > 0 && merged.last() == others.last());
            assert(!writes_key(others[others.len() - 1].0, key));
            assert forall|i: int| 0 <= i < others.drop_last().len() implies !writes_key(
                #[trigger] others.drop_last()[i].0,
                key,
            ) by {
                assert(others.drop_last()[i] == others[i]);
            }
            lemma_interleaved_sessions(store, merged.drop_last(), mine, others.drop_last(), key);
        }
    }
}

} // verus!
