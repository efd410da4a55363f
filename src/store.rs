//! The key-value store: one entry per key, each with an optional absolute
//! expiry time in milliseconds. Expiry is checked when an entry is read.
use vstd::prelude::*;
use crate::clock::now_millis;
use crate::resp::push_all;

verus! {

/// One stored value and the time from which it counts as expired.
pub struct CacheValue {
    pub value: Vec<u8>,
    pub expires_at: Option<i128>,
}

/// The model of a `CacheValue`.
pub struct EntrySpec {
    pub value: Seq<u8>,
    pub expires_at: Option<int>,
}

impl View for CacheValue {
    type V = EntrySpec;

    open spec fn view(&self) -> EntrySpec {
        EntrySpec {
            value: self.value@,
            expires_at: match self.expires_at {
                Some(t) => Some(t as int),
                None => None,
            },
        }
    }
}

/// The absolute expiry time of a value written at `now` with an optional
/// time to live.
pub open spec fn expiry_of(now: int, ttl_ms: Option<nat>) -> Option<int> {
    match ttl_ms {
        Some(t) => Some(now + t),
        None => None,
    }
}

/// A time to live in milliseconds, as a natural number.
pub open spec fn ttl_of(expiry_ms: Option<u64>) -> Option<nat> {
    match expiry_ms {
        Some(t) => Some(t as nat),
        None => None,
    }
}

/// An entry is expired from its expiry time on, the boundary included.
pub open spec fn expired(e: EntrySpec, now: int) -> bool {
    match e.expires_at {
        Some(t) => now >= t,
        None => false,
    }
}

/// What a read of `key` at time `now` sees.
pub open spec fn live_value(m: Map<Seq<u8>, EntrySpec>, key: Seq<u8>, now: int) -> Option<Seq<u8>> {
    if m.contains_key(key) && !expired(m[key], now) {
        Some(m[key].value)
    } else {
        None
    }
}

/// Copies a byte string.
pub fn copy_bytes(s: &[u8]) -> (r: Vec<u8>)
    ensures
        r@ == s@,
{
    let mut out: Vec<u8> = Vec::new();
    push_all(&mut out, s);
    assert(out@ =~= s@);
    out
}

/// Whether two byte strings are equal.
pub fn bytes_eq(a: &[u8], b: &[u8]) -> (r: bool)
    ensures
        r == (a@ == b@),
{
    if a.len() != b.len() {
        return false;
    }
    let mut i: usize = 0;
    while i < a.len()
        invariant
            a@.len() == b@.len(),
            i <= a@.len(),
            forall|j: int| 0 <= j < i ==> a@[j] == b@[j],
        decreases a@.len() - i,
    {
        if a[i] != b[i] {
            return false;
        }
        i = i + 1;
    }
    assert(a@ =~= b@);
    true
}

impl CacheValue {
    /// A value written at time `now` that expires `expiry_ms` milliseconds
    /// later, or never.
    pub fn new_at(value: &[u8], expiry_ms: Option<u64>, now: i64) -> (r: CacheValue)
        ensures
            r@.value == value@,
            r@.expires_at == expiry_of(now as int, ttl_of(expiry_ms)),
    {
        let expires_at = match expiry_ms {
            Some(t) => Some(now as i128 + t as i128),
            None => None,
        };
        CacheValue { value: copy_bytes(value), expires_at }
    }

    /// A value written now that expires `expiry_ms` milliseconds later, or never.
    pub fn new(value: &[u8], expiry_ms: Option<u64>) -> (r: CacheValue)
        ensures
            r@.value == value@,
            exists|now: i64| r@.expires_at == #[trigger] expiry_of(now as int, ttl_of(expiry_ms)),
    {
        Self::new_at(value, expiry_ms, now_millis())
    }

    /// Whether the value counts as expired at time `now`.
    pub fn is_expired_at(&self, now: i64) -> (r: bool)
        ensures
            r == expired(self@, now as int),
    {
        match self.expires_at {
            Some(t) => now as i128 >= t,
            None => false,
        }
    }

    /// Whether the value counts as expired now. A value without expiry never does.
    pub fn is_expired(&self) -> (r: bool)
        ensures
            exists|now: i64| r == #[trigger] expired(self@, now as int),
    {
        self.is_expired_at(now_millis())
    }
}

/// The map from keys to values, shared by every connection of the server.
///
/// The entries are a `Vec` of key and value pairs, each key held once. vstd
/// specifies `HashMap` only for keys of integer types, so a map keyed by byte
/// strings would leave `insert` and `get` without a usable contract; the
/// price is that a lookup is linear in the number of keys.
pub struct Store {
    entries: Vec<(Vec<u8>, CacheValue)>,
    model: Ghost<Map<Seq<u8>, EntrySpec>>,
}

impl View for Store {
    type V = Map<Seq<u8>, EntrySpec>;

    closed spec fn view(&self) -> Map<Seq<u8>, EntrySpec> {
        self.model@
    }
}

impl Store {
    /// The entries hold each key once, and the model maps exactly their keys
    /// to their values.
    pub closed spec fn wf(&self) -> bool {
        &&& forall|i: int, j: int|
            0 <= i < self.entries@.len() && 0 <= j < self.entries@.len() && i != j
                ==> #[trigger] self.entries@[i].0@ != #[trigger] self.entries@[j].0@
        &&& forall|i: int|
            0 <= i < self.entries@.len() ==> self.model@.contains_key(
                #[trigger] self.entries@[i].0@,
            ) && self.model@[self.entries@[i].0@] == self.entries@[i].1@
        &&& forall|k: Seq<u8>|
            #[trigger] self.model@.contains_key(k) ==> exists|i: int|
                0 <= i < self.entries@.len() && #[trigger] self.entries@[i].0@ == k
    }

    /// An empty store.
    pub fn new() -> (r: Store)
        ensures
            r.wf(),
            r@ == Map::<Seq<u8>, EntrySpec>::empty(),
    {
        Store { entries: Vec::new(), model: Ghost(Map::empty()) }
    }

    fn find(&self, key: &[u8]) -> (r: Option<usize>)
        requires
            self.wf(),
        ensures
            match r {
                Some(i) => i < self.entries@.len() && self.entries@[i as int].0@ == key@,
                None => !self@.contains_key(key@),
            },
    {
        let mut i: usize = 0;
        while i < self.entries.len()
            invariant
                self.wf(),
                i <= self.entries@.len(),
                forall|j: int| 0 <= j < i ==> #[trigger] self.entries@[j].0@ != key@,
            decreases self.entries@.len() - i,
        {
            if bytes_eq(self.entries[i].0.as_slice(), key) {
                return Some(i);
            }
            i = i + 1;
        }
        None
    }

    /// Stores `entry` under `key`, replacing any earlier value and expiry.
    pub fn put(&mut self, key: &[u8], entry: CacheValue)
        requires
            old(self).wf(),
        ensures
            final(self).wf(),
            final(self)@ == old(self)@.insert(key@, entry@),
    {
        let ghost m = self.model@;
        let ghost e = entry@;
        match self.find(key) {
            Some(i) => {
                self.entries.remove(i);
            },
            None => {},
        }
        let ghost mid = self.entries@;
        self.entries.push((copy_bytes(key), entry));
        self.model = Ghost(m.insert(key@, e));
        assert forall|k: Seq<u8>| #[trigger] self.model@.contains_key(k) implies exists|i: int|
            0 <= i < self.entries@.len() && #[trigger] self.entries@[i].0@ == k by {
            if k == key@ {
                assert(self.entries@[self.entries@.len() - 1].0@ == k);
            } else {
                assert(old(self).model@.contains_key(k));
                let j = choose|j: int| 0 <= j < old(self).entries@.len() && #[trigger] old(self).entries@[j].0@ == k;
                if old(self).entries@.len() == mid.len() {
                    assert(self.entries@[j].0@ == k);
                } else {
                    let i = choose|i: int| 0 <= i < old(self).entries@.len() && old(self).entries@[i].0@ == key@;
                    if j < i {
                        assert(self.entries@[j].0@ == k);
                    } else {
                        assert(self.entries@[j - 1].0@ == k);
                    }
                }
            }
        }
    }

    /// The value stored under `key` unless it is expired at time `now`.
    /// An expired entry is left in place.
    pub fn get_at(&self, key: &[u8], now: i64) -> (r: Option<Vec<u8>>)
        requires
            self.wf(),
        ensures
            match r {
                Some(v) => live_value(self@, key@, now as int) == Some(v@),
                None => live_value(self@, key@, now as int) is None,
            },
    {
        match self.find(key) {
            Some(i) => {
                let entry = &self.entries[i].1;
                if entry.is_expired_at(now) {
                    None
                } else {
                    Some(copy_bytes(entry.value.as_slice()))
                }
            },
            None => None,
        }
    }
}

} // verus!
