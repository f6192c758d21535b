use vstd::prelude::*;

use serde_json::Value;
use std::collections::VecDeque;
use vstd::hash_map::StringHashMap;

verus! {

/// serde_json's document type; the cache stores and hands back such documents
/// without looking inside them.
#[verifier::external_type_specification]
#[verifier::external_body]
pub struct ExValue(Value);

/// Relies on `Clone` for `serde_json::Value`: the copy is the same document.
#[verifier::external_body]
pub(crate) fn copy_value(v: &Value) -> (r: Value)
    ensures
        r == *v,
{
    v.clone()
}

/// The fixed maximum number of entries of a cache made by [`Cache::new`].
pub const MAX_ENTRIES: usize = 10_000;

/// How often the background sweep runs, in milliseconds.
pub const SWEEP_INTERVAL_MS: u64 = 3_600_000;

/// A cached document and the instant (in milliseconds) after which it is stale.
pub struct CacheEntry {
    pub value: Value,
    pub expires_at: Option<u64>,
}

impl CacheEntry {
    /// An entry without an expiry never goes stale; one with an expiry is stale
    /// once the clock has passed it.
    pub open spec fn is_expired(self, now: u64) -> bool {
        match self.expires_at {
            Some(e) => now > e,
            None => false,
        }
    }

    /// Whether the entry is stale at `now`.
    pub fn is_expired_at(&self, now: u64) -> (r: bool)
        ensures
            r == self.is_expired(now),
    {
        match self.expires_at {
            Some(e) => now > e,
            None => false,
        }
    }
}

/// The expiry of an entry stored at `now` with a time-to-live in seconds;
/// one beyond the clock's range never comes.
pub open spec fn expiry_for(now: u64, ttl_seconds: Option<u64>) -> Option<u64> {
    match ttl_seconds {
        None => None,
        Some(t) => Some(
            if now + t * 1000 <= u64::MAX {
                (now + t * 1000) as u64
            } else {
                u64::MAX
            },
        ),
    }
}

/// What a read of `key` at `now` returns.
pub open spec fn lookup(m: Map<Seq<char>, CacheEntry>, key: Seq<char>, now: u64) -> Option<Value> {
    if m.contains_key(key) && !m[key].is_expired(now) {
        Some(m[key].value)
    } else {
        None
    }
}

/// The contents after a read of `key` at `now`: a stale entry is dropped.
pub open spec fn after_lookup(m: Map<Seq<char>, CacheEntry>, key: Seq<char>, now: u64) -> Map<
    Seq<char>,
    CacheEntry,
> {
    if m.contains_key(key) && m[key].is_expired(now) {
        m.remove(key)
    } else {
        m
    }
}

/// `new` is `old` with `entry` stored under `key`. When `key` is new and the
/// cache is full, one other entry has made room.
pub open spec fn stored(
    old: Map<Seq<char>, CacheEntry>,
    new: Map<Seq<char>, CacheEntry>,
    key: Seq<char>,
    entry: CacheEntry,
    capacity: nat,
) -> bool {
    if old.contains_key(key) || old.len() < capacity {
        new == old.insert(key, entry)
    } else {
        exists|victim: Seq<char>|
            #![trigger old.remove(victim)]
            old.contains_key(victim) && new == old.remove(victim).insert(key, entry)
    }
}

/// The entries that are still fresh at `now`.
pub open spec fn swept(m: Map<Seq<char>, CacheEntry>, now: u64) -> Map<Seq<char>, CacheEntry> {
    m.restrict(m.dom().filter(|k: Seq<char>| !m[k].is_expired(now)))
}

/// The expiry of an entry stored at `now` with the given time-to-live in seconds.
pub fn expiry_at(now: u64, ttl_seconds: Option<u64>) -> (r: Option<u64>)
    ensures
        r == expiry_for(now, ttl_seconds),
{
    match ttl_seconds {
        None => None,
        Some(t) => match t.checked_mul(1000) {
            Some(ms) => match now.checked_add(ms) {
                Some(e) => Some(e),
                None => Some(u64::MAX),
            },
            None => Some(u64::MAX),
        },
    }
}

/// After a store, the key holds exactly the stored entry.
pub proof fn lemma_stored_holds(
    old: Map<Seq<char>, CacheEntry>,
    new: Map<Seq<char>, CacheEntry>,
    key: Seq<char>,
    entry: CacheEntry,
    capacity: nat,
)
    requires
        stored(old, new, key, entry, capacity),
    ensures
        new.contains_key(key),
        new[key] == entry,
{
    if !(old.contains_key(key) || old.len() < capacity) {
        let victim = choose|victim: Seq<char>|
            #![trigger old.remove(victim)]
            old.contains_key(victim) && new == old.remove(victim).insert(key, entry);
        assert(new == old.remove(victim).insert(key, entry));
    }
}

/// A document stored with a time-to-live of `ttl` seconds at `stored_at` is
/// read back unchanged, and the read leaves the cache as it is, until `ttl`
/// has elapsed. From then on a read finds nothing and drops the entry, which
/// no longer counts toward the size.
pub proof fn law_fresh_until_expiry(
    old: Map<Seq<char>, CacheEntry>,
    new: Map<Seq<char>, CacheEntry>,
    key: Seq<char>,
    value: Value,
    ttl: u64,
    stored_at: u64,
    now: u64,
    capacity: nat,
)
    requires
        old.dom().finite(),
        stored(
            old,
            new,
            key,
            CacheEntry { value, expires_at: expiry_for(stored_at, Some(ttl)) },
            capacity,
        ),
    ensures
        now <= stored_at + ttl * 1000 ==> lookup(new, key, now) == Some(value) && after_lookup(
            new,
            key,
            now,
        ) == new,
        now > stored_at + ttl * 1000 ==> {
            &&& lookup(new, key, now) is None
            &&& !after_lookup(new, key, now).contains_key(key)
            &&& after_lookup(new, key, now).len() + 1 == new.len()
        },
{
    lemma_stored_holds(
        old,
        new,
        key,
        CacheEntry { value, expires_at: expiry_for(stored_at, Some(ttl)) },
        capacity,
    );
    lemma_stored_finite(old, new, key, CacheEntry { value, expires_at: expiry_for(stored_at, Some(ttl)) }, capacity);
    if now > stored_at + ttl * 1000 {
        new.lemma_remove_key_len(key);
    }
}

/// Storing keeps the domain finite.
pub proof fn lemma_stored_finite(
    old: Map<Seq<char>, CacheEntry>,
    new: Map<Seq<char>, CacheEntry>,
    key: Seq<char>,
    entry: CacheEntry,
    capacity: nat,
)
    requires
        old.dom().finite(),
        stored(old, new, key, entry, capacity),
    ensures
        new.dom().finite(),
{
    if !(old.contains_key(key) || old.len() < capacity) {
        let victim = choose|victim: Seq<char>|
            #![trigger old.remove(victim)]
            old.contains_key(victim) && new == old.remove(victim).insert(key, entry);
        assert(new.dom() =~= old.dom().remove(victim).insert(key));
    } else {
        assert(new.dom() =~= old.dom().insert(key));
    }
}

/// Of two stores under one key the later wins, whatever either time-to-live
/// was, and the second store leaves the number of entries unchanged.
pub proof fn law_last_store_wins(
    m0: Map<Seq<char>, CacheEntry>,
    m1: Map<Seq<char>, CacheEntry>,
    m2: Map<Seq<char>, CacheEntry>,
    key: Seq<char>,
    first: CacheEntry,
    second: CacheEntry,
    capacity: nat,
)
    requires
        m0.dom().finite(),
        stored(m0, m1, key, first, capacity),
        stored(m1, m2, key, second, capacity),
    ensures
        m2 == m1.insert(key, second),
        m2[key] == second,
        m2.len() == m1.len(),
{
    lemma_stored_holds(m0, m1, key, first, capacity);
    lemma_stored_finite(m0, m1, key, first, capacity);
    assert(m2.dom() =~= m1.dom());
}

/// A store never takes the cache past its capacity, and a store under a key
/// that is already present never changes the number of entries.
pub proof fn law_store_within_capacity(
    old: Map<Seq<char>, CacheEntry>,
    new: Map<Seq<char>, CacheEntry>,
    key: Seq<char>,
    entry: CacheEntry,
    capacity: nat,
)
    requires
        old.dom().finite(),
        old.len() <= capacity,
        stored(old, new, key, entry, capacity),
    ensures
        new.len() <= capacity,
        old.contains_key(key) ==> new.len() == old.len(),
{
    if old.contains_key(key) {
        assert(new.dom() =~= old.dom());
    } else if old.len() < capacity {
        assert(new.dom() =~= old.dom().insert(key));
    } else {
        let victim = choose|victim: Seq<char>|
            #![trigger old.remove(victim)]
            old.contains_key(victim) && new == old.remove(victim).insert(key, entry);
        assert(new.dom() =~= old.dom().remove(victim).insert(key));
        assert(!old.dom().remove(victim).contains(key));
    }
}

/// A sweep at `now` removes exactly the entries stale at `now` and leaves
/// every other entry, those without an expiry included, as it was.
pub proof fn law_sweep_exact(m: Map<Seq<char>, CacheEntry>, now: u64)
    ensures
        forall|k: Seq<char>| #[trigger]
            swept(m, now).contains_key(k) <==> m.contains_key(k) && !m[k].is_expired(now),
        forall|k: Seq<char>|
            #[trigger] swept(m, now).contains_key(k) ==> swept(m, now)[k] == m[k],
        forall|k: Seq<char>|
            m.contains_key(k) && (#[trigger] m[k]).expires_at is None ==> swept(
                m,
                now,
            ).contains_key(k),
{
}

struct Slot {
    entry: CacheEntry,
    /// When the key was first inserted; matches one item of the insertion queue.
    stamp: u64,
}

/// Whether the queue holds the insertion record `(k, stamp)`.
spec fn has_witness(q: Seq<(String, u64)>, k: Seq<char>, stamp: u64) -> bool {
    exists|i: int| 0 <= i < q.len() && (#[trigger] q[i]).0@ == k && q[i].1 == stamp
}

proof fn lemma_witness_shift(q: Seq<(String, u64)>, k: Seq<char>, stamp: u64)
    requires
        has_witness(q, k, stamp),
        q.len() > 0,
        !(q[0].0@ == k && q[0].1 == stamp),
    ensures
        has_witness(q.subrange(1, q.len() as int), k, stamp),
{
    let i = choose|i: int| 0 <= i < q.len() && (#[trigger] q[i]).0@ == k && q[i].1 == stamp;
    let r = q.subrange(1, q.len() as int);
    assert(r[i - 1] == q[i]);
}

proof fn lemma_witness_push(q: Seq<(String, u64)>, item: (String, u64), k: Seq<char>, stamp: u64)
    requires
        has_witness(q, k, stamp) || (item.0@ == k && item.1 == stamp),
    ensures
        has_witness(q.push(item), k, stamp),
{
    let r = q.push(item);
    if has_witness(q, k, stamp) {
        let i = choose|i: int| 0 <= i < q.len() && (#[trigger] q[i]).0@ == k && q[i].1 == stamp;
        assert(r[i] == q[i]);
    } else {
        assert(r[q.len() as int] == item);
    }
}

/// Whether the record `x` is the insertion record of a key still present.
spec fn live(slots: Map<Seq<char>, Slot>, x: (String, u64)) -> bool {
    slots.contains_key(x.0@) && slots[x.0@].stamp == x.1
}

/// The keys of the live records of `q`, in queue order.
spec fn live_keys(slots: Map<Seq<char>, Slot>, q: Seq<(String, u64)>) -> Seq<Seq<char>>
    decreases q.len(),
{
    if q.len() == 0 {
        Seq::empty()
    } else {
        let p = live_keys(slots, q.drop_last());
        if live(slots, q.last()) {
            p.push(q.last().0@)
        } else {
            p
        }
    }
}

/// No record occurs twice in the queue.
spec fn distinct_records(q: Seq<(String, u64)>) -> bool {
    forall|i: int, j: int|
        0 <= i < j < q.len() ==> !((#[trigger] q[i]).0@ == (#[trigger] q[j]).0@ && q[i].1 == q[j].1)
}

/// `s` without the occurrences of `k`.
pub open spec fn without_key(s: Seq<Seq<char>>, k: Seq<char>) -> Seq<Seq<char>>
    decreases s.len(),
{
    if s.len() == 0 {
        s
    } else {
        let p = without_key(s.drop_last(), k);
        if s.last() == k {
            p
        } else {
            p.push(s.last())
        }
    }
}

/// The keys of `s` whose entries in `m` are still fresh at `now`, in order.
pub open spec fn fresh_keys(s: Seq<Seq<char>>, m: Map<Seq<char>, CacheEntry>, now: u64) -> Seq<
    Seq<char>,
>
    decreases s.len(),
{
    if s.len() == 0 {
        s
    } else {
        let p = fresh_keys(s.drop_last(), m, now);
        if !m[s.last()].is_expired(now) {
            p.push(s.last())
        } else {
            p
        }
    }
}

proof fn lemma_live_keys_push(slots: Map<Seq<char>, Slot>, q: Seq<(String, u64)>, x: (String, u64))
    ensures
        live_keys(slots, q.push(x)) == if live(slots, x) {
            live_keys(slots, q).push(x.0@)
        } else {
            live_keys(slots, q)
        },
{
    assert(q.push(x).drop_last() =~= q);
}

proof fn lemma_live_keys_front(slots: Map<Seq<char>, Slot>, q: Seq<(String, u64)>)
    requires
        q.len() > 0,
    ensures
        live_keys(slots, q) == if live(slots, q[0]) {
            seq![q[0].0@] + live_keys(slots, q.drop_first())
        } else {
            live_keys(slots, q.drop_first())
        },
    decreases q.len(),
{
    if q.len() == 1 {
        assert(q.drop_last() =~= Seq::<(String, u64)>::empty());
        assert(q.drop_first() =~= Seq::<(String, u64)>::empty());
        assert(q.last() == q[0]);
        assert(live_keys(slots, q.drop_last()) == Seq::<Seq<char>>::empty());
        assert(live_keys(slots, q.drop_first()) == Seq::<Seq<char>>::empty());
        if live(slots, q[0]) {
            assert(live_keys(slots, q) =~= seq![q[0].0@] + Seq::<Seq<char>>::empty());
        }
    } else {
        let d = q.drop_last();
        lemma_live_keys_front(slots, d);
        assert(d[0] == q[0]);
        assert(q.drop_first().drop_last() =~= d.drop_first());
        assert(q.drop_first().last() == q.last());
        if live(slots, q[0]) {
            assert(live_keys(slots, q) =~= seq![q[0].0@] + live_keys(slots, q.drop_first()));
        }
    }
}

proof fn lemma_live_keys_remove(slots: Map<Seq<char>, Slot>, q: Seq<(String, u64)>, k: Seq<char>)
    ensures
        live_keys(slots.remove(k), q) == without_key(live_keys(slots, q), k),
    decreases q.len(),
{
    if q.len() > 0 {
        lemma_live_keys_remove(slots, q.drop_last(), k);
        let p = live_keys(slots, q.drop_last());
        if live(slots, q.last()) {
            assert(p.push(q.last().0@).drop_last() =~= p);
        }
    }
}

/// Two maps under which the same records of `q` are live give the same keys.
proof fn lemma_live_keys_same(s1: Map<Seq<char>, Slot>, s2: Map<Seq<char>, Slot>, q: Seq<(String, u64)>)
    requires
        forall|i: int| 0 <= i < q.len() ==> live(s1, #[trigger] q[i]) == live(s2, q[i]),
    ensures
        live_keys(s1, q) == live_keys(s2, q),
    decreases q.len(),
{
    if q.len() > 0 {
        let d = q.drop_last();
        assert forall|i: int| 0 <= i < d.len() implies live(s1, #[trigger] d[i]) == live(s2, d[i]) by {
            assert(d[i] == q[i]);
        }
        lemma_live_keys_same(s1, s2, d);
        assert(live(s1, q[q.len() - 1]) == live(s2, q[q.len() - 1]));
    }
}

proof fn lemma_live_keys_member(slots: Map<Seq<char>, Slot>, q: Seq<(String, u64)>, k: Seq<char>)
    ensures
        live_keys(slots, q).contains(k) <==> exists|i: int|
            0 <= i < q.len() && live(slots, #[trigger] q[i]) && q[i].0@ == k,
    decreases q.len(),
{
    if q.len() > 0 {
        let d = q.drop_last();
        lemma_live_keys_member(slots, d, k);
        let p = live_keys(slots, d);
        if live_keys(slots, q).contains(k) {
            if live(slots, q.last()) && q.last().0@ == k {
                assert(live(slots, q[q.len() - 1]));
            } else {
                if live(slots, q.last()) {
                    let j = choose|j: int| 0 <= j < p.push(q.last().0@).len() && p.push(q.last().0@)[j] == k;
                    assert(j < p.len());
                    assert(p[j] == k);
                }
                assert(p.contains(k));
                let i = choose|i: int| 0 <= i < d.len() && live(slots, #[trigger] d[i]) && d[i].0@ == k;
                assert(q[i] == d[i]);
            }
        }
        if exists|i: int| 0 <= i < q.len() && live(slots, #[trigger] q[i]) && q[i].0@ == k {
            let i = choose|i: int| 0 <= i < q.len() && live(slots, #[trigger] q[i]) && q[i].0@ == k;
            if i == q.len() - 1 {
                assert(live_keys(slots, q)[live_keys(slots, q).len() - 1] == k);
            } else {
                assert(d[i] == q[i]);
                assert(p.contains(k));
                if live(slots, q.last()) {
                    let j = choose|j: int| 0 <= j < p.len() && p[j] == k;
                    assert(p.push(q.last().0@)[j] == k);
                }
            }
        }
    }
}

proof fn lemma_live_keys_distinct(slots: Map<Seq<char>, Slot>, q: Seq<(String, u64)>)
    requires
        distinct_records(q),
    ensures
        live_keys(slots, q).no_duplicates(),
    decreases q.len(),
{
    if q.len() > 0 {
        let d = q.drop_last();
        assert(distinct_records(d)) by {
            assert forall|i: int, j: int| 0 <= i < j < d.len() implies !((#[trigger] d[i]).0@
                == (#[trigger] d[j]).0@ && d[i].1 == d[j].1) by {
                assert(d[i] == q[i] && d[j] == q[j]);
            }
        }
        lemma_live_keys_distinct(slots, d);
        let p = live_keys(slots, d);
        if live(slots, q.last()) {
            let k = q.last().0@;
            lemma_live_keys_member(slots, d, k);
            if p.contains(k) {
                let i = choose|i: int| 0 <= i < d.len() && live(slots, #[trigger] d[i]) && d[i].0@ == k;
                assert(q[i] == d[i]);
                assert(q[q.len() - 1] == q.last());
            }
            let r = p.push(k);
            assert forall|a: int, b: int| 0 <= a < r.len() && 0 <= b < r.len() && a != b implies r[a]
                != r[b] by {
                if a < p.len() && b < p.len() {
                } else if a == p.len() {
                    assert(r[b] == p[b]);
                } else {
                    assert(r[a] == p[a]);
                }
            }
        }
    }
}

proof fn lemma_without_absent(s: Seq<Seq<char>>, k: Seq<char>)
    requires
        !s.contains(k),
    ensures
        without_key(s, k) == s,
    decreases s.len(),
{
    if s.len() > 0 {
        let d = s.drop_last();
        if d.contains(k) {
            let j = choose|j: int| 0 <= j < d.len() && d[j] == k;
            assert(s[j] == k);
        }
        lemma_without_absent(d, k);
        assert(s.last() != k) by {
            assert(s[s.len() - 1] == s.last());
        }
        assert(d.push(s.last()) =~= s);
    }
}

proof fn lemma_fresh_at_zero(s: Seq<Seq<char>>, m: Map<Seq<char>, CacheEntry>)
    ensures
        fresh_keys(s, m, 0) == s,
    decreases s.len(),
{
    if s.len() > 0 {
        lemma_fresh_at_zero(s.drop_last(), m);
        assert(s.drop_last().push(s.last()) =~= s);
    }
}

/// A bounded response cache: string keys, documents with an optional expiry.
///
/// Reads drop an entry they find stale, and [`Cache::sweep`] drops every stale
/// entry. When the cache is full, storing a new key first evicts the entry
/// whose key was inserted longest ago, the first of
/// [`Cache::insertion_order`]; overwriting a key keeps its place. Time is
/// passed in by the caller as milliseconds on a monotonic clock.
pub struct Cache {
    slots: StringHashMap<Slot>,
    /// Insertion records, oldest first; records of removed keys linger until
    /// an eviction or a sweep passes them.
    order: VecDeque<(String, u64)>,
    next_stamp: u64,
    capacity: usize,
}

impl View for Cache {
    type V = Map<Seq<char>, CacheEntry>;

    closed spec fn view(&self) -> Map<Seq<char>, CacheEntry> {
        self.slots@.map_values(|s: Slot| s.entry)
    }
}

/// The key a store under `key` evicts, given the contents and insertion order
/// before it: the oldest key, when `key` is new and the cache is full.
pub open spec fn victim_of(
    old: Map<Seq<char>, CacheEntry>,
    order: Seq<Seq<char>>,
    key: Seq<char>,
    capacity: nat,
) -> Option<Seq<char>> {
    if old.contains_key(key) || old.len() < capacity {
        None
    } else {
        Some(order[0])
    }
}

/// The insertion order after a store under `key`: unchanged when the key was
/// present, else the key comes last, after the victim (if any) has left.
pub open spec fn order_after_store(
    old: Map<Seq<char>, CacheEntry>,
    order: Seq<Seq<char>>,
    key: Seq<char>,
    capacity: nat,
) -> Seq<Seq<char>> {
    if old.contains_key(key) {
        order
    } else if old.len() < capacity {
        order.push(key)
    } else {
        order.drop_first().push(key)
    }
}

proof fn lemma_witness_take(q: Seq<(String, u64)>, i: int, k: Seq<char>, stamp: u64)
    requires
        0 <= i < q.len(),
        has_witness(q.take(i + 1), k, stamp),
    ensures
        has_witness(q.take(i), k, stamp) || (q[i].0@ == k && q[i].1 == stamp),
{
    let t = q.take(i + 1);
    let j = choose|j: int| 0 <= j < t.len() && (#[trigger] t[j]).0@ == k && t[j].1 == stamp;
    if j < i {
        assert(q.take(i)[j] == t[j]);
    }
}

impl Cache {
    /// The fixed maximum number of entries.
    pub closed spec fn spec_capacity(&self) -> nat {
        self.capacity as nat
    }

    /// The keys present, from the one inserted longest ago to the newest.
    pub closed spec fn insertion_order(&self) -> Seq<Seq<char>> {
        live_keys(self.slots@, self.order@)
    }

    pub closed spec fn wf(&self) -> bool {
        &&& self.slots@.dom().finite()
        &&& 0 < self.capacity
        &&& self.slots@.len() <= self.capacity
        &&& forall|k: Seq<char>| #[trigger]
            self.slots@.contains_key(k) ==> has_witness(self.order@, k, self.slots@[k].stamp)
        &&& distinct_records(self.order@)
        &&& forall|i: int|
            0 <= i < self.order@.len() ==> (#[trigger] self.order@[i]).1 < self.next_stamp
                || self.next_stamp == u64::MAX
    }

    proof fn lemma_view(&self)
        requires
            self.slots@.dom().finite(),
        ensures
            self@.dom() == self.slots@.dom(),
            self@.len() == self.slots@.len(),
            forall|k: Seq<char>| #[trigger]
                self.slots@.contains_key(k) ==> self@[k] == self.slots@[k].entry,
            self@.dom().finite(),
    {
        assert(self@.dom() =~= self.slots@.dom());
    }

    /// A cache never holds more entries than its capacity, which is positive.
    pub proof fn law_within_capacity(&self)
        requires
            self.wf(),
        ensures
            self@.dom().finite(),
            self@.len() <= self.spec_capacity(),
            0 < self.spec_capacity(),
    {
        self.lemma_view();
    }

    /// The insertion order lists every key present exactly once, and no other.
    pub proof fn law_order_matches_contents(&self)
        requires
            self.wf(),
        ensures
            self.insertion_order().no_duplicates(),
            forall|k: Seq<char>|
                #[trigger] self.insertion_order().contains(k) <==> self@.contains_key(k),
            self.insertion_order().len() == self@.len(),
    {
        self.lemma_view();
        let q = self.order@;
        let sl = self.slots@;
        lemma_live_keys_distinct(sl, q);
        assert forall|k: Seq<char>| #[trigger]
            self.insertion_order().contains(k) <==> self@.contains_key(k) by {
            lemma_live_keys_member(sl, q, k);
            if sl.contains_key(k) {
                let i = choose|i: int|
                    0 <= i < q.len() && (#[trigger] q[i]).0@ == k && q[i].1 == sl[k].stamp;
                assert(live(sl, q[i]));
            }
        }
        let o = self.insertion_order();
        o.unique_seq_to_set();
        assert(o.to_set() =~= self@.dom());
    }

    /// An empty cache holding at most [`MAX_ENTRIES`] entries.
    pub fn new() -> (r: Cache)
        ensures
            r.wf(),
            r@ == Map::<Seq<char>, CacheEntry>::empty(),
            r.insertion_order() == Seq::<Seq<char>>::empty(),
            r.spec_capacity() == MAX_ENTRIES,
    {
        Cache::with_capacity(MAX_ENTRIES)
    }

    /// An empty cache holding at most `capacity` entries.
    pub fn with_capacity(capacity: usize) -> (r: Cache)
        requires
            capacity > 0,
        ensures
            r.wf(),
            r@ == Map::<Seq<char>, CacheEntry>::empty(),
            r.insertion_order() == Seq::<Seq<char>>::empty(),
            r.spec_capacity() == capacity,
    {
        let r = Cache {
            slots: StringHashMap::new(),
            order: VecDeque::new(),
            next_stamp: 0,
            capacity,
        };
        proof {
            assert(r.slots@.dom() =~= Set::<Seq<char>>::empty());
            assert(r@ =~= Map::<Seq<char>, CacheEntry>::empty());
        }
        r
    }

    /// The number of entries, stale ones included until they are dropped.
    pub fn len(&self) -> (r: usize)
        requires
            self.wf(),
        ensures
            r == self@.len(),
    {
        proof {
            self.lemma_view();
        }
        self.slots.len()
    }

    /// The fixed maximum number of entries.
    pub fn capacity(&self) -> (r: usize)
        ensures
            r == self.spec_capacity(),
    {
        self.capacity
    }

    /// The document under `key` if it is fresh at `now`; a stale entry is
    /// dropped on the way.
    pub fn get(&mut self, key: &str, now: u64) -> (r: Option<Value>)
        requires
            old(self).wf(),
        ensures
            final(self).wf(),
            final(self).spec_capacity() == old(self).spec_capacity(),
            r == lookup(old(self)@, key@, now),
            final(self)@ == after_lookup(old(self)@, key@, now),
            final(self).insertion_order() == if old(self)@.contains_key(key@) && old(self)@[key@].is_expired(now) {
                without_key(old(self).insertion_order(), key@)
            } else {
                old(self).insertion_order()
            },
    {
        proof {
            self.lemma_view();
        }
        let stale = match self.slots.get(key) {
            None => {
                return None;
            },
            Some(slot) => {
                if slot.entry.is_expired_at(now) {
                    true
                } else {
                    return Some(copy_value(&slot.entry.value));
                }
            },
        };
        let ghost before = self.slots@;
        self.slots.remove(key);
        proof {
            assert(stale);
            assert forall|k: Seq<char>| #[trigger] self.slots@.contains_key(k) implies has_witness(
                self.order@,
                k,
                self.slots@[k].stamp,
            ) by {
                assert(before.contains_key(k));
            }
            assert(self.slots@.dom() =~= before.dom().remove(key@));
            self.lemma_view();
            assert(self@ =~= old(self)@.remove(key@));
            lemma_live_keys_remove(before, self.order@, key@);
        }
        None
    }

    /// Drops the entry whose key was inserted longest ago, together with any
    /// records of keys that are gone.
    #[verifier::spinoff_prover]
    #[verifier::rlimit(60)]
    fn evict_oldest(&mut self)
        requires
            old(self).wf(),
            old(self).slots@.len() > 0,
        ensures
            final(self).wf(),
            final(self).capacity == old(self).capacity,
            final(self).next_stamp == old(self).next_stamp,
            old(self).insertion_order().len() > 0,
            old(self).slots@.contains_key(old(self).insertion_order()[0]),
            final(self).slots@ == old(self).slots@.remove(old(self).insertion_order()[0]),
            final(self).insertion_order() == old(self).insertion_order().drop_first(),
    {
        let ghost s0 = self.slots@;
        let ghost order0 = old(self).insertion_order();
        loop
            invariant
                self.wf(),
                self.capacity == old(self).capacity,
                self.next_stamp == old(self).next_stamp,
                self.slots@ == s0,
                s0 == old(self).slots@,
                order0 == old(self).insertion_order(),
                self.slots@.len() > 0,
                live_keys(s0, self.order@) == order0,
            decreases self.order@.len(),
        {
            proof {
                let k = self.slots@.dom().choose();
                assert(self.slots@.contains_key(k));
                assert(has_witness(self.order@, k, self.slots@[k].stamp));
            }
            let ghost q = self.order@;
            let item = self.order.pop_front();
            match item {
                None => {
                    proof {
                        assert(false);
                    }
                },
                Some(pair) => {
                    let (k, stamp) = pair;
                    let live_now = match self.slots.get(k.as_str()) {
                        Some(slot) => slot.stamp == stamp,
                        None => false,
                    };
                    let ghost rest = self.order@;
                    proof {
                        assert(rest =~= q.drop_first());
                        lemma_live_keys_front(s0, q);
                        assert(q[0].0@ == k@ && q[0].1 == stamp);
                        assert(distinct_records(rest)) by {
                            assert forall|i: int, j: int| 0 <= i < j < rest.len() implies !((
                            #[trigger] rest[i]).0@ == (#[trigger] rest[j]).0@ && rest[i].1
                                == rest[j].1) by {
                                assert(rest[i] == q[i + 1] && rest[j] == q[j + 1]);
                            }
                        }
                        assert forall|i: int| 0 <= i < rest.len() implies (#[trigger] rest[i]).1
                            < self.next_stamp || self.next_stamp == u64::MAX by {
                            assert(rest[i] == q[i + 1]);
                        }
                    }
                    if live_now {
                        self.slots.remove(k.as_str());
                        proof {
                            assert forall|j: Seq<char>| #[trigger]
                                self.slots@.contains_key(j) implies has_witness(
                                self.order@,
                                j,
                                self.slots@[j].stamp,
                            ) by {
                                assert(s0.contains_key(j));
                                lemma_witness_shift(q, j, s0[j].stamp);
                            }
                            assert(self.slots@.dom() =~= s0.dom().remove(k@));
                            assert(s0.contains_key(k@));
                            let r = live_keys(s0, rest);
                            lemma_live_keys_member(s0, rest, k@);
                            if r.contains(k@) {
                                let i = choose|i: int|
                                    0 <= i < rest.len() && live(s0, #[trigger] rest[i])
                                        && rest[i].0@ == k@;
                                assert(rest[i] == q[i + 1]);
                            }
                            lemma_without_absent(r, k@);
                            lemma_live_keys_remove(s0, rest, k@);
                            assert(order0 == seq![k@] + r);
                            assert(order0[0] == k@);
                            assert(order0.drop_first() =~= r);
                        }
                        return ;
                    }
                    proof {
                        assert forall|j: Seq<char>| #[trigger]
                            self.slots@.contains_key(j) implies has_witness(
                            self.order@,
                            j,
                            self.slots@[j].stamp,
                        ) by {
                            lemma_witness_shift(q, j, s0[j].stamp);
                        }
                    }
                },
            }
        }
    }

    /// Keeps the entries fresh at `now` and drops the rest, together with every
    /// record of a key that is gone.
    #[verifier::spinoff_prover]
    #[verifier::rlimit(60)]
    fn retain_fresh(&mut self, now: u64)
        requires
            old(self).wf(),
        ensures
            final(self).wf(),
            final(self).capacity == old(self).capacity,
            final(self).next_stamp == old(self).next_stamp,
            forall|k: Seq<char>| #[trigger]
                final(self).slots@.contains_key(k) <==> old(self).slots@.contains_key(k)
                    && !old(self).slots@[k].entry.is_expired(now),
            forall|k: Seq<char>| #[trigger]
                final(self).slots@.contains_key(k) ==> final(self).slots@[k] == old(
                    self,
                ).slots@[k],
            final(self).insertion_order() == fresh_keys(old(self).insertion_order(), old(self)@, now),
            forall|i: int|
                0 <= i < final(self).order@.len() ==> live(
                    final(self).slots@,
                    #[trigger] final(self).order@[i],
                ),
    {
        let ghost s0 = self.slots@;
        let ghost q0 = self.order@;
        let ghost v0 = self@;
        proof {
            self.lemma_view();
        }
        let mut kept: VecDeque<(String, u64)> = VecDeque::new();
        let mut gone: Vec<String> = Vec::new();
        while self.order.len() > 0
            invariant
                self.slots@ == s0,
                s0 == old(self).slots@,
                q0 == old(self).order@,
                v0 == old(self)@,
                old(self).wf(),
                self.capacity == old(self).capacity,
                self.next_stamp == old(self).next_stamp,
                forall|k: Seq<char>| #[trigger] s0.contains_key(k) ==> v0[k] == s0[k].entry,
                self.order@.len() <= q0.len(),
                self.order@ == q0.subrange(q0.len() - self.order@.len(), q0.len() as int),
                forall|j: int|
                    0 <= j < kept@.len() ==> live(s0, #[trigger] kept@[j]) && !s0[kept@[j].0@].entry.is_expired(now),
                live_keys(s0, kept@) == fresh_keys(
                    live_keys(s0, q0.take(q0.len() - self.order@.len())),
                    v0,
                    now,
                ),
                forall|j: int|
                    0 <= j < kept@.len() ==> exists|m: int|
                        0 <= m < q0.len() - self.order@.len() && #[trigger] kept@[j] == q0[m],
                distinct_records(kept@),
                forall|j: int|
                    0 <= j < gone@.len() ==> s0.contains_key((#[trigger] gone@[j])@) && s0[gone@[j]@].entry.is_expired(now),
                forall|k: Seq<char>| #[trigger]
                    s0.contains_key(k) && s0[k].entry.is_expired(now) && has_witness(
                        q0.take(q0.len() - self.order@.len()),
                        k,
                        s0[k].stamp,
                    ) ==> exists|j: int| 0 <= j < gone@.len() && (#[trigger] gone@[j])@ == k,
                forall|k: Seq<char>| #[trigger]
                    s0.contains_key(k) && !s0[k].entry.is_expired(now) && has_witness(
                        q0.take(q0.len() - self.order@.len()),
                        k,
                        s0[k].stamp,
                    ) ==> has_witness(kept@, k, s0[k].stamp),
            decreases self.order@.len(),
        {
            let ghost i = q0.len() - self.order@.len();
            let ghost kq = kept@;
            let ghost gq = gone@;
            let item = self.order.pop_front();
            if let Some(pair) = item {
                let (k, stamp) = pair;
                let status = match self.slots.get(k.as_str()) {
                    Some(slot) => if slot.stamp != stamp {
                        0u8
                    } else if slot.entry.is_expired_at(now) {
                        1u8
                    } else {
                        2u8
                    },
                    None => 0u8,
                };
                proof {
                    assert(q0[i].0@ == k@ && q0[i].1 == stamp);
                    assert(q0.take(i + 1) =~= q0.take(i).push(q0[i]));
                    lemma_live_keys_push(s0, q0.take(i), q0[i]);
                    let p = live_keys(s0, q0.take(i));
                    assert(p.push(k@).drop_last() =~= p);
                    assert(self.order@ =~= q0.subrange(q0.len() - self.order@.len(), q0.len() as int));
                }
                if status == 1 {
                    gone.push(k);
                } else if status == 2 {
                    kept.push_back((k, stamp));
                }
                proof {
                    let x = (k, stamp);
                    if status == 2 {
                        lemma_live_keys_push(s0, kq, x);
                        assert(kept@ == kq.push(x));
                        assert forall|j: int| 0 <= j < kept@.len() implies exists|m: int|
                            0 <= m < i + 1 && #[trigger] kept@[j] == q0[m] by {
                            if j < kq.len() {
                                assert(kept@[j] == kq[j]);
                            } else {
                                assert(kept@[j] == q0[i]);
                            }
                        }
                        assert forall|a: int, b: int| 0 <= a < b < kept@.len() implies !((
                        #[trigger] kept@[a]).0@ == (#[trigger] kept@[b]).0@ && kept@[a].1
                            == kept@[b].1) by {
                            if b == kq.len() {
                                let m = choose|m: int| 0 <= m < i && #[trigger] kq[a] == q0[m];
                                assert(kept@[a] == q0[m]);
                                assert(kept@[b] == q0[i]);
                            } else {
                                assert(kept@[a] == kq[a] && kept@[b] == kq[b]);
                            }
                        }
                        assert forall|j: int| 0 <= j < kept@.len() implies live(
                            s0,
                            #[trigger] kept@[j],
                        ) && !s0[kept@[j].0@].entry.is_expired(now) by {
                            if j < kq.len() {
                                assert(kept@[j] == kq[j]);
                            }
                        }
                    } else {
                        assert forall|j: int| 0 <= j < kept@.len() implies exists|m: int|
                            0 <= m < i + 1 && #[trigger] kept@[j] == q0[m] by {
                            let m = choose|m: int| 0 <= m < i && #[trigger] kept@[j] == q0[m];
                        }
                    }
                    if status == 1 {
                        assert forall|j: int| 0 <= j < gone@.len() implies s0.contains_key(
                            (#[trigger] gone@[j])@,
                        ) && s0[gone@[j]@].entry.is_expired(now) by {
                            if j < gq.len() {
                                assert(gone@[j] == gq[j]);
                            }
                        }
                    }
                    assert forall|kk: Seq<char>| #[trigger]
                        s0.contains_key(kk) && s0[kk].entry.is_expired(now) && has_witness(
                            q0.take(i + 1),
                            kk,
                            s0[kk].stamp,
                        ) implies exists|j: int| 0 <= j < gone@.len() && (#[trigger] gone@[j])@ == kk by {
                        lemma_witness_take(q0, i, kk, s0[kk].stamp);
                        if has_witness(q0.take(i), kk, s0[kk].stamp) {
                            let j = choose|j: int| 0 <= j < gq.len() && (#[trigger] gq[j])@ == kk;
                            if status == 1 {
                                assert(gone@[j] == gq[j]);
                            }
                        } else {
                            assert(status == 1);
                            assert(gone@[gq.len() as int]@ == kk);
                        }
                    }
                    assert forall|kk: Seq<char>| #[trigger]
                        s0.contains_key(kk) && !s0[kk].entry.is_expired(now) && has_witness(
                            q0.take(i + 1),
                            kk,
                            s0[kk].stamp,
                        ) implies has_witness(kept@, kk, s0[kk].stamp) by {
                        lemma_witness_take(q0, i, kk, s0[kk].stamp);
                        if has_witness(q0.take(i), kk, s0[kk].stamp) {
                            if status == 2 {
                                lemma_witness_push(kq, x, kk, s0[kk].stamp);
                            }
                        } else {
                            assert(status == 2);
                            lemma_witness_push(kq, x, kk, s0[kk].stamp);
                        }
                    }
                }
            }
        }
        proof {
            assert(q0.take(q0.len() as int) =~= q0);
            assert forall|t: int| 0 <= t < kept@.len() implies exists|m: int|
                0 <= m < q0.len() && #[trigger] kept@[t] == q0[m] by {
                let m = choose|m: int| 0 <= m < q0.len() - self.order@.len() && #[trigger] kept@[t] == q0[m];
            }
        }
        let mut j: usize = 0;
        while j < gone.len()
            invariant
                j <= gone@.len(),
                self.capacity == old(self).capacity,
                self.next_stamp == old(self).next_stamp,
                s0 == old(self).slots@,
                q0 == old(self).order@,
                v0 == old(self)@,
                old(self).wf(),
                forall|k: Seq<char>| #[trigger] s0.contains_key(k) ==> v0[k] == s0[k].entry,
                forall|t: int|
                    0 <= t < kept@.len() ==> live(s0, #[trigger] kept@[t]) && !s0[kept@[t].0@].entry.is_expired(now),
                live_keys(s0, kept@) == fresh_keys(live_keys(s0, q0), v0, now),
                forall|t: int|
                    0 <= t < kept@.len() ==> exists|m: int|
                        0 <= m < q0.len() && #[trigger] kept@[t] == q0[m],
                distinct_records(kept@),
                forall|t: int|
                    0 <= t < gone@.len() ==> s0.contains_key((#[trigger] gone@[t])@) && s0[gone@[t]@].entry.is_expired(now),
                forall|k: Seq<char>| #[trigger]
                    s0.contains_key(k) && s0[k].entry.is_expired(now) && has_witness(q0, k, s0[k].stamp)
                        ==> exists|t: int| 0 <= t < gone@.len() && (#[trigger] gone@[t])@ == k,
                forall|k: Seq<char>| #[trigger]
                    s0.contains_key(k) && !s0[k].entry.is_expired(now) && has_witness(q0, k, s0[k].stamp)
                        ==> has_witness(kept@, k, s0[k].stamp),
                self.slots@.dom().finite(),
                forall|k: Seq<char>| #[trigger]
                    self.slots@.contains_key(k) <==> s0.contains_key(k) && !(exists|t: int|
                        0 <= t < j && (#[trigger] gone@[t])@ == k),
                forall|k: Seq<char>| #[trigger]
                    self.slots@.contains_key(k) ==> self.slots@[k] == s0[k],
            decreases gone@.len() - j,
        {
            let ghost before = self.slots@;
            self.slots.remove(gone[j].as_str());
            proof {
                assert forall|k: Seq<char>| #[trigger] self.slots@.contains_key(k) <==> s0.contains_key(
                    k,
                ) && !(exists|t: int| 0 <= t < j + 1 && (#[trigger] gone@[t])@ == k) by {
                    if k == gone@[j as int]@ {
                    } else {
                        if exists|t: int| 0 <= t < j + 1 && (#[trigger] gone@[t])@ == k {
                            let t = choose|t: int| 0 <= t < j + 1 && (#[trigger] gone@[t])@ == k;
                            assert(t < j);
                        }
                    }
                }
            }
            j = j + 1;
        }
        let ghost sl = self.slots@;
        self.order = kept;
        proof {
            assert forall|k: Seq<char>| #[trigger]
                sl.contains_key(k) <==> s0.contains_key(k) && !s0[k].entry.is_expired(now) by {
                if s0.contains_key(k) {
                    assert(has_witness(q0, k, s0[k].stamp));
                    if s0[k].entry.is_expired(now) {
                        let t = choose|t: int| 0 <= t < gone@.len() && (#[trigger] gone@[t])@ == k;
                    } else {
                        if exists|t: int| 0 <= t < gone@.len() && (#[trigger] gone@[t])@ == k {
                            let t = choose|t: int| 0 <= t < gone@.len() && (#[trigger] gone@[t])@ == k;
                        }
                    }
                }
            }
            assert forall|i: int| 0 <= i < self.order@.len() implies live(
                sl,
                #[trigger] self.order@[i],
            ) by {
                let x = kept@[i];
                assert(self.order@[i] == x);
                assert(live(s0, x) && !s0[x.0@].entry.is_expired(now));
                assert(sl.contains_key(x.0@));
                assert(sl[x.0@] == s0[x.0@]);
            }
            assert forall|i: int| 0 <= i < kept@.len() implies live(s0, #[trigger] kept@[i])
                == live(sl, kept@[i]) by {
                let x = kept@[i];
                assert(live(s0, x) && !s0[x.0@].entry.is_expired(now));
                assert(sl.contains_key(x.0@));
                assert(sl[x.0@] == s0[x.0@]);
            }
            lemma_live_keys_same(s0, sl, kept@);
            assert forall|i: int|
                0 <= i < self.order@.len() implies (#[trigger] self.order@[i]).1 < self.next_stamp
                || self.next_stamp == u64::MAX by {
                let m = choose|m: int| 0 <= m < q0.len() && #[trigger] kept@[i] == q0[m];
                assert(q0[m] == old(self).order@[m]);
            }
            assert forall|k: Seq<char>| #[trigger] sl.contains_key(k) implies has_witness(
                self.order@,
                k,
                sl[k].stamp,
            ) by {
                assert(has_witness(q0, k, s0[k].stamp));
            }
            assert(sl.dom().subset_of(s0.dom()));
            vstd::set_lib::lemma_len_subset(sl.dom(), s0.dom());
        }
    }

    /// Stores `value` under `key`, to go stale `ttl_seconds` after `now`, or
    /// never without a time-to-live. A new key in a full cache first evicts
    /// the entry whose key was inserted longest ago.
    #[verifier::spinoff_prover]
    #[verifier::rlimit(60)]
    pub fn set(&mut self, key: &str, value: Value, ttl_seconds: Option<u64>, now: u64)
        requires
            old(self).wf(),
        ensures
            final(self).wf(),
            final(self).spec_capacity() == old(self).spec_capacity(),
            stored(
                old(self)@,
                final(self)@,
                key@,
                CacheEntry { value, expires_at: expiry_for(now, ttl_seconds) },
                old(self).spec_capacity(),
            ),
            final(self)@ == match victim_of(
                old(self)@,
                old(self).insertion_order(),
                key@,
                old(self).spec_capacity(),
            ) {
                Some(v) => old(self)@.remove(v),
                None => old(self)@,
            }.insert(key@, CacheEntry { value, expires_at: expiry_for(now, ttl_seconds) }),
            final(self).insertion_order() == order_after_store(
                old(self)@,
                old(self).insertion_order(),
                key@,
                old(self).spec_capacity(),
            ),
    {
        let ghost new_entry = CacheEntry { value, expires_at: expiry_for(now, ttl_seconds) };
        proof {
            self.lemma_view();
            old(self).law_order_matches_contents();
        }
        let entry = CacheEntry { value, expires_at: expiry_at(now, ttl_seconds) };
        let existing = match self.slots.get(key) {
            Some(slot) => Some(slot.stamp),
            None => None,
        };
        match existing {
            Some(stamp) => {
                let ghost before = self.slots@;
                self.slots.insert(String::from_str(key), Slot { entry, stamp });
                proof {
                    assert forall|j: Seq<char>| #[trigger]
                        self.slots@.contains_key(j) implies has_witness(
                        self.order@,
                        j,
                        self.slots@[j].stamp,
                    ) by {
                        assert(before.contains_key(j));
                    }
                    assert(self.slots@.dom() =~= before.dom());
                    self.lemma_view();
                    assert(self@ =~= old(self)@.insert(key@, new_entry));
                    lemma_live_keys_same(before, self.slots@, self.order@);
                }
            },
            None => {
                let full = self.slots.len() >= self.capacity;
                if full {
                    self.evict_oldest();
                }
                let ghost pre = self.slots@;
                let ghost pre_view = self@;
                let ghost pre_keys = self.insertion_order();
                if self.next_stamp == u64::MAX {
                    self.retain_fresh(0);
                    proof {
                        assert forall|k: Seq<char>| #[trigger] self.slots@.contains_key(k) == pre.contains_key(k) by {}
                        assert(self.slots@ =~= pre);
                        lemma_fresh_at_zero(pre_keys, pre_view);
                    }
                }
                let ghost mid = self.slots@;
                let ghost mid_order = self.order@;
                let ghost mid_keys = self.insertion_order();
                let stamp = self.next_stamp;
                proof {
                    assert forall|i: int| 0 <= i < mid_order.len() implies !((#[trigger] mid_order[i]).0@
                        == key@ && mid_order[i].1 == stamp) by {
                        if stamp == u64::MAX {
                            assert(live(mid, mid_order[i]));
                        }
                    }
                }
                self.next_stamp = if stamp < u64::MAX {
                    stamp + 1
                } else {
                    stamp
                };
                self.order.push_back((String::from_str(key), stamp));
                self.slots.insert(String::from_str(key), Slot { entry, stamp });
                proof {
                    let x = self.order@.last();
                    assert(self.order@ == mid_order.push(x));
                    assert forall|j: Seq<char>| #[trigger]
                        self.slots@.contains_key(j) implies has_witness(
                        self.order@,
                        j,
                        self.slots@[j].stamp,
                    ) by {
                        if j == key@ {
                            lemma_witness_push(mid_order, x, j, stamp);
                        } else {
                            lemma_witness_push(mid_order, x, j, mid[j].stamp);
                        }
                    }
                    assert forall|a: int, b: int| 0 <= a < b < self.order@.len() implies !((
                    #[trigger] self.order@[a]).0@ == (#[trigger] self.order@[b]).0@
                        && self.order@[a].1 == self.order@[b].1) by {
                        assert(self.order@[a] == mid_order[a]);
                        if b < mid_order.len() {
                            assert(self.order@[b] == mid_order[b]);
                        }
                    }
                    assert forall|i: int|
                        0 <= i < self.order@.len() implies (#[trigger] self.order@[i]).1
                        < self.next_stamp || self.next_stamp == u64::MAX by {
                        if i < mid_order.len() {
                            assert(self.order@[i] == mid_order[i]);
                        }
                    }
                    assert(!mid.contains_key(key@));
                    assert forall|i: int| 0 <= i < mid_order.len() implies live(
                        mid,
                        #[trigger] mid_order[i],
                    ) == live(self.slots@, mid_order[i]) by {}
                    lemma_live_keys_same(mid, self.slots@, mid_order);
                    lemma_live_keys_push(self.slots@, mid_order, x);
                    assert(self.slots@.dom() =~= mid.dom().insert(key@));
                    self.lemma_view();
                    assert(mid == pre);
                    assert(mid_keys == pre_keys);
                    assert(self.insertion_order() == mid_keys.push(key@));
                    if full {
                        let victim = old(self).insertion_order()[0];
                        assert(mid.dom() =~= old(self).slots@.dom().remove(victim));
                        assert(self@ =~= old(self)@.remove(victim).insert(key@, new_entry));
                        assert(old(self)@.contains_key(victim));
                    } else {
                        assert(mid =~= old(self).slots@);
                        assert(self@ =~= old(self)@.insert(key@, new_entry));
                    }
                }
            },
        }
    }

    /// Drops every entry that is stale at `now` and keeps all others as they are.
    pub fn sweep(&mut self, now: u64)
        requires
            old(self).wf(),
        ensures
            final(self).wf(),
            final(self).spec_capacity() == old(self).spec_capacity(),
            final(self)@ == swept(old(self)@, now),
            final(self).insertion_order() == fresh_keys(old(self).insertion_order(), old(self)@, now),
    {
        proof {
            self.lemma_view();
        }
        self.retain_fresh(now);
        proof {
            self.lemma_view();
            old(self).lemma_view();
            assert(self@ =~= swept(old(self)@, now));
        }
    }
}

} // verus!
