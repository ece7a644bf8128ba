//! The ordered message log of a conversation and its insert discipline.
//!
//! A log maps message keys to messages and lists them in key order. Messages
//! enter through `insert_with_collisions` only: a message takes the first
//! counter at its timestamp that no different message holds, and a message
//! that is already there is not stored again.

use crate::message::{DecryptedMessage, MessageKey, MessageView, Timestamp};
use vstd::prelude::*;

verus! {

/// One stored message with its key.
pub struct Entry {
    pub key: MessageKey,
    pub message: DecryptedMessage,
}

/// The messages of a conversation, in key order.
pub struct MessageLog {
    entries: Vec<Entry>,
}

/// The key with counter `c` at time `t`.
pub open spec fn key_at(t: Timestamp, c: nat) -> MessageKey {
    MessageKey { created_at: t, count: c as u32 }
}

/// The key of `msg` with counter `c`.
pub open spec fn key_at_count(msg: MessageView, c: nat) -> MessageKey {
    key_at(msg.created_at, c)
}

/// Counter `c` at the timestamp of `msg` is taken by a message other than `msg`.
pub open spec fn occupied_by_other(
    m: Map<MessageKey, MessageView>,
    msg: MessageView,
    c: nat,
) -> bool {
    &&& c <= u32::MAX
    &&& m.contains_key(key_at_count(msg, c))
    &&& m[key_at_count(msg, c)] != msg
}

/// The first counter from `c` on that no other message takes.
pub open spec fn slot_from(m: Map<MessageKey, MessageView>, msg: MessageView, c: nat) -> nat
    decreases u32::MAX + 1 - c,
{
    if occupied_by_other(m, msg, c) {
        slot_from(m, msg, c + 1)
    } else {
        c
    }
}

/// The counter under which `msg` belongs in `m`.
pub open spec fn slot(m: Map<MessageKey, MessageView>, msg: MessageView) -> nat {
    slot_from(m, msg, 0)
}

/// The log `m` after `msg` was inserted: unchanged when `msg` already sits in
/// its slot, otherwise with `msg` stored under its slot.
pub open spec fn inserted(m: Map<MessageKey, MessageView>, msg: MessageView) -> Map<
    MessageKey,
    MessageView,
> {
    let n = slot(m, msg);
    if n > u32::MAX || m.contains_key(key_at_count(msg, n)) {
        m
    } else {
        m.insert(key_at_count(msg, n), msg)
    }
}

/// The counters in use at any one timestamp have no gap.
pub open spec fn dense(m: Map<MessageKey, MessageView>) -> bool {
    forall|k: MessageKey| #[trigger]
        m.contains_key(k) && k.count > 0 ==> m.contains_key(
            key_at(k.created_at, (k.count - 1) as nat),
        )
}

/// Every message is stored under a key that carries its own timestamp.
pub open spec fn keyed_by_time(m: Map<MessageKey, MessageView>) -> bool {
    forall|k: MessageKey| #[trigger] m.contains_key(k) ==> m[k].created_at == k.created_at
}

/// What holds of every log that grew by inserts alone.
pub open spec fn consistent(m: Map<MessageKey, MessageView>) -> bool {
    dense(m) && keyed_by_time(m)
}

spec fn sorted(s: Seq<Entry>) -> bool {
    forall|i: int, j: int| 0 <= i < j < s.len() ==> (#[trigger] s[i]).key.sorts_before(
        (#[trigger] s[j]).key,
    )
}

spec fn holds(s: Seq<Entry>, k: MessageKey) -> bool {
    exists|i: int| 0 <= i < s.len() && (#[trigger] s[i]).key == k
}

spec fn index_of(s: Seq<Entry>, k: MessageKey) -> int {
    choose|i: int| 0 <= i < s.len() && (#[trigger] s[i]).key == k
}

spec fn as_map(s: Seq<Entry>) -> Map<MessageKey, MessageView> {
    Map::new(|k: MessageKey| holds(s, k), |k: MessageKey| s[index_of(s, k)].message@)
}

spec fn keys_of(s: Seq<Entry>) -> Seq<MessageKey> {
    Seq::new(s.len(), |i: int| s[i].key)
}

proof fn lemma_lookup(s: Seq<Entry>, i: int)
    requires
        sorted(s),
        0 <= i < s.len(),
    ensures
        as_map(s).contains_key(s[i].key),
        as_map(s)[s[i].key] == s[i].message@,
        index_of(s, s[i].key) == i,
{
    let k = s[i].key;
    assert(holds(s, k));
    let j = index_of(s, k);
    if j < i {
        assert(s[j].key.sorts_before(s[i].key));
    } else if i < j {
        assert(s[i].key.sorts_before(s[j].key));
    }
}

proof fn lemma_insert_at(s: Seq<Entry>, p: int, e: Entry)
    requires
        sorted(s),
        0 <= p <= s.len(),
        forall|j: int| 0 <= j < p ==> (#[trigger] s[j]).key.sorts_before(e.key),
        forall|j: int| p <= j < s.len() ==> e.key.sorts_before((#[trigger] s[j]).key),
    ensures
        sorted(s.insert(p, e)),
        !as_map(s).contains_key(e.key),
        as_map(s.insert(p, e)) == as_map(s).insert(e.key, e.message@),
{
    let t = s.insert(p, e);
    assert forall|i: int, j: int| 0 <= i < j < t.len() implies (#[trigger] t[i]).key.sorts_before(
        (#[trigger] t[j]).key,
    ) by {
        let a = if i < p { i } else { i - 1 };
        let b = if j < p { j } else { j - 1 };
        if i != p && j != p {
            assert(s[a].key.sorts_before(s[b].key));
        } else if i == p {
            assert(e.key.sorts_before(s[b].key));
        } else {
            assert(s[a].key.sorts_before(e.key));
        }
    }
    if holds(s, e.key) {
        let j = index_of(s, e.key);
        if j < p {
            assert(s[j].key.sorts_before(e.key));
        } else {
            assert(e.key.sorts_before(s[j].key));
        }
    }
    assert forall|k: MessageKey| as_map(t).contains_key(k) <==> as_map(s).insert(
        e.key,
        e.message@,
    ).contains_key(k) by {
        if holds(t, k) {
            let i = index_of(t, k);
            if i < p {
                assert(s[i].key == k);
            } else if i > p {
                assert(s[i - 1].key == k);
            }
        }
        if holds(s, k) {
            let i = index_of(s, k);
            if i < p {
                assert(t[i].key == k);
            } else {
                assert(t[i + 1].key == k);
            }
        }
        if k == e.key {
            assert(t[p].key == k);
        }
    }
    assert forall|k: MessageKey| as_map(t).contains_key(k) implies as_map(t)[k] == as_map(
        s,
    ).insert(e.key, e.message@)[k] by {
        let i = index_of(t, k);
        lemma_lookup(t, i);
        if i < p {
            lemma_lookup(s, i);
        } else if i > p {
            lemma_lookup(s, i - 1);
        }
    }
    assert(as_map(t) =~= as_map(s).insert(e.key, e.message@));
}

proof fn lemma_finite(s: Seq<Entry>)
    requires
        sorted(s),
    ensures
        as_map(s).dom().finite(),
        as_map(s).dom().len() == s.len(),
    decreases s.len(),
{
    if s.len() == 0 {
        assert(as_map(s).dom() =~= Set::<MessageKey>::empty());
    } else {
        let r = s.drop_last();
        let e = s.last();
        assert(sorted(r)) by {
            assert forall|i: int, j: int| 0 <= i < j < r.len() implies (#[trigger] r[i]).key.sorts_before(
                (#[trigger] r[j]).key,
            ) by {
                assert(s[i].key.sorts_before(s[j].key));
            }
        }
        lemma_finite(r);
        assert forall|j: int| 0 <= j < r.len() implies (#[trigger] r[j]).key.sorts_before(
            e.key,
        ) by {
            assert(s[j].key.sorts_before(s[s.len() - 1].key));
        }
        lemma_insert_at(r, r.len() as int, e);
        assert(r.insert(r.len() as int, e) =~= s);
    }
}

/// Counting up from `a`, the slot is the same as counting up from `b`, when
/// every counter in between is taken by another message.
pub proof fn lemma_slot_skips(m: Map<MessageKey, MessageView>, msg: MessageView, a: nat, b: nat)
    requires
        a <= b,
        forall|c: nat| a <= c < b ==> occupied_by_other(m, msg, c),
    ensures
        slot_from(m, msg, a) == slot_from(m, msg, b),
    decreases b - a,
{
    if a < b {
        assert(occupied_by_other(m, msg, a));
        lemma_slot_skips(m, msg, a + 1, b);
    }
}

/// The slot is free of other messages, and every counter below it is taken
/// by one.
pub proof fn lemma_slot_is_first(m: Map<MessageKey, MessageView>, msg: MessageView, a: nat)
    ensures
        a <= slot_from(m, msg, a) <= u32::MAX + 1 || a > u32::MAX + 1,
        slot_from(m, msg, a) >= a,
        !occupied_by_other(m, msg, slot_from(m, msg, a)),
        forall|c: nat| a <= c < slot_from(m, msg, a) ==> occupied_by_other(m, msg, c),
    decreases u32::MAX + 1 - a,
{
    if occupied_by_other(m, msg, a) {
        lemma_slot_is_first(m, msg, a + 1);
    }
}


proof fn lemma_key_order_total(a: MessageKey, b: MessageKey)
    ensures
        a.sorts_before(b) || b.sorts_before(a) || a == b,
        !(a.sorts_before(b) && b.sorts_before(a)),
{
}

/// Inserting into a consistent log leaves it consistent.
pub proof fn lemma_insert_keeps_consistent(m: Map<MessageKey, MessageView>, msg: MessageView)
    requires
        consistent(m),
    ensures
        consistent(inserted(m, msg)),
{
    let n = slot(m, msg);
    lemma_slot_is_first(m, msg, 0);
    let r = inserted(m, msg);
    assert forall|k: MessageKey| #[trigger] r.contains_key(k) && k.count > 0 implies r.contains_key(
        key_at(k.created_at, (k.count - 1) as nat),
    ) by {
        if m.contains_key(k) {
        } else {
            assert(k == key_at_count(msg, n));
            assert(occupied_by_other(m, msg, (n - 1) as nat));
        }
    }
}

impl View for MessageLog {
    type V = Map<MessageKey, MessageView>;

    closed spec fn view(&self) -> Map<MessageKey, MessageView> {
        as_map(self.entries@)
    }
}

impl MessageLog {
    #[verifier::type_invariant]
    spec fn well_formed(self) -> bool {
        sorted(self.entries@) && consistent(as_map(self.entries@))
    }

    /// The keys of the log in ascending order.
    pub closed spec fn keys(&self) -> Seq<MessageKey> {
        keys_of(self.entries@)
    }

    /// An empty log.
    pub fn new() -> (log: MessageLog)
        ensures
            log@ == Map::<MessageKey, MessageView>::empty(),
            log.keys().len() == 0,
    {
        let log = MessageLog { entries: Vec::new() };
        assert(as_map(log.entries@) =~= Map::<MessageKey, MessageView>::empty());
        log
    }

    /// How many messages the log holds.
    pub fn len(&self) -> (n: usize)
        ensures
            n == self.keys().len(),
            self@.dom().finite(),
            n == self@.dom().len(),
            consistent(self@),
    {
        proof {
            use_type_invariant(self);
            lemma_finite(self.entries@);
        }
        self.entries.len()
    }

    /// Whether the log holds no message.
    pub fn is_empty(&self) -> (b: bool)
        ensures
            b == (self.keys().len() == 0),
            b == (self@ == Map::<MessageKey, MessageView>::empty()),
    {
        proof {
            use_type_invariant(self);
            if self.entries@.len() == 0 {
                assert(as_map(self.entries@) =~= Map::<MessageKey, MessageView>::empty());
            } else {
                lemma_lookup(self.entries@, 0);
            }
        }
        self.entries.len() == 0
    }

    /// The `i`-th message in key order, with its key.
    pub fn entry(&self, i: usize) -> (e: &Entry)
        requires
            i < self.keys().len(),
        ensures
            e.key == self.keys()[i as int],
            self@.contains_key(e.key),
            self@[e.key] == e.message@,
            forall|j: int| 0 <= j < i ==> (#[trigger] self.keys()[j]).sorts_before(e.key),
            forall|j: int|
                i < j < self.keys().len() ==> e.key.sorts_before(#[trigger] self.keys()[j]),
    {
        proof {
            use_type_invariant(self);
            lemma_lookup(self.entries@, i as int);
            assert forall|j: int| 0 <= j < i implies (#[trigger] self.keys()[j]).sorts_before(
                self.entries@[i as int].key,
            ) by {
                assert(self.entries@[j].key.sorts_before(self.entries@[i as int].key));
            }
            assert forall|j: int| i < j < self.keys().len() implies self.entries@[i as int].key.sorts_before(
             #[trigger] self.keys()[j]) by {
                assert(self.entries@[i as int].key.sorts_before(self.entries@[j].key));
            }
        }
        &self.entries[i]
    }

    /// Number of entries whose key sorts strictly before `key`.
    fn position(&self, key: &MessageKey) -> (p: usize)
        ensures
            p <= self.entries@.len(),
            forall|j: int| 0 <= j < p ==> (#[trigger] self.entries@[j]).key.sorts_before(*key),
            forall|j: int|
                p <= j < self.entries@.len() ==> !(#[trigger] self.entries@[j]).key.sorts_before(
                    *key,
                ),
    {
        proof {
            use_type_invariant(self);
        }
        let mut lo: usize = 0;
        let mut hi: usize = self.entries.len();
        while lo < hi
            invariant
                lo <= hi <= self.entries@.len(),
                sorted(self.entries@),
                forall|j: int| 0 <= j < lo ==> (#[trigger] self.entries@[j]).key.sorts_before(*key),
                forall|j: int|
                    hi <= j < self.entries@.len() ==> !(#[trigger] self.entries@[j]).key.sorts_before(
                        *key,
                    ),
            decreases hi - lo,
        {
            let mid = lo + (hi - lo) / 2;
            if self.entries[mid].key.before(key) {
                assert forall|j: int| 0 <= j < mid + 1 implies (#[trigger] self.entries@[j]).key.sorts_before(
                    *key,
                ) by {
                    if j < mid {
                        assert(self.entries@[j].key.sorts_before(self.entries@[mid as int].key));
                    }
                }
                lo = mid + 1;
            } else {
                assert forall|j: int| mid <= j < self.entries@.len() implies !(
                #[trigger] self.entries@[j]).key.sorts_before(*key) by {
                    if mid < j {
                        assert(self.entries@[mid as int].key.sorts_before(self.entries@[j].key));
                    }
                }
                hi = mid;
            }
        }
        lo
    }

    /// The message stored under `key`, if any.
    pub fn get(&self, key: &MessageKey) -> (r: Option<&DecryptedMessage>)
        ensures
            r.is_some() == self@.contains_key(*key),
            r.is_some() ==> r.unwrap()@ == self@[*key],
    {
        proof {
            use_type_invariant(self);
        }
        let p = self.position(key);
        if p < self.entries.len() && self.entries[p].key == *key {
            proof {
                lemma_lookup(self.entries@, p as int);
            }
            Some(&self.entries[p].message)
        } else {
            proof {
                if holds(self.entries@, *key) {
                    let j = index_of(self.entries@, *key);
                    if j < p {
                        assert(self.entries@[j].key.sorts_before(*key));
                    } else if j > p {
                        assert(self.entries@[p as int].key.sorts_before(self.entries@[j].key));
                        lemma_key_order_total(self.entries@[p as int].key, *key);
                    }
                }
            }
            None
        }
    }

    /// Whether a message is stored under `key`.
    pub fn contains_key(&self, key: &MessageKey) -> (b: bool)
        ensures
            b == self@.contains_key(*key),
    {
        self.get(key).is_some()
    }

    /// Whether a counter is free for `msg` at its timestamp: one that no
    /// message takes, or that `msg` itself takes.
    pub fn has_counter_for(&self, msg: &DecryptedMessage) -> (b: bool)
        ensures
            b == (slot(self@, msg@) <= u32::MAX),
    {
        let mut count: u32 = 0;
        loop
            invariant
                forall|c: nat| c < count ==> occupied_by_other(self@, msg@, c),
            decreases u32::MAX - count,
        {
            let key = MessageKey::new_with_count(count, &msg.created_at);
            match self.get(&key) {
                None => {
                    proof {
                        lemma_slot_skips(self@, msg@, 0, count as nat);
                    }
                    return true;
                },
                Some(held) => {
                    if held.same_as(msg) {
                        proof {
                            lemma_slot_skips(self@, msg@, 0, count as nat);
                        }
                        return true;
                    }
                    if count == u32::MAX {
                        proof {
                            lemma_slot_skips(self@, msg@, 0, (count + 1) as nat);
                        }
                        return false;
                    }
                    count = count + 1;
                },
            }
        }
    }
}

/// The counters that other messages take at one timestamp are as many keys
/// of the log.
proof fn lemma_counters_are_keys(m: Map<MessageKey, MessageView>, msg: MessageView, n: nat)
    requires
        m.dom().finite(),
        n <= u32::MAX + 1,
        forall|c: nat| c < n ==> occupied_by_other(m, msg, c),
    ensures
        n <= m.dom().len(),
    decreases n,
{
    if n > 0 {
        let k = key_at_count(msg, (n - 1) as nat);
        let rest = m.remove(k);
        assert(occupied_by_other(m, msg, (n - 1) as nat));
        assert forall|c: nat| c < n - 1 implies occupied_by_other(rest, msg, c) by {
            assert(occupied_by_other(m, msg, c));
            assert(key_at_count(msg, c) != k);
        }
        lemma_counters_are_keys(rest, msg, (n - 1) as nat);
    }
}

/// A log that holds no more than `u32::MAX` messages has a counter free at
/// every timestamp: the slot of a message is no greater than the number of
/// messages held. So is the slot of the first message of a log.
pub proof fn lemma_slot_within_len(m: Map<MessageKey, MessageView>, msg: MessageView)
    requires
        m.dom().finite(),
    ensures
        slot(m, msg) <= m.dom().len(),
        slot(Map::<MessageKey, MessageView>::empty(), msg) == 0,
{
    lemma_slot_is_first(m, msg, 0);
    lemma_counters_are_keys(m, msg, slot(m, msg));
}

/// Stores `msg` in `map` under the first counter at its timestamp that no
/// different message holds. A message that already sits there is not stored
/// again. A counter must be free at that timestamp, as it is in every log
/// that holds no more than `u32::MAX` messages.
pub fn insert_with_collisions(map: &mut MessageLog, msg: &DecryptedMessage)
    requires
        slot(old(map)@, msg@) <= u32::MAX,
    ensures
        final(map)@ == inserted(old(map)@, msg@),
        final(map)@.contains_key(key_at_count(msg@, slot(old(map)@, msg@))),
        final(map)@[key_at_count(msg@, slot(old(map)@, msg@))] == msg@,
        final(map).keys().len() == old(map).keys().len() + (if old(map)@.contains_key(
            key_at_count(msg@, slot(old(map)@, msg@)),
        ) {
            0int
        } else {
            1int
        }),
{
    proof {
        use_type_invariant(&*map);
    }
    let first = MessageKey::new_with_count(0, &msg.created_at);
    let p = map.position(&first);
    let mut count: u32 = 0;
    let mut i: usize = p;
    let ghost m = map@;
    while i < map.entries.len() && map.entries[i].key == MessageKey::new_with_count(
        count,
        &msg.created_at,
    )
        invariant
            *map == *old(map),
            m == as_map(map.entries@),
            sorted(map.entries@),
            slot(m, msg@) <= u32::MAX,
            p <= i <= map.entries@.len(),
            i - p == count,
            first == key_at_count(msg@, 0),
            forall|j: int| 0 <= j < p ==> (#[trigger] map.entries@[j]).key.sorts_before(first),
            forall|j: int|
                p <= j < map.entries@.len() ==> !(#[trigger] map.entries@[j]).key.sorts_before(
                    first,
                ),
            forall|c: nat| c < count ==> map.entries@[p + c].key == key_at_count(msg@, c),
            forall|c: nat| c < count ==> occupied_by_other(m, msg@, c),
        decreases map.entries@.len() - i,
    {
        proof {
            lemma_lookup(map.entries@, i as int);
        }
        if map.entries[i].message.same_as(msg) {
            proof {
                lemma_slot_skips(m, msg@, 0, count as nat);
            }
            return ;
        }
        proof {
            assert(occupied_by_other(m, msg@, count as nat));
            lemma_slot_skips(m, msg@, 0, (count + 1) as nat);
            lemma_slot_is_first(m, msg@, (count + 1) as nat);
        }
        count = count + 1;
        i = i + 1;
    }
    let key = MessageKey::new_with_count(count, &msg.created_at);
    proof {
        let s = map.entries@;
        assert(key == key_at_count(msg@, count as nat));
        assert forall|j: int| 0 <= j < i implies (#[trigger] s[j]).key.sorts_before(key) by {
            if j < p {
                assert(s[j].key.sorts_before(first));
            } else {
                assert(s[p + (j - p) as nat].key == key_at_count(msg@, (j - p) as nat));
            }
        }
        assert forall|j: int| i <= j < s.len() implies key.sorts_before((#[trigger] s[j]).key) by {
            lemma_key_order_total(s[j].key, key);
            if count == 0 {
                assert(!s[j].key.sorts_before(first));
                if j > i {
                    assert(s[i as int].key.sorts_before(s[j].key));
                    lemma_key_order_total(s[i as int].key, key);
                }
            } else {
                assert(s[p + (count - 1) as nat].key == key_at_count(msg@, (count - 1) as nat));
                assert(s[i - 1].key.sorts_before(s[j].key));
                if j > i {
                    assert(s[i as int].key.sorts_before(s[j].key));
                    assert(s[i - 1].key.sorts_before(s[i as int].key));
                    lemma_key_order_total(s[i as int].key, key);
                }
            }
        }
    }
    let e = Entry { key, message: msg.clone() };
    let mut entries: Vec<Entry> = Vec::new();
    proof {
        assert(as_map(entries@) =~= Map::<MessageKey, MessageView>::empty());
        lemma_insert_at(map.entries@, i as int, e);
        lemma_slot_skips(m, msg@, 0, count as nat);
        lemma_insert_keeps_consistent(m, msg@);
    }
    core::mem::swap(&mut map.entries, &mut entries);
    entries.insert(i, e);
    core::mem::swap(&mut map.entries, &mut entries);
}

/// Inserting a message that was just inserted changes nothing.
pub proof fn lemma_insert_idempotent(m: Map<MessageKey, MessageView>, msg: MessageView)
    ensures
        inserted(inserted(m, msg), msg) == inserted(m, msg),
{
    let n = slot(m, msg);
    lemma_slot_is_first(m, msg, 0);
    let r = inserted(m, msg);
    if n <= u32::MAX {
        assert forall|c: nat| c < n implies occupied_by_other(r, msg, c) by {
            assert(occupied_by_other(m, msg, c));
        }
        lemma_slot_skips(r, msg, 0, n);
        assert(!occupied_by_other(r, msg, n));
        assert(slot(r, msg) == n);
    } else {
        assert(r == m);
    }
}

/// The first message of a log is stored under counter 0, and the log then
/// holds exactly that message.
pub proof fn lemma_insert_into_empty(msg: MessageView)
    ensures
        inserted(Map::empty(), msg) == Map::<MessageKey, MessageView>::empty().insert(
            key_at_count(msg, 0),
            msg,
        ),
        inserted(Map::empty(), msg).dom().finite(),
        inserted(Map::empty(), msg).dom().len() == 1,
{
    let e = Map::<MessageKey, MessageView>::empty();
    assert(!occupied_by_other(e, msg, 0));
    assert(e.insert(key_at_count(msg, 0), msg).dom() =~= Set::<MessageKey>::empty().insert(
        key_at_count(msg, 0),
    ));
}

/// Inserting the same message twice into an empty log leaves one entry.
pub proof fn lemma_insert_twice_is_once(msg: MessageView)
    ensures
        inserted(inserted(Map::empty(), msg), msg).dom().finite(),
        inserted(inserted(Map::empty(), msg), msg).dom().len() == 1,
{
    lemma_insert_into_empty(msg);
    lemma_insert_idempotent(Map::empty(), msg);
}

/// Two different messages with one timestamp, inserted in turn into an empty
/// log, are stored under counters 0 and 1.
pub proof fn lemma_insert_same_time(a: MessageView, b: MessageView)
    requires
        a.created_at == b.created_at,
        a != b,
    ensures
        inserted(inserted(Map::empty(), a), b) == Map::<MessageKey, MessageView>::empty().insert(
            key_at_count(a, 0),
            a,
        ).insert(key_at_count(b, 1), b),
        key_at_count(a, 0) != key_at_count(b, 1),
{
    lemma_insert_into_empty(a);
    let m = inserted(Map::empty(), a);
    assert(key_at_count(a, 0) == key_at_count(b, 0));
    assert(occupied_by_other(m, b, 0));
    assert(!occupied_by_other(m, b, 1));
    assert(slot_from(m, b, 1) == 1);
    assert(slot(m, b) == 1);
}

/// Inserting keeps every message that was stored, under its key, and the
/// inserted message is stored afterwards under a key with its timestamp.
pub proof fn lemma_insert_keeps(m: Map<MessageKey, MessageView>, msg: MessageView)
    requires
        slot(m, msg) <= u32::MAX,
    ensures
        forall|k: MessageKey| #[trigger]
            m.contains_key(k) ==> inserted(m, msg).contains_key(k) && inserted(m, msg)[k] == m[k],
        inserted(m, msg).contains_key(key_at_count(msg, slot(m, msg))),
        inserted(m, msg)[key_at_count(msg, slot(m, msg))] == msg,
        forall|k: MessageKey| #[trigger]
            inserted(m, msg).contains_key(k) ==> m.contains_key(k) || k == key_at_count(
                msg,
                slot(m, msg),
            ),
{
    lemma_slot_is_first(m, msg, 0);
}

/// In a consistent log, a message that is stored anywhere is not stored a
/// second time.
pub proof fn lemma_no_duplicate(m: Map<MessageKey, MessageView>, msg: MessageView, k: MessageKey)
    requires
        consistent(m),
        m.contains_key(k),
        m[k] == msg,
    ensures
        inserted(m, msg) == m,
{
    lemma_slot_is_first(m, msg, 0);
    lemma_dense_down(m, k, k.count as nat);
    let n = slot(m, msg);
    assert(k.created_at == msg.created_at);
    if n > k.count {
        assert(occupied_by_other(m, msg, k.count as nat));
        assert(key_at_count(msg, k.count as nat) == k);
    } else {
        assert(m.contains_key(key_at_count(msg, n)));
    }
}

proof fn lemma_dense_down(m: Map<MessageKey, MessageView>, k: MessageKey, c: nat)
    requires
        dense(m),
        m.contains_key(k),
        c <= k.count,
    ensures
        forall|d: nat|
            k.count - c <= d <= k.count ==> m.contains_key(#[trigger] key_at(k.created_at, d)),
    decreases c,
{
    if c > 0 {
        lemma_dense_down(m, k, (c - 1) as nat);
        let d = (k.count - c + 1) as nat;
        let kd = key_at(k.created_at, d);
        assert(m.contains_key(kd));
        assert(kd.count > 0);
        assert(key_at(kd.created_at, (kd.count - 1) as nat) == key_at(k.created_at, (d - 1) as nat));
    }
}

} // verus!
