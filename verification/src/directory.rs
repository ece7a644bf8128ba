//! The directory of conversations: which identifier goes with which set of
//! participants.
//!
//! A directory is kept in memory and, as text, in the owner's profile. Its
//! keys are participant lists in canonical form; a key occurs once. The
//! lines are kept, and written, in ascending order of their keys, so that a
//! mapping is written in one way only.

use crate::errors::BmailError;
use crate::ids::{uuid_text, uuid_value, ConversationId};
use crate::key::wire_view;
use crate::text::{
    clone_texts, lemma_list_lt_irreflexive, lemma_list_lt_total, lemma_list_lt_transitive,
    list_before, list_lt, same_texts, texts,
};
use vstd::prelude::*;

verus! {

/// One line of a directory.
pub struct RcEntry {
    pub participants: Vec<String>,
    pub conversation_id: ConversationId,
}

/// A directory of conversations.
pub struct RcMap {
    entries: Vec<RcEntry>,
}

/// The lines of a directory as mathematical values.
pub type Listing = Seq<(Seq<Seq<char>>, ConversationId)>;

/// Some line of `l` has the key `key`.
pub open spec fn listing_holds(l: Listing, key: Seq<Seq<char>>) -> bool {
    exists|i: int| 0 <= i < l.len() && (#[trigger] l[i]).0 == key
}

/// The position of a line of `l` with the key `key`.
pub open spec fn listing_index(l: Listing, key: Seq<Seq<char>>) -> int {
    choose|i: int| 0 <= i < l.len() && (#[trigger] l[i]).0 == key
}

/// No two lines of `l` have the same key.
pub open spec fn distinct_keys(l: Listing) -> bool {
    forall|i: int, j: int|
        0 <= i < l.len() && 0 <= j < l.len() && (#[trigger] l[i]).0 == (#[trigger] l[j]).0 ==> i
            == j
}

/// The mapping that the lines of `l` stand for.
pub open spec fn listing_map(l: Listing) -> Map<Seq<Seq<char>>, ConversationId> {
    Map::new(|k: Seq<Seq<char>>| listing_holds(l, k), |k: Seq<Seq<char>>| l[listing_index(l, k)].1)
}

/// The keys of the lines of `l` are in strictly ascending order.
pub open spec fn ascending(l: Listing) -> bool {
    forall|i: int, j: int| 0 <= i < j < l.len() ==> list_lt((#[trigger] l[i]).0, (#[trigger] l[j]).0)
}

/// The first position from `from` on whose key does not come before `key`.
pub open spec fn listing_rank(l: Listing, key: Seq<Seq<char>>, from: int) -> int
    decreases l.len() - from,
{
    if from < 0 || from >= l.len() {
        l.len() as int
    } else if list_lt(l[from].0, key) {
        listing_rank(l, key, from + 1)
    } else {
        from
    }
}

/// The lines of `l` after `key` was bound to `id`: the line with that key
/// is overwritten, or a new line is put where it keeps the keys ascending.
pub open spec fn listing_put(l: Listing, key: Seq<Seq<char>>, id: ConversationId) -> Listing {
    if listing_holds(l, key) {
        l.update(listing_index(l, key), (key, id))
    } else {
        l.insert(listing_rank(l, key, 0), (key, id))
    }
}

/// The lines of a directory as they are written: each identifier as text.
pub open spec fn wire_of(l: Listing) -> Seq<(Seq<Seq<char>>, Seq<char>)> {
    Seq::new(l.len(), |i: int| (l[i].0, uuid_text(l[i].1.0)))
}

/// The lines that written entries stand for, bound one after the other;
/// `None` where the text of an identifier is no UUID.
pub open spec fn listing_of_wire(w: Seq<(Seq<Seq<char>>, Seq<char>)>) -> Option<Listing>
    decreases w.len(),
{
    if w.len() == 0 {
        Some(Seq::empty())
    } else {
        match (listing_of_wire(w.drop_last()), uuid_value(w.last().1)) {
            (Some(l), Some(v)) => Some(listing_put(l, w.last().0, ConversationId(v))),
            _ => None,
        }
    }
}

/// The lines that stand for the mapping `m`, in ascending order of their
/// keys. There is one such list of lines for a mapping at most.
pub open spec fn listing_of(m: Map<Seq<Seq<char>>, ConversationId>) -> Listing {
    choose|l: Listing| ascending(l) && listing_map(l) == m
}

spec fn lines(entries: Seq<RcEntry>) -> Listing {
    Seq::new(entries.len(), |i: int| (texts(entries[i].participants@), entries[i].conversation_id))
}

/// Ascending keys are distinct.
pub proof fn lemma_ascending_distinct(l: Listing)
    requires
        ascending(l),
    ensures
        distinct_keys(l),
{
    assert forall|i: int, j: int|
        0 <= i < l.len() && 0 <= j < l.len() && (#[trigger] l[i]).0 == (#[trigger] l[j]).0 implies i
        == j by {
        lemma_list_lt_irreflexive(l[i].0);
        if i < j {
            assert(list_lt(l[i].0, l[j].0));
        } else if j < i {
            assert(list_lt(l[j].0, l[i].0));
        }
    }
}

proof fn lemma_at(l: Listing, i: int)
    requires
        distinct_keys(l),
        0 <= i < l.len(),
    ensures
        listing_holds(l, l[i].0),
        listing_index(l, l[i].0) == i,
        listing_map(l).contains_key(l[i].0),
        listing_map(l)[l[i].0] == l[i].1,
{
    assert(listing_holds(l, l[i].0));
    let j = listing_index(l, l[i].0);
    assert(l[j].0 == l[i].0);
}

proof fn lemma_rank(l: Listing, key: Seq<Seq<char>>, from: int)
    requires
        0 <= from <= l.len(),
    ensures
        from <= listing_rank(l, key, from) <= l.len(),
        forall|j: int| from <= j < listing_rank(l, key, from) ==> list_lt((#[trigger] l[j]).0, key),
        listing_rank(l, key, from) < l.len() ==> !list_lt(l[listing_rank(l, key, from)].0, key),
    decreases l.len() - from,
{
    if from < l.len() && list_lt(l[from].0, key) {
        lemma_rank(l, key, from + 1);
    }
}

/// Binding a key keeps the keys distinct, and changes the mapping at that
/// key alone.
pub proof fn lemma_listing_put(l: Listing, key: Seq<Seq<char>>, id: ConversationId)
    requires
        distinct_keys(l),
    ensures
        distinct_keys(listing_put(l, key, id)),
        listing_map(listing_put(l, key, id)) == listing_map(l).insert(key, id),
{
    let r = listing_put(l, key, id);
    if listing_holds(l, key) {
        let p = listing_index(l, key);
        assert forall|i: int, j: int|
            0 <= i < r.len() && 0 <= j < r.len() && (#[trigger] r[i]).0 == (#[trigger] r[j]).0 implies i
            == j by {
            assert(r[i].0 == l[i].0);
            assert(r[j].0 == l[j].0);
        }
        assert forall|k: Seq<Seq<char>>| listing_holds(r, k) <==> listing_holds(l, k) || k
            == key by {
            if listing_holds(r, k) {
                let i = listing_index(r, k);
                assert(l[i].0 == k);
            }
            if listing_holds(l, k) {
                let i = listing_index(l, k);
                assert(r[i].0 == k);
            }
        }
        assert forall|k: Seq<Seq<char>>| listing_holds(r, k) implies listing_map(r)[k]
            == listing_map(l).insert(key, id)[k] by {
            let i = listing_index(r, k);
            assert(l[i].0 == k);
            if k != key {
                let j = listing_index(l, k);
                assert(i == j);
            } else {
                assert(i == p);
            }
        }
    } else {
        lemma_rank(l, key, 0);
        let p = listing_rank(l, key, 0);
        assert forall|i: int, j: int|
            0 <= i < r.len() && 0 <= j < r.len() && (#[trigger] r[i]).0 == (#[trigger] r[j]).0 implies i
            == j by {
            let a = if i < p { i } else { i - 1 };
            let b = if j < p { j } else { j - 1 };
            if i != p && j != p {
                assert(l[a].0 == l[b].0);
            } else if i != p {
                assert(l[a].0 == key);
            } else if j != p {
                assert(l[b].0 == key);
            }
        }
        assert forall|k: Seq<Seq<char>>| listing_holds(r, k) <==> listing_holds(l, k) || k
            == key by {
            if listing_holds(r, k) {
                let i = listing_index(r, k);
                if i < p {
                    assert(l[i].0 == k);
                } else if i > p {
                    assert(l[i - 1].0 == k);
                }
            }
            if listing_holds(l, k) {
                let i = listing_index(l, k);
                if i < p {
                    assert(r[i].0 == k);
                } else {
                    assert(r[i + 1].0 == k);
                }
            }
            if k == key {
                assert(r[p].0 == k);
            }
        }
        assert forall|k: Seq<Seq<char>>| listing_holds(r, k) implies listing_map(r)[k]
            == listing_map(l).insert(key, id)[k] by {
            let i = listing_index(r, k);
            if k != key {
                let a = if i < p { i } else { i - 1 };
                assert(i != p);
                assert(l[a].0 == k);
                let j = listing_index(l, k);
                let b = if j < p { j } else { j + 1 };
                assert(r[b].0 == k);
            } else {
                if i < p {
                    assert(l[i].0 == key);
                } else if i > p {
                    assert(l[i - 1].0 == key);
                }
            }
        }
    }
    assert(listing_map(r) =~= listing_map(l).insert(key, id));
}

/// Binding a key keeps the keys ascending.
pub proof fn lemma_listing_put_ascending(l: Listing, key: Seq<Seq<char>>, id: ConversationId)
    requires
        ascending(l),
    ensures
        ascending(listing_put(l, key, id)),
{
    let r = listing_put(l, key, id);
    if listing_holds(l, key) {
        assert forall|i: int, j: int| 0 <= i < j < r.len() implies list_lt(
            (#[trigger] r[i]).0,
            (#[trigger] r[j]).0,
        ) by {
            assert(r[i].0 == l[i].0);
            assert(r[j].0 == l[j].0);
            assert(list_lt(l[i].0, l[j].0));
        }
    } else {
        lemma_rank(l, key, 0);
        let p = listing_rank(l, key, 0);
        assert forall|j: int| p <= j < l.len() implies list_lt(key, (#[trigger] l[j]).0) by {
            assert(l[p].0 != key);
            if !list_lt(key, l[p].0) {
                lemma_list_lt_total(key, l[p].0);
            }
            if j > p {
                assert(list_lt(l[p].0, l[j].0));
                lemma_list_lt_transitive(key, l[p].0, l[j].0);
            }
        }
        assert forall|i: int, j: int| 0 <= i < j < r.len() implies list_lt(
            (#[trigger] r[i]).0,
            (#[trigger] r[j]).0,
        ) by {
            let a = if i < p { i } else { i - 1 };
            let b = if j < p { j } else { j - 1 };
            if i != p && j != p {
                assert(list_lt(l[a].0, l[b].0));
            } else if i == p {
                assert(list_lt(key, l[b].0));
            } else {
                assert(list_lt(l[a].0, key));
            }
        }
    }
}

proof fn lemma_tail(a: Listing)
    requires
        ascending(a),
        a.len() > 0,
    ensures
        ascending(a.skip(1)),
        forall|k: Seq<Seq<char>>|
            listing_map(a.skip(1)).contains_key(k) <==> (listing_map(a).contains_key(k) && k
                != a[0].0),
        forall|k: Seq<Seq<char>>|
            listing_map(a.skip(1)).contains_key(k) ==> listing_map(a.skip(1))[k] == listing_map(
                a,
            )[k],
{
    let t = a.skip(1);
    lemma_ascending_distinct(a);
    assert forall|i: int, j: int| 0 <= i < j < t.len() implies list_lt(
        (#[trigger] t[i]).0,
        (#[trigger] t[j]).0,
    ) by {
        assert(list_lt(a[i + 1].0, a[j + 1].0));
    }
    lemma_ascending_distinct(t);
    assert forall|k: Seq<Seq<char>>| listing_holds(t, k) <==> (listing_holds(a, k) && k
        != a[0].0) by {
        if listing_holds(t, k) {
            let i = listing_index(t, k);
            assert(a[i + 1].0 == k);
            lemma_at(a, i + 1);
            lemma_at(a, 0);
        }
        if listing_holds(a, k) && k != a[0].0 {
            let i = listing_index(a, k);
            assert(t[i - 1].0 == k);
        }
    }
    assert forall|k: Seq<Seq<char>>| listing_map(t).contains_key(k) implies listing_map(t)[k]
        == listing_map(a)[k] by {
        let i = listing_index(t, k);
        lemma_at(t, i);
        assert(a[i + 1].0 == k);
        lemma_at(a, i + 1);
    }
}

/// A mapping has one list of lines in ascending order of keys: two such
/// lists that stand for one mapping are equal.
pub proof fn lemma_listing_unique(a: Listing, b: Listing)
    requires
        ascending(a),
        ascending(b),
        listing_map(a) == listing_map(b),
    ensures
        a == b,
    decreases a.len(),
{
    lemma_ascending_distinct(a);
    lemma_ascending_distinct(b);
    if a.len() == 0 {
        if b.len() > 0 {
            lemma_at(b, 0);
            assert(listing_map(a).contains_key(b[0].0));
        }
        assert(a =~= b);
    } else {
        lemma_at(a, 0);
        assert(listing_map(b).contains_key(a[0].0));
        let j = listing_index(b, a[0].0);
        lemma_at(b, 0);
        assert(listing_map(a).contains_key(b[0].0));
        let i = listing_index(a, b[0].0);
        if a[0].0 != b[0].0 {
            assert(list_lt(b[0].0, b[j].0));
            assert(list_lt(a[0].0, a[i].0));
            lemma_list_lt_transitive(a[0].0, b[0].0, a[0].0);
            lemma_list_lt_irreflexive(a[0].0);
        }
        assert(a[0] == b[0]);
        lemma_tail(a);
        lemma_tail(b);
        assert forall|k: Seq<Seq<char>>|
            listing_map(a.skip(1)).contains_key(k) <==> listing_map(b.skip(1)).contains_key(
                k,
            ) by {
            assert(listing_map(a.skip(1)).contains_key(k) <==> (listing_map(a).contains_key(k)
                && k != a[0].0));
            assert(listing_map(b.skip(1)).contains_key(k) <==> (listing_map(b).contains_key(k)
                && k != b[0].0));
        }
        assert forall|k: Seq<Seq<char>>|
            listing_map(a.skip(1)).contains_key(k) implies listing_map(a.skip(1))[k]
            == listing_map(b.skip(1))[k] by {
            assert(listing_map(a.skip(1))[k] == listing_map(a)[k]);
            assert(listing_map(b.skip(1)).contains_key(k));
            assert(listing_map(b.skip(1))[k] == listing_map(b)[k]);
        }
        assert(listing_map(a.skip(1)) =~= listing_map(b.skip(1)));
        lemma_listing_unique(a.skip(1), b.skip(1));
        assert(a =~= seq![a[0]] + a.skip(1));
        assert(b =~= seq![b[0]] + b.skip(1));
    }
}

/// Lines in ascending order of keys are the lines of their mapping.
pub proof fn lemma_listing_of(l: Listing)
    requires
        ascending(l),
    ensures
        listing_of(listing_map(l)) == l,
{
    let c = listing_of(listing_map(l));
    lemma_listing_unique(c, l);
}

/// Written entries that stand for lines stand for lines with ascending,
/// and so distinct, keys.
pub proof fn lemma_listing_of_wire_distinct(w: Seq<(Seq<Seq<char>>, Seq<char>)>)
    requires
        listing_of_wire(w).is_some(),
    ensures
        ascending(listing_of_wire(w).unwrap()),
        distinct_keys(listing_of_wire(w).unwrap()),
    decreases w.len(),
{
    if w.len() > 0 {
        lemma_listing_of_wire_distinct(w.drop_last());
        let l = listing_of_wire(w.drop_last()).unwrap();
        let v = uuid_value(w.last().1).unwrap();
        lemma_listing_put_ascending(l, w.last().0, ConversationId(v));
    }
    lemma_ascending_distinct(listing_of_wire(w).unwrap());
}

/// Lines that were written in ascending order of their keys are read back
/// as they were, where every identifier is read back from its text.
pub proof fn lemma_read_back(l: Listing, w: Seq<(Seq<Seq<char>>, Seq<char>)>)
    requires
        ascending(l),
        w.len() == l.len(),
        forall|i: int|
            0 <= i < l.len() ==> (#[trigger] w[i]).0 == l[i].0 && uuid_value(w[i].1) == Some(
                l[i].1.0,
            ),
    ensures
        listing_of_wire(w) == Some(l),
    decreases l.len(),
{
    if l.len() == 0 {
        assert(l =~= Seq::empty());
    } else {
        let n = l.len() - 1;
        let front = l.drop_last();
        assert forall|i: int, j: int| 0 <= i < j < front.len() implies list_lt(
            (#[trigger] front[i]).0,
            (#[trigger] front[j]).0,
        ) by {
            assert(list_lt(l[i].0, l[j].0));
        }
        assert forall|i: int| 0 <= i < front.len() implies (#[trigger] w.drop_last()[i]).0
            == front[i].0 && uuid_value(w.drop_last()[i].1) == Some(front[i].1.0) by {
            assert(w[i].0 == l[i].0);
        }
        lemma_read_back(front, w.drop_last());
        let key = l[n].0;
        assert(w.last() == w[n]);
        lemma_list_lt_irreflexive(key);
        if listing_holds(front, key) {
            let j = listing_index(front, key);
            assert(list_lt(l[j].0, l[n].0));
        }
        lemma_rank(front, key, 0);
        let p = listing_rank(front, key, 0);
        if p < front.len() {
            assert(list_lt(l[p].0, l[n].0));
        }
        assert(front.insert(n, (key, l[n].1)) =~= l);
        assert(ConversationId(l[n].1.0) == l[n].1);
    }
}

impl View for RcMap {
    type V = Map<Seq<Seq<char>>, ConversationId>;

    closed spec fn view(&self) -> Map<Seq<Seq<char>>, ConversationId> {
        listing_map(lines(self.entries@))
    }
}

impl RcMap {
    #[verifier::type_invariant]
    spec fn well_formed(self) -> bool {
        ascending(lines(self.entries@))
    }

    /// The lines of the directory, in ascending order of their keys.
    pub closed spec fn listing(&self) -> Listing {
        lines(self.entries@)
    }

    /// An empty directory.
    pub fn new() -> (map: RcMap)
        ensures
            map.listing() == Seq::<(Seq<Seq<char>>, ConversationId)>::empty(),
            map@ == Map::<Seq<Seq<char>>, ConversationId>::empty(),
    {
        let map = RcMap { entries: Vec::new() };
        assert(lines(map.entries@) =~= Seq::<(Seq<Seq<char>>, ConversationId)>::empty());
        assert(listing_map(lines(map.entries@)) =~= Map::<
            Seq<Seq<char>>,
            ConversationId,
        >::empty());
        map
    }

    /// The directory binds what its lines spell.
    pub proof fn lemma_view_spells_listing(&self)
        ensures
            self@ == listing_map(self.listing()),
    {
    }

    /// How many keys are bound.
    pub fn len(&self) -> (n: usize)
        ensures
            n == self.listing().len(),
            self@ == listing_map(self.listing()),
            self.listing() == listing_of(self@),
            ascending(self.listing()),
            distinct_keys(self.listing()),
    {
        proof {
            use_type_invariant(self);
            lemma_ascending_distinct(lines(self.entries@));
            lemma_listing_of(lines(self.entries@));
        }
        self.entries.len()
    }

    fn find(&self, key: &Vec<String>) -> (r: Option<usize>)
        ensures
            match r {
                Some(i) => i < self.entries@.len() && lines(self.entries@)[i as int].0 == texts(
                    key@,
                ) && listing_index(lines(self.entries@), texts(key@)) == i,
                None => !listing_holds(lines(self.entries@), texts(key@)),
            },
    {
        proof {
            use_type_invariant(self);
            lemma_ascending_distinct(lines(self.entries@));
        }
        let mut i: usize = 0;
        while i < self.entries.len()
            invariant
                i <= self.entries@.len(),
                distinct_keys(lines(self.entries@)),
                forall|j: int| 0 <= j < i ==> (#[trigger] lines(self.entries@)[j]).0 != texts(key@),
            decreases self.entries@.len() - i,
        {
            if same_texts(&self.entries[i].participants, key) {
                proof {
                    let l = lines(self.entries@);
                    assert(l[i as int].0 == texts(key@));
                    assert(listing_holds(l, texts(key@)));
                    let j = listing_index(l, texts(key@));
                    assert(l[j].0 == l[i as int].0);
                }
                return Some(i);
            }
            i += 1;
        }
        None
    }

    /// The identifier bound to `key`, if any.
    pub fn get(&self, key: &Vec<String>) -> (r: Option<ConversationId>)
        ensures
            r == (if self@.contains_key(texts(key@)) {
                Some(self@[texts(key@)])
            } else {
                None
            }),
    {
        match self.find(key) {
            Some(i) => Some(self.entries[i].conversation_id),
            None => None,
        }
    }

    /// Binds `key` to `id`, in place of what it was bound to.
    pub fn insert(&mut self, key: Vec<String>, id: ConversationId)
        ensures
            final(self).listing() == listing_put(old(self).listing(), texts(key@), id),
            final(self)@ == old(self)@.insert(texts(key@), id),
    {
        proof {
            use_type_invariant(&*self);
            lemma_ascending_distinct(lines(self.entries@));
            lemma_listing_put(lines(self.entries@), texts(key@), id);
            lemma_listing_put_ascending(lines(self.entries@), texts(key@), id);
        }
        let found = self.find(&key);
        let at = match found {
            Some(i) => i,
            None => self.rank(&key),
        };
        let ghost before = lines(self.entries@);
        let ghost k = texts(key@);
        let mut entries: Vec<RcEntry> = Vec::new();
        proof {
            assert(lines(entries@) =~= Seq::<(Seq<Seq<char>>, ConversationId)>::empty());
        }
        core::mem::swap(&mut self.entries, &mut entries);
        let entry = RcEntry { participants: key, conversation_id: id };
        match found {
            Some(i) => {
                entries.set(at, entry);
                proof {
                    assert(lines(entries@) =~= before.update(at as int, (k, id)));
                }
            },
            None => {
                entries.insert(at, entry);
                proof {
                    assert(lines(entries@) =~= before.insert(at as int, (k, id)));
                }
            },
        }
        core::mem::swap(&mut self.entries, &mut entries);
    }

    /// The number of lines whose key comes before `key`.
    fn rank(&self, key: &Vec<String>) -> (p: usize)
        ensures
            p == listing_rank(lines(self.entries@), texts(key@), 0),
            p <= self.entries@.len(),
    {
        let mut p: usize = 0;
        while p < self.entries.len() && list_before(&self.entries[p].participants, key)
            invariant
                p <= self.entries@.len(),
                listing_rank(lines(self.entries@), texts(key@), 0) == listing_rank(
                    lines(self.entries@),
                    texts(key@),
                    p as int,
                ),
            decreases self.entries@.len() - p,
        {
            p += 1;
        }
        p
    }

    /// The entries as they are written: in ascending order of their keys,
    /// which is the one way to write the mapping, and such that reading
    /// them yields the lines again.
    pub fn to_wire(&self) -> (w: Vec<(Vec<String>, String)>)
        ensures
            wire_view(w@) == wire_of(self.listing()),
            self.listing() == listing_of(self@),
            listing_of_wire(wire_view(w@)) == Some(self.listing()),
    {
        proof {
            use_type_invariant(self);
            lemma_listing_of(lines(self.entries@));
        }
        let mut w: Vec<(Vec<String>, String)> = Vec::new();
        let mut i: usize = 0;
        while i < self.entries.len()
            invariant
                i <= self.entries@.len(),
                w@.len() == i,
                forall|j: int|
                    0 <= j < i ==> (#[trigger] wire_view(w@)[j]) == wire_of(
                        lines(self.entries@),
                    )[j],
                forall|j: int|
                    0 <= j < i ==> uuid_value((#[trigger] wire_view(w@)[j]).1) == Some(
                        lines(self.entries@)[j].1.0,
                    ),
            decreases self.entries@.len() - i,
        {
            let ghost prev = w@;
            let e = &self.entries[i];
            w.push((clone_texts(&e.participants), e.conversation_id.to_text()));
            proof {
                assert forall|j: int| 0 <= j < i + 1 implies (#[trigger] wire_view(w@)[j])
                    == wire_of(lines(self.entries@))[j] && uuid_value(wire_view(w@)[j].1) == Some(
                    lines(self.entries@)[j].1.0,
                ) by {
                    if j < i {
                        assert(w@[j] == prev[j]);
                        assert(wire_view(prev)[j] == wire_of(lines(self.entries@))[j]);
                        assert(uuid_value(wire_view(prev)[j].1) == Some(
                            lines(self.entries@)[j].1.0,
                        ));
                    }
                }
            }
            i += 1;
        }
        proof {
            assert(wire_view(w@) =~= wire_of(lines(self.entries@)));
            lemma_read_back(lines(self.entries@), wire_view(w@));
        }
        w
    }

    /// The directory that written entries stand for. Fails with
    /// `MalformedBmail` where the text of an identifier is no UUID.
    pub fn from_wire(entries: &Vec<(Vec<String>, String)>) -> (r: Result<RcMap, BmailError>)
        ensures
            match (r, listing_of_wire(wire_view(entries@))) {
                (Ok(map), Some(l)) => map.listing() == l,
                (Err(e), None) => e == BmailError::MalformedBmail,
                _ => false,
            },
    {
        let mut map = RcMap::new();
        let mut i: usize = 0;
        let ghost w = wire_view(entries@);
        assert(w.subrange(0, 0) =~= Seq::<(Seq<Seq<char>>, Seq<char>)>::empty());
        while i < entries.len()
            invariant
                i <= entries@.len(),
                w == wire_view(entries@),
                listing_of_wire(w.subrange(0, i as int)) == Some(map.listing()),
            decreases entries@.len() - i,
        {
            let ghost next = w.subrange(0, i + 1);
            proof {
                assert(next.drop_last() =~= w.subrange(0, i as int));
                assert(next.last() == w[i as int]);
            }
            match ConversationId::parse_str(entries[i].1.as_str()) {
                Ok(id) => {
                    map.insert(clone_texts(&entries[i].0), id);
                },
                Err(_) => {
                    proof {
                        lemma_listing_of_wire_fails(w, i + 1);
                    }
                    return Err(BmailError::MalformedBmail);
                },
            }
            i += 1;
        }
        assert(w.subrange(0, i as int) =~= w);
        Ok(map)
    }
}

proof fn lemma_listing_of_wire_fails(w: Seq<(Seq<Seq<char>>, Seq<char>)>, n: int)
    requires
        0 <= n <= w.len(),
        listing_of_wire(w.subrange(0, n)).is_none(),
    ensures
        listing_of_wire(w).is_none(),
    decreases w.len() - n,
{
    if n < w.len() {
        assert(w.subrange(0, n + 1).drop_last() =~= w.subrange(0, n));
        lemma_listing_of_wire_fails(w, n + 1);
    } else {
        assert(w.subrange(0, n) =~= w);
    }
}

} // verus!
