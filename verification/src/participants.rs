//! The canonical form of a set of participants.
//!
//! A conversation is named by the identifiers of those who take part in it,
//! in ascending order and without repetition. Two lists of participants name
//! the same conversation exactly when their canonical forms are equal.

use crate::text::{
    lemma_text_lt_asymmetric, lemma_text_lt_irreflexive, lemma_text_lt_total,
    lemma_text_lt_transitive, strictly_sorted, text_before, text_lt, text_same, texts,
};
use vstd::prelude::*;

verus! {

/// `a` and `b` hold the same identifiers, in whatever order and number.
pub open spec fn same_members(a: Seq<Seq<char>>, b: Seq<Seq<char>>) -> bool {
    forall|x: Seq<char>| a.contains(x) <==> b.contains(x)
}

/// `key` is the canonical form of the participants `peers` together with
/// `local`: ascending, free of repetition, and with exactly those members.
pub open spec fn is_canonical_for(
    key: Seq<Seq<char>>,
    peers: Seq<Seq<char>>,
    local: Seq<char>,
) -> bool {
    &&& strictly_sorted(key)
    &&& forall|x: Seq<char>| key.contains(x) <==> (peers.contains(x) || x == local)
}

proof fn lemma_tail_sorted(a: Seq<Seq<char>>)
    requires
        strictly_sorted(a),
        a.len() > 0,
    ensures
        strictly_sorted(a.skip(1)),
        !a.skip(1).contains(a[0]),
        forall|x: Seq<char>| a.contains(x) <==> (x == a[0] || a.skip(1).contains(x)),
{
    let t = a.skip(1);
    assert forall|i: int, j: int| 0 <= i < j < t.len() implies text_lt(
        #[trigger] t[i],
        #[trigger] t[j],
    ) by {
        assert(text_lt(a[i + 1], a[j + 1]));
    }
    if t.contains(a[0]) {
        let j = choose|j: int| 0 <= j < t.len() && t[j] == a[0];
        assert(text_lt(a[0], a[j + 1]));
        lemma_text_lt_irreflexive(a[0]);
    }
    assert forall|x: Seq<char>| a.contains(x) <==> (x == a[0] || t.contains(x)) by {
        if a.contains(x) {
            let j = choose|j: int| 0 <= j < a.len() && a[j] == x;
            if j > 0 {
                assert(t[j - 1] == x);
            }
        }
        if t.contains(x) {
            let j = choose|j: int| 0 <= j < t.len() && t[j] == x;
            assert(a[j + 1] == x);
        }
        if x == a[0] {
            assert(a[0] == x);
        }
    }
}

proof fn lemma_first_is_least(a: Seq<Seq<char>>, x: Seq<char>)
    requires
        strictly_sorted(a),
        a.contains(x),
    ensures
        x == a[0] || text_lt(a[0], x),
{
    let j = choose|j: int| 0 <= j < a.len() && a[j] == x;
    if j > 0 {
        assert(text_lt(a[0], a[j]));
    }
}

/// A set of participants has one canonical form: ascending lists without
/// repetition that hold the same identifiers are equal.
pub proof fn lemma_canonical_unique(a: Seq<Seq<char>>, b: Seq<Seq<char>>)
    requires
        strictly_sorted(a),
        strictly_sorted(b),
        same_members(a, b),
    ensures
        a == b,
    decreases a.len(),
{
    if a.len() == 0 {
        if b.len() > 0 {
            assert(b.contains(b[0]));
            assert(a.contains(b[0]));
        }
        assert(a =~= b);
    } else {
        assert(a.contains(a[0]));
        assert(b.contains(a[0]));
        assert(b.contains(b[0]));
        assert(a.contains(b[0]));
        lemma_first_is_least(a, b[0]);
        lemma_first_is_least(b, a[0]);
        if a[0] != b[0] {
            lemma_text_lt_asymmetric(a[0], b[0]);
        }
        lemma_tail_sorted(a);
        lemma_tail_sorted(b);
        assert forall|x: Seq<char>| a.skip(1).contains(x) <==> b.skip(1).contains(x) by {
            assert(a.contains(x) <==> b.contains(x));
            assert(a.contains(x) <==> (x == a[0] || a.skip(1).contains(x)));
            assert(b.contains(x) <==> (x == b[0] || b.skip(1).contains(x)));
        }
        lemma_canonical_unique(a.skip(1), b.skip(1));
        assert(a =~= seq![a[0]] + a.skip(1));
        assert(b =~= seq![b[0]] + b.skip(1));
    }
}

/// The canonical form does not depend on the order or number in which the
/// participants were given.
pub proof fn lemma_canonical_ignores_order(
    peers1: Seq<Seq<char>>,
    peers2: Seq<Seq<char>>,
    local: Seq<char>,
    key1: Seq<Seq<char>>,
    key2: Seq<Seq<char>>,
)
    requires
        same_members(peers1, peers2),
        is_canonical_for(key1, peers1, local),
        is_canonical_for(key2, peers2, local),
    ensures
        key1 == key2,
{
    assert forall|x: Seq<char>| key1.contains(x) <==> key2.contains(x) by {
        assert(peers1.contains(x) <==> peers2.contains(x));
    }
    lemma_canonical_unique(key1, key2);
}

/// Puts `x` into the ascending list `list`, unless it is there already.
pub fn insert_participant(list: &mut Vec<String>, x: String)
    requires
        strictly_sorted(texts(old(list)@)),
    ensures
        strictly_sorted(texts(final(list)@)),
        forall|y: Seq<char>|
            texts(final(list)@).contains(y) <==> (texts(old(list)@).contains(y) || y == x@),
{
    let ghost before = texts(list@);
    let mut p: usize = 0;
    while p < list.len() && text_before(list[p].as_str(), x.as_str())
        invariant
            p <= list.len(),
            *list == *old(list),
            before == texts(list@),
            strictly_sorted(before),
            forall|j: int| 0 <= j < p ==> text_lt(#[trigger] before[j], x@),
        decreases list.len() - p,
    {
        p += 1;
    }
    if p < list.len() && text_same(list[p].as_str(), x.as_str()) {
        proof {
            assert(before[p as int] == x@);
            assert(before.contains(x@));
        }
        return ;
    }
    proof {
        assert forall|j: int| p <= j < before.len() implies text_lt(x@, #[trigger] before[j]) by {
            assert(!text_lt(before[p as int], x@));
            if !text_lt(x@, before[p as int]) {
                lemma_text_lt_total(x@, before[p as int]);
            }
            if j > p {
                assert(text_lt(before[p as int], before[j]));
                lemma_text_lt_transitive(x@, before[p as int], before[j]);
            }
        }
    }
    list.insert(p, x);
    proof {
        let after = texts(list@);
        assert(after =~= before.insert(p as int, x@));
        assert forall|i: int, j: int| 0 <= i < j < after.len() implies text_lt(
            #[trigger] after[i],
            #[trigger] after[j],
        ) by {
            let a = if i < p { i } else { i - 1 };
            let b = if j < p { j } else { j - 1 };
            if i != p && j != p {
                assert(text_lt(before[a], before[b]));
            } else if i == p {
                assert(text_lt(x@, before[b]));
            } else {
                assert(text_lt(before[a], x@));
            }
        }
        assert forall|y: Seq<char>| after.contains(y) <==> (before.contains(y) || y == x@) by {
            if after.contains(y) {
                let i = choose|i: int| 0 <= i < after.len() && after[i] == y;
                if i < p {
                    assert(before[i] == y);
                } else if i > p {
                    assert(before[i - 1] == y);
                }
            }
            if before.contains(y) {
                let i = choose|i: int| 0 <= i < before.len() && before[i] == y;
                if i < p {
                    assert(after[i] == y);
                } else {
                    assert(after[i + 1] == y);
                }
            }
            if y == x@ {
                assert(after[p as int] == y);
            }
        }
    }
}

/// The canonical form of the participants `peers` together with the local
/// account `local`: all of them in ascending order, each once.
pub fn canonical_participants(peers: &Vec<String>, local: &str) -> (key: Vec<String>)
    ensures
        is_canonical_for(texts(key@), texts(peers@), local@),
        texts(key@).contains(local@),
{
    let mut key: Vec<String> = Vec::new();
    let mut i: usize = 0;
    while i < peers.len()
        invariant
            i <= peers.len(),
            strictly_sorted(texts(key@)),
            forall|x: Seq<char>|
                texts(key@).contains(x) <==> texts(peers@).subrange(0, i as int).contains(x),
        decreases peers.len() - i,
    {
        let ghost prev = texts(key@);
        insert_participant(&mut key, peers[i].clone());
        proof {
            let done = texts(peers@).subrange(0, i as int);
            let next = texts(peers@).subrange(0, i + 1);
            assert forall|x: Seq<char>| texts(key@).contains(x) <==> next.contains(x) by {
                if next.contains(x) {
                    let j = choose|j: int| 0 <= j < next.len() && next[j] == x;
                    if j < i {
                        assert(done[j] == x);
                    }
                }
                if done.contains(x) {
                    let j = choose|j: int| 0 <= j < done.len() && done[j] == x;
                    assert(next[j] == x);
                }
                if x == peers@[i as int]@ {
                    assert(next[i as int] == x);
                }
            }
        }
        i += 1;
    }
    assert(texts(peers@).subrange(0, i as int) =~= texts(peers@));
    insert_participant(&mut key, local.to_owned());
    key
}

/// Whether `list` is in canonical form.
pub fn is_canonical(list: &Vec<String>) -> (b: bool)
    ensures
        b == strictly_sorted(texts(list@)),
{
    let mut i: usize = 1;
    while i < list.len()
        invariant
            1 <= i,
            forall|a: int, b: int|
                0 <= a < b < i && b < list.len() ==> text_lt(
                    #[trigger] texts(list@)[a],
                    #[trigger] texts(list@)[b],
                ),
        decreases list.len() - i,
    {
        if !text_before(list[i - 1].as_str(), list[i].as_str()) {
            assert(!text_lt(texts(list@)[i - 1], texts(list@)[i as int]));
            return false;
        }
        proof {
            let s = texts(list@);
            assert forall|a: int, b: int| 0 <= a < b < i + 1 && b < list.len() implies text_lt(
                #[trigger] s[a],
                #[trigger] s[b],
            ) by {
                if b == i && a < i - 1 {
                    assert(text_lt(s[a], s[i - 1]));
                    lemma_text_lt_transitive(s[a], s[i - 1], s[i as int]);
                }
            }
        }
        i += 1;
    }
    true
}

} // verus!
