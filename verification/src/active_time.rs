//! High-water marks: for each participant, the latest timestamp seen.

use crate::message::Timestamp;
use crate::text::text_same;
use vstd::prelude::*;

verus! {

/// One participant's mark.
pub struct Mark {
    pub did: String,
    pub latest: Timestamp,
}

/// The latest timestamp seen from each participant.
pub struct ActiveTimes {
    marks: Vec<Mark>,
}

/// The later of a mark and a timestamp.
pub open spec fn later_of(mark: Option<Timestamp>, t: Timestamp) -> Timestamp {
    match mark {
        Some(m) => if m.earlier_than(t) {
            t
        } else {
            m
        },
        None => t,
    }
}

spec fn marked(s: Seq<Mark>, did: Seq<char>) -> bool {
    exists|i: int| 0 <= i < s.len() && (#[trigger] s[i]).did@ == did
}

spec fn mark_index(s: Seq<Mark>, did: Seq<char>) -> int {
    choose|i: int| 0 <= i < s.len() && (#[trigger] s[i]).did@ == did
}

spec fn distinct(s: Seq<Mark>) -> bool {
    forall|i: int, j: int|
        0 <= i < s.len() && 0 <= j < s.len() && (#[trigger] s[i]).did@ == (#[trigger] s[j]).did@
            ==> i == j
}

spec fn marks_map(s: Seq<Mark>) -> Map<Seq<char>, Timestamp> {
    Map::new(|d: Seq<char>| marked(s, d), |d: Seq<char>| s[mark_index(s, d)].latest)
}

impl View for ActiveTimes {
    type V = Map<Seq<char>, Timestamp>;

    closed spec fn view(&self) -> Map<Seq<char>, Timestamp> {
        marks_map(self.marks@)
    }
}

impl ActiveTimes {
    #[verifier::type_invariant]
    spec fn well_formed(self) -> bool {
        distinct(self.marks@)
    }

    /// The mark of `did`, if it has one.
    pub open spec fn mark_of(&self, did: Seq<char>) -> Option<Timestamp> {
        if self@.contains_key(did) {
            Some(self@[did])
        } else {
            None
        }
    }

    /// No marks.
    pub fn new() -> (times: ActiveTimes)
        ensures
            times@ == Map::<Seq<char>, Timestamp>::empty(),
    {
        let times = ActiveTimes { marks: Vec::new() };
        assert(marks_map(times.marks@) =~= Map::<Seq<char>, Timestamp>::empty());
        times
    }

    fn find(&self, did: &str) -> (r: Option<usize>)
        ensures
            match r {
                Some(i) => i < self.marks@.len() && self.marks@[i as int].did@ == did@
                    && mark_index(self.marks@, did@) == i,
                None => !marked(self.marks@, did@),
            },
    {
        proof {
            use_type_invariant(self);
        }
        let mut i: usize = 0;
        while i < self.marks.len()
            invariant
                i <= self.marks@.len(),
                distinct(self.marks@),
                forall|j: int| 0 <= j < i ==> (#[trigger] self.marks@[j]).did@ != did@,
            decreases self.marks@.len() - i,
        {
            if text_same(self.marks[i].did.as_str(), did) {
                proof {
                    assert(marked(self.marks@, did@));
                    let j = mark_index(self.marks@, did@);
                    assert(self.marks@[j].did@ == self.marks@[i as int].did@);
                }
                return Some(i);
            }
            i += 1;
        }
        None
    }

    /// The latest timestamp seen from `did`, if any was.
    pub fn get(&self, did: &str) -> (r: Option<Timestamp>)
        ensures
            r == self.mark_of(did@),
    {
        match self.find(did) {
            Some(i) => Some(self.marks[i].latest),
            None => None,
        }
    }

    /// Records that `t` was seen from `did`: the mark moves to `t` unless it
    /// is later already.
    pub fn advance(&mut self, did: &str, t: Timestamp)
        ensures
            final(self)@ == old(self)@.insert(did@, later_of(old(self).mark_of(did@), t)),
    {
        proof {
            use_type_invariant(&*self);
        }
        let found = self.find(did);
        let ghost before = self.marks@;
        let ghost target = later_of(self.mark_of(did@), t);
        let mut marks: Vec<Mark> = Vec::new();
        proof {
            assert(distinct(marks@));
        }
        core::mem::swap(&mut self.marks, &mut marks);
        match found {
            Some(i) => {
                let latest = if marks[i].latest.before(&t) {
                    t
                } else {
                    marks[i].latest
                };
                marks.set(i, Mark { did: did.to_owned(), latest });
            },
            None => {
                marks.push(Mark { did: did.to_owned(), latest: t });
            },
        }
        proof {
            let after = marks@;
            assert forall|i: int, j: int|
                0 <= i < after.len() && 0 <= j < after.len() && (#[trigger] after[i]).did@ == (
                #[trigger] after[j]).did@ implies i == j by {
                if i < before.len() && j < before.len() {
                    assert(before[i].did@ == after[i].did@);
                    assert(before[j].did@ == after[j].did@);
                } else if i < before.len() {
                    assert(before[i].did@ == did@);
                } else if j < before.len() {
                    assert(before[j].did@ == did@);
                }
            }
            assert forall|d: Seq<char>| marked(after, d) <==> marked(before, d) || d == did@ by {
                if marked(after, d) {
                    let i = mark_index(after, d);
                    if i < before.len() {
                        assert(before[i].did@ == after[i].did@ || d == did@);
                    }
                }
                if marked(before, d) {
                    let i = mark_index(before, d);
                    assert(after[i].did@ == d);
                }
                if d == did@ {
                    match found {
                        Some(i) => {
                            assert(after[i as int].did@ == d);
                        },
                        None => {
                            assert(after[before.len() as int].did@ == d);
                        },
                    }
                }
            }
            assert forall|d: Seq<char>| marked(after, d) implies marks_map(after)[d] == marks_map(
                before,
            ).insert(did@, target)[d] by {
                let i = mark_index(after, d);
                if d == did@ {
                    match found {
                        Some(p) => {
                            assert(after[p as int].did@ == d);
                        },
                        None => {
                            assert(after[before.len() as int].did@ == d);
                        },
                    }
                } else {
                    assert(i < before.len());
                    assert(before[i].did@ == d);
                    let j = mark_index(before, d);
                    assert(after[j].did@ == d);
                }
            }
            assert(marks_map(after) =~= marks_map(before).insert(did@, target));
        }
        core::mem::swap(&mut self.marks, &mut marks);
    }
}

} // verus!
