//! Lookups over the loaded exercise set.
use vstd::prelude::*;

use crate::models::Exercise;
use crate::text::str_eq;

verus! {

/// The exercises of one subject: their positions in the exercise list.
#[derive(Debug)]
pub struct SubjectIndex {
    /// Subject name.
    pub subject: String,
    /// Positions of the subject's exercises, in increasing order.
    pub positions: Vec<usize>,
}

/// Positions `i < n` of the exercises whose subject is `s`, in increasing order.
pub open spec fn positions_of(exs: Seq<Exercise>, s: Seq<char>, n: int) -> Seq<usize>
    decreases n,
{
    if n <= 0 {
        seq![]
    } else if exs[n - 1].subject@ == s {
        positions_of(exs, s, n - 1).push((n - 1) as usize)
    } else {
        positions_of(exs, s, n - 1)
    }
}

/// `idx` indexes the first `n` exercises by subject: one entry per subject,
/// each listing exactly the positions of that subject's exercises.
pub open spec fn indexes_upto(idx: Seq<SubjectIndex>, exs: Seq<Exercise>, n: int) -> bool {
    &&& forall|a: int, b: int| 0 <= a < b < idx.len() ==> (#[trigger] idx[a]).subject@ != (#[trigger] idx[b]).subject@
    &&& forall|k: int| 0 <= k < idx.len() ==> (#[trigger] idx[k]).positions@ == positions_of(exs, idx[k].subject@, n)
    &&& forall|i: int| 0 <= i < n ==> exists|k: int| 0 <= k < idx.len() && (#[trigger] idx[k]).subject@ == (#[trigger] exs[i]).subject@
}

/// Some name of `names` is `s`.
pub open spec fn listed(names: Seq<String>, s: Seq<char>) -> bool {
    exists|m: int| 0 <= m < names.len() && (#[trigger] names[m])@ == s
}

/// The exercise whose identifier is `id` (the first one, should two share it).
pub fn find_exercise<'a>(exercises: &'a [Exercise], id: &str) -> (r: Option<&'a Exercise>)
    ensures
        r is None <==> forall|i: int| 0 <= i < exercises@.len() ==> (#[trigger] exercises@[i]).id@ != id@,
        r matches Some(e) ==> exists|i: int|
            0 <= i < exercises@.len() && *e == exercises@[i] && e.id@ == id@ && forall|j: int|
                0 <= j < i ==> (#[trigger] exercises@[j]).id@ != id@,
{
    let mut i: usize = 0;
    while i < exercises.len()
        invariant
            i <= exercises@.len(),
            forall|j: int| 0 <= j < i ==> (#[trigger] exercises@[j]).id@ != id@,
        decreases exercises.len() - i,
    {
        if str_eq(exercises[i].id.as_str(), id) {
            return Some(&exercises[i]);
        }
        i = i + 1;
    }
    None
}

/// Position of the entry for `subject` among `subjects`, if any.
fn entry_of(subjects: &Vec<String>, subject: &str) -> (r: Option<usize>)
    ensures
        r matches Some(k) ==> k < subjects@.len() && subjects@[k as int]@ == subject@,
        r is None ==> forall|k: int| 0 <= k < subjects@.len() ==> (#[trigger] subjects@[k])@ != subject@,
{
    let mut k: usize = 0;
    while k < subjects.len()
        invariant
            k <= subjects@.len(),
            forall|j: int| 0 <= j < k ==> (#[trigger] subjects@[j])@ != subject@,
        decreases subjects.len() - k,
    {
        if str_eq(subjects[k].as_str(), subject) {
            return Some(k);
        }
        k = k + 1;
    }
    None
}

/// Groups the positions of the exercises by subject: one entry per subject
/// (in order of first appearance), listing its exercises' positions in order.
pub fn build_subject_index(exercises: &[Exercise]) -> (r: Vec<SubjectIndex>)
    ensures
        indexes_upto(r@, exercises@, exercises@.len() as int),
{
    let mut subjects: Vec<String> = Vec::new();
    let mut positions: Vec<Vec<usize>> = Vec::new();
    let mut i: usize = 0;
    while i < exercises.len()
        invariant
            i <= exercises@.len(),
            subjects@.len() == positions@.len(),
            forall|a: int, b: int| 0 <= a < b < subjects@.len() ==> (#[trigger] subjects@[a])@ != (#[trigger] subjects@[b])@,
            forall|k: int| 0 <= k < subjects@.len() ==> (#[trigger] positions@[k])@ == positions_of(exercises@, subjects@[k]@, i as int),
            forall|j: int| 0 <= j < i ==> exists|k: int| 0 <= k < subjects@.len() && (#[trigger] subjects@[k])@ == (#[trigger] exercises@[j]).subject@,
        decreases exercises.len() - i,
    {
        let s = exercises[i].subject.as_str();
        let ghost old_subjects = subjects@;
        let ghost old_positions = positions@;
        match entry_of(&subjects, s) {
            Some(k) => {
                let mut ps = positions.remove(k);
                ps.push(i);
                positions.insert(k, ps);
                proof {
                    assert forall|m: int| 0 <= m < subjects@.len() implies (#[trigger] positions@[m])@ == positions_of(exercises@, subjects@[m]@, i + 1) by {
                        if m == k {
                            assert(positions@[m] == ps);
                        } else if m < k {
                            assert(positions@[m] == old_positions[m]);
                        } else {
                            assert(positions@[m] == old_positions[m]);
                        }
                    }
                    assert forall|j: int| 0 <= j < i + 1 implies exists|m: int| 0 <= m < subjects@.len() && (#[trigger] subjects@[m])@ == (#[trigger] exercises@[j]).subject@ by {
                        if j == i {
                            assert(subjects@[k as int]@ == exercises@[j].subject@);
                        }
                    }
                }
            },
            None => {
                let name = String::from_str(s);
                subjects.push(name);
                let mut ps: Vec<usize> = Vec::new();
                ps.push(i);
                positions.push(ps);
                proof {
                    let n = old_subjects.len() as int;
                    assert(positions_of(exercises@, s@, i as int) == Seq::<usize>::empty()) by {
                        assert forall|j: int| 0 <= j < i implies (#[trigger] exercises@[j]).subject@ != s@ by {
                            let m = choose|m: int| 0 <= m < old_subjects.len() && (#[trigger] old_subjects[m])@ == exercises@[j].subject@;
                            assert(old_subjects[m]@ != s@);
                        }
                        lemma_positions_absent(exercises@, s@, i as int);
                    }
                    assert forall|m: int| 0 <= m < subjects@.len() implies (#[trigger] positions@[m])@ == positions_of(exercises@, subjects@[m]@, i + 1) by {
                        if m < n {
                            assert(positions@[m] == old_positions[m]);
                            assert(subjects@[m] == old_subjects[m]);
                        } else {
                            assert(positions@[m]@ =~= seq![i]);
                        }
                    }
                    assert forall|j: int| 0 <= j < i + 1 implies exists|m: int| 0 <= m < subjects@.len() && (#[trigger] subjects@[m])@ == (#[trigger] exercises@[j]).subject@ by {
                        if j == i {
                            assert(subjects@[n]@ == exercises@[j].subject@);
                        } else {
                            let m = choose|m: int| 0 <= m < old_subjects.len() && (#[trigger] old_subjects[m])@ == exercises@[j].subject@;
                            assert(subjects@[m] == old_subjects[m]);
                        }
                    }
                }
            },
        }
        i = i + 1;
    }
    let mut r: Vec<SubjectIndex> = Vec::new();
    let count: usize = subjects.len();
    let ghost all_subjects = subjects@;
    let ghost all_positions = positions@;
    proof {
        assert forall|j: int| 0 <= j < exercises@.len() implies listed(all_subjects, (#[trigger] exercises@[j]).subject@) by {
            let m = choose|m: int| 0 <= m < subjects@.len() && (#[trigger] subjects@[m])@ == exercises@[j].subject@;
            assert(all_subjects[m] == subjects@[m]);
        }
    }
    let mut k: usize = 0;
    while subjects.len() > 0
        invariant
            k + subjects@.len() == all_subjects.len(),
            subjects@.len() == positions@.len(),
            subjects@ == all_subjects.subrange(k as int, all_subjects.len() as int),
            positions@ == all_positions.subrange(k as int, all_positions.len() as int),
            all_subjects.len() == all_positions.len(),
            all_subjects.len() == count,
            forall|a: int, b: int| 0 <= a < b < all_subjects.len() ==> (#[trigger] all_subjects[a])@ != (#[trigger] all_subjects[b])@,
            forall|m: int| 0 <= m < all_subjects.len() ==> (#[trigger] all_positions[m])@ == positions_of(exercises@, all_subjects[m]@, exercises@.len() as int),
            forall|j: int| 0 <= j < exercises@.len() ==> listed(all_subjects, (#[trigger] exercises@[j]).subject@),
            r@.len() == k,
            forall|m: int| 0 <= m < k ==> (#[trigger] r@[m]).subject == all_subjects[m] && r@[m].positions == all_positions[m],
        decreases subjects@.len(),
    {
        let s = subjects.remove(0);
        let ps = positions.remove(0);
        r.push(SubjectIndex { subject: s, positions: ps });
        proof {
            assert(subjects@ =~= all_subjects.subrange(k + 1, all_subjects.len() as int));
            assert(positions@ =~= all_positions.subrange(k + 1, all_positions.len() as int));
        }
        k = k + 1;
    }
    proof {
        assert forall|a: int, b: int| 0 <= a < b < r@.len() implies (#[trigger] r@[a]).subject@ != (#[trigger] r@[b]).subject@ by {
            assert(r@[a].subject == all_subjects[a] && r@[b].subject == all_subjects[b]);
        }
        assert forall|m: int| 0 <= m < r@.len() implies (#[trigger] r@[m]).positions@ == positions_of(exercises@, r@[m].subject@, exercises@.len() as int) by {
            assert(r@[m].subject == all_subjects[m] && r@[m].positions == all_positions[m]);
        }
        assert forall|j: int| 0 <= j < exercises@.len() implies exists|m: int| 0 <= m < r@.len() && (#[trigger] r@[m]).subject@ == (#[trigger] exercises@[j]).subject@ by {
            assert(listed(all_subjects, exercises@[j].subject@));
            let m = choose|m: int| 0 <= m < all_subjects.len() && (#[trigger] all_subjects[m])@ == exercises@[j].subject@;
            assert(r@[m].subject == all_subjects[m]);
        }
    }
    r
}

/// No exercise before `n` has subject `s` when no entry is listed for it.
proof fn lemma_positions_absent(exs: Seq<Exercise>, s: Seq<char>, n: int)
    requires
        forall|j: int| 0 <= j < n ==> (#[trigger] exs[j]).subject@ != s,
    ensures
        positions_of(exs, s, n) == Seq::<usize>::empty(),
    decreases n,
{
    if n > 0 {
        lemma_positions_absent(exs, s, n - 1);
    }
}

/// Whether the solution of an exercise may be shown, given how many times
/// it was attempted: at least once (the count, from the practice log, is
/// never negative).
pub fn solution_unlocked(attempts: i64) -> (r: bool)
    ensures
        r == (attempts != 0),
{
    attempts != 0
}

} // verus!

