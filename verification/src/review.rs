//! Review mode: one exercise per subject due for review, weakest first.
use vstd::prelude::*;

use crate::exam::last_with_id;
use crate::models::Exercise;
use crate::text::str_eq;

verus! {

/// What the review order needs of a subject's progress.
#[derive(Debug, Clone)]
pub struct ReviewState {
    /// Subject name.
    pub name: String,
    /// Rank of the subject's mastery score (lower mastery, lower rank).
    pub rank: u64,
    /// Unix time of the next planned review, if any.
    pub next_review_at: Option<i64>,
}

/// The exercise of a subject with the lowest success rate.
#[derive(Debug, Clone)]
pub struct WeakestExercise {
    /// Subject name.
    pub subject: String,
    /// Identifier of the exercise.
    pub exercise_id: String,
}

/// The weakest exercise recorded for `subject` among the first `n` entries
/// (the first entry for it).
pub open spec fn weakest_in(weakest: Seq<WeakestExercise>, subject: Seq<char>, n: int) -> Option<Seq<char>>
    decreases n,
{
    if n <= 0 {
        None
    } else {
        let prev = weakest_in(weakest, subject, n - 1);
        if prev is None && weakest[n - 1].subject@ == subject {
            Some(weakest[n - 1].exercise_id@)
        } else {
            prev
        }
    }
}

/// Position of the first of the first `n` exercises of `subject`.
pub open spec fn first_of_subject(exs: Seq<Exercise>, subject: Seq<char>, n: int) -> Option<int>
    decreases n,
{
    if n <= 0 {
        None
    } else {
        let prev = first_of_subject(exs, subject, n - 1);
        if prev is None && exs[n - 1].subject@ == subject {
            Some(n - 1)
        } else {
            prev
        }
    }
}

/// The exercise reviewed for `subject`: its weakest exercise where that one
/// is known, else the first exercise of the subject.
pub open spec fn review_choice(exs: Seq<Exercise>, weakest: Seq<WeakestExercise>, subject: Seq<char>) -> Option<int> {
    let w = weakest_in(weakest, subject, weakest.len() as int);
    if w is Some && last_with_id(exs, w->0, exs.len() as int) is Some {
        last_with_id(exs, w->0, exs.len() as int)
    } else {
        first_of_subject(exs, subject, exs.len() as int)
    }
}

/// Positions of the exercises chosen for the first `n` due subjects, in the
/// order of the subjects; subjects without exercises are skipped.
pub open spec fn chosen_upto(exs: Seq<Exercise>, weakest: Seq<WeakestExercise>, due: Seq<String>, n: int) -> Seq<usize>
    decreases n,
{
    if n <= 0 {
        seq![]
    } else {
        let prev = chosen_upto(exs, weakest, due, n - 1);
        match review_choice(exs, weakest, due[n - 1]@) {
            Some(i) => prev.push(i as usize),
            None => prev,
        }
    }
}

/// The state recorded for `name` among the first `n` entries (the last
/// entry for it wins).
pub open spec fn state_in(states: Seq<ReviewState>, name: Seq<char>, n: int) -> Option<ReviewState>
    decreases n,
{
    if n <= 0 {
        None
    } else if states[n - 1].name@ == name {
        Some(states[n - 1])
    } else {
        state_in(states, name, n - 1)
    }
}

/// Review key of a subject: mastery rank (`default_rank` without progress),
/// then next review time (never-planned reviews last).
pub open spec fn review_key(states: Seq<ReviewState>, name: Seq<char>, default_rank: u64) -> (u64, i64) {
    match state_in(states, name, states.len() as int) {
        Some(st) => (st.rank, match st.next_review_at { Some(t) => t, None => i64::MAX }),
        None => (default_rank, i64::MAX),
    }
}

/// Review keys of all exercises, by position.
pub open spec fn review_keys(exs: Seq<Exercise>, states: Seq<ReviewState>, default_rank: u64) -> Seq<(u64, i64)> {
    Seq::new(exs.len(), |i: int| review_key(states, exs[i].subject@, default_rank))
}

/// `a` sorts strictly after `b`.
pub open spec fn rkey_gt(a: (u64, i64), b: (u64, i64)) -> bool {
    a.0 > b.0 || (a.0 == b.0 && a.1 > b.1)
}

/// First position of `s` whose key sorts strictly after `k`, or `s.len()`.
pub open spec fn rfirst_gt(s: Seq<usize>, keys: Seq<(u64, i64)>, k: (u64, i64)) -> int
    decreases s.len(),
{
    if s.len() == 0 {
        0
    } else if rkey_gt(keys[s[0] as int], k) {
        0
    } else {
        1 + rfirst_gt(s.drop_first(), keys, k)
    }
}

/// `s` stably sorted by `keys`: each element is placed after every element
/// already placed whose key is not greater.
pub open spec fn rstable_sort(s: Seq<usize>, keys: Seq<(u64, i64)>) -> Seq<usize>
    decreases s.len(),
{
    if s.len() == 0 {
        s
    } else {
        let r = rstable_sort(s.drop_last(), keys);
        r.insert(rfirst_gt(r, keys, keys[s.last() as int]), s.last())
    }
}

/// Positions of the exercises to review, in review order.
pub open spec fn review_order(exs: Seq<Exercise>, due: Seq<String>, weakest: Seq<WeakestExercise>, states: Seq<ReviewState>, default_rank: u64) -> Seq<usize> {
    rstable_sort(chosen_upto(exs, weakest, due, due.len() as int), review_keys(exs, states, default_rank))
}

proof fn lemma_rfirst_gt_is(s: Seq<usize>, keys: Seq<(u64, i64)>, k: (u64, i64), p: int)
    requires
        0 <= p <= s.len(),
        forall|j: int| 0 <= j < p ==> !rkey_gt(keys[s[j] as int], k),
        p < s.len() ==> rkey_gt(keys[s[p] as int], k),
    ensures
        rfirst_gt(s, keys, k) == p,
    decreases p,
{
    if p > 0 {
        assert forall|j: int| 0 <= j < p - 1 implies !rkey_gt(keys[s.drop_first()[j] as int], k) by {
            assert(s.drop_first()[j] == s[j + 1]);
        }
        lemma_rfirst_gt_is(s.drop_first(), keys, k, p - 1);
    }
}

/// `idx` stably sorted by `keys`.
fn sort_by_review_key(idx: &Vec<usize>, keys: &Vec<(u64, i64)>) -> (res: Vec<usize>)
    requires
        forall|j: int| 0 <= j < idx@.len() ==> (#[trigger] idx@[j]) < keys@.len(),
    ensures
        res@ == rstable_sort(idx@, keys@),
        forall|j: int| 0 <= j < res@.len() ==> (#[trigger] res@[j]) < keys@.len(),
{
    let mut r: Vec<usize> = Vec::new();
    let mut i: usize = 0;
    proof {
        assert(idx@.subrange(0, 0) =~= Seq::<usize>::empty());
    }
    while i < idx.len()
        invariant
            i <= idx.len(),
            forall|j: int| 0 <= j < idx@.len() ==> (#[trigger] idx@[j]) < keys@.len(),
            r@ == rstable_sort(idx@.subrange(0, i as int), keys@),
            forall|j: int| 0 <= j < r@.len() ==> (#[trigger] r@[j]) < keys@.len(),
        decreases idx.len() - i,
    {
        let x = idx[i];
        let k = keys[x];
        let mut p: usize = 0;
        while p < r.len() && !(keys[r[p]].0 > k.0 || (keys[r[p]].0 == k.0 && keys[r[p]].1 > k.1))
            invariant
                p <= r.len(),
                forall|j: int| 0 <= j < r@.len() ==> (#[trigger] r@[j]) < keys@.len(),
                forall|j: int| 0 <= j < p ==> !rkey_gt(keys@[r@[j] as int], k),
            decreases r.len() - p,
        {
            p = p + 1;
        }
        let ghost old_r = r@;
        proof {
            lemma_rfirst_gt_is(old_r, keys@, k, p as int);
            let pre = idx@.subrange(0, i + 1);
            assert(pre.drop_last() =~= idx@.subrange(0, i as int));
            assert(pre.last() == x);
        }
        r.insert(p, x);
        proof {
            old_r.insert_ensures(p as int, x);
            assert forall|j: int| 0 <= j < r@.len() implies (#[trigger] r@[j]) < keys@.len() by {
                if j < p {
                    assert(r@[j] == old_r[j]);
                } else if j > p {
                    assert(r@[j] == old_r[j - 1]);
                }
            }
        }
        i = i + 1;
    }
    proof {
        assert(idx@.subrange(0, idx@.len() as int) =~= idx@);
    }
    r
}

/// The weakest exercise recorded for `subject`, if any.
fn weakest_for<'a>(weakest: &'a Vec<WeakestExercise>, subject: &str) -> (r: Option<&'a String>)
    ensures
        r matches Some(id) ==> weakest_in(weakest@, subject@, weakest@.len() as int) == Some(id@),
        r is None ==> weakest_in(weakest@, subject@, weakest@.len() as int) is None,
{
    let mut n: usize = 0;
    while n < weakest.len()
        invariant
            n <= weakest@.len(),
            weakest_in(weakest@, subject@, n as int) is None,
        decreases weakest.len() - n,
    {
        if str_eq(weakest[n].subject.as_str(), subject) {
            proof {
                lemma_weakest_stays(weakest@, subject@, n + 1, weakest@.len() as int);
            }
            return Some(&weakest[n].exercise_id);
        }
        n = n + 1;
    }
    None
}

proof fn lemma_weakest_stays(w: Seq<WeakestExercise>, s: Seq<char>, m: int, n: int)
    requires
        0 < m <= n <= w.len(),
        weakest_in(w, s, m) is Some,
    ensures
        weakest_in(w, s, n) == weakest_in(w, s, m),
    decreases n - m,
{
    if n > m {
        lemma_weakest_stays(w, s, m, n - 1);
    }
}

proof fn lemma_first_stays(exs: Seq<Exercise>, s: Seq<char>, m: int, n: int)
    requires
        0 < m <= n <= exs.len(),
        first_of_subject(exs, s, m) is Some,
    ensures
        first_of_subject(exs, s, n) == first_of_subject(exs, s, m),
    decreases n - m,
{
    if n > m {
        lemma_first_stays(exs, s, m, n - 1);
    }
}

/// Position of the first exercise of `subject`.
fn first_exercise_of(exercises: &[Exercise], subject: &str) -> (r: Option<usize>)
    ensures
        r matches Some(i) ==> i < exercises@.len() && first_of_subject(exercises@, subject@, exercises@.len() as int) == Some(i as int),
        r is None ==> first_of_subject(exercises@, subject@, exercises@.len() as int) is None,
{
    let mut n: usize = 0;
    while n < exercises.len()
        invariant
            n <= exercises@.len(),
            first_of_subject(exercises@, subject@, n as int) is None,
        decreases exercises.len() - n,
    {
        if str_eq(exercises[n].subject.as_str(), subject) {
            proof {
                lemma_first_stays(exercises@, subject@, n + 1, exercises@.len() as int);
            }
            return Some(n);
        }
        n = n + 1;
    }
    None
}

/// Position of the last exercise whose identifier is `id`.
fn last_of_id(exercises: &[Exercise], id: &str) -> (r: Option<usize>)
    ensures
        r matches Some(i) ==> i < exercises@.len() && last_with_id(exercises@, id@, exercises@.len() as int) == Some(i as int),
        r is None ==> last_with_id(exercises@, id@, exercises@.len() as int) is None,
{
    let mut n = exercises.len();
    while n > 0
        invariant
            n <= exercises@.len(),
            last_with_id(exercises@, id@, exercises@.len() as int) == last_with_id(exercises@, id@, n as int),
        decreases n,
    {
        if str_eq(exercises[n - 1].id.as_str(), id) {
            return Some(n - 1);
        }
        n = n - 1;
    }
    None
}

/// The review key of `name`.
fn key_of(states: &Vec<ReviewState>, name: &str, default_rank: u64) -> (r: (u64, i64))
    ensures
        r == review_key(states@, name@, default_rank),
{
    let mut n = states.len();
    while n > 0
        invariant
            n <= states@.len(),
            state_in(states@, name@, states@.len() as int) == state_in(states@, name@, n as int),
        decreases n,
    {
        if str_eq(states[n - 1].name.as_str(), name) {
            let t = match states[n - 1].next_review_at {
                Some(t) => t,
                None => i64::MAX,
            };
            return (states[n - 1].rank, t);
        }
        n = n - 1;
    }
    (default_rank, i64::MAX)
}

/// The exercises of a review session: for each subject due for review, its
/// weakest exercise where known (else its first exercise); ordered by
/// mastery rank, then by next review time (never-planned last), the order of
/// the due subjects kept among equals.
pub fn review_queue<'a>(
    exercises: &'a [Exercise],
    due: &Vec<String>,
    weakest: &Vec<WeakestExercise>,
    states: &Vec<ReviewState>,
    default_rank: u64,
) -> (r: Vec<&'a Exercise>)
    ensures
        r@.len() == review_order(exercises@, due@, weakest@, states@, default_rank).len(),
        forall|k: int| 0 <= k < r@.len() ==> *(#[trigger] r@[k]) == exercises@[review_order(exercises@, due@, weakest@, states@, default_rank)[k] as int],
{
    let mut chosen: Vec<usize> = Vec::new();
    let mut n: usize = 0;
    while n < due.len()
        invariant
            n <= due@.len(),
            chosen@ == chosen_upto(exercises@, weakest@, due@, n as int),
            forall|j: int| 0 <= j < chosen@.len() ==> (#[trigger] chosen@[j]) < exercises@.len(),
        decreases due.len() - n,
    {
        let s = due[n].as_str();
        let mut pick: Option<usize> = None;
        match weakest_for(weakest, s) {
            Some(id) => {
                pick = last_of_id(exercises, id.as_str());
            },
            None => {},
        }
        if pick.is_none() {
            pick = first_exercise_of(exercises, s);
        }
        match pick {
            Some(i) => {
                chosen.push(i);
            },
            None => {},
        }
        n = n + 1;
    }
    let mut keys: Vec<(u64, i64)> = Vec::new();
    let mut i: usize = 0;
    while i < exercises.len()
        invariant
            i <= exercises@.len(),
            keys@.len() == i,
            forall|j: int| 0 <= j < i ==> (#[trigger] keys@[j]) == review_key(states@, exercises@[j].subject@, default_rank),
        decreases exercises.len() - i,
    {
        let k = key_of(states, exercises[i].subject.as_str(), default_rank);
        keys.push(k);
        i = i + 1;
    }
    proof {
        assert(keys@ =~= review_keys(exercises@, states@, default_rank));
    }
    let order = sort_by_review_key(&chosen, &keys);
    let mut r: Vec<&'a Exercise> = Vec::new();
    let mut m: usize = 0;
    while m < order.len()
        invariant
            m <= order@.len(),
            order@ == review_order(exercises@, due@, weakest@, states@, default_rank),
            forall|j: int| 0 <= j < order@.len() ==> (#[trigger] order@[j]) < exercises@.len(),
            r@.len() == m,
            forall|k: int| 0 <= k < m ==> *(#[trigger] r@[k]) == exercises@[order@[k] as int],
        decreases order.len() - m,
    {
        r.push(&exercises[order[m]]);
        m = m + 1;
    }
    r
}

/// Keys never decrease along `s`.
pub open spec fn rsorted_by(s: Seq<usize>, keys: Seq<(u64, i64)>) -> bool {
    forall|i: int, j: int| 0 <= i < j < s.len() ==> !rkey_gt(#[trigger] keys[s[i] as int], #[trigger] keys[s[j] as int])
}

proof fn lemma_rfirst_gt_bounds(s: Seq<usize>, keys: Seq<(u64, i64)>, k: (u64, i64))
    ensures
        0 <= rfirst_gt(s, keys, k) <= s.len(),
    decreases s.len(),
{
    if s.len() > 0 && !rkey_gt(keys[s[0] as int], k) {
        lemma_rfirst_gt_bounds(s.drop_first(), keys, k);
    }
}

proof fn lemma_rfirst_gt_facts(s: Seq<usize>, keys: Seq<(u64, i64)>, k: (u64, i64))
    ensures
        forall|j: int| 0 <= j < rfirst_gt(s, keys, k) ==> !rkey_gt(#[trigger] keys[s[j] as int], k),
        rfirst_gt(s, keys, k) < s.len() ==> rkey_gt(keys[s[rfirst_gt(s, keys, k)] as int], k),
    decreases s.len(),
{
    if s.len() > 0 && !rkey_gt(keys[s[0] as int], k) {
        lemma_rfirst_gt_facts(s.drop_first(), keys, k);
        lemma_rfirst_gt_bounds(s, keys, k);
        lemma_rfirst_gt_bounds(s.drop_first(), keys, k);
        let f = rfirst_gt(s.drop_first(), keys, k);
        if f < s.len() - 1 {
            assert(s[f + 1] == s.drop_first()[f]);
        }
        assert forall|j: int| 0 <= j < rfirst_gt(s, keys, k) implies !rkey_gt(#[trigger] keys[s[j] as int], k) by {
            if j > 0 {
                assert(s[j] == s.drop_first()[j - 1]);
            }
        }
    }
}

/// The review order puts weaker subjects first, then earlier reviews: its
/// keys never decrease, and it holds exactly the chosen exercises.
pub proof fn lemma_review_order_sorted(
    exs: Seq<Exercise>,
    due: Seq<String>,
    weakest: Seq<WeakestExercise>,
    states: Seq<ReviewState>,
    default_rank: u64,
)
    ensures
        rsorted_by(review_order(exs, due, weakest, states, default_rank), review_keys(exs, states, default_rank)),
        review_order(exs, due, weakest, states, default_rank).to_multiset()
            == chosen_upto(exs, weakest, due, due.len() as int).to_multiset(),
{
    lemma_rstable_sort_sorted_permutation(chosen_upto(exs, weakest, due, due.len() as int), review_keys(exs, states, default_rank));
}

/// Insertion sort by review key yields a sorted permutation of its input.
pub proof fn lemma_rstable_sort_sorted_permutation(s: Seq<usize>, keys: Seq<(u64, i64)>)
    ensures
        rsorted_by(rstable_sort(s, keys), keys),
        rstable_sort(s, keys).to_multiset() == s.to_multiset(),
        rstable_sort(s, keys).len() == s.len(),
    decreases s.len(),
{
    broadcast use vstd::seq_lib::group_to_multiset_ensures;
    if s.len() > 0 {
        let r = rstable_sort(s.drop_last(), keys);
        lemma_rstable_sort_sorted_permutation(s.drop_last(), keys);
        let x = s.last();
        let k = keys[x as int];
        let p = rfirst_gt(r, keys, k);
        lemma_rfirst_gt_bounds(r, keys, k);
        lemma_rfirst_gt_facts(r, keys, k);
        let r2 = r.insert(p, x);
        r.insert_ensures(p, x);
        assert forall|i: int, j: int| 0 <= i < j < r2.len() implies !rkey_gt(#[trigger] keys[r2[i] as int], #[trigger] keys[r2[j] as int]) by {
            if j < p {
                assert(r2[i] == r[i] && r2[j] == r[j]);
            } else if j == p {
                assert(r2[i] == r[i]);
            } else if i > p {
                assert(r2[i] == r[i - 1] && r2[j] == r[j - 1]);
            } else if i == p {
                assert(r2[j] == r[j - 1]);
                assert(rkey_gt(keys[r[p] as int], k));
                if j - 1 > p {
                    assert(!rkey_gt(keys[r[p] as int], keys[r[j - 1] as int]));
                }
            } else {
                assert(r2[i] == r[i] && r2[j] == r[j - 1]);
            }
        }
        crate::search::lemma_insert_to_multiset(r, p, x);
        assert(s =~= s.drop_last().push(x));
    }
}

} // verus!
