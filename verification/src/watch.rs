//! Watch mode: which exercises the learner may practise, in which order.
use vstd::prelude::*;

use crate::chapters::views_of_strings;
use crate::exam::dedup;
use crate::mastery::SECS_PER_DAY;
use crate::models::Exercise;
use crate::text::str_eq;

verus! {

/// The difficulty a subject has unlocked, as stored with its progress.
#[derive(Debug, Clone)]
pub struct UnlockLevel {
    /// Subject name.
    pub name: String,
    /// Highest difficulty level unlocked (1 to 5).
    pub difficulty_unlocked: i32,
}

/// Subjects taught only in the UTC502 course, left out of NSY103-only sessions.
pub open spec fn utc502_only(subject: Seq<char>) -> bool {
    subject == "scheduling"@ || subject == "virtual_memory"@
}

/// The unlocked difficulty of `name` among the first `n` entries (the last
/// entry for it wins), 1 where it has none.
pub open spec fn unlocked_in(levels: Seq<UnlockLevel>, name: Seq<char>, n: int) -> i32
    decreases n,
{
    if n <= 0 {
        1
    } else if levels[n - 1].name@ == name {
        levels[n - 1].difficulty_unlocked
    } else {
        unlocked_in(levels, name, n - 1)
    }
}

/// The lowest difficulty level among the first `n` exercises of `subject`
/// (5 where there is none).
pub open spec fn min_level(exs: Seq<Exercise>, subject: Seq<char>, n: int) -> u8
    decreases n,
{
    if n <= 0 {
        5
    } else {
        let m = min_level(exs, subject, n - 1);
        let l = exs[n - 1].difficulty.level();
        if exs[n - 1].subject@ == subject && l < m {
            l
        } else {
            m
        }
    }
}

/// The exercise is open: its difficulty is at most its subject's unlocked
/// level, or the subject's lowest level (so that no subject is locked out).
pub open spec fn open_exercise(exs: Seq<Exercise>, levels: Seq<UnlockLevel>, e: Exercise) -> bool {
    let unlocked = unlocked_in(levels, e.subject@, levels.len() as int);
    let lowest = min_level(exs, e.subject@, exs.len() as int) as i32;
    e.difficulty.level() as i32 <= if unlocked >= lowest { unlocked } else { lowest }
}

/// Positions of the first `n` exercises that are open and, in an NSY103-only
/// session, not UTC502-only, in order.
pub open spec fn gated_upto(exs: Seq<Exercise>, levels: Seq<UnlockLevel>, nsy103_only: bool, n: int) -> Seq<usize>
    decreases n,
{
    if n <= 0 {
        seq![]
    } else {
        let prev = gated_upto(exs, levels, nsy103_only, n - 1);
        let e = exs[n - 1];
        if open_exercise(exs, levels, e) && !(nsy103_only && utc502_only(e.subject@)) {
            prev.push((n - 1) as usize)
        } else {
            prev
        }
    }
}

/// The unlocked difficulty of `name` (last entry wins; 1 when absent).
fn unlocked_level(levels: &Vec<UnlockLevel>, name: &str) -> (r: i32)
    ensures
        r == unlocked_in(levels@, name@, levels@.len() as int),
{
    let mut n = levels.len();
    while n > 0
        invariant
            n <= levels@.len(),
            unlocked_in(levels@, name@, levels@.len() as int) == unlocked_in(levels@, name@, n as int),
        decreases n,
    {
        if str_eq(levels[n - 1].name.as_str(), name) {
            return levels[n - 1].difficulty_unlocked;
        }
        n = n - 1;
    }
    1
}

/// The lowest difficulty level among the exercises of `subject` (5 if none).
fn lowest_level(exercises: &[Exercise], subject: &str) -> (r: u8)
    ensures
        r == min_level(exercises@, subject@, exercises@.len() as int),
{
    let mut m: u8 = 5;
    let mut i: usize = 0;
    while i < exercises.len()
        invariant
            i <= exercises@.len(),
            m == min_level(exercises@, subject@, i as int),
        decreases exercises.len() - i,
    {
        let l = exercises[i].difficulty.as_u8();
        if str_eq(exercises[i].subject.as_str(), subject) && l < m {
            m = l;
        }
        i = i + 1;
    }
    m
}

/// Whether `subject` is taught only in the UTC502 course.
fn is_utc502_only(subject: &str) -> (r: bool)
    ensures
        r == utc502_only(subject@),
{
    str_eq(subject, "scheduling") || str_eq(subject, "virtual_memory")
}

/// Positions of the exercises open to the learner, in order: an exercise is
/// open when its difficulty is at most the larger of its subject's unlocked
/// level (1 for a subject without progress) and the lowest difficulty of its
/// subject; an NSY103-only session also leaves out UTC502-only subjects.
pub fn gate_exercises(exercises: &[Exercise], levels: &Vec<UnlockLevel>, nsy103_only: bool) -> (r: Vec<usize>)
    ensures
        r@ == gated_upto(exercises@, levels@, nsy103_only, exercises@.len() as int),
        forall|k: int| 0 <= k < r@.len() ==> (#[trigger] r@[k]) < exercises@.len(),
        forall|a: int, b: int| 0 <= a < b < r@.len() ==> #[trigger] r@[a] < #[trigger] r@[b],
        forall|i: int| #![trigger exercises@[i]] 0 <= i < exercises@.len()
            && (forall|j: int| 0 <= j < levels@.len() ==> (#[trigger] levels@[j]).name@ != exercises@[i].subject@) ==> (
            r@.contains(i as usize) <==> (
                !(nsy103_only && utc502_only(exercises@[i].subject@))
                && (exercises@[i].difficulty.level() <= 1 || lowest_of_subject(exercises@, i)))),
{
    let count = exercises.len();
    proof {
        assert(exercises@.len() == count);
        lemma_gate_opens(exercises@, levels@, nsy103_only);
    }
    let mut r: Vec<usize> = Vec::new();
    let mut i: usize = 0;
    while i < exercises.len()
        invariant
            i <= exercises@.len(),
            r@ == gated_upto(exercises@, levels@, nsy103_only, i as int),
            forall|k: int| 0 <= k < r@.len() ==> (#[trigger] r@[k]) < i,
        decreases exercises.len() - i,
    {
        let e = &exercises[i];
        let unlocked = unlocked_level(levels, e.subject.as_str());
        let lowest = lowest_level(exercises, e.subject.as_str()) as i32;
        let bound = if unlocked >= lowest { unlocked } else { lowest };
        let level = e.difficulty.as_u8() as i32;
        if level <= bound && !(nsy103_only && is_utc502_only(e.subject.as_str())) {
            r.push(i);
        }
        i = i + 1;
    }
    r
}

/// No entry among the first `n` of `levels` is for `name`: the unlocked level is 1.
proof fn lemma_unlocked_without_entry(levels: Seq<UnlockLevel>, name: Seq<char>, n: int)
    requires
        n <= levels.len(),
        forall|j: int| 0 <= j < n ==> (#[trigger] levels[j]).name@ != name,
    ensures
        unlocked_in(levels, name, n) == 1,
    decreases n,
{
    if n > 0 {
        lemma_unlocked_without_entry(levels, name, n - 1);
    }
}

/// Entry `j` is the last one for `name` among the first `n`: its level is the unlocked one.
proof fn lemma_unlocked_last_entry(levels: Seq<UnlockLevel>, name: Seq<char>, n: int, j: int)
    requires
        0 <= j < n <= levels.len(),
        levels[j].name@ == name,
        forall|k: int| j < k < n ==> (#[trigger] levels[k]).name@ != name,
    ensures
        unlocked_in(levels, name, n) == levels[j].difficulty_unlocked,
    decreases n,
{
    if n - 1 > j {
        lemma_unlocked_last_entry(levels, name, n - 1, j);
    }
}

/// The lowest level of a subject is at most that of each of its first `n`
/// exercises, and is 5 or the level of one of them.
proof fn lemma_min_level_is_lowest(exs: Seq<Exercise>, subject: Seq<char>, n: int)
    requires
        n <= exs.len(),
    ensures
        forall|k: int| 0 <= k < n && (#[trigger] exs[k]).subject@ == subject ==> min_level(exs, subject, n) <= exs[k].difficulty.level(),
        min_level(exs, subject, n) == 5 || exists|k: int| 0 <= k < n && (#[trigger] exs[k]).subject@ == subject
            && min_level(exs, subject, n) == exs[k].difficulty.level(),
    decreases n,
{
    if n > 0 {
        lemma_min_level_is_lowest(exs, subject, n - 1);
        if min_level(exs, subject, n) != 5 && min_level(exs, subject, n) == min_level(exs, subject, n - 1) {
            let k = choose|k: int| 0 <= k < n - 1 && (#[trigger] exs[k]).subject@ == subject
                && min_level(exs, subject, n - 1) == exs[k].difficulty.level();
            assert(exs[k].subject@ == subject);
        }
    }
}

/// Exercise `i` is of the lowest difficulty of its subject.
pub open spec fn lowest_of_subject(exs: Seq<Exercise>, i: int) -> bool {
    forall|k: int| 0 <= k < exs.len() && (#[trigger] exs[k]).subject@ == exs[i].subject@
        ==> exs[k].difficulty.level() >= exs[i].difficulty.level()
}

/// Positions of `gated_upto` lie below `n`, in increasing order, and are
/// exactly those below `n` whose exercise is open and not left out.
proof fn lemma_gated_upto_members(exs: Seq<Exercise>, levels: Seq<UnlockLevel>, nsy103_only: bool, n: int)
    requires
        0 <= n <= exs.len(),
        exs.len() <= usize::MAX,
    ensures
        forall|a: int, b: int| 0 <= a < b < gated_upto(exs, levels, nsy103_only, n).len() ==>
            #[trigger] gated_upto(exs, levels, nsy103_only, n)[a] < #[trigger] gated_upto(exs, levels, nsy103_only, n)[b],
        forall|a: int| 0 <= a < gated_upto(exs, levels, nsy103_only, n).len() ==>
            #[trigger] gated_upto(exs, levels, nsy103_only, n)[a] < n,
        forall|i: int| 0 <= i < n ==> (gated_upto(exs, levels, nsy103_only, n).contains(i as usize) <==> (
            open_exercise(exs, levels, #[trigger] exs[i]) && !(nsy103_only && utc502_only(exs[i].subject@)))),
    decreases n,
{
    if n > 0 {
        lemma_gated_upto_members(exs, levels, nsy103_only, n - 1);
        let prev = gated_upto(exs, levels, nsy103_only, n - 1);
        let cur = gated_upto(exs, levels, nsy103_only, n);
        assert(cur == prev || cur == prev.push((n - 1) as usize));
        assert forall|a: int, b: int| 0 <= a < b < cur.len() implies #[trigger] cur[a] < #[trigger] cur[b] by {
            if b < prev.len() {
                assert(cur[a] == prev[a] && cur[b] == prev[b]);
            } else {
                assert(cur[a] == prev[a]);
            }
        }
        assert forall|i: int| 0 <= i < n implies (cur.contains(i as usize) <==> (
            open_exercise(exs, levels, #[trigger] exs[i]) && !(nsy103_only && utc502_only(exs[i].subject@)))) by {
            if i < n - 1 {
                if cur.contains(i as usize) && !prev.contains(i as usize) {
                    let a = choose|a: int| 0 <= a < cur.len() && cur[a] == i as usize;
                    assert(a == prev.len());
                }
                if prev.contains(i as usize) {
                    let a = choose|a: int| 0 <= a < prev.len() && prev[a] == i as usize;
                    assert(cur[a] == prev[a]);
                }
            } else {
                if prev.contains(i as usize) {
                    let a = choose|a: int| 0 <= a < prev.len() && prev[a] == i as usize;
                    assert(prev[a] < n - 1);
                }
                if cur.len() > prev.len() {
                    assert(cur[prev.len() as int] == i as usize);
                }
            }
        }
    }
}

/// Watch-mode gating, stated on the inputs: the result lists positions in
/// increasing order; position `i` is listed exactly when the exercise is
/// not left out of an NSY103-only session (UTC502-only subject) and its
/// difficulty is at most its subject's unlocked level or it is of its
/// subject's lowest difficulty. The unlocked level is that of the subject's
/// last entry in `levels` and, for a subject without an entry, 1: then only
/// an Easy exercise, or one of the subject's lowest difficulty, is open.
pub proof fn lemma_gate_opens(exs: Seq<Exercise>, levels: Seq<UnlockLevel>, nsy103_only: bool)
    requires
        exs.len() <= usize::MAX,
    ensures
        forall|a: int, b: int| 0 <= a < b < gated_upto(exs, levels, nsy103_only, exs.len() as int).len() ==>
            #[trigger] gated_upto(exs, levels, nsy103_only, exs.len() as int)[a]
                < #[trigger] gated_upto(exs, levels, nsy103_only, exs.len() as int)[b],
        forall|i: int| #![trigger exs[i]] 0 <= i < exs.len()
            && (forall|j: int| 0 <= j < levels.len() ==> (#[trigger] levels[j]).name@ != exs[i].subject@) ==> (
            gated_upto(exs, levels, nsy103_only, exs.len() as int).contains(i as usize) <==> (
                !(nsy103_only && utc502_only(exs[i].subject@))
                && (exs[i].difficulty.level() <= 1 || lowest_of_subject(exs, i)))),
        forall|i: int, j: int| #![trigger exs[i], levels[j]] 0 <= i < exs.len() && 0 <= j < levels.len()
            && levels[j].name@ == exs[i].subject@
            && (forall|k: int| j < k < levels.len() ==> (#[trigger] levels[k]).name@ != exs[i].subject@) ==> (
            gated_upto(exs, levels, nsy103_only, exs.len() as int).contains(i as usize) <==> (
                !(nsy103_only && utc502_only(exs[i].subject@))
                && (exs[i].difficulty.level() <= levels[j].difficulty_unlocked || lowest_of_subject(exs, i)))),
{
    let n = exs.len() as int;
    lemma_gated_upto_members(exs, levels, nsy103_only, n);
    assert forall|i: int| #![trigger exs[i]] 0 <= i < n implies {
        let lowest = min_level(exs, exs[i].subject@, n) as i32;
        (exs[i].difficulty.level() as i32 <= lowest) <==> lowest_of_subject(exs, i)
    } by {
        lemma_min_level_is_lowest(exs, exs[i].subject@, n);
        let lowest = min_level(exs, exs[i].subject@, n);
        assert(lowest <= exs[i].difficulty.level());
        if lowest_of_subject(exs, i) && lowest != 5 {
            let k = choose|k: int| 0 <= k < n && (#[trigger] exs[k]).subject@ == exs[i].subject@
                && min_level(exs, exs[i].subject@, n) == exs[k].difficulty.level();
            assert(exs[k].difficulty.level() >= exs[i].difficulty.level());
        }
        if exs[i].difficulty.level() as i32 <= lowest as i32 {
            assert forall|k: int| 0 <= k < exs.len() && (#[trigger] exs[k]).subject@ == exs[i].subject@
                implies exs[k].difficulty.level() >= exs[i].difficulty.level() by {}
        }
    }
    assert forall|i: int| #![trigger exs[i]] 0 <= i < n
        && (forall|j: int| 0 <= j < levels.len() ==> (#[trigger] levels[j]).name@ != exs[i].subject@) implies (
        gated_upto(exs, levels, nsy103_only, n).contains(i as usize) <==> (
            !(nsy103_only && utc502_only(exs[i].subject@))
            && (exs[i].difficulty.level() <= 1 || lowest_of_subject(exs, i)))) by {
        lemma_unlocked_without_entry(levels, exs[i].subject@, levels.len() as int);
    }
    assert forall|i: int, j: int| #![trigger exs[i], levels[j]] 0 <= i < n && 0 <= j < levels.len()
        && levels[j].name@ == exs[i].subject@
        && (forall|k: int| j < k < levels.len() ==> (#[trigger] levels[k]).name@ != exs[i].subject@) implies (
        gated_upto(exs, levels, nsy103_only, n).contains(i as usize) <==> (
            !(nsy103_only && utc502_only(exs[i].subject@))
            && (exs[i].difficulty.level() <= levels[j].difficulty_unlocked || lowest_of_subject(exs, i)))) by {
        lemma_unlocked_last_entry(levels, exs[i].subject@, levels.len() as int, j);
    }
}

/// Rust's division of `d` by `k`, rounded toward zero.
pub open spec fn div_toward_zero(d: int, k: int) -> int {
    if d >= 0 {
        d / k
    } else {
        -((-d) / k)
    }
}

/// Whole days from `now` until the next review, rounded toward zero; `None`
/// when no review is planned.
pub fn days_until_review(next_review_at: Option<i64>, now: i64) -> (r: Option<i64>)
    requires
        next_review_at matches Some(ts) ==> i64::MIN < ts - now <= i64::MAX,
    ensures
        r is None <==> next_review_at is None,
        r matches Some(d) ==> d == div_toward_zero(next_review_at->0 - now, SECS_PER_DAY as int),
{
    match next_review_at {
        None => None,
        Some(ts) => {
            let d = ts - now;
            if d >= 0 {
                Some(d / SECS_PER_DAY)
            } else {
                let n = -d;
                Some(-(n / SECS_PER_DAY))
            }
        },
    }
}

/// The subjects of the exercises, in order.
pub open spec fn subjects_of(exs: Seq<&Exercise>) -> Seq<Seq<char>> {
    Seq::new(exs.len(), |i: int| exs[i].subject@)
}

/// The subjects of the exercises in order of first appearance, each once.
pub fn subject_order(exercises: &Vec<&Exercise>) -> (r: Vec<String>)
    ensures
        views_of_strings(r@) == dedup(subjects_of(exercises@)),
{
    let mut r: Vec<String> = Vec::new();
    let mut i: usize = 0;
    proof {
        assert(subjects_of(exercises@).subrange(0, 0) =~= Seq::<Seq<char>>::empty());
        assert(views_of_strings(r@) =~= dedup(subjects_of(exercises@).subrange(0, 0)));
    }
    while i < exercises.len()
        invariant
            i <= exercises@.len(),
            views_of_strings(r@) == dedup(subjects_of(exercises@).subrange(0, i as int)),
        decreases exercises.len() - i,
    {
        let s = exercises[i].subject.as_str();
        let ghost all = subjects_of(exercises@);
        proof {
            let pre = all.subrange(0, i + 1);
            assert(pre.drop_last() =~= all.subrange(0, i as int));
            assert(pre.last() == s@);
        }
        let mut k: usize = 0;
        let mut seen = false;
        while k < r.len()
            invariant
                k <= r@.len(),
                seen == exists|j: int| 0 <= j < k && (#[trigger] r@[j])@ == s@,
            decreases r.len() - k,
        {
            if str_eq(r[k].as_str(), s) {
                seen = true;
            }
            k = k + 1;
        }
        proof {
            if seen {
                let j = choose|j: int| 0 <= j < k && (#[trigger] r@[j])@ == s@;
                assert(views_of_strings(r@)[j] == s@);
            } else {
                assert forall|j: int| 0 <= j < views_of_strings(r@).len() implies #[trigger] views_of_strings(r@)[j] != s@ by {
                    assert(views_of_strings(r@)[j] == r@[j]@);
                }
            }
        }
        let ghost old_r = r@;
        if !seen {
            r.push(String::from_str(s));
            proof {
                assert(views_of_strings(r@) =~= views_of_strings(old_r).push(s@));
            }
        }
        i = i + 1;
    }
    proof {
        assert(subjects_of(exercises@).subrange(0, exercises@.len() as int) =~= subjects_of(exercises@));
    }
    r
}

} // verus!
