//! Piscine mode: where a run resumes and how it is scored.
use vstd::prelude::*;

verus! {

/// Where a piscine of `total` exercises resumes: the saved position, moved
/// back onto the last exercise if it lies beyond it; the first exercise when
/// nothing was saved.
pub open spec fn resume_position(checkpoint: Option<usize>, total: usize) -> usize {
    match checkpoint {
        Some(i) => if i < total { i } else if total > 0 { (total - 1) as usize } else { 0 },
        None => 0,
    }
}

/// The position a piscine of `total` exercises resumes at.
pub fn resume_index(checkpoint: Option<usize>, total: usize) -> (r: usize)
    ensures
        r == resume_position(checkpoint, total),
        total > 0 ==> r < total,
{
    match checkpoint {
        Some(i) => {
            let last = total.saturating_sub(1);
            if i < last { i } else { last }
        },
        None => 0,
    }
}

/// Number of entries of `s` that are `true`.
pub open spec fn count_true(s: Seq<bool>) -> nat
    decreases s.len(),
{
    if s.len() == 0 {
        0
    } else {
        count_true(s.drop_last()) + if s.last() { 1nat } else { 0nat }
    }
}

/// Proof that a count of entries never exceeds the length.
pub proof fn lemma_count_true_bound(s: Seq<bool>)
    ensures
        count_true(s) <= s.len(),
    decreases s.len(),
{
    if s.len() > 0 {
        lemma_count_true_bound(s.drop_last());
    }
}

/// Number of completed exercises.
pub fn completed_count(completed: &Vec<bool>) -> (r: usize)
    ensures
        r == count_true(completed@),
        r <= completed@.len(),
{
    let mut n: usize = 0;
    let mut i: usize = 0;
    while i < completed.len()
        invariant
            i <= completed@.len(),
            n == count_true(completed@.subrange(0, i as int)),
            n <= i,
        decreases completed.len() - i,
    {
        proof {
            let pre = completed@.subrange(0, i + 1);
            assert(pre.drop_last() =~= completed@.subrange(0, i as int));
        }
        if completed[i] {
            n = n + 1;
        }
        i = i + 1;
    }
    proof {
        assert(completed@.subrange(0, completed@.len() as int) =~= completed@);
    }
    n
}

/// The exam score in percent: completed exercises over all, rounded down;
/// 0 for an empty exam.
pub fn exam_score_percent(done: usize, total: usize) -> (r: usize)
    requires
        done <= total,
        total <= usize::MAX / 100,
    ensures
        total == 0 ==> r == 0,
        total > 0 ==> r == (done * 100) / (total as int),
        r <= 100,
{
    if total > 0 {
        proof {
            assert(done * 100 <= total * 100) by (nonlinear_arith)
                requires done <= total;
            assert((done * 100) / (total as int) <= 100) by (nonlinear_arith)
                requires done * 100 <= total * 100, total > 0;
        }
        (done * 100) / total
    } else {
        0
    }
}

/// A number of seconds as hours, minutes and seconds.
pub fn split_hms(secs: u64) -> (r: (u64, u64, u64))
    ensures
        r.0 == secs / 3600,
        r.1 == (secs % 3600) / 60,
        r.2 == secs % 60,
        r.1 < 60 && r.2 < 60,
        r.0 * 3600 + r.1 * 60 + r.2 == secs,
{
    let h = secs / 3600;
    let m = (secs % 3600) / 60;
    let s = secs % 60;
    proof {
        assert(secs % 60 == (secs % 3600) % 60) by (nonlinear_arith);
        assert(((secs % 3600) / 60) * 60 + (secs % 3600) % 60 == secs % 3600) by (nonlinear_arith);
        assert((secs / 3600) * 3600 + secs % 3600 == secs) by (nonlinear_arith);
    }
    (h, m, s)
}

} // verus!
