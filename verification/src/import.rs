//! Checks on imported progress: counters kept within their ranges, with a
//! warning for each value that had to be changed.
use vstd::prelude::*;

use crate::chapters::views_of_strings;
use crate::mastery::clamp;
use crate::text::{chars_of, decimal, decimal_exec, push_all, push_str, string_of};

verus! {

/// Smallest review interval accepted on import, in days.
pub const IMPORT_MIN_INTERVAL_DAYS: i64 = 1;

/// Largest review interval accepted on import, in days.
pub const IMPORT_MAX_INTERVAL_DAYS: i64 = 60;

/// The integer counters of an imported subject.
#[derive(Debug, Clone, PartialEq, Eq)]
pub struct ImportedCounters {
    /// Subject name.
    pub name: String,
    /// Highest difficulty unlocked.
    pub difficulty_unlocked: i32,
    /// Current review interval, in days.
    pub srs_interval_days: i64,
    /// Number of attempts.
    pub attempts_total: i64,
    /// Number of successful attempts.
    pub attempts_success: i64,
}

/// The decimal text of a signed integer.
pub open spec fn signed_decimal(x: int) -> Seq<char> {
    if x < 0 {
        "-"@ + decimal((-x) as nat)
    } else {
        decimal(x as nat)
    }
}

/// The warning for field `field` of subject `name` changed from `was` to `now`.
pub open spec fn clamp_warning(name: Seq<char>, field: Seq<char>, was: int, now: int) -> Seq<char> {
    "'"@ + name + "': "@ + field + " "@ + signed_decimal(was) + " → "@ + signed_decimal(now) + " (clamped)"@
}

/// Clamped difficulty: within 1 to 5.
pub open spec fn clamped_difficulty(c: ImportedCounters) -> int {
    clamp(c.difficulty_unlocked as int, 1, 5)
}

/// Clamped interval: within the accepted interval range.
pub open spec fn clamped_interval(c: ImportedCounters) -> int {
    clamp(c.srs_interval_days as int, IMPORT_MIN_INTERVAL_DAYS as int, IMPORT_MAX_INTERVAL_DAYS as int)
}

/// Clamped number of attempts: not negative.
pub open spec fn clamped_total(c: ImportedCounters) -> int {
    if c.attempts_total < 0 { 0 } else { c.attempts_total as int }
}

/// Clamped number of successes: not negative, at most the attempts.
pub open spec fn clamped_success(c: ImportedCounters) -> int {
    let s = if c.attempts_success < 0 { 0 } else { c.attempts_success as int };
    if s > clamped_total(c) { clamped_total(c) } else { s }
}

/// The warning for one field, if its value changed.
pub open spec fn warning_if(name: Seq<char>, field: Seq<char>, was: int, now: int) -> Seq<Seq<char>> {
    if was != now {
        seq![clamp_warning(name, field, was, now)]
    } else {
        seq![]
    }
}

/// The warnings for an imported subject, in field order.
pub open spec fn import_warnings(c: ImportedCounters) -> Seq<Seq<char>> {
    warning_if(c.name@, "difficulty_unlocked"@, c.difficulty_unlocked as int, clamped_difficulty(c))
        + warning_if(c.name@, "srs_interval_days"@, c.srs_interval_days as int, clamped_interval(c))
        + warning_if(c.name@, "attempts_total"@, c.attempts_total as int, clamped_total(c))
        + warning_if(c.name@, "attempts_success"@, c.attempts_success as int, clamped_success(c))
}

/// The decimal text of `x`.
fn signed_decimal_exec(x: i64) -> (r: Vec<char>)
    ensures
        r@ == signed_decimal(x as int),
{
    if x < 0 {
        let magnitude: u64 = ((-(x + 1)) as u64) + 1;
        let mut r = chars_of("-");
        let d = decimal_exec(magnitude);
        push_all(&mut r, &d);
        r
    } else {
        decimal_exec(x as u64)
    }
}

/// Appends the warning for `field` when `was` and `now` differ.
fn push_warning(warnings: &mut Vec<String>, name: &str, field: &str, was: i64, now: i64)
    ensures
        views_of_strings(final(warnings)@) == views_of_strings(old(warnings)@)
            + warning_if(name@, field@, was as int, now as int),
{
    if was != now {
        let mut w = chars_of("'");
        push_str(&mut w, name);
        push_str(&mut w, "': ");
        push_str(&mut w, field);
        push_str(&mut w, " ");
        let o = signed_decimal_exec(was);
        push_all(&mut w, &o);
        push_str(&mut w, " → ");
        let n = signed_decimal_exec(now);
        push_all(&mut w, &n);
        push_str(&mut w, " (clamped)");
        let ghost before = warnings@;
        warnings.push(string_of(&w));
        proof {
            assert(views_of_strings(warnings@) =~= views_of_strings(before)
                + warning_if(name@, field@, was as int, now as int));
        }
    } else {
        proof {
            assert(views_of_strings(old(warnings)@) + warning_if(name@, field@, was as int, now as int)
                =~= views_of_strings(old(warnings)@));
        }
    }
}

/// Keeps the counters of an imported subject within their ranges:
/// difficulty within 1 to 5, interval within the accepted range, attempts
/// not negative and successes at most the attempts. Returns the clamped
/// counters and one warning per changed value.
pub fn clamp_import_counters(c: &ImportedCounters) -> (r: (ImportedCounters, Vec<String>))
    ensures
        r.0.name@ == c.name@,
        r.0.difficulty_unlocked == clamped_difficulty(*c),
        r.0.srs_interval_days == clamped_interval(*c),
        r.0.attempts_total == clamped_total(*c),
        r.0.attempts_success == clamped_success(*c),
        views_of_strings(r.1@) == import_warnings(*c),
{
    let d = if c.difficulty_unlocked < 1 { 1 } else if c.difficulty_unlocked > 5 { 5 } else { c.difficulty_unlocked };
    let iv = if c.srs_interval_days < IMPORT_MIN_INTERVAL_DAYS {
        IMPORT_MIN_INTERVAL_DAYS
    } else if c.srs_interval_days > IMPORT_MAX_INTERVAL_DAYS {
        IMPORT_MAX_INTERVAL_DAYS
    } else {
        c.srs_interval_days
    };
    let total = if c.attempts_total < 0 { 0 } else { c.attempts_total };
    let s0 = if c.attempts_success < 0 { 0 } else { c.attempts_success };
    let success = if s0 > total { total } else { s0 };
    let mut warnings: Vec<String> = Vec::new();
    let name = c.name.as_str();
    push_warning(&mut warnings, name, "difficulty_unlocked", c.difficulty_unlocked as i64, d as i64);
    push_warning(&mut warnings, name, "srs_interval_days", c.srs_interval_days, iv);
    push_warning(&mut warnings, name, "attempts_total", c.attempts_total, total);
    push_warning(&mut warnings, name, "attempts_success", c.attempts_success, success);
    proof {
        assert(views_of_strings(warnings@) =~= import_warnings(*c));
    }
    let out = ImportedCounters {
        name: c.name.clone(),
        difficulty_unlocked: d,
        srs_interval_days: iv,
        attempts_total: total,
        attempts_success: success,
    };
    (out, warnings)
}

/// Importing is stable: counters that are already within their ranges are
/// kept as they are and raise no warning.
pub proof fn lemma_clamp_import_idempotent(c: ImportedCounters)
    requires
        1 <= c.difficulty_unlocked <= 5,
        IMPORT_MIN_INTERVAL_DAYS <= c.srs_interval_days <= IMPORT_MAX_INTERVAL_DAYS,
        0 <= c.attempts_success <= c.attempts_total,
    ensures
        clamped_difficulty(c) == c.difficulty_unlocked,
        clamped_interval(c) == c.srs_interval_days,
        clamped_total(c) == c.attempts_total,
        clamped_success(c) == c.attempts_success,
        import_warnings(c).len() == 0,
{
}

/// The clamped counters always lie within their ranges.
pub proof fn lemma_clamped_in_range(c: ImportedCounters)
    ensures
        1 <= clamped_difficulty(c) <= 5,
        IMPORT_MIN_INTERVAL_DAYS <= clamped_interval(c) <= IMPORT_MAX_INTERVAL_DAYS,
        0 <= clamped_success(c) <= clamped_total(c),
{
}

} // verus!
