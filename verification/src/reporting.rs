//! Learning report by chapter: attempt counts per subject and per chapter.
use vstd::prelude::*;

use crate::chapters::{views_of_strings, Chapter};
use crate::error::KfError;
use crate::text::{chars_of, decimal, decimal_exec, push_all, push_str, str_eq, string_of};

verus! {

/// Attempt counts recorded for a subject.
#[derive(Debug, Clone)]
pub struct SubjectAttempts {
    /// Subject name.
    pub subject: String,
    /// Successful attempts.
    pub successes: u64,
    /// All attempts.
    pub total: u64,
}

/// The weakest exercise recorded for a subject.
#[derive(Debug, Clone)]
pub struct SubjectWeakest {
    /// Subject name.
    pub subject: String,
    /// Identifier of the exercise with the lowest success rate.
    pub exercise_id: String,
}

/// Counts of one subject within a chapter report.
#[derive(Debug, Clone)]
pub struct SubjectReport {
    /// Subject name.
    pub subject: String,
    /// All attempts.
    pub attempts: u64,
    /// Successful attempts.
    pub successes: u64,
    /// The subject's weakest exercise, when one is known.
    pub weakest_exercises: Vec<String>,
}

/// Counts of one chapter.
#[derive(Debug, Clone)]
pub struct ChapterReport {
    /// Chapter number.
    pub chapter_num: u8,
    /// Chapter title.
    pub chapter_title: String,
    /// The chapter's subjects, in the chapter's order.
    pub subjects: Vec<SubjectReport>,
    /// All attempts in the chapter.
    pub total_attempts: u64,
    /// Successful attempts in the chapter.
    pub total_successes: u64,
}

/// The counts `(successes, total)` of `name` among the first `n` entries
/// (the last entry for it wins), `(0, 0)` when it has none.
pub open spec fn attempts_in(att: Seq<SubjectAttempts>, name: Seq<char>, n: int) -> (u64, u64)
    decreases n,
{
    if n <= 0 {
        (0, 0)
    } else if att[n - 1].subject@ == name {
        (att[n - 1].successes, att[n - 1].total)
    } else {
        attempts_in(att, name, n - 1)
    }
}

/// The counts `(successes, total)` of `name`.
pub open spec fn attempts_of(att: Seq<SubjectAttempts>, name: Seq<char>) -> (u64, u64) {
    attempts_in(att, name, att.len() as int)
}

/// The weakest exercise of `name` among the first `n` entries (the last
/// entry for it wins).
pub open spec fn weakest_in(w: Seq<SubjectWeakest>, name: Seq<char>, n: int) -> Option<Seq<char>>
    decreases n,
{
    if n <= 0 {
        None
    } else if w[n - 1].subject@ == name {
        Some(w[n - 1].exercise_id@)
    } else {
        weakest_in(w, name, n - 1)
    }
}

/// The weakest exercise of `name` as a list: one entry, or none.
pub open spec fn weakest_list(w: Seq<SubjectWeakest>, name: Seq<char>) -> Seq<Seq<char>> {
    match weakest_in(w, name, w.len() as int) {
        Some(e) => seq![e],
        None => seq![],
    }
}

/// Sum of the attempts (`total`) or successes of the first `n` subjects.
pub open spec fn sum_counts(subjects: Seq<Seq<char>>, att: Seq<SubjectAttempts>, n: int, totals: bool) -> int
    decreases n,
{
    if n <= 0 {
        0
    } else {
        let c = attempts_of(att, subjects[n - 1]);
        sum_counts(subjects, att, n - 1, totals) + if totals { c.1 as int } else { c.0 as int }
    }
}

/// The chapter sums fit the counters.
pub open spec fn sums_fit(chs: Seq<Chapter>, att: Seq<SubjectAttempts>) -> bool {
    forall|c: int| 0 <= c < chs.len() ==> {
        let s = views_of_strings(#[trigger] chs[c].subjects@);
        &&& sum_counts(s, att, s.len() as int, true) <= u64::MAX
        &&& sum_counts(s, att, s.len() as int, false) <= u64::MAX
    }
}

/// `t` reports chapter `c`: its number and title, each of its subjects in
/// order with the subject's counts and weakest exercise, and the chapter sums.
pub open spec fn report_matches(t: ChapterReport, c: Chapter, att: Seq<SubjectAttempts>, w: Seq<SubjectWeakest>) -> bool {
    let s = views_of_strings(c.subjects@);
    &&& t.chapter_num == c.number
    &&& t.chapter_title@ == c.title@
    &&& t.subjects@.len() == s.len()
    &&& forall|k: int| 0 <= k < s.len() ==> {
        let st = #[trigger] t.subjects@[k];
        &&& st.subject@ == s[k]
        &&& (st.successes, st.attempts) == attempts_of(att, s[k])
        &&& views_of_strings(st.weakest_exercises@) == weakest_list(w, s[k])
    }
    &&& t.total_attempts == sum_counts(s, att, s.len() as int, true)
    &&& t.total_successes == sum_counts(s, att, s.len() as int, false)
}

/// The counts of a subject.
fn counts_of(att: &Vec<SubjectAttempts>, name: &str) -> (r: (u64, u64))
    ensures
        r == attempts_of(att@, name@),
{
    let mut n = att.len();
    while n > 0
        invariant
            n <= att@.len(),
            attempts_of(att@, name@) == attempts_in(att@, name@, n as int),
        decreases n,
    {
        if str_eq(att[n - 1].subject.as_str(), name) {
            return (att[n - 1].successes, att[n - 1].total);
        }
        n = n - 1;
    }
    (0, 0)
}

/// The weakest exercise of a subject.
fn weakest_of(w: &Vec<SubjectWeakest>, name: &str) -> (r: Option<String>)
    ensures
        r matches Some(e) ==> weakest_in(w@, name@, w@.len() as int) == Some(e@),
        r is None ==> weakest_in(w@, name@, w@.len() as int) is None,
{
    let mut n = w.len();
    while n > 0
        invariant
            n <= w@.len(),
            weakest_in(w@, name@, w@.len() as int) == weakest_in(w@, name@, n as int),
        decreases n,
    {
        if str_eq(w[n - 1].subject.as_str(), name) {
            return Some(w[n - 1].exercise_id.clone());
        }
        n = n - 1;
    }
    None
}

/// Sums never decrease as subjects are added.
proof fn lemma_sum_counts_mono(s: Seq<Seq<char>>, att: Seq<SubjectAttempts>, m: int, n: int, totals: bool)
    requires
        0 <= m <= n,
    ensures
        sum_counts(s, att, m, totals) <= sum_counts(s, att, n, totals),
    decreases n - m,
{
    if m < n {
        lemma_sum_counts_mono(s, att, m, n - 1, totals);
    }
}

/// The counts of one chapter.
fn chapter_report(c: &Chapter, att: &Vec<SubjectAttempts>, w: &Vec<SubjectWeakest>) -> (t: ChapterReport)
    requires
        sum_counts(views_of_strings(c.subjects@), att@, c.subjects@.len() as int, true) <= u64::MAX,
        sum_counts(views_of_strings(c.subjects@), att@, c.subjects@.len() as int, false) <= u64::MAX,
    ensures
        report_matches(t, *c, att@, w@),
{
    let ghost s = views_of_strings(c.subjects@);
    let mut subjects: Vec<SubjectReport> = Vec::new();
    let mut total: u64 = 0;
    let mut successes: u64 = 0;
    let mut k: usize = 0;
    while k < c.subjects.len()
        invariant
            k <= c.subjects@.len(),
            s == views_of_strings(c.subjects@),
            sum_counts(s, att@, s.len() as int, true) <= u64::MAX,
            sum_counts(s, att@, s.len() as int, false) <= u64::MAX,
            subjects@.len() == k,
            total == sum_counts(s, att@, k as int, true),
            successes == sum_counts(s, att@, k as int, false),
            forall|j: int| 0 <= j < k ==> {
                let st = #[trigger] subjects@[j];
                &&& st.subject@ == s[j]
                &&& (st.successes, st.attempts) == attempts_of(att@, s[j])
                &&& views_of_strings(st.weakest_exercises@) == weakest_list(w@, s[j])
            },
        decreases c.subjects.len() - k,
    {
        let name = c.subjects[k].as_str();
        proof {
            assert(s[k as int] == name@);
            lemma_sum_counts_mono(s, att@, k + 1, s.len() as int, true);
            lemma_sum_counts_mono(s, att@, k + 1, s.len() as int, false);
        }
        let (ok, all) = counts_of(att, name);
        total = total + all;
        successes = successes + ok;
        let mut weakest: Vec<String> = Vec::new();
        if let Some(e) = weakest_of(w, name) {
            weakest.push(e);
        }
        proof {
            assert(views_of_strings(weakest@) =~= weakest_list(w@, s[k as int]));
        }
        subjects.push(SubjectReport {
            subject: String::from_str(name),
            attempts: all,
            successes: ok,
            weakest_exercises: weakest,
        });
        k = k + 1;
    }
    ChapterReport {
        chapter_num: c.number,
        chapter_title: c.title.clone(),
        subjects,
        total_attempts: total,
        total_successes: successes,
    }
}

/// The counts of every chapter, in the chapters' order: per subject its
/// attempts, successes and weakest exercise; per chapter the sums.
pub fn build_chapter_reports(chapters: &Vec<Chapter>, attempts: &Vec<SubjectAttempts>, weakest: &Vec<SubjectWeakest>) -> (r: Vec<ChapterReport>)
    requires
        sums_fit(chapters@, attempts@),
    ensures
        r@.len() == chapters@.len(),
        forall|c: int| 0 <= c < chapters@.len() ==> report_matches(#[trigger] r@[c], chapters@[c], attempts@, weakest@),
{
    let mut r: Vec<ChapterReport> = Vec::new();
    let mut c: usize = 0;
    while c < chapters.len()
        invariant
            c <= chapters@.len(),
            sums_fit(chapters@, attempts@),
            r@.len() == c,
            forall|j: int| 0 <= j < c ==> report_matches(#[trigger] r@[j], chapters@[j], attempts@, weakest@),
        decreases chapters.len() - c,
    {
        proof {
            let ch = chapters@[c as int];
            assert(views_of_strings(ch.subjects@).len() == ch.subjects@.len());
        }
        let t = chapter_report(&chapters[c], attempts, weakest);
        r.push(t);
        c = c + 1;
    }
    r
}

/// The report of chapter `chapter_num`, built as `build_chapter_reports`
/// builds it (the first chapter of that number), or `None` when no chapter has it.
pub fn build_chapter_report_by_number(
    chapters: &Vec<Chapter>,
    attempts: &Vec<SubjectAttempts>,
    weakest: &Vec<SubjectWeakest>,
    chapter_num: u8,
) -> (r: Option<ChapterReport>)
    requires
        sums_fit(chapters@, attempts@),
    ensures
        r is None <==> forall|j: int| 0 <= j < chapters@.len() ==> (#[trigger] chapters@[j]).number != chapter_num,
        r matches Some(t) ==> exists|c: int| 0 <= c < chapters@.len() && chapters@[c].number == chapter_num
            && (forall|j: int| 0 <= j < c ==> (#[trigger] chapters@[j]).number != chapter_num)
            && report_matches(t, chapters@[c], attempts@, weakest@),
{
    let mut c: usize = 0;
    while c < chapters.len()
        invariant
            c <= chapters@.len(),
            sums_fit(chapters@, attempts@),
            forall|j: int| 0 <= j < c ==> (#[trigger] chapters@[j]).number != chapter_num,
        decreases chapters.len() - c,
    {
        if chapters[c].number == chapter_num {
            proof {
                let ch = chapters@[c as int];
                assert(views_of_strings(ch.subjects@).len() == ch.subjects@.len());
            }
            let t = chapter_report(&chapters[c], attempts, weakest);
            return Some(t);
        }
        c = c + 1;
    }
    None
}

/// The message for a chapter number no report has.
pub open spec fn missing_chapter_message(n: u8) -> Seq<char> {
    "Chapitre "@ + decimal(n as nat) + " non trouvé"@
}

/// Position of the report of chapter `chapter_num` (the first one); an
/// unknown chapter is reported as not found.
pub fn find_chapter_report(reports: &Vec<ChapterReport>, chapter_num: u8) -> (r: Result<usize, KfError>)
    ensures
        r matches Ok(i) ==> i < reports@.len() && reports@[i as int].chapter_num == chapter_num
            && forall|j: int| 0 <= j < i ==> (#[trigger] reports@[j]).chapter_num != chapter_num,
        r is Err <==> forall|j: int| 0 <= j < reports@.len() ==> (#[trigger] reports@[j]).chapter_num != chapter_num,
        r matches Err(e) ==> e matches KfError::ExerciseNotFound(m) && m@ == missing_chapter_message(chapter_num),
{
    let mut i: usize = 0;
    while i < reports.len()
        invariant
            i <= reports@.len(),
            forall|j: int| 0 <= j < i ==> (#[trigger] reports@[j]).chapter_num != chapter_num,
        decreases reports.len() - i,
    {
        if reports[i].chapter_num == chapter_num {
            return Ok(i);
        }
        i = i + 1;
    }
    let mut msg = chars_of("Chapitre ");
    let d = decimal_exec(chapter_num as u64);
    push_all(&mut msg, &d);
    push_str(&mut msg, " non trouvé");
    Err(KfError::ExerciseNotFound(string_of(&msg)))
}

} // verus!
