//! Exam simulation: session lookup, exercise selection and timing.
use vstd::prelude::*;

use crate::chapters::views_of_strings;
use crate::error::{is_config_error, KfError};
use crate::models::Exercise;
use crate::text::{chars_of, push_str, starts_with, starts_with_exec, str_eq, string_of, trim, trim_exec};

verus! {

/// Duration of a UTC502 exam session, in minutes.
pub const EXAM_UTC502_DURATION_MINS: u64 = 180;

/// Duration of an NSY103 exam session (and of any other), in minutes.
pub const EXAM_NSY103_DURATION_MINS: u64 = 150;

/// Default duration of the session `id`, in minutes.
pub open spec fn session_duration(id: Seq<char>) -> u64 {
    if starts_with(id, "utc502"@) {
        EXAM_UTC502_DURATION_MINS
    } else {
        EXAM_NSY103_DURATION_MINS
    }
}

/// Default duration of a session, in minutes, by the course its identifier names.
pub fn default_duration(session_id: &str) -> (r: u64)
    ensures
        r == session_duration(session_id@),
{
    let id = chars_of(session_id);
    let prefix = chars_of("utc502");
    if starts_with_exec(&id, &prefix) {
        EXAM_UTC502_DURATION_MINS
    } else {
        EXAM_NSY103_DURATION_MINS
    }
}

/// The identifiers listed by the questions, question after question.
pub open spec fn all_ids(questions: Seq<Vec<String>>) -> Seq<Seq<char>>
    decreases questions.len(),
{
    if questions.len() == 0 {
        seq![]
    } else {
        all_ids(questions.drop_last()) + views_of_strings(questions.last()@)
    }
}

/// `s` without repetitions: each element at its first occurrence.
pub open spec fn dedup(s: Seq<Seq<char>>) -> Seq<Seq<char>>
    decreases s.len(),
{
    if s.len() == 0 {
        seq![]
    } else {
        let d = dedup(s.drop_last());
        if d.contains(s.last()) {
            d
        } else {
            d.push(s.last())
        }
    }
}

/// Removing repetitions keeps every identifier, adds none, and leaves
/// each one exactly once.
pub proof fn lemma_dedup_unique_and_complete(s: Seq<Seq<char>>)
    ensures
        dedup(s).no_duplicates(),
        forall|x: Seq<char>| dedup(s).contains(x) <==> s.contains(x),
    decreases s.len(),
{
    if s.len() > 0 {
        let d = dedup(s.drop_last());
        lemma_dedup_unique_and_complete(s.drop_last());
        assert(s =~= s.drop_last().push(s.last()));
        let p = s.drop_last();
        let l = s.last();
        assert forall|x: Seq<char>| dedup(s).contains(x) <==> s.contains(x) by {
            // s.contains(x) <==> p.contains(x) || x == l
            if s.contains(x) {
                let i = choose|i: int| 0 <= i < s.len() && s[i] == x;
                if i < p.len() {
                    assert(p[i] == x);
                }
            }
            if p.contains(x) {
                let i = choose|i: int| 0 <= i < p.len() && p[i] == x;
                assert(s[i] == x);
            }
            if x == l {
                assert(s[s.len() - 1] == x);
            }
            // d.push(l).contains(x) <==> d.contains(x) || x == l
            if d.push(l).contains(x) {
                let i = choose|i: int| 0 <= i < d.len() + 1 && d.push(l)[i] == x;
                if i < d.len() {
                    assert(d[i] == x);
                }
            }
            if d.contains(x) {
                let i = choose|i: int| 0 <= i < d.len() && d[i] == x;
                assert(d.push(l)[i] == x);
            }
            if x == l {
                assert(d.push(l)[d.len() as int] == x);
            }
        }
        if !d.contains(s.last()) {
            assert forall|i: int, j: int| 0 <= i < j < d.len() + 1 implies d.push(s.last())[i] != d.push(s.last())[j] by {
                if j == d.len() {
                    assert(d[i] == d.push(s.last())[i]);
                }
            }
        }
    }
}

/// Whether `x` is the view of one of `v`.
fn contains_string(v: &Vec<String>, x: &str) -> (r: bool)
    ensures
        r == views_of_strings(v@).contains(x@),
{
    let mut k: usize = 0;
    while k < v.len()
        invariant
            k <= v@.len(),
            forall|j: int| 0 <= j < k ==> (#[trigger] v@[j])@ != x@,
        decreases v.len() - k,
    {
        if str_eq(v[k].as_str(), x) {
            proof {
                assert(views_of_strings(v@)[k as int] == x@);
            }
            return true;
        }
        k = k + 1;
    }
    proof {
        if views_of_strings(v@).contains(x@) {
            let j = choose|j: int| 0 <= j < v@.len() && #[trigger] views_of_strings(v@)[j] == x@;
            assert(v@[j]@ == x@);
        }
    }
    false
}

/// The exercise identifiers of the questions (each question's `exercises`
/// list), without repetitions, in order of first appearance.
pub fn collect_unique_ids(questions: &[Vec<String>]) -> (ids: Vec<String>)
    ensures
        views_of_strings(ids@) == dedup(all_ids(questions@)),
{
    let mut ids: Vec<String> = Vec::new();
    let mut q: usize = 0;
    proof {
        assert(questions@.subrange(0, 0) =~= Seq::<Vec<String>>::empty());
        assert(views_of_strings(ids@) =~= dedup(all_ids(questions@.subrange(0, 0))));
    }
    while q < questions.len()
        invariant
            q <= questions@.len(),
            views_of_strings(ids@) == dedup(all_ids(questions@.subrange(0, q as int))),
        decreases questions.len() - q,
    {
        let list = &questions[q];
        let ghost before = all_ids(questions@.subrange(0, q as int));
        let ghost lv = views_of_strings(list@);
        let mut j: usize = 0;
        proof {
            assert(before + lv.subrange(0, 0) =~= before);
        }
        while j < list.len()
            invariant
                j <= list@.len(),
                lv == views_of_strings(list@),
                views_of_strings(ids@) == dedup(before + lv.subrange(0, j as int)),
            decreases list.len() - j,
        {
            let ghost pre = before + lv.subrange(0, j as int);
            let ghost next = before + lv.subrange(0, j + 1);
            proof {
                assert(next.drop_last() =~= pre);
                assert(next.last() == list@[j as int]@);
            }
            let ghost old_ids = ids@;
            if !contains_string(&ids, list[j].as_str()) {
                ids.push(list[j].clone());
                proof {
                    assert(views_of_strings(ids@) =~= views_of_strings(old_ids).push(list@[j as int]@));
                }
            }
            j = j + 1;
        }
        proof {
            let pre = questions@.subrange(0, q + 1);
            assert(pre.drop_last() =~= questions@.subrange(0, q as int));
            assert(pre.last() == *list);
            assert(lv.subrange(0, j as int) =~= lv);
        }
        q = q + 1;
    }
    proof {
        assert(questions@.subrange(0, questions@.len() as int) =~= questions@);
    }
    ids
}

/// The message for an unknown session identifier.
pub open spec fn unknown_session_message(sid: Seq<char>) -> Seq<char> {
    "Session introuvable : '"@ + sid + "'"@
}

/// Position of the session whose identifier is `sid` among `session_ids`
/// (the first one); an unknown identifier is a configuration error.
pub fn find_session(session_ids: &Vec<String>, sid: &str) -> (r: Result<usize, KfError>)
    ensures
        r matches Ok(k) ==> k < session_ids@.len() && session_ids@[k as int]@ == sid@ && forall|j: int|
            0 <= j < k ==> (#[trigger] session_ids@[j])@ != sid@,
        r matches Err(e) ==> is_config_error(e, unknown_session_message(sid@)),
        r is Err <==> forall|j: int| 0 <= j < session_ids@.len() ==> (#[trigger] session_ids@[j])@ != sid@,
{
    let mut k: usize = 0;
    while k < session_ids.len()
        invariant
            k <= session_ids@.len(),
            forall|j: int| 0 <= j < k ==> (#[trigger] session_ids@[j])@ != sid@,
        decreases session_ids.len() - k,
    {
        if str_eq(session_ids[k].as_str(), sid) {
            return Ok(k);
        }
        k = k + 1;
    }
    let mut msg = chars_of("Session introuvable : '");
    push_str(&mut msg, sid);
    push_str(&mut msg, "'");
    Err(KfError::Config(string_of(&msg)))
}

/// Position of the last of the first `n` exercises whose identifier is `id`.
pub open spec fn last_with_id(exs: Seq<Exercise>, id: Seq<char>, n: int) -> Option<int>
    decreases n,
{
    if n <= 0 {
        None
    } else if exs[n - 1].id@ == id {
        Some(n - 1)
    } else {
        last_with_id(exs, id, n - 1)
    }
}

/// For each of the first `n` identifiers that names an exercise, the last
/// exercise of that identifier, in the order of the identifiers.
pub open spec fn selection_upto(exs: Seq<Exercise>, ids: Seq<Seq<char>>, n: int) -> Seq<Exercise>
    decreases n,
{
    if n <= 0 {
        seq![]
    } else {
        let prev = selection_upto(exs, ids, n - 1);
        match last_with_id(exs, ids[n - 1], exs.len() as int) {
            Some(i) => prev.push(exs[i]),
            None => prev,
        }
    }
}

/// Position of the last exercise whose identifier is `id`.
fn last_exercise_with_id(exercises: &[Exercise], id: &str) -> (r: Option<usize>)
    ensures
        r matches Some(i) ==> last_with_id(exercises@, id@, exercises@.len() as int) == Some(i as int)
            && i < exercises@.len(),
        r is None ==> last_with_id(exercises@, id@, exercises@.len() as int) is None,
{
    let mut n = exercises.len();
    while n > 0
        invariant
            n <= exercises@.len(),
            last_with_id(exercises@, id@, exercises@.len() as int) == last_with_id(exercises@, id@, n as int),
        decreases n,
    {
        if str_eq(exercises[n - 1].id.as_str(), id) {
            return Some(n - 1);
        }
        n = n - 1;
    }
    None
}

/// The exercises of an exam, in the order of its identifiers: identifiers
/// that name no exercise are skipped; where several exercises share an
/// identifier, the last one is taken.
pub fn select_exam_exercises<'a>(all_exercises: &'a [Exercise], ids: &Vec<String>) -> (r: Vec<&'a Exercise>)
    ensures
        r@.len() == selection_upto(all_exercises@, views_of_strings(ids@), ids@.len() as int).len(),
        forall|k: int| 0 <= k < r@.len() ==> *(#[trigger] r@[k]) == selection_upto(all_exercises@, views_of_strings(ids@), ids@.len() as int)[k],
{
    let ghost idv = views_of_strings(ids@);
    let mut r: Vec<&'a Exercise> = Vec::new();
    let mut n: usize = 0;
    while n < ids.len()
        invariant
            n <= ids@.len(),
            idv == views_of_strings(ids@),
            r@.len() == selection_upto(all_exercises@, idv, n as int).len(),
            forall|k: int| 0 <= k < r@.len() ==> *(#[trigger] r@[k]) == selection_upto(all_exercises@, idv, n as int)[k],
        decreases ids.len() - n,
    {
        proof {
            assert(idv[n as int] == ids@[n as int]@);
        }
        match last_exercise_with_id(all_exercises, ids[n].as_str()) {
            Some(i) => {
                r.push(&all_exercises[i]);
            },
            None => {},
        }
        n = n + 1;
    }
    r
}

/// The learner's answer cancels the exam: `q` or `Q`, whitespace aside.
pub open spec fn is_cancel(answer: Seq<char>) -> bool {
    trim(answer) == "q"@ || trim(answer) == "Q"@
}

/// Whether the answer to the start prompt cancels the exam.
pub fn is_cancel_answer(answer: &str) -> (r: bool)
    ensures
        r == is_cancel(answer@),
{
    let a = chars_of(answer);
    let t = trim_exec(&a);
    let t_str = string_of(&t);
    str_eq(t_str.as_str(), "q") || str_eq(t_str.as_str(), "Q")
}

// ── Session selector ────────────────────────────────────────────────────────

/// A key press in the session selector.
#[derive(Debug, Clone, Copy, PartialEq, Eq)]
pub enum SelectorKey {
    /// Up arrow, `k` or `K`.
    Up,
    /// Down arrow, `j` or `J`.
    Down,
    /// Enter.
    Enter,
    /// `q`, `Q` or Escape.
    Cancel,
    /// Any other key.
    Other,
}

/// What the selector does after a key press.
#[derive(Debug, Clone, Copy, PartialEq, Eq)]
pub enum SelectorStep {
    /// Keep selecting, with the cursor on this session.
    Select(usize),
    /// Launch this session.
    Launch(usize),
    /// Leave without choosing.
    Cancel,
}

/// The first position of `sid` among `ids`, if it is there.
pub open spec fn first_position(ids: Seq<Seq<char>>, sid: Seq<char>, n: int) -> Option<int>
    decreases n,
{
    if n <= 0 {
        None
    } else {
        match first_position(ids, sid, n - 1) {
            Some(k) => Some(k),
            None => if ids[n - 1] == sid { Some(n - 1) } else { None },
        }
    }
}

proof fn lemma_first_position_stays(ids: Seq<Seq<char>>, sid: Seq<char>, m: int, n: int)
    requires
        0 <= m <= n,
        first_position(ids, sid, m) is Some,
    ensures
        first_position(ids, sid, n) == first_position(ids, sid, m),
    decreases n - m,
{
    if n > m {
        lemma_first_position_stays(ids, sid, m, n - 1);
    }
}

/// Where the selector's cursor starts: on the last session launched when it
/// is among `session_ids`, else on the first session.
pub fn initial_cursor(session_ids: &Vec<String>, last: Option<&str>) -> (r: usize)
    ensures
        r as int == match last {
            Some(l) => match first_position(views_of_strings(session_ids@), l@, session_ids@.len() as int) {
                Some(k) => k,
                None => 0,
            },
            None => 0,
        },
{
    if last.is_none() {
        return 0;
    }
    let l: &str = last.unwrap();
    let ghost ids = views_of_strings(session_ids@);
    let mut k: usize = 0;
    while k < session_ids.len()
        invariant
            k <= session_ids@.len(),
            ids == views_of_strings(session_ids@),
            last == Some(l),
            first_position(ids, l@, k as int) is None,
        decreases session_ids.len() - k,
    {
        proof {
            assert(ids[k as int] == session_ids@[k as int]@);
        }
        if str_eq(session_ids[k].as_str(), l) {
            proof {
                assert(first_position(ids, l@, k + 1) == Some(k as int));
                lemma_first_position_stays(ids, l@, k + 1, session_ids@.len() as int);
            }
            return k;
        }
        k = k + 1;
    }
    0
}

/// The selector's answer to a key press with the cursor at `cursor` among
/// `count` sessions: up and down move the cursor within the list, Enter
/// launches the session under it, cancelling leaves, other keys change nothing.
pub fn selector_step(cursor: usize, count: usize, key: SelectorKey) -> (r: SelectorStep)
    requires
        cursor < count,
    ensures
        r == match key {
            SelectorKey::Up => SelectorStep::Select(if cursor > 0 { (cursor - 1) as usize } else { 0usize }),
            SelectorKey::Down => SelectorStep::Select(if cursor + 1 < count { (cursor + 1) as usize } else { cursor }),
            SelectorKey::Enter => SelectorStep::Launch(cursor),
            SelectorKey::Cancel => SelectorStep::Cancel,
            SelectorKey::Other => SelectorStep::Select(cursor),
        },
        r matches SelectorStep::Select(c) ==> c < count,
        r matches SelectorStep::Launch(c) ==> c < count,
{
    match key {
        SelectorKey::Up => SelectorStep::Select(if cursor > 0 { cursor - 1 } else { 0 }),
        SelectorKey::Down => SelectorStep::Select(if cursor + 1 < count { cursor + 1 } else { cursor }),
        SelectorKey::Enter => SelectorStep::Launch(cursor),
        SelectorKey::Cancel => SelectorStep::Cancel,
        SelectorKey::Other => SelectorStep::Select(cursor),
    }
}

} // verus!

