//! What the listing views show: the exercise list grouped by chapter, the
//! subjects of the statistics view ordered by mastery, and the exercises
//! named for a question of a past exam.
use vstd::prelude::*;

use crate::chapters::{
    chapter_index_of, chapter_of, lemma_stable_sort_sorted_permutation, sort_indices, stable_sort,
    views_of_strings, CHAPTER_COUNT,
};
use crate::models::Exercise;
use crate::text::str_eq;

verus! {

// ── Exercise list ───────────────────────────────────────────────────────────

/// The view of an optional subject filter.
pub open spec fn filter_view(f: Option<&str>) -> Option<Seq<char>> {
    match f {
        Some(s) => Some(s@),
        None => None,
    }
}

/// The view of an optional list of due subjects.
pub open spec fn due_view(d: Option<&Vec<String>>) -> Option<Seq<Seq<char>>> {
    match d {
        Some(v) => Some(views_of_strings(v@)),
        None => None,
    }
}

/// An exercise is listed when it is of the filtered subject (if any) and of
/// a subject due for review (if only those are asked for).
pub open spec fn listed(e: Exercise, subject: Option<Seq<char>>, due: Option<Seq<Seq<char>>>) -> bool {
    &&& subject matches Some(s) ==> e.subject@ == s
    &&& due matches Some(d) ==> d.contains(e.subject@)
}

/// Positions `i < n` of the listed exercises of chapter `c` (`None`: of no
/// chapter), in increasing order.
pub open spec fn list_bucket(exs: Seq<Exercise>, subject: Option<Seq<char>>, due: Option<Seq<Seq<char>>>, c: Option<int>, n: int) -> Seq<usize>
    decreases n,
{
    if n <= 0 {
        seq![]
    } else if listed(exs[n - 1], subject, due) && chapter_of(exs[n - 1].subject@) == c {
        list_bucket(exs, subject, due, c, n - 1).push((n - 1) as usize)
    } else {
        list_bucket(exs, subject, due, c, n - 1)
    }
}

/// The groups of the first `ci` chapters that list at least one exercise.
pub open spec fn list_groups_upto(exs: Seq<Exercise>, subject: Option<Seq<char>>, due: Option<Seq<Seq<char>>>, ci: int) -> Seq<(Option<int>, Seq<usize>)>
    decreases ci,
{
    if ci <= 0 {
        seq![]
    } else {
        let b = list_bucket(exs, subject, due, Some(ci - 1), exs.len() as int);
        list_groups_upto(exs, subject, due, ci - 1) + if b.len() > 0 { seq![(Some(ci - 1), b)] } else { seq![] }
    }
}

/// The exercise list: each curriculum chapter with listed exercises, in
/// curriculum order, then the listed exercises of no chapter, if any.
pub open spec fn list_groups_spec(exs: Seq<Exercise>, subject: Option<Seq<char>>, due: Option<Seq<Seq<char>>>) -> Seq<(Option<int>, Seq<usize>)> {
    let u = list_bucket(exs, subject, due, None, exs.len() as int);
    list_groups_upto(exs, subject, due, CHAPTER_COUNT as int) + if u.len() > 0 { seq![(None, u)] } else { seq![] }
}

/// A group of the exercise list.
pub struct ListGroup {
    /// Position (0-based) of the chapter in the curriculum, or `None` for
    /// exercises of no chapter.
    pub chapter: Option<usize>,
    /// Positions of the group's exercises, in their original order.
    pub exercises: Vec<usize>,
}

/// The view of a group.
pub open spec fn group_view(g: ListGroup) -> (Option<int>, Seq<usize>) {
    (match g.chapter { Some(c) => Some(c as int), None => None }, g.exercises@)
}

/// Whether `name` is one of `names`.
fn is_among(names: &Vec<String>, name: &str) -> (r: bool)
    ensures
        r == views_of_strings(names@).contains(name@),
{
    let mut k: usize = 0;
    while k < names.len()
        invariant
            k <= names.len(),
            forall|j: int| 0 <= j < k ==> names@[j]@ != name@,
        decreases names.len() - k,
    {
        if str_eq(names[k].as_str(), name) {
            proof {
                assert(views_of_strings(names@)[k as int] == name@);
            }
            return true;
        }
        k = k + 1;
    }
    proof {
        if views_of_strings(names@).contains(name@) {
            let j = choose|j: int| 0 <= j < views_of_strings(names@).len() && views_of_strings(names@)[j] == name@;
            assert(names@[j]@ == name@);
        }
    }
    false
}

/// Positions of the kept entries whose chapter is `c`, in increasing order.
fn collect_listed(
    keep: &Vec<bool>,
    chs: &Vec<Option<usize>>,
    c: Option<usize>,
    Ghost(exs): Ghost<Seq<Exercise>>,
    Ghost(subject): Ghost<Option<Seq<char>>>,
    Ghost(due): Ghost<Option<Seq<Seq<char>>>>,
    Ghost(cg): Ghost<Option<int>>,
) -> (res: Vec<usize>)
    requires
        keep@.len() == exs.len(),
        chs@.len() == exs.len(),
        forall|i: int| 0 <= i < exs.len() ==> #[trigger] keep@[i] == listed(exs[i], subject, due),
        forall|i: int| 0 <= i < exs.len() ==> ((#[trigger] chs@[i] == c) <==> chapter_of(exs[i].subject@) == cg),
    ensures
        res@ == list_bucket(exs, subject, due, cg, exs.len() as int),
{
    let mut res: Vec<usize> = Vec::new();
    let mut i: usize = 0;
    while i < keep.len()
        invariant
            i <= keep.len(),
            keep@.len() == exs.len(),
            chs@.len() == exs.len(),
            forall|i: int| 0 <= i < exs.len() ==> #[trigger] keep@[i] == listed(exs[i], subject, due),
            forall|i: int| 0 <= i < exs.len() ==> ((#[trigger] chs@[i] == c) <==> chapter_of(exs[i].subject@) == cg),
            res@ == list_bucket(exs, subject, due, cg, i as int),
        decreases keep.len() - i,
    {
        if keep[i] && chs[i] == c {
            res.push(i);
        }
        i = i + 1;
    }
    res
}

/// The exercise list of `clings list`: the exercises of `filter_subject`
/// (all when `None`) and, when `due` is given, of a subject in it, grouped
/// by curriculum chapter in curriculum order, then those of no chapter.
pub fn list_groups(exercises: &Vec<Exercise>, filter_subject: Option<&str>, due: Option<&Vec<String>>) -> (res: Vec<ListGroup>)
    ensures
        res@.map_values(|g: ListGroup| group_view(g)) == list_groups_spec(exercises@, filter_view(filter_subject), due_view(due)),
{
    let ghost exs = exercises@;
    let ghost subject = filter_view(filter_subject);
    let ghost duev = due_view(due);
    let n = exercises.len();
    let mut keep: Vec<bool> = Vec::new();
    let mut chs: Vec<Option<usize>> = Vec::new();
    let mut i: usize = 0;
    while i < n
        invariant
            i <= n,
            n == exs.len(),
            exs == exercises@,
            subject == filter_view(filter_subject),
            duev == due_view(due),
            keep@.len() == i,
            chs@.len() == i,
            forall|j: int| 0 <= j < i ==> #[trigger] keep@[j] == listed(exs[j], subject, duev),
            forall|j: int| 0 <= j < i ==> match #[trigger] chs@[j] {
                Some(c) => chapter_of(exs[j].subject@) == Some(c as int),
                None => chapter_of(exs[j].subject@) is None,
            },
        decreases n - i,
    {
        let e = &exercises[i];
        let by_subject = match filter_subject {
            Some(s) => str_eq(e.subject.as_str(), s),
            None => true,
        };
        let by_due = match due {
            Some(d) => is_among(d, e.subject.as_str()),
            None => true,
        };
        keep.push(by_subject && by_due);
        chs.push(chapter_index_of(e.subject.as_str()));
        i = i + 1;
    }
    let mut res: Vec<ListGroup> = Vec::new();
    let mut ci: usize = 0;
    while ci < CHAPTER_COUNT
        invariant
            ci <= CHAPTER_COUNT,
            n == exs.len(),
            keep@.len() == n,
            chs@.len() == n,
            forall|j: int| 0 <= j < n ==> #[trigger] keep@[j] == listed(exs[j], subject, duev),
            forall|j: int| 0 <= j < n ==> match #[trigger] chs@[j] {
                Some(c) => chapter_of(exs[j].subject@) == Some(c as int),
                None => chapter_of(exs[j].subject@) is None,
            },
            res@.map_values(|g: ListGroup| group_view(g)) == list_groups_upto(exs, subject, duev, ci as int),
        decreases CHAPTER_COUNT - ci,
    {
        proof {
            assert forall|j: int| 0 <= j < n implies ((#[trigger] chs@[j] == Some(ci)) <==> chapter_of(exs[j].subject@) == Some(ci as int)) by {
                match chs@[j] {
                    Some(c) => {},
                    None => {},
                }
            }
        }
        let b = collect_listed(&keep, &chs, Some(ci), Ghost(exs), Ghost(subject), Ghost(duev), Ghost(Some(ci as int)));
        let ghost prev = res@.map_values(|g: ListGroup| group_view(g));
        if b.len() > 0 {
            res.push(ListGroup { chapter: Some(ci), exercises: b });
            proof {
                assert(res@.map_values(|g: ListGroup| group_view(g)) =~= prev + seq![(Some(ci as int), b@)]);
            }
        }
        proof {
            assert(res@.map_values(|g: ListGroup| group_view(g)) =~= list_groups_upto(exs, subject, duev, ci + 1));
        }
        ci = ci + 1;
    }
    proof {
        assert forall|j: int| 0 <= j < n implies ((#[trigger] chs@[j] == None::<usize>) <==> chapter_of(exs[j].subject@) == None::<int>) by {
            match chs@[j] {
                Some(c) => {},
                None => {},
            }
        }
    }
    let u = collect_listed(&keep, &chs, None, Ghost(exs), Ghost(subject), Ghost(duev), Ghost(None));
    let ghost prev = res@.map_values(|g: ListGroup| group_view(g));
    if u.len() > 0 {
        res.push(ListGroup { chapter: None, exercises: u });
        proof {
            assert(res@.map_values(|g: ListGroup| group_view(g)) =~= prev + seq![(None::<int>, u@)]);
        }
    }
    proof {
        assert(res@.map_values(|g: ListGroup| group_view(g)) =~= list_groups_spec(exs, subject, duev));
    }
    res
}

// ── Statistics ──────────────────────────────────────────────────────────────

/// Number of subjects shown in each section of the statistics view when
/// there are too many to list them all.
pub const STATS_SECTION_SIZE: usize = 5;

/// The positions `0..n`.
pub open spec fn positions(n: nat) -> Seq<usize> {
    Seq::new(n, |i: int| i as usize)
}

/// Sort keys that put higher ranks first.
pub open spec fn descending_keys(ranks: Seq<u64>) -> Seq<(u8, u64)> {
    Seq::new(ranks.len(), |i: int| (0u8, (u64::MAX - ranks[i]) as u64))
}

/// The subjects ordered by mastery rank, highest first; subjects of equal
/// rank keep their order.
pub open spec fn by_mastery(ranks: Seq<u64>) -> Seq<usize> {
    stable_sort(positions(ranks.len()), descending_keys(ranks))
}

/// The subjects of the statistics view.
pub struct StatsSections {
    /// The subjects listed first (all of them, or the strongest).
    pub strongest: Vec<usize>,
    /// The weakest subjects, weakest first; empty when all are listed.
    pub to_reinforce: Vec<usize>,
}

/// The subjects of the statistics view, given the mastery rank of each
/// subject: all of them by mastery, highest first; or, when there are more
/// than twice `STATS_SECTION_SIZE`, the strongest ones and, apart, the
/// weakest ones, weakest first.
pub fn stats_sections(ranks: &Vec<u64>) -> (r: StatsSections)
    ensures
        by_mastery(ranks@).len() == ranks@.len(),
        by_mastery(ranks@).to_multiset() == positions(ranks@.len()).to_multiset(),
        forall|i: int, j: int| 0 <= i < j < ranks@.len() ==>
            ranks@[#[trigger] by_mastery(ranks@)[i] as int] >= ranks@[#[trigger] by_mastery(ranks@)[j] as int],
        ranks@.len() > 2 * STATS_SECTION_SIZE ==> {
            &&& r.strongest@ == by_mastery(ranks@).take(STATS_SECTION_SIZE as int)
            &&& r.to_reinforce@ == by_mastery(ranks@).skip(ranks@.len() - STATS_SECTION_SIZE).reverse()
        },
        ranks@.len() <= 2 * STATS_SECTION_SIZE ==> {
            &&& r.strongest@ == by_mastery(ranks@)
            &&& r.to_reinforce@.len() == 0
        },
{
    let n = ranks.len();
    let mut idx: Vec<usize> = Vec::new();
    let mut keys: Vec<(u8, u64)> = Vec::new();
    let mut i: usize = 0;
    while i < n
        invariant
            i <= n,
            n == ranks@.len(),
            idx@ =~= positions(i as nat),
            keys@ =~= descending_keys(ranks@).take(i as int),
        decreases n - i,
    {
        idx.push(i);
        keys.push((0u8, u64::MAX - ranks[i]));
        i = i + 1;
    }
    proof {
        assert(keys@ =~= descending_keys(ranks@));
    }
    let order = sort_indices(&idx, &keys);
    proof {
        lemma_stable_sort_sorted_permutation(positions(n as nat), descending_keys(ranks@));
        let o = by_mastery(ranks@);
        assert forall|i: int, j: int| 0 <= i < j < ranks@.len() implies
            ranks@[#[trigger] o[i] as int] >= ranks@[#[trigger] o[j] as int] by {
            assert(!crate::chapters::key_gt(descending_keys(ranks@)[o[i] as int], descending_keys(ranks@)[o[j] as int]));
        }
    }
    if n > 2 * STATS_SECTION_SIZE {
        let mut top: Vec<usize> = Vec::new();
        let mut k: usize = 0;
        while k < STATS_SECTION_SIZE
            invariant
                k <= STATS_SECTION_SIZE,
                order@.len() == n,
                n > 2 * STATS_SECTION_SIZE,
                top@ =~= order@.take(k as int),
            decreases STATS_SECTION_SIZE - k,
        {
            top.push(order[k]);
            k = k + 1;
        }
        let mut bottom: Vec<usize> = Vec::new();
        let mut k: usize = 0;
        while k < STATS_SECTION_SIZE
            invariant
                k <= STATS_SECTION_SIZE,
                order@.len() == n,
                n > 2 * STATS_SECTION_SIZE,
                bottom@ =~= order@.skip(n - STATS_SECTION_SIZE).reverse().take(k as int),
            decreases STATS_SECTION_SIZE - k,
        {
            bottom.push(order[n - 1 - k]);
            k = k + 1;
        }
        proof {
            assert(bottom@ =~= order@.skip(n - STATS_SECTION_SIZE).reverse());
        }
        StatsSections { strongest: top, to_reinforce: bottom }
    } else {
        StatsSections { strongest: order, to_reinforce: Vec::new() }
    }
}

// ── Past exams ──────────────────────────────────────────────────────────────

/// Number of exercise ids shown for a question of a past exam.
pub const ANNALE_SHOWN_IDS: usize = 5;

/// Ids of the exercises `i < n` whose subject is one of `subjects`.
pub open spec fn ids_of_subjects(exs: Seq<Exercise>, subjects: Seq<Seq<char>>, n: int) -> Seq<Seq<char>>
    decreases n,
{
    if n <= 0 {
        seq![]
    } else if subjects.contains(exs[n - 1].subject@) {
        ids_of_subjects(exs, subjects, n - 1).push(exs[n - 1].id@)
    } else {
        ids_of_subjects(exs, subjects, n - 1)
    }
}

/// The exercises of a question: its own list when it has one, else the
/// exercises of its subjects.
pub open spec fn question_ids(curated: Seq<Seq<char>>, subjects: Seq<Seq<char>>, exs: Seq<Exercise>) -> Seq<Seq<char>> {
    if curated.len() > 0 { curated } else { ids_of_subjects(exs, subjects, exs.len() as int) }
}

/// The exercises named for a question of a past exam: at most
/// `ANNALE_SHOWN_IDS` of them, and how many more there are.
pub fn question_exercises(curated: &Vec<String>, subjects: &Vec<String>, exercises: &Vec<Exercise>) -> (r: (Vec<String>, usize))
    ensures
        ({
            let all = question_ids(views_of_strings(curated@), views_of_strings(subjects@), exercises@);
            &&& views_of_strings(r.0@) == all.take(if all.len() < ANNALE_SHOWN_IDS { all.len() as int } else { ANNALE_SHOWN_IDS as int })
            &&& r.1 == if all.len() > ANNALE_SHOWN_IDS { all.len() - ANNALE_SHOWN_IDS } else { 0 }
        }),
{
    let ghost exs = exercises@;
    let ghost subs = views_of_strings(subjects@);
    let mut all: Vec<String> = Vec::new();
    if curated.len() > 0 {
        let mut i: usize = 0;
        while i < curated.len()
            invariant
                i <= curated.len(),
                views_of_strings(all@) =~= views_of_strings(curated@).take(i as int),
            decreases curated.len() - i,
        {
            let ghost before = all@;
            all.push(curated[i].clone());
            proof {
                assert(views_of_strings(all@) =~= views_of_strings(before).push(curated@[i as int]@));
            }
            i = i + 1;
        }
        proof {
            assert(views_of_strings(all@) =~= views_of_strings(curated@));
        }
    } else {
        let mut i: usize = 0;
        while i < exercises.len()
            invariant
                i <= exercises.len(),
                exs == exercises@,
                subs == views_of_strings(subjects@),
                views_of_strings(all@) =~= ids_of_subjects(exs, subs, i as int),
            decreases exercises.len() - i,
        {
            if is_among(subjects, exercises[i].subject.as_str()) {
                all.push(exercises[i].id.clone());
            }
            i = i + 1;
        }
    }
    let ghost allv = views_of_strings(all@);
    let shown_len = if all.len() < ANNALE_SHOWN_IDS { all.len() } else { ANNALE_SHOWN_IDS };
    let mut shown: Vec<String> = Vec::new();
    let mut k: usize = 0;
    while k < shown_len
        invariant
            k <= shown_len,
            shown_len <= all.len(),
            allv == views_of_strings(all@),
            views_of_strings(shown@) =~= allv.take(k as int),
        decreases shown_len - k,
    {
        let ghost before = shown@;
        shown.push(all[k].clone());
        proof {
            assert(views_of_strings(shown@) =~= views_of_strings(before).push(all@[k as int]@));
        }
        k = k + 1;
    }
    let more = if all.len() > ANNALE_SHOWN_IDS { all.len() - ANNALE_SHOWN_IDS } else { 0 };
    (shown, more)
}

} // verus!
