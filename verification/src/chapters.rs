//! Curriculum chapters and chapter-based ordering of exercises.
use vstd::prelude::*;

use crate::models::Exercise;
use crate::text::str_eq;

verus! {

/// Number of chapters in the curriculum.
pub const CHAPTER_COUNT: usize = 16;

/// A chapter of the learning path.
#[derive(Debug)]
pub struct Chapter {
    /// Chapter number (1-based; 0 for the block of uncategorised exercises).
    pub number: u8,
    /// Chapter title.
    pub title: String,
    /// Subjects taught in this chapter.
    pub subjects: Vec<String>,
}

/// Title of the chapter at position `i` (0-based) of the curriculum.
pub open spec fn chapter_title(i: int) -> Seq<char> {
    if i == 0 { "Fondamentaux C"@ }
    else if i == 1 { "Chaînes & bits"@ }
    else if i == 2 { "Allocation mémoire & errno"@ }
    else if i == 3 { "Entrées/sorties & descripteurs"@ }
    else if i == 4 { "Système de fichiers"@ }
    else if i == 5 { "Ordonnancement"@ }
    else if i == 6 { "Processus"@ }
    else if i == 7 { "Signaux"@ }
    else if i == 8 { "Tubes"@ }
    else if i == 9 { "Files de messages"@ }
    else if i == 10 { "Mémoire partagée"@ }
    else if i == 11 { "Sémaphores"@ }
    else if i == 12 { "Threads POSIX & synchronisation"@ }
    else if i == 13 { "Sockets"@ }
    else if i == 14 { "Mémoire virtuelle"@ }
    else { "Projets intégrateurs"@ }
}

/// Subjects of the chapter at position `i` (0-based) of the curriculum.
pub open spec fn chapter_subjects(i: int) -> Seq<Seq<char>> {
    if i == 0 { seq!["structs"@, "pointers"@] }
    else if i == 1 { seq!["string_formatting"@, "bitwise_ops"@] }
    else if i == 2 { seq!["memory_allocation"@, "errno"@] }
    else if i == 3 { seq!["file_io"@, "fd_basics"@] }
    else if i == 4 { seq!["filesystem"@] }
    else if i == 5 { seq!["scheduling"@] }
    else if i == 6 { seq!["processes"@] }
    else if i == 7 { seq!["signals"@] }
    else if i == 8 { seq!["pipes"@] }
    else if i == 9 { seq!["message_queues"@] }
    else if i == 10 { seq!["shared_memory"@] }
    else if i == 11 { seq!["semaphores"@] }
    else if i == 12 { seq!["pthreads"@, "sync_concepts"@] }
    else if i == 13 { seq!["sockets"@] }
    else if i == 14 { seq!["proc_memory"@, "virtual_memory"@] }
    else { seq!["capstones"@] }
}

/// The chapter value at position `i` of the curriculum.
pub open spec fn is_curriculum_chapter(c: Chapter, i: int) -> bool {
    &&& c.number == i + 1
    &&& c.title@ == chapter_title(i)
    &&& views_of_strings(c.subjects@) == chapter_subjects(i)
}

/// Position of the first chapter at or after `from` that teaches `subject`.
pub open spec fn chapter_of_from(subject: Seq<char>, from: int) -> Option<int>
    decreases CHAPTER_COUNT - from,
{
    if from < 0 || from >= CHAPTER_COUNT {
        None
    } else if chapter_subjects(from).contains(subject) {
        Some(from)
    } else {
        chapter_of_from(subject, from + 1)
    }
}

/// Position (0-based) of the chapter that teaches `subject`, if any.
pub open spec fn chapter_of(subject: Seq<char>) -> Option<int> {
    chapter_of_from(subject, 0)
}

fn make_chapter(number: u8, title: &str, subjects: Vec<String>) -> (c: Chapter)
    ensures
        c.number == number,
        c.title@ == title@,
        c.subjects@ == subjects@,
{
    Chapter { number, title: String::from_str(title), subjects }
}

fn subjects1(a: &str) -> (v: Vec<String>)
    ensures
        views_of_strings(v@) == seq![a@],
{
    let mut v: Vec<String> = Vec::new();
    v.push(String::from_str(a));
    proof {
        assert(views_of_strings(v@) =~= seq![a@]);
    }
    v
}

fn subjects2(a: &str, b: &str) -> (v: Vec<String>)
    ensures
        views_of_strings(v@) == seq![a@, b@],
{
    let mut v: Vec<String> = Vec::new();
    v.push(String::from_str(a));
    v.push(String::from_str(b));
    proof {
        assert(views_of_strings(v@) =~= seq![a@, b@]);
    }
    v
}

/// The views of a sequence of strings.
pub open spec fn views_of_strings(v: Seq<String>) -> Seq<Seq<char>> {
    v.map_values(|s: String| s@)
}

/// The chapter at position `i` (0-based) of the curriculum.
pub fn curriculum_chapter(i: usize) -> (c: Chapter)
    requires
        i < CHAPTER_COUNT,
    ensures
        c.number == i + 1,
        c.title@ == chapter_title(i as int),
        views_of_strings(c.subjects@) == chapter_subjects(i as int),
{
    let n = (i + 1) as u8;
    if i == 0 { make_chapter(n, "Fondamentaux C", subjects2("structs", "pointers")) }
    else if i == 1 { make_chapter(n, "Chaînes & bits", subjects2("string_formatting", "bitwise_ops")) }
    else if i == 2 { make_chapter(n, "Allocation mémoire & errno", subjects2("memory_allocation", "errno")) }
    else if i == 3 { make_chapter(n, "Entrées/sorties & descripteurs", subjects2("file_io", "fd_basics")) }
    else if i == 4 { make_chapter(n, "Système de fichiers", subjects1("filesystem")) }
    else if i == 5 { make_chapter(n, "Ordonnancement", subjects1("scheduling")) }
    else if i == 6 { make_chapter(n, "Processus", subjects1("processes")) }
    else if i == 7 { make_chapter(n, "Signaux", subjects1("signals")) }
    else if i == 8 { make_chapter(n, "Tubes", subjects1("pipes")) }
    else if i == 9 { make_chapter(n, "Files de messages", subjects1("message_queues")) }
    else if i == 10 { make_chapter(n, "Mémoire partagée", subjects1("shared_memory")) }
    else if i == 11 { make_chapter(n, "Sémaphores", subjects1("semaphores")) }
    else if i == 12 { make_chapter(n, "Threads POSIX & synchronisation", subjects2("pthreads", "sync_concepts")) }
    else if i == 13 { make_chapter(n, "Sockets", subjects1("sockets")) }
    else if i == 14 { make_chapter(n, "Mémoire virtuelle", subjects2("proc_memory", "virtual_memory")) }
    else { make_chapter(n, "Projets intégrateurs", subjects1("capstones")) }
}

/// The chapter that gathers exercises of subjects outside the curriculum.
pub fn uncategorized_chapter() -> (c: Chapter)
    ensures
        c.number == 0,
        c.title@ == "Divers"@,
        c.subjects@.len() == 0,
{
    make_chapter(0, "Divers", Vec::new())
}

/// The whole curriculum, chapter 1 first.
pub fn chapters() -> (res: Vec<Chapter>)
    ensures
        res@.len() == CHAPTER_COUNT,
        forall|i: int|
            0 <= i < CHAPTER_COUNT ==> {
                &&& (#[trigger] res@[i]).number == i + 1
                &&& res@[i].title@ == chapter_title(i)
                &&& views_of_strings(res@[i].subjects@) == chapter_subjects(i)
            },
{
    let mut res: Vec<Chapter> = Vec::new();
    let mut i: usize = 0;
    while i < CHAPTER_COUNT
        invariant
            i <= CHAPTER_COUNT,
            res@.len() == i,
            forall|j: int|
                0 <= j < i ==> {
                    &&& (#[trigger] res@[j]).number == j + 1
                    &&& res@[j].title@ == chapter_title(j)
                    &&& views_of_strings(res@[j].subjects@) == chapter_subjects(j)
                },
        decreases CHAPTER_COUNT - i,
    {
        res.push(curriculum_chapter(i));
        i = i + 1;
    }
    res
}

/// Whether `name` is one of `subjects`.
fn teaches(subjects: &Vec<String>, name: &str) -> (r: bool)
    ensures
        r == views_of_strings(subjects@).contains(name@),
{
    let mut k: usize = 0;
    while k < subjects.len()
        invariant
            k <= subjects.len(),
            forall|j: int| 0 <= j < k ==> subjects@[j]@ != name@,
        decreases subjects.len() - k,
    {
        if str_eq(subjects[k].as_str(), name) {
            proof {
                assert(views_of_strings(subjects@)[k as int] == name@);
            }
            return true;
        }
        k = k + 1;
    }
    proof {
        if views_of_strings(subjects@).contains(name@) {
            let j = choose|j: int| 0 <= j < views_of_strings(subjects@).len() && views_of_strings(subjects@)[j] == name@;
            assert(subjects@[j]@ == name@);
        }
    }
    false
}

/// Position (0-based) of the chapter that teaches `subject`, if any.
pub fn chapter_index_of(subject: &str) -> (r: Option<usize>)
    ensures
        r matches Some(i) ==> chapter_of(subject@) == Some(i as int),
        r is None ==> chapter_of(subject@) is None,
{
    let mut i: usize = CHAPTER_COUNT;
    let mut found: Option<usize> = None;
    // scan backwards so that the earliest chapter wins, as `chapter_of` says
    while i > 0
        invariant
            i <= CHAPTER_COUNT,
            found matches Some(f) ==> chapter_of_from(subject@, i as int) == Some(f as int),
            found is None ==> chapter_of_from(subject@, i as int) is None,
        decreases i,
    {
        i = i - 1;
        let c = curriculum_chapter(i);
        if teaches(&c.subjects, subject) {
            found = Some(i);
        }
    }
    found
}

// ── Ordering ────────────────────────────────────────────────────────────────

/// Where a subject stands in the learner's mastery order: subjects of lower
/// mastery have a lower rank, subjects of equal mastery an equal rank.
#[derive(Debug, Clone)]
pub struct SubjectRank {
    /// Subject name.
    pub name: String,
    /// Rank of the subject's mastery score.
    pub rank: u64,
}

/// A chapter together with its exercises, in learning order.
#[derive(Debug)]
pub struct ChapterBlock<'a> {
    /// Chapter metadata.
    pub chapter: Chapter,
    /// The chapter's exercises, ordered.
    pub exercises: Vec<&'a Exercise>,
}

/// The mastery rank of `name`: that of its last entry among the first `n`
/// entries of `ranks`, or `default` where it has none.
pub open spec fn rank_in(ranks: Seq<SubjectRank>, name: Seq<char>, default: u64, n: int) -> u64
    decreases n,
{
    if n <= 0 {
        default
    } else if ranks[n - 1].name@ == name {
        ranks[n - 1].rank
    } else {
        rank_in(ranks, name, default, n - 1)
    }
}

/// The mastery rank of `name` (the last entry for it wins).
pub open spec fn rank_of(ranks: Seq<SubjectRank>, name: Seq<char>, default: u64) -> u64 {
    rank_in(ranks, name, default, ranks.len() as int)
}

/// Sort key of an exercise inside a chapter: difficulty, then mastery rank.
pub open spec fn exercise_key(e: Exercise, ranks: Seq<SubjectRank>, default: u64) -> (u8, u64) {
    (e.difficulty.level(), rank_of(ranks, e.subject@, default))
}

/// Sort keys of all exercises inside their chapters.
pub open spec fn chapter_keys(exs: Seq<Exercise>, ranks: Seq<SubjectRank>, default: u64) -> Seq<(u8, u64)> {
    Seq::new(exs.len(), |i: int| exercise_key(exs[i], ranks, default))
}

/// Sort keys of exercises outside the curriculum: difficulty alone.
pub open spec fn difficulty_keys(exs: Seq<Exercise>) -> Seq<(u8, u64)> {
    Seq::new(exs.len(), |i: int| (exs[i].difficulty.level(), 0u64))
}

/// `a` sorts strictly after `b`.
pub open spec fn key_gt(a: (u8, u64), b: (u8, u64)) -> bool {
    a.0 > b.0 || (a.0 == b.0 && a.1 > b.1)
}

/// First position of `s` whose key sorts strictly after `k`, or `s.len()`.
pub open spec fn first_gt(s: Seq<usize>, keys: Seq<(u8, u64)>, k: (u8, u64)) -> int
    decreases s.len(),
{
    if s.len() == 0 {
        0
    } else if key_gt(keys[s[0] as int], k) {
        0
    } else {
        1 + first_gt(s.drop_first(), keys, k)
    }
}

/// `s` stably sorted by `keys` (insertion sort: each element is placed after
/// every element already placed whose key is not greater).
pub open spec fn stable_sort(s: Seq<usize>, keys: Seq<(u8, u64)>) -> Seq<usize>
    decreases s.len(),
{
    if s.len() == 0 {
        s
    } else {
        let r = stable_sort(s.drop_last(), keys);
        r.insert(first_gt(r, keys, keys[s.last() as int]), s.last())
    }
}

/// Positions `i < n` of the exercises whose subject belongs to chapter `c`
/// (`None`: to no chapter), in increasing order.
pub open spec fn bucket(exs: Seq<Exercise>, c: Option<int>, n: int) -> Seq<usize>
    decreases n,
{
    if n <= 0 {
        seq![]
    } else if chapter_of(exs[n - 1].subject@) == c {
        bucket(exs, c, n - 1).push((n - 1) as usize)
    } else {
        bucket(exs, c, n - 1)
    }
}

/// The blocks of the first `ci` chapters: for each chapter that has
/// exercises, its number and the positions of its exercises in order.
pub open spec fn blocks_upto(exs: Seq<Exercise>, ranks: Seq<SubjectRank>, default: u64, ci: int) -> Seq<(u8, Seq<usize>)>
    decreases ci,
{
    if ci <= 0 {
        seq![]
    } else {
        let b = stable_sort(bucket(exs, Some(ci - 1), exs.len() as int), chapter_keys(exs, ranks, default));
        blocks_upto(exs, ranks, default, ci - 1) + if b.len() > 0 {
            seq![(ci as u8, b)]
        } else {
            seq![]
        }
    }
}

/// The ordering of `order_by_chapters`: curriculum chapters in order, then
/// the block of exercises outside the curriculum (number 0) if there are any.
pub open spec fn chapter_order(exs: Seq<Exercise>, ranks: Seq<SubjectRank>, default: u64) -> Seq<(u8, Seq<usize>)> {
    let u = stable_sort(bucket(exs, None, exs.len() as int), difficulty_keys(exs));
    blocks_upto(exs, ranks, default, CHAPTER_COUNT as int) + if u.len() > 0 {
        seq![(0u8, u)]
    } else {
        seq![]
    }
}

/// `blk` holds chapter `number` (or the uncategorised chapter for 0) and the
/// exercises at positions `idx`, in that order.
pub open spec fn block_matches(blk: ChapterBlock, exs: Seq<Exercise>, number: u8, idx: Seq<usize>) -> bool {
    &&& blk.chapter.number == number
    &&& number > 0 ==> is_curriculum_chapter(blk.chapter, number - 1)
    &&& number == 0 ==> blk.chapter.title@ == "Divers"@ && blk.chapter.subjects@.len() == 0
    &&& blk.exercises@.len() == idx.len()
    &&& forall|j: int| 0 <= j < idx.len() ==> *(#[trigger] blk.exercises@[j]) == exs[idx[j] as int]
}

pub proof fn lemma_first_gt_bounds(s: Seq<usize>, keys: Seq<(u8, u64)>, k: (u8, u64))
    ensures
        0 <= first_gt(s, keys, k) <= s.len(),
    decreases s.len(),
{
    if s.len() > 0 && !key_gt(keys[s[0] as int], k) {
        lemma_first_gt_bounds(s.drop_first(), keys, k);
    }
}

pub proof fn lemma_first_gt_is(s: Seq<usize>, keys: Seq<(u8, u64)>, k: (u8, u64), p: int)
    requires
        0 <= p <= s.len(),
        forall|j: int| 0 <= j < p ==> !key_gt(keys[s[j] as int], k),
        p < s.len() ==> key_gt(keys[s[p] as int], k),
    ensures
        first_gt(s, keys, k) == p,
    decreases p,
{
    if p > 0 {
        assert forall|j: int| 0 <= j < p - 1 implies !key_gt(keys[s.drop_first()[j] as int], k) by {
            assert(s.drop_first()[j] == s[j + 1]);
        }
        lemma_first_gt_is(s.drop_first(), keys, k, p - 1);
    }
}

fn key_gt_exec(a: (u8, u64), b: (u8, u64)) -> (r: bool)
    ensures
        r == key_gt(a, b),
{
    a.0 > b.0 || (a.0 == b.0 && a.1 > b.1)
}

/// `idx` stably sorted by `keys` (insertion sort).
pub fn sort_indices(idx: &Vec<usize>, keys: &Vec<(u8, u64)>) -> (res: Vec<usize>)
    requires
        forall|j: int| 0 <= j < idx@.len() ==> (#[trigger] idx@[j]) < keys@.len(),
    ensures
        res@ == stable_sort(idx@, keys@),
        forall|j: int| 0 <= j < res@.len() ==> (#[trigger] res@[j]) < keys@.len(),
{
    let mut r: Vec<usize> = Vec::new();
    let mut i: usize = 0;
    proof {
        assert(idx@.subrange(0, 0) =~= Seq::<usize>::empty());
    }
    while i < idx.len()
        invariant
            i <= idx.len(),
            forall|j: int| 0 <= j < idx@.len() ==> (#[trigger] idx@[j]) < keys@.len(),
            r@ == stable_sort(idx@.subrange(0, i as int), keys@),
            forall|j: int| 0 <= j < r@.len() ==> (#[trigger] r@[j]) < keys@.len(),
        decreases idx.len() - i,
    {
        let x = idx[i];
        let k = keys[x];
        let mut p: usize = 0;
        while p < r.len() && !key_gt_exec(keys[r[p]], k)
            invariant
                p <= r.len(),
                forall|j: int| 0 <= j < r@.len() ==> (#[trigger] r@[j]) < keys@.len(),
                forall|j: int| 0 <= j < p ==> !key_gt(keys@[r@[j] as int], k),
            decreases r.len() - p,
        {
            p = p + 1;
        }
        let ghost old_r = r@;
        proof {
            lemma_first_gt_is(old_r, keys@, k, p as int);
            let pre = idx@.subrange(0, i + 1);
            assert(pre.drop_last() =~= idx@.subrange(0, i as int));
            assert(pre.last() == x);
        }
        r.insert(p, x);
        proof {
            old_r.insert_ensures(p as int, x);
            assert forall|j: int| 0 <= j < r@.len() implies (#[trigger] r@[j]) < keys@.len() by {
                if j < p {
                    assert(r@[j] == old_r[j]);
                } else if j > p {
                    assert(r@[j] == old_r[j - 1]);
                }
            }
        }
        i = i + 1;
    }
    proof {
        assert(idx@.subrange(0, idx@.len() as int) =~= idx@);
    }
    r
}

/// Positions of the entries of `chs` equal to `c`, in increasing order.
fn collect_bucket(chs: &Vec<Option<usize>>, c: Option<usize>, Ghost(exs): Ghost<Seq<Exercise>>, Ghost(cg): Ghost<Option<int>>) -> (res: Vec<usize>)
    requires
        chs@.len() == exs.len(),
        forall|i: int| 0 <= i < chs@.len() ==> ((#[trigger] chs@[i] == c) <==> chapter_of(exs[i].subject@) == cg),
    ensures
        res@ == bucket(exs, cg, exs.len() as int),
        forall|j: int| 0 <= j < res@.len() ==> (#[trigger] res@[j]) < exs.len(),
{
    let mut res: Vec<usize> = Vec::new();
    let mut i: usize = 0;
    while i < chs.len()
        invariant
            i <= chs.len(),
            chs@.len() == exs.len(),
            forall|i: int| 0 <= i < chs@.len() ==> ((#[trigger] chs@[i] == c) <==> chapter_of(exs[i].subject@) == cg),
            res@ == bucket(exs, cg, i as int),
            forall|j: int| 0 <= j < res@.len() ==> (#[trigger] res@[j]) < i,
        decreases chs.len() - i,
    {
        if chs[i] == c {
            res.push(i);
        }
        i = i + 1;
    }
    res
}

/// The rank of `name` in `ranks` (the last entry for it wins), or `default`.
pub fn subject_rank(ranks: &Vec<SubjectRank>, name: &str, default: u64) -> (r: u64)
    ensures
        r == rank_of(ranks@, name@, default),
{
    let mut n = ranks.len();
    while n > 0
        invariant
            n <= ranks.len(),
            rank_of(ranks@, name@, default) == rank_in(ranks@, name@, default, n as int),
        decreases n,
    {
        if str_eq(ranks[n - 1].name.as_str(), name) {
            return ranks[n - 1].rank;
        }
        n = n - 1;
    }
    default
}

fn block_of<'a>(chapter: Chapter, exs: &'a Vec<Exercise>, idx: &Vec<usize>) -> (blk: ChapterBlock<'a>)
    requires
        forall|j: int| 0 <= j < idx@.len() ==> (#[trigger] idx@[j]) < exs@.len(),
    ensures
        blk.chapter == chapter,
        blk.exercises@.len() == idx@.len(),
        forall|j: int| 0 <= j < idx@.len() ==> *(#[trigger] blk.exercises@[j]) == exs@[idx@[j] as int],
{
    let mut v: Vec<&'a Exercise> = Vec::new();
    let mut j: usize = 0;
    while j < idx.len()
        invariant
            j <= idx.len(),
            forall|j: int| 0 <= j < idx@.len() ==> (#[trigger] idx@[j]) < exs@.len(),
            v@.len() == j,
            forall|k: int| 0 <= k < j ==> *(#[trigger] v@[k]) == exs@[idx@[k] as int],
        decreases idx.len() - j,
    {
        v.push(&exs[idx[j]]);
        j = j + 1;
    }
    ChapterBlock { chapter, exercises: v }
}

/// Orders exercises along the curriculum: chapter by chapter (only chapters
/// that have exercises), each ordered by difficulty then by mastery rank
/// (lowest first), stably; exercises of subjects outside the curriculum come
/// last, in a block numbered 0, ordered stably by difficulty alone.
pub fn order_by_chapters<'a>(exercises: &'a Vec<Exercise>, ranks: &Vec<SubjectRank>, default_rank: u64) -> (res: Vec<ChapterBlock<'a>>)
    ensures
        res@.len() == chapter_order(exercises@, ranks@, default_rank).len(),
        forall|k: int| 0 <= k < res@.len() ==> block_matches(#[trigger] res@[k], exercises@,
            chapter_order(exercises@, ranks@, default_rank)[k].0,
            chapter_order(exercises@, ranks@, default_rank)[k].1),
        forall|k: int| 0 <= k < res@.len() ==> block_sorted(exercises@, ranks@, default_rank,
            #[trigger] chapter_order(exercises@, ranks@, default_rank)[k]),
        forall|k: int, i: int, j: int| 0 <= k < res@.len() && 0 <= i < j < res@[k].exercises@.len() ==>
            (#[trigger] res@[k].exercises@[i]).difficulty.level() <= (#[trigger] res@[k].exercises@[j]).difficulty.level(),
{
    let ghost exs = exercises@;
    let n = exercises.len();
    let mut chs: Vec<Option<usize>> = Vec::new();
    let mut keys: Vec<(u8, u64)> = Vec::new();
    let mut ukeys: Vec<(u8, u64)> = Vec::new();
    let mut i: usize = 0;
    while i < n
        invariant
            i <= n,
            n == exs.len(),
            exs == exercises@,
            chs@.len() == i,
            keys@.len() == i,
            ukeys@.len() == i,
            forall|j: int| 0 <= j < i ==> match #[trigger] chs@[j] {
                Some(c) => chapter_of(exs[j].subject@) == Some(c as int),
                None => chapter_of(exs[j].subject@) is None,
            },
            forall|j: int| 0 <= j < i ==> #[trigger] keys@[j] == exercise_key(exs[j], ranks@, default_rank),
            forall|j: int| 0 <= j < i ==> #[trigger] ukeys@[j] == (exs[j].difficulty.level(), 0u64),
        decreases n - i,
    {
        let e = &exercises[i];
        chs.push(chapter_index_of(e.subject.as_str()));
        let lvl = e.difficulty.as_u8();
        keys.push((lvl, subject_rank(ranks, e.subject.as_str(), default_rank)));
        ukeys.push((lvl, 0u64));
        i = i + 1;
    }
    proof {
        assert(keys@ =~= chapter_keys(exs, ranks@, default_rank));
        assert(ukeys@ =~= difficulty_keys(exs));
    }
    let mut res: Vec<ChapterBlock<'a>> = Vec::new();
    let mut ci: usize = 0;
    while ci < CHAPTER_COUNT
        invariant
            ci <= CHAPTER_COUNT,
            n == exs.len(),
            exs == exercises@,
            chs@.len() == n,
            keys@ == chapter_keys(exs, ranks@, default_rank),
            forall|j: int| 0 <= j < n ==> match #[trigger] chs@[j] {
                Some(c) => chapter_of(exs[j].subject@) == Some(c as int),
                None => chapter_of(exs[j].subject@) is None,
            },
            res@.len() == blocks_upto(exs, ranks@, default_rank, ci as int).len(),
            forall|k: int| 0 <= k < res@.len() ==> block_matches(#[trigger] res@[k], exs,
                blocks_upto(exs, ranks@, default_rank, ci as int)[k].0,
                blocks_upto(exs, ranks@, default_rank, ci as int)[k].1),
        decreases CHAPTER_COUNT - ci,
    {
        proof {
            assert forall|j: int| 0 <= j < chs@.len() implies ((#[trigger] chs@[j] == Some(ci)) <==> chapter_of(exs[j].subject@) == Some(ci as int)) by {
                match chs@[j] {
                    Some(c) => {},
                    None => {},
                }
            }
        }
        let b = collect_bucket(&chs, Some(ci), Ghost(exs), Ghost(Some(ci as int)));
        let sorted = sort_indices(&b, &keys);
        let ghost prev = blocks_upto(exs, ranks@, default_rank, ci as int);
        if sorted.len() > 0 {
            let blk = block_of(curriculum_chapter(ci), exercises, &sorted);
            let ghost old_res = res@;
            res.push(blk);
            proof {
                let nb = blocks_upto(exs, ranks@, default_rank, ci + 1);
                assert(nb =~= prev + seq![((ci + 1) as u8, sorted@)]);
                assert forall|k: int| 0 <= k < res@.len() implies block_matches(#[trigger] res@[k], exs, nb[k].0, nb[k].1) by {
                    if k < old_res.len() {
                        assert(res@[k] == old_res[k]);
                    }
                }
            }
        } else {
            proof {
                let nb = blocks_upto(exs, ranks@, default_rank, ci + 1);
                assert(nb =~= prev);
            }
        }
        ci = ci + 1;
    }
    proof {
        assert forall|j: int| 0 <= j < chs@.len() implies ((#[trigger] chs@[j] == None::<usize>) <==> chapter_of(exs[j].subject@) == None::<int>) by {
            match chs@[j] {
                Some(c) => {},
                None => {},
            }
        }
    }
    let u = collect_bucket(&chs, None, Ghost(exs), Ghost(None));
    let usorted = sort_indices(&u, &ukeys);
    let ghost prev = blocks_upto(exs, ranks@, default_rank, CHAPTER_COUNT as int);
    if usorted.len() > 0 {
        let blk = block_of(uncategorized_chapter(), exercises, &usorted);
        let ghost old_res = res@;
        res.push(blk);
        proof {
            let nb = chapter_order(exs, ranks@, default_rank);
            assert(nb =~= prev + seq![(0u8, usorted@)]);
            assert forall|k: int| 0 <= k < res@.len() implies block_matches(#[trigger] res@[k], exs, nb[k].0, nb[k].1) by {
                if k < old_res.len() {
                    assert(res@[k] == old_res[k]);
                }
            }
        }
    } else {
        proof {
            assert(chapter_order(exs, ranks@, default_rank) =~= prev);
        }
    }
    proof {
        lemma_chapter_order_sorted(exs, ranks@, default_rank);
        lemma_chapter_blocks_in_order(exs, ranks@, default_rank);
        let co = chapter_order(exs, ranks@, default_rank);
        assert forall|k: int, i: int, j: int| 0 <= k < res@.len() && 0 <= i < j < res@[k].exercises@.len() implies
            (#[trigger] res@[k].exercises@[i]).difficulty.level() <= (#[trigger] res@[k].exercises@[j]).difficulty.level() by {
            assert(block_matches(res@[k], exs, co[k].0, co[k].1));
            assert(in_block_order(exs, ranks@, default_rank, co[k].0, co[k].1[i], co[k].1[j]));
        }
    }
    res
}

/// `s` is ordered by `keys`: no element sorts strictly after a later one.
pub open spec fn sorted_by(s: Seq<usize>, keys: Seq<(u8, u64)>) -> bool {
    forall|i: int, j: int| 0 <= i < j < s.len() ==> !key_gt(#[trigger] keys[s[i] as int], #[trigger] keys[s[j] as int])
}

/// Stable sorting orders the positions by their keys and keeps every
/// position exactly as often as it was given.
pub proof fn lemma_stable_sort_sorted_permutation(s: Seq<usize>, keys: Seq<(u8, u64)>)
    ensures
        sorted_by(stable_sort(s, keys), keys),
        stable_sort(s, keys).to_multiset() == s.to_multiset(),
        stable_sort(s, keys).len() == s.len(),
    decreases s.len(),
{
    broadcast use vstd::seq_lib::group_to_multiset_ensures;
    if s.len() > 0 {
        let r = stable_sort(s.drop_last(), keys);
        lemma_stable_sort_sorted_permutation(s.drop_last(), keys);
        let x = s.last();
        let k = keys[x as int];
        let p = first_gt(r, keys, k);
        lemma_first_gt_bounds(r, keys, k);
        lemma_first_gt_facts(r, keys, k);
        let r2 = r.insert(p, x);
        r.insert_ensures(p, x);
        assert forall|i: int, j: int| 0 <= i < j < r2.len() implies !key_gt(#[trigger] keys[r2[i] as int], #[trigger] keys[r2[j] as int]) by {
            if j < p {
                assert(r2[i] == r[i] && r2[j] == r[j]);
            } else if j == p {
                assert(r2[i] == r[i]);
            } else if i > p {
                assert(r2[i] == r[i - 1] && r2[j] == r[j - 1]);
            } else if i == p {
                assert(r2[j] == r[j - 1]);
                assert(key_gt(keys[r[p] as int], k));
                if j - 1 > p {
                    assert(!key_gt(keys[r[p] as int], keys[r[j - 1] as int]));
                }
            } else {
                assert(r2[i] == r[i] && r2[j] == r[j - 1]);
            }
        }
        assert(s =~= s.drop_last().push(x));
    }
}

pub proof fn lemma_first_gt_facts(s: Seq<usize>, keys: Seq<(u8, u64)>, k: (u8, u64))
    ensures
        forall|j: int| 0 <= j < first_gt(s, keys, k) ==> !key_gt(#[trigger] keys[s[j] as int], k),
        first_gt(s, keys, k) < s.len() ==> key_gt(keys[s[first_gt(s, keys, k)] as int], k),
    decreases s.len(),
{
    if s.len() > 0 && !key_gt(keys[s[0] as int], k) {
        lemma_first_gt_facts(s.drop_first(), keys, k);
        lemma_first_gt_bounds(s, keys, k);
        lemma_first_gt_bounds(s.drop_first(), keys, k);
        let f = first_gt(s.drop_first(), keys, k);
        if f < s.len() - 1 {
            assert(s[f + 1] == s.drop_first()[f]);
        }
        assert forall|j: int| 0 <= j < first_gt(s, keys, k) implies !key_gt(#[trigger] keys[s[j] as int], k) by {
            if j > 0 {
                assert(s[j] == s.drop_first()[j - 1]);
            }
        }
    }
}

/// The exercises of `bs`, block after block.
pub open spec fn flatten<'a>(bs: Seq<ChapterBlock<'a>>) -> Seq<&'a Exercise>
    decreases bs.len(),
{
    if bs.len() == 0 {
        seq![]
    } else {
        flatten(bs.drop_last()) + bs.last().exercises@
    }
}

/// The blocks of `bs` whose chapter number is `n`, in order.
pub open spec fn keep_chapter<'a>(bs: Seq<ChapterBlock<'a>>, n: u8) -> Seq<ChapterBlock<'a>>
    decreases bs.len(),
{
    if bs.len() == 0 {
        seq![]
    } else if bs.last().chapter.number == n {
        keep_chapter(bs.drop_last(), n).push(bs.last())
    } else {
        keep_chapter(bs.drop_last(), n)
    }
}

/// Flattens chapter blocks into one linear list of exercises, block after
/// block, each block's exercises in their order.
pub fn flatten_chapters<'a>(blocks: &Vec<ChapterBlock<'a>>) -> (res: Vec<&'a Exercise>)
    ensures
        res@ == flatten(blocks@),
{
    let mut res: Vec<&'a Exercise> = Vec::new();
    let mut b: usize = 0;
    while b < blocks.len()
        invariant
            b <= blocks.len(),
            res@ == flatten(blocks@.subrange(0, b as int)),
        decreases blocks.len() - b,
    {
        let blk = &blocks[b];
        let ghost before = res@;
        let mut j: usize = 0;
        while j < blk.exercises.len()
            invariant
                j <= blk.exercises.len(),
                res@ == before + blk.exercises@.subrange(0, j as int),
            decreases blk.exercises.len() - j,
        {
            res.push(blk.exercises[j]);
            proof {
                assert(res@ =~= before + blk.exercises@.subrange(0, j + 1));
            }
            j = j + 1;
        }
        proof {
            let pre = blocks@.subrange(0, b + 1);
            assert(pre.drop_last() =~= blocks@.subrange(0, b as int));
            assert(blk.exercises@.subrange(0, j as int) =~= blk.exercises@);
        }
        b = b + 1;
    }
    proof {
        assert(blocks@.subrange(0, blocks@.len() as int) =~= blocks@);
    }
    res
}

/// Keeps only the blocks of chapter `chapter` when one is given. Returns
/// `false` exactly when a chapter was given and no block of it remains.
pub fn filter_by_chapter(blocks: &mut Vec<ChapterBlock<'_>>, chapter: Option<u8>) -> (r: bool)
    ensures
        chapter is None ==> final(blocks)@ == old(blocks)@ && r,
        chapter matches Some(n) ==> final(blocks)@ == keep_chapter(old(blocks)@, n) && r == (
        final(blocks)@.len() > 0),
{
    match chapter {
        None => true,
        Some(n) => {
            let mut rest: Vec<ChapterBlock<'_>> = Vec::new();
            std::mem::swap(blocks, &mut rest);
            let ghost orig = rest@;
            let mut taken: usize = 0;
            assert(orig.len() == rest.len());
            proof {
                assert(orig.subrange(0, 0) =~= Seq::<ChapterBlock>::empty());
                assert(orig.subrange(0, orig.len() as int) =~= orig);
            }
            while rest.len() > 0
                invariant
                    orig.len() <= usize::MAX,
                    taken + rest@.len() == orig.len(),
                    rest@ == orig.subrange(taken as int, orig.len() as int),
                    blocks@ == keep_chapter(orig.subrange(0, taken as int), n),
                decreases rest@.len(),
            {
                let blk = rest.remove(0);
                proof {
                    let pre = orig.subrange(0, taken + 1);
                    assert(pre.drop_last() =~= orig.subrange(0, taken as int));
                    assert(pre.last() == blk);
                    assert(rest@ =~= orig.subrange(taken + 1, orig.len() as int));
                }
                if blk.chapter.number == n {
                    blocks.push(blk);
                }
                taken = taken + 1;
            }
            blocks.len() > 0
        },
    }
}

/// A block of the curriculum order is well sorted: numbered `c` (1 to the
/// chapter count), its positions are those of the chapter's bucket, each
/// as often, ordered by difficulty then mastery rank.
pub open spec fn block_sorted(exs: Seq<Exercise>, ranks: Seq<SubjectRank>, default: u64, b: (u8, Seq<usize>)) -> bool {
    if b.0 == 0 {
        &&& sorted_by(b.1, difficulty_keys(exs))
        &&& b.1.to_multiset() == bucket(exs, None, exs.len() as int).to_multiset()
    } else {
        &&& 1 <= b.0 <= CHAPTER_COUNT
        &&& sorted_by(b.1, chapter_keys(exs, ranks, default))
        &&& b.1.to_multiset() == bucket(exs, Some(b.0 - 1), exs.len() as int).to_multiset()
    }
}

proof fn lemma_blocks_upto_sorted(exs: Seq<Exercise>, ranks: Seq<SubjectRank>, default: u64, ci: int)
    requires
        ci <= CHAPTER_COUNT,
    ensures
        forall|k: int| 0 <= k < blocks_upto(exs, ranks, default, ci).len() ==> {
            &&& 1 <= (#[trigger] blocks_upto(exs, ranks, default, ci)[k]).0 <= ci
            &&& block_sorted(exs, ranks, default, blocks_upto(exs, ranks, default, ci)[k])
        },
    decreases ci,
{
    if ci > 0 {
        lemma_blocks_upto_sorted(exs, ranks, default, ci - 1);
        let bk = bucket(exs, Some(ci - 1), exs.len() as int);
        let keys = chapter_keys(exs, ranks, default);
        lemma_stable_sort_sorted_permutation(bk, keys);
        let prev = blocks_upto(exs, ranks, default, ci - 1);
        let b = stable_sort(bk, keys);
        let cur = blocks_upto(exs, ranks, default, ci);
        assert forall|k: int| 0 <= k < cur.len() implies {
            &&& 1 <= (#[trigger] cur[k]).0 <= ci
            &&& block_sorted(exs, ranks, default, cur[k])
        } by {
            if k < prev.len() {
                assert(cur[k] == prev[k]);
            } else {
                assert(cur[k] == ((ci as u8), b));
                assert((ci as u8) as int == ci);
            }
        }
    }
}


/// Positions of `bucket` lie below `n`, in increasing order.
proof fn lemma_bucket_increasing(exs: Seq<Exercise>, c: Option<int>, n: int)
    requires
        n <= exs.len() <= usize::MAX,
    ensures
        forall|a: int| 0 <= a < bucket(exs, c, n).len() ==> (#[trigger] bucket(exs, c, n)[a]) < n,
        forall|a: int, b: int| 0 <= a < b < bucket(exs, c, n).len() ==>
            #[trigger] bucket(exs, c, n)[a] < #[trigger] bucket(exs, c, n)[b],
    decreases n,
{
    if n > 0 {
        lemma_bucket_increasing(exs, c, n - 1);
        let prev = bucket(exs, c, n - 1);
        let cur = bucket(exs, c, n);
        assert forall|a: int| 0 <= a < cur.len() implies (#[trigger] cur[a]) < n by {
            if a < prev.len() {
                assert(cur[a] == prev[a]);
            }
        }
        assert forall|a: int, b: int| 0 <= a < b < cur.len() implies #[trigger] cur[a] < #[trigger] cur[b] by {
            assert(cur[a] == prev[a]);
            if b < prev.len() {
                assert(cur[b] == prev[b]);
            }
        }
    }
}

/// Positions of equal key keep their order in `s`.
pub open spec fn stable_by(s: Seq<usize>, keys: Seq<(u8, u64)>) -> bool {
    forall|i: int, j: int| 0 <= i < j < s.len() && keys[s[i] as int] == keys[s[j] as int]
        ==> #[trigger] s[i] < #[trigger] s[j]
}

/// Sorting increasing positions keeps those of equal key in their order.
proof fn lemma_stable_sort_stable(s: Seq<usize>, keys: Seq<(u8, u64)>)
    requires
        forall|a: int, b: int| 0 <= a < b < s.len() ==> #[trigger] s[a] < #[trigger] s[b],
    ensures
        stable_by(stable_sort(s, keys), keys),
    decreases s.len(),
{
    broadcast use vstd::seq_lib::group_to_multiset_ensures;
    if s.len() > 0 {
        let sd = s.drop_last();
        assert forall|a: int, b: int| 0 <= a < b < sd.len() implies #[trigger] sd[a] < #[trigger] sd[b] by {
            assert(sd[a] == s[a] && sd[b] == s[b]);
        }
        lemma_stable_sort_stable(sd, keys);
        lemma_stable_sort_sorted_permutation(sd, keys);
        let r = stable_sort(sd, keys);
        let x = s.last();
        let k = keys[x as int];
        let p = first_gt(r, keys, k);
        lemma_first_gt_bounds(r, keys, k);
        lemma_first_gt_facts(r, keys, k);
        let r2 = r.insert(p, x);
        r.insert_ensures(p, x);
        assert(stable_sort(s, keys) == r2);
        assert forall|a: int| 0 <= a < r.len() implies #[trigger] r[a] < x by {
            assert(r.contains(r[a]));
            assert(r.to_multiset().count(r[a]) > 0);
            assert(sd.contains(r[a]));
            let m = choose|m: int| 0 <= m < sd.len() && sd[m] == r[a];
            assert(s[m] < s[s.len() - 1]);
        }
        assert forall|i: int, j: int| 0 <= i < j < r2.len() && keys[r2[i] as int] == keys[r2[j] as int]
            implies #[trigger] r2[i] < #[trigger] r2[j] by {
            if j < p {
                assert(r2[i] == r[i] && r2[j] == r[j]);
            } else if j == p {
                assert(r2[i] == r[i]);
            } else if i > p {
                assert(r2[i] == r[i - 1] && r2[j] == r[j - 1]);
            } else if i == p {
                assert(r2[j] == r[j - 1]);
                assert(key_gt(keys[r[p] as int], k));
                if j - 1 > p {
                    assert(!key_gt(keys[r[p] as int], keys[r[j - 1] as int]));
                }
                assert(false);
            } else {
                assert(r2[i] == r[i] && r2[j] == r[j - 1]);
            }
        }
    }
}

/// A block as sorting makes it: its positions lie in `exs`, ordered by the
/// keys, those of equal key in increasing order.
pub open spec fn block_ordered(exs: Seq<Exercise>, keys: Seq<(u8, u64)>, b: Seq<usize>) -> bool {
    &&& forall|a: int| 0 <= a < b.len() ==> (#[trigger] b[a]) < exs.len()
    &&& sorted_by(b, keys)
    &&& stable_by(b, keys)
}

proof fn lemma_sorted_bucket_ordered(exs: Seq<Exercise>, c: Option<int>, keys: Seq<(u8, u64)>)
    requires
        exs.len() <= usize::MAX,
    ensures
        block_ordered(exs, keys, stable_sort(bucket(exs, c, exs.len() as int), keys)),
{
    broadcast use vstd::seq_lib::group_to_multiset_ensures;
    let bk = bucket(exs, c, exs.len() as int);
    lemma_bucket_increasing(exs, c, exs.len() as int);
    lemma_stable_sort_sorted_permutation(bk, keys);
    lemma_stable_sort_stable(bk, keys);
    let r = stable_sort(bk, keys);
    assert forall|a: int| 0 <= a < r.len() implies (#[trigger] r[a]) < exs.len() by {
        assert(r.contains(r[a]));
        assert(r.to_multiset().count(r[a]) > 0);
        assert(bk.contains(r[a]));
    }
}

proof fn lemma_blocks_upto_ordered(exs: Seq<Exercise>, ranks: Seq<SubjectRank>, default: u64, ci: int)
    requires
        exs.len() <= usize::MAX,
        ci <= CHAPTER_COUNT,
    ensures
        forall|k: int| 0 <= k < blocks_upto(exs, ranks, default, ci).len() ==> {
            &&& 1 <= (#[trigger] blocks_upto(exs, ranks, default, ci)[k]).0
            &&& block_ordered(exs, chapter_keys(exs, ranks, default), blocks_upto(exs, ranks, default, ci)[k].1)
        },
    decreases ci,
{
    if ci > 0 {
        lemma_blocks_upto_ordered(exs, ranks, default, ci - 1);
        let keys = chapter_keys(exs, ranks, default);
        lemma_sorted_bucket_ordered(exs, Some(ci - 1), keys);
        let prev = blocks_upto(exs, ranks, default, ci - 1);
        let cur = blocks_upto(exs, ranks, default, ci);
        assert forall|k: int| 0 <= k < cur.len() implies {
            &&& 1 <= (#[trigger] cur[k]).0
            &&& block_ordered(exs, keys, cur[k].1)
        } by {
            if k < prev.len() {
                assert(cur[k] == prev[k]);
            } else {
                assert(cur[k].1 == stable_sort(bucket(exs, Some(ci - 1), exs.len() as int), keys));
                assert(cur[k].0 == ci as u8);
                assert((ci as u8) as int == ci);
            }
        }
    }
}

/// Exercises `a` then `b` stand in a block numbered `number` in the order the
/// curriculum gives: lower difficulty first; at equal difficulty, inside a
/// chapter, lower mastery rank first; and at equal difficulty and rank (in
/// block 0, at equal difficulty) in the order they were given.
pub open spec fn in_block_order(exs: Seq<Exercise>, ranks: Seq<SubjectRank>, default: u64, number: u8, a: usize, b: usize) -> bool {
    let la = exs[a as int].difficulty.level();
    let lb = exs[b as int].difficulty.level();
    let ra = rank_of(ranks, exs[a as int].subject@, default);
    let rb = rank_of(ranks, exs[b as int].subject@, default);
    &&& la <= lb
    &&& number > 0 && la == lb ==> ra <= rb
    &&& la == lb && (number == 0 || ra == rb) ==> a < b
}

/// Inside every block of the curriculum order, exercises come by difficulty
/// first (the mastery rank only breaks ties between equal difficulties,
/// inside a chapter), and exercises equal on both keep the order they were
/// given in.
pub proof fn lemma_chapter_blocks_in_order(exs: Seq<Exercise>, ranks: Seq<SubjectRank>, default: u64)
    requires
        exs.len() <= usize::MAX,
    ensures
        forall|k: int, i: int, j: int| #![trigger chapter_order(exs, ranks, default)[k].1[i], chapter_order(exs, ranks, default)[k].1[j]]
            0 <= k < chapter_order(exs, ranks, default).len() && 0 <= i < j < chapter_order(exs, ranks, default)[k].1.len()
            ==> in_block_order(exs, ranks, default, chapter_order(exs, ranks, default)[k].0,
                chapter_order(exs, ranks, default)[k].1[i], chapter_order(exs, ranks, default)[k].1[j]),
{
    let co = chapter_order(exs, ranks, default);
    let prev = blocks_upto(exs, ranks, default, CHAPTER_COUNT as int);
    let ckeys = chapter_keys(exs, ranks, default);
    let dkeys = difficulty_keys(exs);
    lemma_blocks_upto_ordered(exs, ranks, default, CHAPTER_COUNT as int);
    lemma_sorted_bucket_ordered(exs, None, dkeys);
    assert forall|k: int, i: int, j: int| #![trigger co[k].1[i], co[k].1[j]]
        0 <= k < co.len() && 0 <= i < j < co[k].1.len()
        implies in_block_order(exs, ranks, default, co[k].0, co[k].1[i], co[k].1[j]) by {
        let b = co[k].1;
        if k < prev.len() {
            assert(co[k] == prev[k]);
            assert(block_ordered(exs, ckeys, b));
            assert(!key_gt(ckeys[b[i] as int], ckeys[b[j] as int]));
            assert(ckeys[b[i] as int] == exercise_key(exs[b[i] as int], ranks, default));
            assert(ckeys[b[j] as int] == exercise_key(exs[b[j] as int], ranks, default));
        } else {
            assert(co[k].0 == 0);
            assert(b == stable_sort(bucket(exs, None, exs.len() as int), dkeys));
            assert(!key_gt(dkeys[b[i] as int], dkeys[b[j] as int]));
        }
    }
}

/// The curriculum order is sorted: each block holds exactly its chapter's
/// exercises (those outside the curriculum in block 0), each once, ordered
/// by difficulty then mastery rank (block 0 by difficulty alone).
pub proof fn lemma_chapter_order_sorted(exs: Seq<Exercise>, ranks: Seq<SubjectRank>, default: u64)
    ensures
        forall|k: int| 0 <= k < chapter_order(exs, ranks, default).len() ==>
            block_sorted(exs, ranks, default, #[trigger] chapter_order(exs, ranks, default)[k]),
{
    lemma_blocks_upto_sorted(exs, ranks, default, CHAPTER_COUNT as int);
    let ub = bucket(exs, None, exs.len() as int);
    lemma_stable_sort_sorted_permutation(ub, difficulty_keys(exs));
    let prev = blocks_upto(exs, ranks, default, CHAPTER_COUNT as int);
    let all = chapter_order(exs, ranks, default);
    assert forall|k: int| 0 <= k < all.len() implies block_sorted(exs, ranks, default, #[trigger] all[k]) by {
        if k < prev.len() {
            assert(all[k] == prev[k]);
        }
    }
}

} // verus!

