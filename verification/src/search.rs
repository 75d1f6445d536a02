//! Fuzzy search over exercises, ranked by the score of nucleo's matcher.
use vstd::prelude::*;

use nucleo_matcher::{Config, Matcher, Utf32Str};

use crate::models::Exercise;
use crate::runner::{utf8_len, utf8_len_exceeds};
use crate::text::{chars_of, copy_range, push_all, push_str, str_eq};

verus! {

/// Number of leading characters of the description that take part in the search.
pub const DESCRIPTION_SEARCH_CHARS: usize = 120;

/// Longest text, in UTF-8 bytes, handed to the matcher: the matcher asserts
/// that its haystack holds at most `u32::MAX` units, and the haystack it
/// builds from a text has at most one unit per byte.
pub const MAX_HAYSTACK_BYTES: usize = 0xffff_ffff;

/// The score of nucleo's `Matcher::fuzzy_match` (default configuration) for
/// `needle` in `haystack`, `None` where it does not match.
pub uninterp spec fn fuzzy_match_score(haystack: Seq<char>, needle: Seq<char>) -> Option<u16>;

/// nucleo-matcher's `Matcher::fuzzy_match`, run with `Config::DEFAULT` on the
/// text `haystack` (through `Utf32Str::new`) and the characters of `needle`.
/// Claimed: the result is the named score of the two arguments, and an empty
/// needle matches with score 0 (the matcher returns `Some(0)` before any
/// scoring when the needle is empty). The matcher asserts that the haystack
/// holds at most `u32::MAX` units; `Utf32Str::new` makes one unit per byte
/// (ASCII) or per grapheme, never more than the UTF-8 length, which the
/// bound guarantees.
#[verifier::external_body]
fn fuzzy_match(haystack: &Vec<char>, needle: &Vec<char>) -> (r: Option<u16>)
    requires
        utf8_len(haystack@) <= MAX_HAYSTACK_BYTES,
    ensures
        r == fuzzy_match_score(haystack@, needle@),
        needle@.len() == 0 ==> r == Some(0u16),
{
    let text: String = haystack.iter().collect();
    let mut buf: Vec<char> = Vec::new();
    let mut matcher = Matcher::new(Config::DEFAULT);
    matcher.fuzzy_match(Utf32Str::new(&text, &mut buf), Utf32Str::Unicode(needle.as_slice()))
}

/// The first characters of the description that take part in the search.
pub open spec fn description_prefix(d: Seq<char>) -> Seq<char> {
    if d.len() <= DESCRIPTION_SEARCH_CHARS {
        d
    } else {
        d.subrange(0, DESCRIPTION_SEARCH_CHARS as int)
    }
}

/// The key concept of an exercise, empty where it has none.
pub open spec fn key_concept_text(e: Exercise) -> Seq<char> {
    match e.key_concept {
        Some(k) => k@,
        None => Seq::empty(),
    }
}

/// The text an exercise is searched in: identifier, title, subject, key
/// concept and the beginning of the description, separated by spaces.
pub open spec fn haystack_of(e: Exercise) -> Seq<char> {
    e.id@ + " "@ + e.title@ + " "@ + e.subject@ + " "@ + key_concept_text(e) + " "@
        + description_prefix(e.description@)
}

/// `part` occurs in `text` starting at position `p`.
pub open spec fn occurs_in_at(text: Seq<char>, part: Seq<char>, p: int) -> bool {
    0 <= p && p + part.len() <= text.len() && text.subrange(p, p + part.len()) == part
}

/// What an exercise is searched in: its identifier, title, subject, key
/// concept (where it has one) and the first 120 characters of its
/// description (all of it when shorter) each occur in the searched text, in
/// that order, one after the other with a single space between them.
pub proof fn lemma_haystack_holds_fields(e: Exercise)
    ensures
        ({
            let h = haystack_of(e);
            let d = e.description@;
            let dp = if d.len() <= 120 { d } else { d.subrange(0, 120) };
            let k = match e.key_concept {
                Some(k) => k@,
                None => Seq::<char>::empty(),
            };
            let p1: int = e.id@.len() + 1int;
            let p2: int = p1 + e.title@.len() + 1;
            let p3: int = p2 + e.subject@.len() + 1;
            let p4: int = p3 + k.len() + 1;
            &&& occurs_in_at(h, e.id@, 0)
            &&& occurs_in_at(h, e.title@, p1)
            &&& occurs_in_at(h, e.subject@, p2)
            &&& occurs_in_at(h, k, p3)
            &&& occurs_in_at(h, dp, p4)
            &&& h.len() == p4 + dp.len()
            &&& h[p1 - 1] == ' ' && h[p2 - 1] == ' ' && h[p3 - 1] == ' ' && h[p4 - 1] == ' '
        }),
{
    let h = haystack_of(e);
    let d = e.description@;
    let dp = if d.len() <= 120 { d } else { d.subrange(0, 120) };
    let k = key_concept_text(e);
    let sp = " "@;
    reveal_strlit(" ");
    assert(h == e.id@ + sp + e.title@ + sp + e.subject@ + sp + k + sp + dp);
    let p1: int = e.id@.len() + 1int;
    let p2: int = p1 + e.title@.len() + 1;
    let p3: int = p2 + e.subject@.len() + 1;
    let p4: int = p3 + k.len() + 1;
    assert(h.subrange(0, e.id@.len() as int) =~= e.id@);
    assert(h.subrange(p1, p1 + e.title@.len()) =~= e.title@);
    assert(h.subrange(p2, p2 + e.subject@.len()) =~= e.subject@);
    assert(h.subrange(p3, p3 + k.len()) =~= k);
    assert(h.subrange(p4, p4 + dp.len()) =~= dp);
}

/// The exercise can be handed to the matcher.
pub open spec fn searchable(e: Exercise) -> bool {
    utf8_len(haystack_of(e)) <= MAX_HAYSTACK_BYTES
}

/// Whether the exercise can be handed to the matcher (see `searchable`).
pub fn is_searchable(e: &Exercise) -> (r: bool)
    ensures
        r == searchable(*e),
{
    let hay = haystack_chars(e);
    !utf8_len_exceeds(&hay, MAX_HAYSTACK_BYTES)
}

/// The exercise passes the subject filter.
pub open spec fn passes_filter(e: Exercise, filter: Option<Seq<char>>) -> bool {
    match filter {
        None => true,
        Some(s) => e.subject@ == s,
    }
}

/// The subject filter as a plain value.
pub open spec fn filter_view(filter: Option<&str>) -> Option<Seq<char>> {
    match filter {
        None => None,
        Some(s) => Some(s@),
    }
}

/// Position and score of each of the first `n` exercises that passes the
/// filter and matches the query, in the order of the exercises.
pub open spec fn matches_upto(exs: Seq<Exercise>, needle: Seq<char>, filter: Option<Seq<char>>, n: int) -> Seq<(usize, u32)>
    decreases n,
{
    if n <= 0 {
        seq![]
    } else {
        let prev = matches_upto(exs, needle, filter, n - 1);
        let e = exs[n - 1];
        if passes_filter(e, filter) && fuzzy_match_score(haystack_of(e), needle) is Some {
            prev.push(((n - 1) as usize, fuzzy_match_score(haystack_of(e), needle)->0 as u32))
        } else {
            prev
        }
    }
}

/// Position and score of each exercise that passes the filter and matches.
pub open spec fn matches(exs: Seq<Exercise>, needle: Seq<char>, filter: Option<Seq<char>>) -> Seq<(usize, u32)> {
    matches_upto(exs, needle, filter, exs.len() as int)
}

/// Scores never increase along `s`.
pub open spec fn sorted_by_score_desc(s: Seq<(usize, u32)>) -> bool {
    forall|i: int, j: int| 0 <= i < j < s.len() ==> #[trigger] s[i].1 >= #[trigger] s[j].1
}

/// The searchable text of an exercise.
fn haystack_chars(e: &Exercise) -> (r: Vec<char>)
    ensures
        r@ == haystack_of(*e),
{
    let mut r = chars_of(e.id.as_str());
    push_str(&mut r, " ");
    push_str(&mut r, e.title.as_str());
    push_str(&mut r, " ");
    push_str(&mut r, e.subject.as_str());
    push_str(&mut r, " ");
    match &e.key_concept {
        Some(k) => push_str(&mut r, k.as_str()),
        None => {},
    }
    push_str(&mut r, " ");
    let d = chars_of(e.description.as_str());
    if d.len() <= DESCRIPTION_SEARCH_CHARS {
        push_all(&mut r, &d);
    } else {
        let p = copy_range(&d, 0, DESCRIPTION_SEARCH_CHARS);
        push_all(&mut r, &p);
    }
    r
}

/// Whether the exercise passes the subject filter.
fn filter_passes(e: &Exercise, filter_subject: Option<&str>) -> (r: bool)
    ensures
        r == passes_filter(*e, filter_view(filter_subject)),
{
    match filter_subject {
        None => true,
        Some(s) => str_eq(e.subject.as_str(), s),
    }
}

/// First position of `r` whose score is below `score` (`r.len()` if none).
fn insertion_point(r: &Vec<(usize, u32)>, score: u32) -> (p: usize)
    requires
        sorted_by_score_desc(r@),
    ensures
        p <= r@.len(),
        forall|j: int| 0 <= j < p ==> r@[j].1 >= score,
        forall|j: int| p <= j < r@.len() ==> r@[j].1 < score,
{
    let mut p: usize = 0;
    while p < r.len() && r[p].1 >= score
        invariant
            p <= r@.len(),
            sorted_by_score_desc(r@),
            forall|j: int| 0 <= j < p ==> r@[j].1 >= score,
        decreases r.len() - p,
    {
        p = p + 1;
    }
    proof {
        if p < r@.len() {
            assert forall|j: int| p <= j < r@.len() implies r@[j].1 < score by {
                if j > p {
                    assert(r@[p as int].1 >= r@[j].1);
                }
            }
        }
    }
    p
}

/// Fuzzy search over `exercises`: the position and score of every exercise
/// that passes the subject filter and matches `query`, best score first.
/// An empty query matches every exercise.
pub fn search_exercises(exercises: &Vec<Exercise>, query: &str, filter_subject: Option<&str>) -> (res: Vec<(usize, u32)>)
    requires
        forall|i: int| 0 <= i < exercises@.len() ==> searchable(#[trigger] exercises@[i]),
    ensures
        sorted_by_score_desc(res@),
        res@.to_multiset() == matches(exercises@, query@, filter_view(filter_subject)).to_multiset(),
        res@.len() == matches(exercises@, query@, filter_view(filter_subject)).len(),
        query@.len() == 0 && filter_subject is None ==> res@.len() == exercises@.len(),
{
    broadcast use vstd::seq_lib::group_to_multiset_ensures;
    let needle = chars_of(query);
    let ghost filter = filter_view(filter_subject);
    let mut results: Vec<(usize, u32)> = Vec::new();
    let mut idx: usize = 0;
    while idx < exercises.len()
        invariant
            idx <= exercises@.len(),
            needle@ == query@,
            filter == filter_view(filter_subject),
            forall|i: int| 0 <= i < exercises@.len() ==> searchable(#[trigger] exercises@[i]),
            sorted_by_score_desc(results@),
            results@.to_multiset() == matches_upto(exercises@, query@, filter, idx as int).to_multiset(),
            results@.len() == matches_upto(exercises@, query@, filter, idx as int).len(),
            query@.len() == 0 && filter_subject is None ==> results@.len() == idx,
        decreases exercises.len() - idx,
    {
        let ex = &exercises[idx];
        if filter_passes(ex, filter_subject) {
            proof {
                assert(searchable(exercises@[idx as int]));
            }
            let hay = haystack_chars(ex);
            match fuzzy_match(&hay, &needle) {
                Some(score16) => {
                    let score = score16 as u32;
                    let p = insertion_point(&results, score);
                    let ghost old_r = results@;
                    let item = (idx, score);
                    results.insert(p, item);
                    proof {
                        old_r.insert_ensures(p as int, item);
                        assert(results@ =~= old_r.insert(p as int, item));
                        assert forall|i: int, j: int| 0 <= i < j < results@.len() implies #[trigger] results@[i].1 >= #[trigger] results@[j].1 by {
                            if j < p {
                                assert(results@[i] == old_r[i] && results@[j] == old_r[j]);
                            } else if j == p {
                                assert(results@[i] == old_r[i]);
                            } else if i > p {
                                assert(results@[i] == old_r[i - 1] && results@[j] == old_r[j - 1]);
                            } else if i == p {
                                assert(results@[j] == old_r[j - 1]);
                            } else {
                                assert(results@[i] == old_r[i] && results@[j] == old_r[j - 1]);
                            }
                        }
                        lemma_insert_to_multiset(old_r, p as int, item);
                        let prev = matches_upto(exercises@, query@, filter, idx as int);
                        assert(matches_upto(exercises@, query@, filter, idx + 1) == prev.push(item));
                        vstd::seq_lib::to_multiset_build(prev, item);
                    }
                },
                None => {
                    proof {
                        assert(matches_upto(exercises@, query@, filter, idx + 1) == matches_upto(exercises@, query@, filter, idx as int));
                    }
                },
            }
        } else {
            proof {
                assert(!passes_filter(exercises@[idx as int], filter));
                assert(matches_upto(exercises@, query@, filter, idx + 1) == matches_upto(exercises@, query@, filter, idx as int));
            }
        }
        idx = idx + 1;
    }
    results
}

/// Inserting an element anywhere adds it to the multiset of a sequence.
pub proof fn lemma_insert_to_multiset<A>(s: Seq<A>, p: int, x: A)
    requires
        0 <= p <= s.len(),
    ensures
        s.insert(p, x).to_multiset() == s.to_multiset().insert(x),
{
    broadcast use vstd::seq_lib::group_to_multiset_ensures;
    let t = s.insert(p, x);
    s.insert_ensures(p, x);
    assert(t.remove(p) =~= s);
    assert(t[p] == x);
    assert(t.remove(p).to_multiset() == t.to_multiset().remove(x));
    assert(t.to_multiset().count(x) > 0) by {
        assert(t.contains(x));
    }
    assert(t.to_multiset() =~= t.to_multiset().remove(x).insert(x));
}

} // verus!
