//! Saved positions (piscine, exam, last session) as stored text: how each is
//! written and read back.
use vstd::prelude::*;

use crate::text::{chars_of, decimal, decimal_exec, digit_char, push_all, push_str, string_of};
use crate::unity::{digits_value, is_digit, parse_usize, parse_usize_spec, unsigned_digits};

verus! {

/// Storage key of the piscine checkpoint.
pub const PISCINE_CHECKPOINT_KEY: &'static str = "piscine_checkpoint";

/// Storage key of the exam checkpoint.
pub const EXAM_CHECKPOINT_KEY: &'static str = "exam_checkpoint";

/// Storage key of the last exam session chosen.
pub const LAST_EXAM_SESSION_KEY: &'static str = "last_exam_session";

/// The decimal text of an index.
pub fn index_text(index: usize) -> (s: String)
    ensures
        s@ == decimal(index as nat),
{
    let d = decimal_exec(index as u64);
    string_of(&d)
}

/// The piscine position stored as `stored`, if it is a number.
pub fn parse_piscine_checkpoint(stored: Option<String>) -> (r: Option<usize>)
    ensures
        r == match stored {
            Some(s) => parse_usize_spec(s@),
            None => None::<usize>,
        },
{
    match stored {
        Some(s) => {
            let v = chars_of(s.as_str());
            parse_usize(&v)
        },
        None => None,
    }
}

/// Position of the last `:` in `s`, if any.
pub open spec fn last_colon(s: Seq<char>) -> Option<int>
    decreases s.len(),
{
    if s.len() == 0 {
        None
    } else if s.last() == ':' {
        Some(s.len() - 1)
    } else {
        last_colon(s.drop_last())
    }
}

/// The text stored for an exam checkpoint: the session, `:`, the index.
pub open spec fn exam_checkpoint_spec(session_id: Seq<char>, index: usize) -> Seq<char> {
    session_id + ":"@ + decimal(index as nat)
}

/// The exam position stored as `stored` for session `session_id`: the text
/// after the last `:` as a number, when the text before it is the session.
pub open spec fn exam_position(stored: Seq<char>, session_id: Seq<char>) -> Option<usize> {
    match last_colon(stored) {
        Some(p) => if stored.subrange(0, p) == session_id {
            parse_usize_spec(stored.subrange(p + 1, stored.len() as int))
        } else {
            None
        },
        None => None,
    }
}

/// The text stored for an exam checkpoint.
pub fn exam_checkpoint_text(session_id: &str, index: usize) -> (s: String)
    ensures
        s@ == exam_checkpoint_spec(session_id@, index),
{
    let mut v = chars_of(session_id);
    push_str(&mut v, ":");
    let d = decimal_exec(index as u64);
    push_all(&mut v, &d);
    string_of(&v)
}

/// Position of the last `:` of `v`.
fn find_last_colon(v: &Vec<char>) -> (r: Option<usize>)
    ensures
        r matches Some(p) ==> last_colon(v@) == Some(p as int) && p < v@.len(),
        r is None ==> last_colon(v@) is None,
{
    let mut n = v.len();
    proof {
        assert(v@.subrange(0, v@.len() as int) =~= v@);
    }
    while n > 0
        invariant
            n <= v@.len(),
            last_colon(v@) == last_colon(v@.subrange(0, n as int)),
        decreases n,
    {
        proof {
            let pre = v@.subrange(0, n as int);
            assert(pre.drop_last() =~= v@.subrange(0, n - 1));
            assert(pre.last() == v@[n - 1]);
        }
        if v[n - 1] == ':' {
            return Some(n - 1);
        }
        n = n - 1;
    }
    proof {
        assert(v@.subrange(0, 0).len() == 0);
    }
    None
}

/// The exam position stored as `stored` for session `session_id`.
pub fn parse_exam_checkpoint(stored: Option<String>, session_id: &str) -> (r: Option<usize>)
    ensures
        r == match stored {
            Some(s) => exam_position(s@, session_id@),
            None => None::<usize>,
        },
{
    match stored {
        Some(s) => {
            let v = chars_of(s.as_str());
            match find_last_colon(&v) {
                Some(p) => {
                    let before = crate::text::copy_range(&v, 0, p);
                    let sid = chars_of(session_id);
                    if crate::text::chars_eq(&before, &sid) {
                        let after = crate::text::copy_range(&v, p + 1, v.len());
                        parse_usize(&after)
                    } else {
                        None
                    }
                },
                None => None,
            }
        },
        None => None,
    }
}

/// Decimal digits contain no `:`, and end the text they are appended to.
proof fn lemma_decimal_digits(n: nat)
    ensures
        decimal(n).len() > 0,
        forall|i: int| 0 <= i < decimal(n).len() ==> is_digit(#[trigger] decimal(n)[i]),
        digits_value(decimal(n)) == n,
    decreases n,
{
    if n >= 10 {
        lemma_decimal_digits(n / 10);
        let d = decimal(n);
        let p = decimal(n / 10);
        assert(d == p.push(digit_char(n % 10)));
        assert(d.drop_last() =~= p);
        assert forall|i: int| 0 <= i < d.len() implies is_digit(#[trigger] d[i]) by {
            if i < p.len() {
                assert(d[i] == p[i]);
            }
        }
        lemma_digit_char_value(n % 10);
        assert(d.last() == digit_char(n % 10));
        let dv = ((digit_char(n % 10) as u32) - ('0' as u32)) as nat;
        assert(dv == n % 10);
        assert(digits_value(d) == digits_value(p) * 10 + dv);
        assert(n == (n / 10) * 10 + n % 10) by (nonlinear_arith);
    } else {
        lemma_digit_char_value(n);
        let d = decimal(n);
        assert(d == seq![digit_char(n)]);
        assert(d.drop_last() =~= Seq::<char>::empty());
        assert(digits_value(d.drop_last()) == 0);
        assert(d.last() == digit_char(n));
    }
}

proof fn lemma_digit_char_value(d: nat)
    requires
        d < 10,
    ensures
        is_digit(digit_char(d)),
        (digit_char(d) as u32) - ('0' as u32) == d,
{
}

/// A position written as decimal text (a piscine checkpoint, an exercise
/// index) reads back as the same position.
pub proof fn lemma_decimal_parses_back(n: usize)
    ensures
        parse_usize_spec(decimal(n as nat)) == Some(n),
{
    lemma_decimal_digits(n as nat);
    let d = decimal(n as nat);
    assert(is_digit(d[0]));
    assert(unsigned_digits(d) == d);
}

proof fn lemma_last_colon_of_checkpoint(session_id: Seq<char>, index: usize)
    ensures
        last_colon(exam_checkpoint_spec(session_id, index)) == Some(session_id.len() as int),
{
    let d = decimal(index as nat);
    lemma_decimal_digits(index as nat);
    let s = exam_checkpoint_spec(session_id, index);
    lemma_last_colon_skips(session_id + ":"@, d);
    assert(s == (session_id + ":"@) + d);
    let h = session_id + ":"@;
    reveal_strlit(":");
    assert(h.last() == ':');
    assert(h.drop_last() =~= session_id);
}

proof fn lemma_last_colon_skips(h: Seq<char>, d: Seq<char>)
    requires
        forall|i: int| 0 <= i < d.len() ==> is_digit(#[trigger] d[i]),
    ensures
        last_colon(h + d) == last_colon(h),
    decreases d.len(),
{
    if d.len() > 0 {
        assert((h + d).drop_last() =~= h + d.drop_last());
        assert((h + d).last() == d.last());
        assert(is_digit(d[d.len() - 1]));
        lemma_last_colon_skips(h, d.drop_last());
    } else {
        assert(h + d =~= h);
    }
}

/// An exam checkpoint reads back, for its own session, as the position that
/// was written, and reads as nothing for any other session (a session name
/// may itself hold `:`).
pub proof fn lemma_exam_checkpoint_roundtrip(session_id: Seq<char>, other: Seq<char>, index: usize)
    ensures
        exam_position(exam_checkpoint_spec(session_id, index), session_id) == Some(index),
        other != session_id ==> exam_position(exam_checkpoint_spec(session_id, index), other) is None,
{
    let s = exam_checkpoint_spec(session_id, index);
    let p = session_id.len() as int;
    reveal_strlit(":");
    lemma_last_colon_of_checkpoint(session_id, index);
    assert(s.subrange(0, p) =~= session_id);
    assert(s.subrange(p + 1, s.len() as int) =~= decimal(index as nat));
    lemma_decimal_parses_back(index);
}

/// The stored text of a last-session chapter: the number, `0` for all chapters.
pub open spec fn chapter_text_spec(chapter: Option<u8>) -> Seq<char> {
    match chapter {
        Some(c) => decimal(c as nat),
        None => "0"@,
    }
}

/// The three stored texts of a last session: mode, chapter, exercise index.
pub fn last_session_texts(mode: &str, chapter: Option<u8>, index: usize) -> (r: (String, String, String))
    ensures
        r.0@ == mode@,
        r.1@ == chapter_text_spec(chapter),
        r.2@ == decimal(index as nat),
{
    let c = match chapter {
        Some(c) => {
            let d = decimal_exec(c as u64);
            string_of(&d)
        },
        None => String::from_str("0"),
    };
    (String::from_str(mode), c, index_text(index))
}

/// `u8::from_str`: a number of at most 255, optional `+` first.
pub open spec fn parse_u8_spec(s: Seq<char>) -> Option<u8> {
    match parse_usize_spec(s) {
        Some(v) => if v <= 255 { Some(v as u8) } else { None },
        None => None,
    }
}

/// A last session read back from its stored texts: `None` unless all three
/// were stored; a chapter that is not a number from 1 to 255 means all
/// chapters; an unreadable index means 0.
pub open spec fn last_session_spec(mode: Option<Seq<char>>, chapter: Option<Seq<char>>, index: Option<Seq<char>>) -> Option<(Seq<char>, Option<u8>, usize)> {
    match (mode, chapter, index) {
        (Some(m), Some(c), Some(i)) => Some((
            m,
            match parse_u8_spec(c) {
                Some(n) => if n > 0 { Some(n) } else { None },
                None => None,
            },
            match parse_usize_spec(i) {
                Some(v) => v,
                None => 0,
            },
        )),
        _ => None,
    }
}

/// The view of an optional string.
pub open spec fn opt_text(o: Option<String>) -> Option<Seq<char>> {
    match o {
        Some(s) => Some(s@),
        None => None,
    }
}

/// Reads a last session back from its stored texts.
pub fn parse_last_session(mode: Option<String>, chapter: Option<String>, index: Option<String>) -> (r: Option<(String, Option<u8>, usize)>)
    ensures
        r matches Some(t) ==> last_session_spec(opt_text(mode), opt_text(chapter), opt_text(index)) == Some((t.0@, t.1, t.2)),
        r is None ==> last_session_spec(opt_text(mode), opt_text(chapter), opt_text(index)) is None,
{
    match (mode, chapter, index) {
        (Some(m), Some(c), Some(i)) => {
            let cv = chars_of(c.as_str());
            let ch = match parse_usize(&cv) {
                Some(v) => if v >= 1 && v <= 255 { Some(v as u8) } else { None },
                None => None,
            };
            let iv = chars_of(i.as_str());
            let idx = match parse_usize(&iv) {
                Some(v) => v,
                None => 0,
            };
            Some((m, ch, idx))
        },
        _ => None,
    }
}

/// A last session reads back as written, except that chapter 0 reads back
/// as all chapters.
pub proof fn lemma_last_session_roundtrip(mode: Seq<char>, chapter: Option<u8>, index: usize)
    requires
        chapter != Some(0u8),
    ensures
        last_session_spec(Some(mode), Some(chapter_text_spec(chapter)), Some(decimal(index as nat)))
            == Some((mode, chapter, index)),
{
    lemma_decimal_parses_back(index);
    match chapter {
        Some(c) => {
            lemma_decimal_parses_back(c as usize);
            assert(parse_usize_spec(decimal(c as nat)) == Some(c as usize));
            assert(parse_u8_spec(decimal(c as nat)) == Some(c));
        },
        None => {
            reveal_strlit("0");
            assert(decimal(0) == seq!['0']);
            assert("0"@ =~= decimal(0));
            lemma_decimal_parses_back(0);
            assert(parse_u8_spec("0"@) == Some(0u8));
        },
    }
}

} // verus!
