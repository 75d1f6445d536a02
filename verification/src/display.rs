//! Text rendering helpers: box drawing, word wrapping, sparklines and
//! small formatting functions used by the terminal views.
use vstd::prelude::*;

use crate::models::{Difficulty, VisVar};
use crate::text::{
    chars_eq, chars_of, lines, push_all, push_str, repeat, repeat_exec, split_lines, split_words,
    string_of, trim, trim_exec, views, words,
};

verus! {

/// Width of a header or footer box, in characters.
pub const HEADER_WIDTH: usize = 56;

/// A horizontal rule as wide as a header box.
pub fn hr() -> (s: String)
    ensures
        s@ == repeat('─', HEADER_WIDTH as nat),
{
    let v = repeat_exec('─', HEADER_WIDTH);
    string_of(&v)
}

/// Padding around a header title: `HEADER_WIDTH - (title length + 6)`, or 0.
pub open spec fn header_pad(title_len: nat) -> nat {
    if title_len + 6 >= HEADER_WIDTH { 0 } else { (HEADER_WIDTH - (title_len + 6)) as nat }
}

/// The top line of a box with `title` centred: `╔`, `═` runs, the title
/// between spaces, `╗`; the left run gets the smaller half of the padding.
pub open spec fn header_box_spec(title: Seq<char>) -> Seq<char> {
    let pad = header_pad(title.len());
    let left = pad / 2;
    let right = (pad - left) as nat;
    seq!['╔'] + repeat('═', left + 1) + seq![' '] + title + seq![' '] + repeat('═', right + 1) + seq!['╗']
}

/// The top line of a box with `title` centred.
pub fn header_box(title: &str) -> (s: String)
    ensures
        s@ == header_box_spec(title@),
{
    let t = chars_of(title);
    let pad: usize = if t.len() >= HEADER_WIDTH - 6 { 0 } else { HEADER_WIDTH - (t.len() + 6) };
    let left = pad / 2;
    let right = pad - left;
    let mut out: Vec<char> = Vec::new();
    out.push('╔');
    let l = repeat_exec('═', left + 1);
    push_all(&mut out, &l);
    out.push(' ');
    push_all(&mut out, &t);
    out.push(' ');
    let r = repeat_exec('═', right + 1);
    push_all(&mut out, &r);
    out.push('╗');
    proof {
        assert(out@ =~= header_box_spec(title@));
    }
    string_of(&out)
}

/// The bottom line of a box: `╚`, `HEADER_WIDTH - 2` times `═`, `╝`.
pub fn footer_box() -> (s: String)
    ensures
        s@ == seq!['╚'] + repeat('═', (HEADER_WIDTH - 2) as nat) + seq!['╝'],
{
    let mut out: Vec<char> = Vec::new();
    out.push('╚');
    let m = repeat_exec('═', HEADER_WIDTH - 2);
    push_all(&mut out, &m);
    out.push('╝');
    proof {
        assert(out@ =~= seq!['╚'] + repeat('═', (HEADER_WIDTH - 2) as nat) + seq!['╝']);
    }
    string_of(&out)
}

// ── Word wrapping ───────────────────────────────────────────────────────────

/// One step of greedy wrapping: `w` joins the current line when it fits
/// (with a separating space), otherwise the current line is closed.
pub open spec fn wrap_step(done: Seq<Seq<char>>, cur: Seq<char>, w: Seq<char>, width: nat) -> (Seq<Seq<char>>, Seq<char>) {
    if cur.len() == 0 {
        (done, w)
    } else if cur.len() + 1 + w.len() <= width {
        (done, cur.push(' ') + w)
    } else {
        (done.push(cur), w)
    }
}

/// Greedy wrapping state after the first `n` words.
pub open spec fn wrap_upto(ws: Seq<Seq<char>>, n: int, width: nat) -> (Seq<Seq<char>>, Seq<char>)
    decreases n,
{
    if n <= 0 {
        (seq![], seq![])
    } else {
        let st = wrap_upto(ws, n - 1, width);
        wrap_step(st.0, st.1, ws[n - 1], width)
    }
}

/// The lines of `text` word-wrapped greedily to `width` characters: words
/// joined by single spaces while they fit; a word longer than `width` gets
/// a line of its own.
pub open spec fn wrap_spec(text: Seq<char>, width: nat) -> Seq<Seq<char>> {
    let ws = words(text);
    let st = wrap_upto(ws, ws.len() as int, width);
    if st.1.len() > 0 { st.0.push(st.1) } else { st.0 }
}

/// The views of a list of strings.
pub open spec fn string_views(v: Seq<String>) -> Seq<Seq<char>> {
    v.map_values(|s: String| s@)
}

/// Word-wrap `text` to at most `width` visible characters per line.
pub fn wrap_text(text: &str, width: usize) -> (lines: Vec<String>)
    ensures
        string_views(lines@) == wrap_spec(text@, width as nat),
{
    let v = chars_of(text);
    let ws = split_words(&v);
    let mut done: Vec<String> = Vec::new();
    let mut cur: Vec<char> = Vec::new();
    let mut i: usize = 0;
    while i < ws.len()
        invariant
            i <= ws.len(),
            views(ws@) == words(text@),
            (string_views(done@), cur@) == wrap_upto(views(ws@), i as int, width as nat),
        decreases ws.len() - i,
    {
        let w = &ws[i];
        proof {
            assert(views(ws@)[i as int] == w@);
        }
        if cur.len() == 0 {
            cur = w.clone();
        } else if cur.len() < width && w.len() <= width - cur.len() - 1 {
            cur.push(' ');
            push_all(&mut cur, w);
        } else {
            let ghost before = done@;
            done.push(string_of(&cur));
            proof {
                assert(string_views(done@) =~= string_views(before).push(cur@));
            }
            cur = w.clone();
        }
        i = i + 1;
    }
    if cur.len() > 0 {
        let ghost before = done@;
        done.push(string_of(&cur));
        proof {
            assert(string_views(done@) =~= string_views(before).push(cur@));
        }
    }
    done
}

/// Wrapping keeps every line within `width` unless it is a single word
/// longer than `width`, and keeps every line non-empty.
pub proof fn lemma_wrap_lines_fit(text: Seq<char>, width: nat)
    ensures
        forall|k: int| 0 <= k < wrap_spec(text, width).len() ==> {
            &&& (#[trigger] wrap_spec(text, width)[k]).len() > 0
            &&& (wrap_spec(text, width)[k].len() <= width
                || words(text).contains(wrap_spec(text, width)[k]))
        },
{
    let ws = words(text);
    lemma_words_nonempty(text);
    lemma_wrap_upto_fit(ws, ws.len() as int, width);
}

pub proof fn lemma_words_nonempty(s: Seq<char>)
    ensures
        forall|k: int| 0 <= k < words(s).len() ==> (#[trigger] words(s)[k]).len() > 0,
    decreases s.len(),
{
    let t = crate::text::trim_start(s);
    crate::text::lemma_trim_start_shape(s);
    if t.len() > 0 {
        let w = crate::text::word_len(t);
        crate::text::lemma_word_len_bounds(t);
        lemma_words_nonempty(t.subrange(w, t.len() as int));
        let rest = words(t.subrange(w, t.len() as int));
        assert(words(s) =~= seq![t.subrange(0, w)] + rest);
        assert forall|k: int| 0 <= k < words(s).len() implies (#[trigger] words(s)[k]).len() > 0 by {
            if k > 0 {
                assert(words(s)[k] == rest[k - 1]);
            }
        }
    }
}

pub proof fn lemma_wrap_upto_fit(ws: Seq<Seq<char>>, n: int, width: nat)
    requires
        0 <= n <= ws.len(),
        forall|k: int| 0 <= k < ws.len() ==> (#[trigger] ws[k]).len() > 0,
    ensures
        forall|k: int| 0 <= k < wrap_upto(ws, n, width).0.len() ==> {
            &&& (#[trigger] wrap_upto(ws, n, width).0[k]).len() > 0
            &&& (wrap_upto(ws, n, width).0[k].len() <= width || ws.contains(wrap_upto(ws, n, width).0[k]))
        },
        wrap_upto(ws, n, width).1.len() > 0 <==> n > 0,
        n > 0 ==> (wrap_upto(ws, n, width).1.len() <= width || ws.contains(wrap_upto(ws, n, width).1)),
    decreases n,
{
    if n > 0 {
        lemma_wrap_upto_fit(ws, n - 1, width);
        let st = wrap_upto(ws, n - 1, width);
        let w = ws[n - 1];
        assert(ws.contains(w));
        let nst = wrap_upto(ws, n, width);
        if st.1.len() > 0 && !(st.1.len() + 1 + w.len() <= width) {
            assert(nst.0 =~= st.0.push(st.1));
            assert forall|k: int| 0 <= k < nst.0.len() implies {
                &&& (#[trigger] nst.0[k]).len() > 0
                &&& (nst.0[k].len() <= width || ws.contains(nst.0[k]))
            } by {
                if k < st.0.len() {
                    assert(nst.0[k] == st.0[k]);
                }
            }
        }
    }
}

/// The pieces of `ls` joined with single spaces.
pub open spec fn join_spaces(ls: Seq<Seq<char>>) -> Seq<char>
    decreases ls.len(),
{
    if ls.len() == 0 {
        seq![]
    } else if ls.len() == 1 {
        ls[0]
    } else {
        join_spaces(ls.drop_last()).push(' ') + ls.last()
    }
}


/// The wrapped lines so far: the closed lines, then the current one if any.
pub open spec fn wrap_lines_of(st: (Seq<Seq<char>>, Seq<char>)) -> Seq<Seq<char>> {
    if st.1.len() > 0 { st.0.push(st.1) } else { st.0 }
}

/// Wrapping loses, splits or reorders no word: joining the wrapped lines
/// with spaces gives the words of the text joined with spaces.
pub proof fn lemma_wrap_keeps_words(text: Seq<char>, width: nat)
    ensures
        join_spaces(wrap_spec(text, width)) == join_spaces(words(text)),
{
    let ws = words(text);
    lemma_words_nonempty(text);
    lemma_wrap_upto_join(ws, ws.len() as int, width);
    assert(ws.subrange(0, ws.len() as int) =~= ws);
}

proof fn lemma_wrap_upto_join(ws: Seq<Seq<char>>, n: int, width: nat)
    requires
        0 <= n <= ws.len(),
        forall|k: int| 0 <= k < ws.len() ==> (#[trigger] ws[k]).len() > 0,
    ensures
        join_spaces(wrap_lines_of(wrap_upto(ws, n, width))) == join_spaces(ws.subrange(0, n)),
    decreases n,
{
    lemma_wrap_upto_fit(ws, n, width);
    if n > 0 {
        lemma_wrap_upto_join(ws, n - 1, width);
        lemma_wrap_upto_fit(ws, n - 1, width);
        let st = wrap_upto(ws, n - 1, width);
        let w = ws[n - 1];
        let pre = ws.subrange(0, n);
        assert(pre.drop_last() =~= ws.subrange(0, n - 1));
        assert(pre.last() == w);
        if st.1.len() == 0 {
            assert(n - 1 == 0);
            assert(st.0.len() == 0);
            assert(wrap_lines_of(wrap_upto(ws, n, width)) =~= seq![w]);
            assert(ws.subrange(0, n) =~= seq![w]);
        } else if st.1.len() + 1 + w.len() <= width {
            let c2 = st.1.push(' ') + w;
            assert(wrap_lines_of(wrap_upto(ws, n, width)) =~= st.0.push(c2));
            assert(st.0.push(c2).drop_last() =~= st.0);
            assert(st.0.push(st.1).drop_last() =~= st.0);
            if st.0.len() == 0 {
                assert(join_spaces(st.0.push(c2)) == c2);
                assert(join_spaces(st.0.push(st.1)) == st.1);
            } else {
                assert(join_spaces(st.0.push(c2)) == join_spaces(st.0).push(' ') + c2);
                assert(join_spaces(st.0.push(st.1)) == join_spaces(st.0).push(' ') + st.1);
                assert(join_spaces(st.0).push(' ') + c2 =~= (join_spaces(st.0).push(' ') + st.1).push(' ') + w);
            }
        } else {
            let l2 = st.0.push(st.1);
            assert(wrap_lines_of(wrap_upto(ws, n, width)) =~= l2.push(w));
            assert(l2.push(w).drop_last() =~= l2);
        }
    }
}

// ── Sparkline ───────────────────────────────────────────────────────────────

/// The eight bar characters of a sparkline, lowest first.
pub open spec fn spark_bar(i: int) -> char {
    if i <= 0 { '▁' }
    else if i == 1 { '▂' }
    else if i == 2 { '▃' }
    else if i == 3 { '▄' }
    else if i == 4 { '▅' }
    else if i == 5 { '▆' }
    else if i == 6 { '▇' }
    else { '█' }
}

fn spark_bar_exec(i: usize) -> (c: char)
    ensures
        c == spark_bar(i as int),
{
    if i == 0 { '▁' }
    else if i == 1 { '▂' }
    else if i == 2 { '▃' }
    else if i == 3 { '▄' }
    else if i == 4 { '▅' }
    else if i == 5 { '▆' }
    else if i == 6 { '▇' }
    else { '█' }
}

/// The largest value of `data` (0 when empty).
pub open spec fn seq_max(data: Seq<u32>) -> u32
    decreases data.len(),
{
    if data.len() == 0 {
        0
    } else {
        let m = seq_max(data.drop_last());
        if data.last() > m { data.last() } else { m }
    }
}

/// Bar level of `v` when the largest value is `max`: `v / max * 7` rounded
/// to the nearest integer (halves up), 0 when `max` is 0.
pub open spec fn spark_level(v: u32, max: u32) -> int {
    if max == 0 { 0 } else { (14 * v + max) / (2 * max) }
}

/// The sparkline of `data`: one bar per value, its height proportional to
/// the value relative to the largest one.
pub open spec fn sparkline_spec(data: Seq<u32>) -> Seq<char> {
    Seq::new(data.len(), |i: int| spark_bar(spark_level(data[i], seq_max(data))))
}

pub proof fn lemma_seq_max(data: Seq<u32>)
    ensures
        forall|i: int| 0 <= i < data.len() ==> data[i] <= seq_max(data),
        data.len() > 0 ==> exists|i: int| 0 <= i < data.len() && data[i] == seq_max(data),
    decreases data.len(),
{
    if data.len() > 0 {
        lemma_seq_max(data.drop_last());
        assert forall|i: int| 0 <= i < data.len() implies data[i] <= seq_max(data) by {
            if i < data.len() - 1 {
                assert(data[i] == data.drop_last()[i]);
            }
        }
        if data.last() > seq_max(data.drop_last()) || data.len() == 1 {
            assert(data[data.len() - 1] == seq_max(data));
        } else {
            let j = choose|j: int| 0 <= j < data.len() - 1 && data.drop_last()[j] == seq_max(data.drop_last());
            assert(data[j] == data.drop_last()[j]);
        }
    }
}

/// ASCII-art sparkline of a list of counts: empty for no data, all lowest
/// bars when every count is zero.
pub fn sparkline(data: &[u32]) -> (s: String)
    ensures
        s@ == sparkline_spec(data@),
{
    let mut max: u32 = 0;
    let mut i: usize = 0;
    while i < data.len()
        invariant
            i <= data.len(),
            max == seq_max(data@.subrange(0, i as int)),
        decreases data.len() - i,
    {
        proof {
            assert(data@.subrange(0, i + 1).drop_last() =~= data@.subrange(0, i as int));
        }
        if data[i] > max {
            max = data[i];
        }
        i = i + 1;
    }
    proof {
        assert(data@.subrange(0, data@.len() as int) =~= data@);
    }
    let mut out: Vec<char> = Vec::new();
    let mut j: usize = 0;
    while j < data.len()
        invariant
            j <= data.len(),
            max == seq_max(data@),
            out@ =~= sparkline_spec(data@).subrange(0, j as int),
        decreases data.len() - j,
    {
        let v = data[j];
        proof {
            lemma_seq_max(data@);
            assert(v <= max);
        }
        let idx: usize = if max == 0 {
            0
        } else {
            let num: u64 = 14 * (v as u64) + (max as u64);
            let den: u64 = 2 * (max as u64);
            assert(num / den <= 7) by (nonlinear_arith)
                requires num == 14 * v + max, den == 2 * max, v <= max, max > 0;
            (num / den) as usize
        };
        let c = spark_bar_exec(if idx > 7 { 7 } else { idx });
        proof {
            assert(idx == spark_level(v, max));
            assert(spark_bar(spark_level(v, max)) == c);
        }
        out.push(c);
        j = j + 1;
    }
    string_of(&out)
}

/// Sparkline bars follow the data: a larger count never gets a lower bar,
/// the largest count gets the top bar, and all-zero data gets the lowest bars.
pub proof fn lemma_sparkline_monotone(data: Seq<u32>)
    ensures
        forall|i: int, j: int| 0 <= i < data.len() && 0 <= j < data.len() && data[i] <= data[j]
            ==> spark_level(data[i], seq_max(data)) <= spark_level(data[j], seq_max(data)),
        forall|i: int| 0 <= i < data.len() && data[i] == seq_max(data) && seq_max(data) > 0
            ==> #[trigger] sparkline_spec(data)[i] == '█',
        forall|i: int| 0 <= i < data.len() && seq_max(data) == 0 ==> #[trigger] sparkline_spec(data)[i] == '▁',
{
    lemma_seq_max(data);
    let m = seq_max(data);
    assert forall|i: int, j: int| 0 <= i < data.len() && 0 <= j < data.len() && data[i] <= data[j]
        implies spark_level(data[i], m) <= spark_level(data[j], m) by {
        if m > 0 {
            let a = data[i] as int;
            let b = data[j] as int;
            assert((14 * a + m) / (2 * m) <= (14 * b + m) / (2 * m)) by (nonlinear_arith)
                requires a <= b, m > 0;
        }
    }
    assert forall|i: int| 0 <= i < data.len() && data[i] == m && m > 0 implies #[trigger] sparkline_spec(data)[i] == '█' by {
        assert((14 * (m as int) + m) / (2 * (m as int)) == 7) by (nonlinear_arith)
            requires m > 0;
    }
}


// ── Progress bar ────────────────────────────────────────────────────────────

/// Width of the progress bar, in characters.
pub const PROGRESS_BAR_WIDTH: usize = 30;

/// Full cells of the progress bar for `done` out of `total`.
pub open spec fn bar_filled(done: int, total: int) -> int {
    if total > 0 { (done * PROGRESS_BAR_WIDTH as int) / total } else { 0 }
}

/// Whether a half cell follows the full ones (the remainder is at least half a cell).
pub open spec fn bar_partial(done: int, total: int) -> int {
    if total > 0 { ((done * PROGRESS_BAR_WIDTH as int * 2) / total) % 2 } else { 0 }
}

/// The progress bar: full cells, a half cell when due, then empty cells,
/// always `PROGRESS_BAR_WIDTH` characters.
pub open spec fn progress_bar_spec(done: int, total: int) -> Seq<char> {
    let f = bar_filled(done, total);
    let p = bar_partial(done, total);
    repeat('█', f as nat) + (if p > 0 { seq!['▓'] } else { seq![] })
        + repeat('░', (PROGRESS_BAR_WIDTH as int - f - p) as nat)
}

proof fn lemma_bar_cells(done: int, total: int)
    requires
        0 <= done <= total,
    ensures
        0 <= bar_filled(done, total),
        0 <= bar_partial(done, total) <= 1,
        bar_filled(done, total) + bar_partial(done, total) <= PROGRESS_BAR_WIDTH,
{
    if total > 0 {
        let w = PROGRESS_BAR_WIDTH as int;
        let f = (done * w) / total;
        let g = (done * w * 2) / total;
        assert(f * total <= done * w < f * total + total) by (nonlinear_arith)
            requires f == (done * w) / total, total > 0, done >= 0, w > 0;
        assert(g * total <= done * w * 2 < g * total + total) by (nonlinear_arith)
            requires g == (done * w * 2) / total, total > 0, done >= 0, w > 0;
        assert(2 * f <= g <= 2 * f + 1) by (nonlinear_arith)
            requires f * total <= done * w, done * w < f * total + total,
                g * total <= done * w * 2, done * w * 2 < g * total + total, total > 0;
        assert(f <= w) by (nonlinear_arith)
            requires f * total <= done * w, done <= total, total > 0, w > 0;
        if f == w {
            assert(done == total) by (nonlinear_arith)
                requires f * total <= done * w, f == w, done <= total, w > 0;
            assert(g == 2 * w) by (nonlinear_arith)
                requires g * total <= done * w * 2, done * w * 2 < g * total + total, done == total, total > 0;
        }
    }
}

/// The progress bar for `done` exercises out of `total`.
pub fn progress_bar(done: usize, total: usize) -> (s: String)
    requires
        done <= total,
        total * (2 * PROGRESS_BAR_WIDTH) <= usize::MAX,
    ensures
        s@ == progress_bar_spec(done as int, total as int),
        s@.len() == PROGRESS_BAR_WIDTH,
{
    proof {
        lemma_bar_cells(done as int, total as int);
        assert(done * PROGRESS_BAR_WIDTH * 2 <= total * (2 * PROGRESS_BAR_WIDTH)) by (nonlinear_arith)
            requires done <= total;
    }
    let filled: usize = if total > 0 { (done * PROGRESS_BAR_WIDTH) / total } else { 0 };
    let partial: usize = if total > 0 { ((done * PROGRESS_BAR_WIDTH * 2) / total) % 2 } else { 0 };
    let mut out = repeat_exec('█', filled);
    if partial > 0 {
        out.push('▓');
    }
    let rest = repeat_exec('░', PROGRESS_BAR_WIDTH - filled - partial);
    push_all(&mut out, &rest);
    proof {
        assert(out@ =~= progress_bar_spec(done as int, total as int));
    }
    string_of(&out)
}

/// The mini-map cell of exercise `i`: `◉` for the current one, `●` for a
/// completed one, `○` otherwise.
pub open spec fn minimap_cell(i: int, current: int, done: bool) -> char {
    if i == current { '◉' } else if done { '●' } else { '○' }
}

/// The mini-map of a session: one cell per exercise.
pub fn minimap(current: usize, completed: &Vec<bool>) -> (s: String)
    ensures
        s@ == Seq::new(completed@.len(), |i: int| minimap_cell(i, current as int, completed@[i])),
{
    let mut out: Vec<char> = Vec::new();
    let mut i: usize = 0;
    while i < completed.len()
        invariant
            i <= completed@.len(),
            out@ =~= Seq::new(i as nat, |k: int| minimap_cell(k, current as int, completed@[k])),
        decreases completed.len() - i,
    {
        let c = if i == current { '◉' } else if completed[i] { '●' } else { '○' };
        out.push(c);
        i = i + 1;
    }
    string_of(&out)
}

// ── Small formatters ────────────────────────────────────────────────────────

/// A visualiser variable as `name: value`.
pub fn fmt_var(v: &VisVar) -> (s: String)
    ensures
        s@ == v.name@ + ": "@ + v.value@,
{
    let mut out = chars_of(v.name.as_str());
    push_str(&mut out, ": ");
    push_str(&mut out, v.value.as_str());
    string_of(&out)
}

/// Direction of an ANSI arrow key (escape sequence `ESC [ A/B/C/D`).
#[derive(Debug, Clone, Copy, PartialEq, Eq)]
pub enum ArrowKey {
    /// `ESC [ A`.
    Up,
    /// `ESC [ B`.
    Down,
    /// `ESC [ C`.
    Right,
    /// `ESC [ D`.
    Left,
}

/// The arrow key of a three-byte sequence `ESC [ X`, if it is one.
pub open spec fn arrow_of(buf: Seq<u8>) -> Option<ArrowKey> {
    if buf.len() != 3 || buf[0] != 0x1b || buf[1] != 0x5b {
        None
    } else if buf[2] == 0x41 {
        Some(ArrowKey::Up)
    } else if buf[2] == 0x42 {
        Some(ArrowKey::Down)
    } else if buf[2] == 0x43 {
        Some(ArrowKey::Right)
    } else if buf[2] == 0x44 {
        Some(ArrowKey::Left)
    } else {
        None
    }
}

/// Parses a three-byte `ESC [ A/B/C/D` sequence into an arrow key.
pub fn try_parse_arrow(buf: &[u8]) -> (r: Option<ArrowKey>)
    ensures
        r == arrow_of(buf@),
{
    if buf.len() != 3 || buf[0] != 0x1b || buf[1] != 0x5b {
        None
    } else if buf[2] == 0x41 {
        Some(ArrowKey::Up)
    } else if buf[2] == 0x42 {
        Some(ArrowKey::Down)
    } else if buf[2] == 0x43 {
        Some(ArrowKey::Right)
    } else if buf[2] == 0x44 {
        Some(ArrowKey::Left)
    } else {
        None
    }
}

/// Star rendering of a difficulty: as many `★` as its level, then `☆` up to five.
pub open spec fn stars_spec(d: Difficulty) -> Seq<char> {
    repeat('★', d.level() as nat) + repeat('☆', (5 - d.level()) as nat)
}

/// The star text of a difficulty (one `★` per level, `☆` up to five).
pub fn difficulty_star_text(d: Difficulty) -> (s: String)
    ensures
        s@ == stars_spec(d),
{
    let n = d.as_u8() as usize;
    let mut out = repeat_exec('★', n);
    let rest = repeat_exec('☆', 5 - n);
    push_all(&mut out, &rest);
    string_of(&out)
}

/// Colour band of a percentage: 2 (green) from 75, 1 (yellow) from 25, else 0 (red).
pub fn pct_band(pct: u32) -> (band: u8)
    ensures
        band == (if pct >= 75 { 2u8 } else if pct >= 25 { 1u8 } else { 0u8 }),
{
    if pct >= 75 { 2 } else if pct >= 25 { 1 } else { 0 }
}

// ── Output diff ─────────────────────────────────────────────────────────────

/// How a line of the output diff is shown.
#[derive(Debug, Clone, Copy, PartialEq, Eq)]
pub enum DiffKind {
    /// The line is the same in the expected and the actual output.
    Same,
    /// The expected line (shown with `-`).
    Expected,
    /// The actual line (shown with `+`).
    Got,
}

/// A line of the output diff.
#[derive(Debug, Clone)]
pub struct DiffLine {
    /// How the line is shown.
    pub kind: DiffKind,
    /// The text of the line.
    pub text: String,
}

/// The diff entries for line `i` of the expected lines `e` and the actual
/// lines `g`: the line once when both agree, else the expected line then
/// the actual line, each where it exists.
pub open spec fn diff_at(e: Seq<Seq<char>>, g: Seq<Seq<char>>, i: int) -> Seq<(DiffKind, Seq<char>)> {
    if i < e.len() && i < g.len() {
        if e[i] == g[i] {
            seq![(DiffKind::Same, e[i])]
        } else {
            seq![(DiffKind::Expected, e[i]), (DiffKind::Got, g[i])]
        }
    } else if i < e.len() {
        seq![(DiffKind::Expected, e[i])]
    } else if i < g.len() {
        seq![(DiffKind::Got, g[i])]
    } else {
        seq![]
    }
}

/// The diff entries of the first `n` lines.
pub open spec fn diff_upto(e: Seq<Seq<char>>, g: Seq<Seq<char>>, n: int) -> Seq<(DiffKind, Seq<char>)>
    decreases n,
{
    if n <= 0 {
        seq![]
    } else {
        diff_upto(e, g, n - 1) + diff_at(e, g, n - 1)
    }
}

/// The line diff of the expected and the actual output, each trimmed and
/// split into lines.
pub open spec fn output_diff_spec(expected: Seq<char>, got: Seq<char>) -> Seq<(DiffKind, Seq<char>)> {
    let e = lines(trim(expected));
    let g = lines(trim(got));
    diff_upto(e, g, if e.len() >= g.len() { e.len() as int } else { g.len() as int })
}

/// The view of a diff line.
pub open spec fn diff_view(d: DiffLine) -> (DiffKind, Seq<char>) {
    (d.kind, d.text@)
}

fn push_diff(out: &mut Vec<DiffLine>, kind: DiffKind, text: &Vec<char>)
    ensures
        final(out)@.len() == old(out)@.len() + 1,
        forall|k: int| 0 <= k < old(out)@.len() ==> #[trigger] final(out)@[k] == old(out)@[k],
        diff_view(final(out)@[old(out)@.len() as int]) == (kind, text@),
{
    out.push(DiffLine { kind, text: string_of(text) });
}

/// Line-by-line comparison of the expected and the actual output, as shown
/// after a wrong answer: equal lines once, differing lines as the expected
/// line then the actual one, surplus lines of either side alone.
pub fn output_diff(expected: &str, got: &str) -> (r: Vec<DiffLine>)
    ensures
        r@.len() == output_diff_spec(expected@, got@).len(),
        forall|k: int| 0 <= k < r@.len() ==> diff_view(#[trigger] r@[k]) == output_diff_spec(expected@, got@)[k],
{
    let ev = chars_of(expected);
    let et = trim_exec(&ev);
    let e = split_lines(&et);
    let gv = chars_of(got);
    let gt = trim_exec(&gv);
    let g = split_lines(&gt);
    let ghost es = views(e@);
    let ghost gs = views(g@);
    let max = if e.len() >= g.len() { e.len() } else { g.len() };
    let mut out: Vec<DiffLine> = Vec::new();
    let mut i: usize = 0;
    while i < max
        invariant
            i <= max,
            max == if e@.len() >= g@.len() { e@.len() } else { g@.len() },
            es == views(e@),
            gs == views(g@),
            out@.len() == diff_upto(es, gs, i as int).len(),
            forall|k: int| 0 <= k < out@.len() ==> diff_view(#[trigger] out@[k]) == diff_upto(es, gs, i as int)[k],
        decreases max - i,
    {
        let ghost before = out@;
        let ghost prev = diff_upto(es, gs, i as int);
        proof {
            assert(diff_upto(es, gs, i + 1) == prev + diff_at(es, gs, i as int));
        }
        if i < e.len() && i < g.len() {
            proof {
                assert(es[i as int] == e@[i as int]@);
                assert(gs[i as int] == g@[i as int]@);
            }
            if chars_eq(&e[i], &g[i]) {
                push_diff(&mut out, DiffKind::Same, &e[i]);
            } else {
                push_diff(&mut out, DiffKind::Expected, &e[i]);
                push_diff(&mut out, DiffKind::Got, &g[i]);
            }
        } else if i < e.len() {
            proof {
                assert(es[i as int] == e@[i as int]@);
            }
            push_diff(&mut out, DiffKind::Expected, &e[i]);
        } else {
            proof {
                assert(gs[i as int] == g@[i as int]@);
            }
            push_diff(&mut out, DiffKind::Got, &g[i]);
        }
        proof {
            let cur = diff_upto(es, gs, i + 1);
            assert forall|k: int| 0 <= k < out@.len() implies diff_view(#[trigger] out@[k]) == cur[k] by {
                if k < before.len() {
                    assert(out@[k] == before[k]);
                }
            }
        }
        i = i + 1;
    }
    proof {
        assert(es == lines(trim(expected@)));
        assert(gs == lines(trim(got@)));
    }
    out
}


// ── Exercise statement ──────────────────────────────────────────────────────

/// Width beyond which a line of an exercise statement is wrapped.
pub const TEXT_WRAP_WIDTH: usize = 72;

/// One line of a statement as shown: wrapped when longer than
/// `TEXT_WRAP_WIDTH` characters, else as it is.
pub open spec fn statement_line(l: Seq<char>) -> Seq<Seq<char>> {
    if l.len() > TEXT_WRAP_WIDTH { wrap_spec(l, TEXT_WRAP_WIDTH as nat) } else { seq![l] }
}

/// The first `n` lines of a statement as shown.
pub open spec fn statement_lines_upto(ls: Seq<Seq<char>>, n: int) -> Seq<Seq<char>>
    decreases n,
{
    if n <= 0 { seq![] } else { statement_lines_upto(ls, n - 1) + statement_line(ls[n - 1]) }
}

/// The lines of an exercise statement as shown: each line of the text,
/// those longer than `TEXT_WRAP_WIDTH` characters word-wrapped.
pub fn statement_lines(text: &str) -> (r: Vec<String>)
    ensures
        string_views(r@) == statement_lines_upto(lines(text@), lines(text@).len() as int),
{
    let v = chars_of(text);
    let ls = split_lines(&v);
    let mut out: Vec<String> = Vec::new();
    let mut i: usize = 0;
    while i < ls.len()
        invariant
            i <= ls.len(),
            views(ls@) == lines(text@),
            string_views(out@) == statement_lines_upto(views(ls@), i as int),
        decreases ls.len() - i,
    {
        let line = &ls[i];
        proof {
            assert(views(ls@)[i as int] == line@);
        }
        let ghost before = string_views(out@);
        if line.len() > TEXT_WRAP_WIDTH {
            let s = string_of(line);
            let w = wrap_text(s.as_str(), TEXT_WRAP_WIDTH);
            let mut j: usize = 0;
            while j < w.len()
                invariant
                    j <= w.len(),
                    string_views(out@) == before + string_views(w@).take(j as int),
                decreases w.len() - j,
            {
                let ghost b2 = string_views(out@);
                out.push(w[j].clone());
                proof {
                    assert(string_views(out@) =~= b2.push(w@[j as int]@));
                    assert(string_views(w@).take(j + 1) =~= string_views(w@).take(j as int).push(w@[j as int]@));
                }
                j = j + 1;
            }
            proof {
                assert(string_views(w@).take(w.len() as int) =~= string_views(w@));
            }
        } else {
            out.push(string_of(line));
            proof {
                assert(string_views(out@) =~= before + seq![line@]);
            }
        }
        i = i + 1;
    }
    out
}

/// The name of a starter-code stage (`S2 Blancs` when none is known).
pub open spec fn stage_label_spec(stage: Option<u8>) -> Seq<char> {
    match stage {
        Some(0) => "S0 Exemple"@,
        Some(1) => "S1 Guide"@,
        Some(2) => "S2 Blancs"@,
        Some(3) => "S3 Squelette"@,
        Some(4) => "S4 Autonome"@,
        _ => "S2 Blancs"@,
    }
}

/// The name of a starter-code stage, as the exercise header shows it.
pub fn stage_label(stage: Option<u8>) -> (s: &'static str)
    ensures
        s@ == stage_label_spec(stage),
{
    match stage {
        Some(0) => "S0 Exemple",
        Some(1) => "S1 Guide",
        Some(2) => "S2 Blancs",
        Some(3) => "S3 Squelette",
        Some(4) => "S4 Autonome",
        _ => "S2 Blancs",
    }
}

} // verus!

