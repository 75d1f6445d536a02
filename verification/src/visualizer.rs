//! The memory visualiser: what one step of an exercise's stack/heap
//! animation shows, laid out as plain text before any colouring.
use vstd::prelude::*;

use crate::display::{fmt_var, string_views, wrap_spec, wrap_text, wrap_upto};
use crate::models::{Exercise, VisStep, VisVar};
use crate::text::{chars_of, decimal, decimal_exec, push_all, push_str, repeat, repeat_exec, string_of, words};

verus! {

/// Width of the text inside the visualiser's frame.
pub const VIS_INNER_WIDTH: usize = 52;

/// Width of each of the two columns (stack, heap).
pub const VIS_COLUMN_WIDTH: usize = 26;

/// Width to which the explanation of a step is wrapped.
pub const VIS_WRAP_WIDTH: usize = 50;

/// `s` followed by spaces up to `width` characters; unchanged when longer.
pub open spec fn pad_right(s: Seq<char>, width: nat) -> Seq<char> {
    if s.len() < width { s + repeat(' ', (width - s.len()) as nat) } else { s }
}

/// `s` padded with spaces to `width` characters.
pub fn pad_right_exec(s: &Vec<char>, width: usize) -> (r: Vec<char>)
    ensures
        r@ == pad_right(s@, width as nat),
{
    let mut out: Vec<char> = Vec::new();
    push_all(&mut out, s);
    if s.len() < width {
        let sp = repeat_exec(' ', width - s.len());
        push_all(&mut out, &sp);
    }
    out
}

/// The text of the `i`-th variable, `name: value`, or nothing past the end.
pub open spec fn var_text(vars: Seq<VisVar>, i: int) -> Seq<char> {
    if 0 <= i < vars.len() { vars[i].name@ + ": "@ + vars[i].value@ } else { seq![] }
}

/// One row of the two columns; the right column may be shown dimmed.
pub struct VisRow {
    /// Left (stack) cell, padded to the column width.
    pub left: String,
    /// Right (heap) cell, padded to the column width.
    pub right: String,
    /// Whether the right cell is shown dimmed.
    pub right_dimmed: bool,
}

/// The `i`-th row of a step: the stack and heap variables side by side;
/// an empty heap shows `(vide)`, dimmed, on the first row.
pub open spec fn row_spec(s: VisStep, i: int) -> (Seq<char>, Seq<char>, bool) {
    let w = VIS_COLUMN_WIDTH as nat;
    if s.heap.len() == 0 && i == 0 {
        (pad_right(var_text(s.stack@, 0), w), pad_right("(vide)"@, w), true)
    } else {
        (pad_right(var_text(s.stack@, i), w), pad_right(var_text(s.heap@, i), w), false)
    }
}

/// The view of a row.
pub open spec fn row_view(r: VisRow) -> (Seq<char>, Seq<char>, bool) {
    (r.left@, r.right@, r.right_dimmed)
}

/// Number of rows of a step: the longer column, at least one.
pub open spec fn row_count(s: VisStep) -> nat {
    let m = if s.stack.len() >= s.heap.len() { s.stack.len() } else { s.heap.len() };
    if m == 0 { 1 } else { m as nat }
}

/// The step shown for a requested `step` among `n`: the last one when past the end.
pub open spec fn shown_step(n: nat, step: nat) -> nat {
    if step < n { step } else { (n - 1) as nat }
}

/// `k/n` with `k` counted from one.
pub open spec fn position_text(k: nat, n: nat) -> Seq<char> {
    decimal(k + 1) + "/"@ + decimal(n)
}

/// Number of characters taken by the `n` progress dots and the spaces between them.
pub open spec fn dots_width(n: nat) -> int {
    2 * n - 1
}

/// The step counter after the dots, padded so the row fills the frame.
pub open spec fn step_info_spec(k: nat, n: nat) -> Seq<char> {
    let info = "  Etape "@ + position_text(k, n);
    let room = if dots_width(n) <= VIS_INNER_WIDTH { (VIS_INNER_WIDTH - dots_width(n)) as nat } else { 0 };
    pad_right(info, room)
}

/// The label of a step: its short label, or its title when that is empty.
pub open spec fn label_spec(s: VisStep) -> Seq<char> {
    pad_right(if s.step_label@.len() == 0 { s.label@ } else { s.step_label@ }, VIS_INNER_WIDTH as nat)
}

/// The explanation of a step, wrapped and padded to the frame.
pub open spec fn explanation_spec(s: VisStep) -> Seq<Seq<char>> {
    wrap_spec(s.explanation@, VIS_WRAP_WIDTH as nat).map_values(|l: Seq<char>| pad_right(l, VIS_INNER_WIDTH as nat))
}

/// Everything one visualiser step shows, before colouring.
pub struct VisPanel {
    /// Title of the frame: `Visualiseur — k/n`.
    pub title: String,
    /// Index of the step shown.
    pub step: usize,
    /// Number of steps.
    pub total: usize,
    /// Step counter printed after the progress dots, padded.
    pub step_info: String,
    /// Label of the step, padded.
    pub label: String,
    /// Column headings.
    pub header: VisRow,
    /// Stack and heap rows.
    pub rows: Vec<VisRow>,
    /// Wrapped explanation lines, padded.
    pub explanation: Vec<String>,
    /// Navigation hint, padded.
    pub navigation: String,
    /// Number of terminal lines the panel takes, trailing blank line included.
    pub line_count: usize,
}

/// Wrapping never yields more lines than there are words.
proof fn lemma_wrap_upto_count(ws: Seq<Seq<char>>, n: int, width: nat)
    requires
        0 <= n <= ws.len(),
    ensures
        wrap_upto(ws, n, width).0.len() + (if wrap_upto(ws, n, width).1.len() > 0 { 1int } else { 0int }) <= n,
    decreases n,
{
    if n > 0 {
        lemma_wrap_upto_count(ws, n - 1, width);
    }
}

/// A text has no more words than characters.
proof fn lemma_words_count(s: Seq<char>)
    ensures
        words(s).len() <= s.len(),
    decreases s.len(),
{
    let t = crate::text::trim_start(s);
    crate::text::lemma_trim_start_shape(s);
    if t.len() > 0 {
        let w = crate::text::word_len(t);
        crate::text::lemma_word_len_bounds(t);
        lemma_words_count(t.subrange(w, t.len() as int));
    }
}

/// A wrapped text has no more lines than characters.
proof fn lemma_wrap_count(text: Seq<char>, width: nat)
    ensures
        wrap_spec(text, width).len() <= text.len(),
{
    let ws = words(text);
    lemma_wrap_upto_count(ws, ws.len() as int, width);
    lemma_words_count(text);
}

/// `k/n` with `k` counted from one.
fn position_exec(k: usize, n: usize) -> (r: Vec<char>)
    requires
        k < n,
    ensures
        r@ == position_text(k as nat, n as nat),
{
    let mut out = decimal_exec((k + 1) as u64);
    push_str(&mut out, "/");
    let d = decimal_exec(n as u64);
    push_all(&mut out, &d);
    out
}

/// A cell: the `i`-th variable padded to the column width.
fn cell(vars: &Vec<VisVar>, i: usize) -> (r: String)
    ensures
        r@ == pad_right(var_text(vars@, i as int), VIS_COLUMN_WIDTH as nat),
{
    let text: Vec<char> = if i < vars.len() {
        let s = fmt_var(&vars[i]);
        chars_of(s.as_str())
    } else {
        Vec::new()
    };
    let p = pad_right_exec(&text, VIS_COLUMN_WIDTH);
    string_of(&p)
}

/// A constant text padded to `width`.
fn padded(s: &str, width: usize) -> (r: String)
    ensures
        r@ == pad_right(s@, width as nat),
{
    let v = chars_of(s);
    let p = pad_right_exec(&v, width);
    string_of(&p)
}

/// The panel of step `step` of the exercise's visualisation (the last step
/// when `step` is past the end), or `None` when the exercise has none.
pub fn visualizer_panel(exercise: &Exercise, step: usize) -> (r: Option<VisPanel>)
    requires
        exercise.visualizer.steps.len() > 0 ==> {
            let s = exercise.visualizer.steps@[shown_step(exercise.visualizer.steps.len() as nat, step as nat) as int];
            s.stack.len() + s.heap.len() + s.explanation@.len() + 10 <= usize::MAX
        },
    ensures
        r is None <==> exercise.visualizer.steps.len() == 0,
        r matches Some(p) ==> {
            let n = exercise.visualizer.steps.len() as nat;
            let k = shown_step(n, step as nat);
            let s = exercise.visualizer.steps@[k as int];
            &&& p.step == k
            &&& p.total == n
            &&& p.title@ == "Visualiseur — "@ + position_text(k, n)
            &&& p.step_info@ == step_info_spec(k, n)
            &&& p.label@ == label_spec(s)
            &&& row_view(p.header) == (pad_right("STACK"@, VIS_COLUMN_WIDTH as nat), pad_right("HEAP"@, VIS_COLUMN_WIDTH as nat), false)
            &&& p.rows.len() == row_count(s)
            &&& forall|i: int| 0 <= i < p.rows.len() ==> row_view(#[trigger] p.rows@[i]) == row_spec(s, i)
            &&& string_views(p.explanation@) == explanation_spec(s)
            &&& p.navigation@ == pad_right("[<] prec   [>] suiv   [v] fermer"@, VIS_INNER_WIDTH as nat)
            &&& p.line_count == 9 + p.rows.len() + p.explanation.len()
        },
{
    let steps = &exercise.visualizer.steps;
    let n = steps.len();
    if n == 0 {
        return None;
    }
    let k = if step < n { step } else { n - 1 };
    let s = &steps[k];

    let mut title = chars_of("Visualiseur — ");
    let pos = position_exec(k, n);
    push_all(&mut title, &pos);

    let mut info = chars_of("  Etape ");
    push_all(&mut info, &pos);
    let room: usize = if n <= VIS_INNER_WIDTH / 2 { VIS_INNER_WIDTH - (2 * n - 1) } else { 0 };
    let info_p = pad_right_exec(&info, room);

    let short = chars_of(s.step_label.as_str());
    let label_v = if short.len() == 0 { chars_of(s.label.as_str()) } else { short };
    let label_p = pad_right_exec(&label_v, VIS_INNER_WIDTH);

    let header = VisRow {
        left: padded("STACK", VIS_COLUMN_WIDTH),
        right: padded("HEAP", VIS_COLUMN_WIDTH),
        right_dimmed: false,
    };

    let m0 = if s.stack.len() >= s.heap.len() { s.stack.len() } else { s.heap.len() };
    let m = if m0 == 0 { 1 } else { m0 };
    let mut rows: Vec<VisRow> = Vec::new();
    let mut i: usize = 0;
    while i < m
        invariant
            i <= m,
            m as nat == row_count(*s),
            rows.len() == i,
            forall|j: int| 0 <= j < i ==> row_view(#[trigger] rows@[j]) == row_spec(*s, j),
        decreases m - i,
    {
        let left = cell(&s.stack, i);
        let row = if s.heap.len() == 0 && i == 0 {
            VisRow { left, right: padded("(vide)", VIS_COLUMN_WIDTH), right_dimmed: true }
        } else {
            VisRow { left, right: cell(&s.heap, i), right_dimmed: false }
        };
        rows.push(row);
        i = i + 1;
    }

    let wrapped = wrap_text(s.explanation.as_str(), VIS_WRAP_WIDTH);
    let mut expl: Vec<String> = Vec::new();
    let mut j: usize = 0;
    while j < wrapped.len()
        invariant
            j <= wrapped.len(),
            string_views(wrapped@) == wrap_spec(s.explanation@, VIS_WRAP_WIDTH as nat),
            expl.len() == j,
            forall|q: int| 0 <= q < j ==> (#[trigger] expl@[q])@ == pad_right(wrapped@[q]@, VIS_INNER_WIDTH as nat),
        decreases wrapped.len() - j,
    {
        let line = chars_of(wrapped[j].as_str());
        let p = pad_right_exec(&line, VIS_INNER_WIDTH);
        expl.push(string_of(&p));
        j = j + 1;
    }
    proof {
        lemma_wrap_count(s.explanation@, VIS_WRAP_WIDTH as nat);
        assert(string_views(expl@) =~= explanation_spec(*s)) by {
            assert forall|q: int| 0 <= q < expl.len() implies string_views(expl@)[q] == explanation_spec(*s)[q] by {
                assert(string_views(wrapped@)[q] == wrapped@[q]@);
            }
        }
    }
    let line_count = 9 + rows.len() + expl.len();

    Some(VisPanel {
        title: string_of(&title),
        step: k,
        total: n,
        step_info: string_of(&info_p),
        label: string_of(&label_p),
        header,
        rows,
        explanation: expl,
        navigation: padded("[<] prec   [>] suiv   [v] fermer", VIS_INNER_WIDTH),
        line_count,
    })
}

} // verus!
