//! Unity test-harness support: harness safety check, removal of the
//! learner's `main`, harness composition and summary parsing.
use vstd::prelude::*;

use crate::runner::{compile_error_result, make_compile_error, RunResult};
use crate::text::{
    chars_of, contains, copy_range, find, lines, occurs_at, push_all, push_str, split_lines,
    split_words, starts_with, starts_with_exec, str_contains, string_of, trim_start,
    trim_start_exec, views, words,
};

verus! {

/// Name of the generated C file that holds the learner's code and the harness.
pub const TEST_C_FILENAME: &'static str = "test_current.c";

// ── Forbidden calls in harness code ─────────────────────────────────────────

/// C constructs a harness may not contain, in order of detection.
pub open spec fn forbidden_patterns() -> Seq<Seq<char>> {
    seq![
        "system("@, "popen("@, "execv("@, "execvp("@, "execve("@, "execl("@, "execlp("@,
        "execle("@, "dlopen("@, "dlsym("@, "__attribute__((constructor))"@, "#pragma"@,
        "fork("@, "kill("@, "signal("@, "setuid("@, "setgid("@, "chroot("@, "mount("@,
        "ptrace("@,
    ]
}

/// The first forbidden pattern, from position `i` on, that `code` contains.
pub open spec fn forbidden_from(code: Seq<char>, i: int) -> Option<Seq<char>>
    decreases forbidden_patterns().len() - i,
{
    if i < 0 || i >= forbidden_patterns().len() {
        None
    } else if contains(code, forbidden_patterns()[i]) {
        Some(forbidden_patterns()[i])
    } else {
        forbidden_from(code, i + 1)
    }
}

fn forbidden_pattern(i: usize) -> (p: &'static str)
    requires
        i < 20,
    ensures
        p@ == forbidden_patterns()[i as int],
{
    if i == 0 { "system(" }
    else if i == 1 { "popen(" }
    else if i == 2 { "execv(" }
    else if i == 3 { "execvp(" }
    else if i == 4 { "execve(" }
    else if i == 5 { "execl(" }
    else if i == 6 { "execlp(" }
    else if i == 7 { "execle(" }
    else if i == 8 { "dlopen(" }
    else if i == 9 { "dlsym(" }
    else if i == 10 { "__attribute__((constructor))" }
    else if i == 11 { "#pragma" }
    else if i == 12 { "fork(" }
    else if i == 13 { "kill(" }
    else if i == 14 { "signal(" }
    else if i == 15 { "setuid(" }
    else if i == 16 { "setgid(" }
    else if i == 17 { "chroot(" }
    else if i == 18 { "mount(" }
    else { "ptrace(" }
}

/// Checks harness code before it is compiled: the first forbidden pattern
/// it contains, if any.
pub fn validate_test_code(code: &str) -> (r: Option<&'static str>)
    ensures
        r matches Some(p) ==> forbidden_from(code@, 0) == Some(p@),
        r is None ==> forbidden_from(code@, 0) is None,
{
    let mut i: usize = 20;
    let mut found: Option<&'static str> = None;
    while i > 0
        invariant
            i <= 20,
            found matches Some(p) ==> forbidden_from(code@, i as int) == Some(p@),
            found is None ==> forbidden_from(code@, i as int) is None,
        decreases i,
    {
        i = i - 1;
        let p = forbidden_pattern(i);
        if str_contains(code, p) {
            found = Some(p);
        }
    }
    found
}

/// The message for an exercise in test mode without harness code.
pub open spec fn missing_test_code_message() -> Seq<char> {
    "Mode Test : champ 'test_code' manquant dans l'exercice"@
}

/// The message for harness code that holds forbidden pattern `p`.
pub open spec fn forbidden_test_code_message(p: Seq<char>) -> Seq<char> {
    "test_code invalide : pattern interdit détecté (`"@ + p + "`)"@
}

/// The checks made before test-mode code is compiled: the harness code
/// when it is present and holds no forbidden pattern; otherwise the failed
/// compilation reporting why.
pub fn test_preflight(test_code: Option<&str>) -> (r: Result<&str, RunResult>)
    ensures
        match test_code {
            None => r matches Err(e) && compile_error_result(e, missing_test_code_message()),
            Some(c) => match forbidden_from(c@, 0) {
                None => r == Ok::<&str, RunResult>(c),
                Some(p) => r matches Err(e) && compile_error_result(e, forbidden_test_code_message(p)),
            },
        },
{
    match test_code {
        None => Err(make_compile_error(String::from_str("Mode Test : champ 'test_code' manquant dans l'exercice"))),
        Some(c) => match validate_test_code(c) {
            None => Ok(c),
            Some(p) => {
                let mut msg = chars_of("test_code invalide : pattern interdit détecté (`");
                push_str(&mut msg, p);
                push_str(&mut msg, "`)");
                Err(make_compile_error(string_of(&msg)))
            },
        },
    }
}

// ── Removing `main` ─────────────────────────────────────────────────────────

/// Scanning `s` from `i` with `depth` open braces: the position just after
/// the brace that brings the depth back to zero.
pub open spec fn close_scan(s: Seq<char>, i: int, depth: int) -> Option<int>
    decreases s.len() - i,
{
    if i < 0 || i >= s.len() {
        None
    } else if s[i] == '{' {
        close_scan(s, i + 1, depth + 1)
    } else if s[i] == '}' {
        if depth - 1 == 0 {
            Some(i + 1)
        } else {
            close_scan(s, i + 1, depth - 1)
        }
    } else {
        close_scan(s, i + 1, depth)
    }
}

/// Scanning `s` from `i` with `depth` open braces never meets a `}` while
/// no brace is open, up to the brace that closes them all.
pub open spec fn never_below(s: Seq<char>, i: int, depth: int) -> bool
    decreases s.len() - i,
{
    if i < 0 || i >= s.len() {
        true
    } else if s[i] == '{' {
        never_below(s, i + 1, depth + 1)
    } else if s[i] == '}' {
        depth >= 1 && (depth - 1 == 0 || never_below(s, i + 1, depth - 1))
    } else {
        never_below(s, i + 1, depth)
    }
}

/// With a brace open, the scan cannot go below zero.
pub proof fn lemma_never_below_open(s: Seq<char>, i: int, depth: int)
    requires
        depth >= 1,
    ensures
        never_below(s, i, depth),
    decreases s.len() - i,
{
    if 0 <= i < s.len() {
        if s[i] == '{' {
            lemma_never_below_open(s, i + 1, depth + 1);
        } else if s[i] == '}' {
            if depth - 1 != 0 {
                lemma_never_below_open(s, i + 1, depth - 1);
            }
        } else {
            lemma_never_below_open(s, i + 1, depth);
        }
    }
}

/// Scanning from `open_pos` with no brace open: the position just after the
/// `}` that closes the first `{` met, or `None` when none closes it.
pub fn find_closing_brace(code: &Vec<char>, open_pos: usize) -> (r: Option<usize>)
    requires
        open_pos <= code.len(),
        never_below(code@, open_pos as int, 0),
    ensures
        r matches Some(e) ==> close_scan(code@, open_pos as int, 0) == Some(e as int),
        r is None ==> close_scan(code@, open_pos as int, 0) is None,
{
    let mut depth: usize = 0;
    let mut i = open_pos;
    while i < code.len()
        invariant
            open_pos <= i <= code.len(),
            depth <= i - open_pos,
            close_scan(code@, open_pos as int, 0) == close_scan(code@, i as int, depth as int),
            never_below(code@, i as int, depth as int),
        decreases code.len() - i,
    {
        let c = code[i];
        if c == '{' {
            depth = depth + 1;
        } else if c == '}' {
            if depth == 1 {
                return Some(i + 1);
            }
            depth = depth - 1;
        }
        i = i + 1;
    }
    None
}

/// The code with the first `int main` definition removed: from `int main`
/// to the brace that closes its body (or the end of the code when none
/// does). Unchanged when `int main` or a following `{` is absent.
pub open spec fn without_main(code: Seq<char>) -> Seq<char> {
    if !contains(code, "int main"@) {
        code
    } else {
        let m = choose_first(code, "int main"@);
        let after = code.subrange(m, code.len() as int);
        if !contains(after, "{"@) {
            code
        } else {
            let b = m + choose_first(after, "{"@);
            let end = match close_scan(code, b, 0) {
                Some(e) => e,
                None => code.len() as int,
            };
            code.subrange(0, m) + code.subrange(end, code.len() as int)
        }
    }
}

/// The first position where `needle` occurs in `hay` (meaningful when it occurs).
pub open spec fn choose_first(hay: Seq<char>, needle: Seq<char>) -> int {
    choose|i: int| occurs_at(hay, needle, i) && forall|j: int| 0 <= j < i ==> !occurs_at(hay, needle, j)
}

pub proof fn lemma_first_unique(hay: Seq<char>, needle: Seq<char>, i: int)
    requires
        occurs_at(hay, needle, i),
        forall|j: int| 0 <= j < i ==> !occurs_at(hay, needle, j),
    ensures
        choose_first(hay, needle) == i,
{
    let k = choose_first(hay, needle);
    assert(occurs_at(hay, needle, k) && forall|j: int| 0 <= j < k ==> !occurs_at(hay, needle, j));
    if k < i {
        assert(!occurs_at(hay, needle, k));
    } else if k > i {
        assert(!occurs_at(hay, needle, i));
    }
}

/// Removes the learner's `main()` so the harness can define its own.
pub fn strip_main_function(code: &str) -> (res: String)
    ensures
        res@ == without_main(code@),
{
    let v = chars_of(code);
    let pat = chars_of("int main");
    let main_pos = match find(&v, &pat) {
        Some(p) => p,
        None => {
            return String::from_str(code);
        },
    };
    proof {
        lemma_first_unique(v@, pat@, main_pos as int);
    }
    let after = copy_range(&v, main_pos, v.len());
    let brace = chars_of("{");
    let off = match find(&after, &brace) {
        Some(o) => o,
        None => {
            return String::from_str(code);
        },
    };
    proof {
        reveal_strlit("{");
        lemma_first_unique(after@, brace@, off as int);
        assert(brace@ =~= seq!['{']);
        assert(after@.subrange(off as int, off + 1)[0] == '{');
        assert(v@[main_pos + off] == after@[off as int]);
    }
    let brace_start = main_pos + off;
    proof {
        lemma_never_below_open(v@, brace_start + 1, 1);
    }
    let end = match find_closing_brace(&v, brace_start) {
        Some(e) => e,
        None => v.len(),
    };
    proof {
        if let Some(e) = close_scan(v@, brace_start as int, 0) {
            lemma_close_scan_bound(v@, brace_start as int, 0);
        }
    }
    let mut out = copy_range(&v, 0, main_pos);
    let tail = copy_range(&v, end, v.len());
    push_all(&mut out, &tail);
    string_of(&out)
}

pub proof fn lemma_close_scan_bound(s: Seq<char>, i: int, depth: int)
    ensures
        close_scan(s, i, depth) matches Some(e) ==> i < e <= s.len(),
    decreases s.len() - i,
{
    if 0 <= i < s.len() {
        if s[i] == '{' {
            lemma_close_scan_bound(s, i + 1, depth + 1);
        } else if s[i] == '}' {
            if depth - 1 != 0 {
                lemma_close_scan_bound(s, i + 1, depth - 1);
            }
        } else {
            lemma_close_scan_bound(s, i + 1, depth);
        }
    }
}

/// Text of the generated harness file: a `#line` directive naming the
/// learner's file, the learner's code without `main`, the Unity include,
/// empty `setUp`/`tearDown`, then the harness code.
pub open spec fn test_source_spec(source_filename: Seq<char>, user_code: Seq<char>, test_code: Seq<char>) -> Seq<char> {
    "#line 1 \""@ + source_filename + "\"\n"@ + without_main(user_code)
        + "\n#include \"unity.h\"\nvoid setUp(void) {}\nvoid tearDown(void) {}\n\n"@ + test_code + "\n"@
}

/// The text of the generated harness file (see `test_source_spec`).
pub fn test_source_text(source_filename: &str, user_code: &str, test_code: &str) -> (res: String)
    ensures
        res@ == test_source_spec(source_filename@, user_code@, test_code@),
{
    let stripped = strip_main_function(user_code);
    let mut out = chars_of("#line 1 \"");
    push_str(&mut out, source_filename);
    push_str(&mut out, "\"\n");
    push_str(&mut out, stripped.as_str());
    push_str(&mut out, "\n#include \"unity.h\"\nvoid setUp(void) {}\nvoid tearDown(void) {}\n\n");
    push_str(&mut out, test_code);
    push_str(&mut out, "\n");
    string_of(&out)
}

// ── Summary parsing ─────────────────────────────────────────────────────────

/// Whether `c` is an ASCII digit.
pub open spec fn is_digit(c: char) -> bool {
    '0' <= c <= '9'
}

/// The value of a run of ASCII digits.
pub open spec fn digits_value(s: Seq<char>) -> nat
    decreases s.len(),
{
    if s.len() == 0 {
        0
    } else {
        digits_value(s.drop_last()) * 10 + ((s.last() as u32) - ('0' as u32)) as nat
    }
}

/// The digits of an unsigned number: `s` without a leading `+`.
pub open spec fn unsigned_digits(s: Seq<char>) -> Seq<char> {
    if s.len() > 0 && s[0] == '+' { s.drop_first() } else { s }
}

/// `usize::from_str`: an optional `+`, then at least one ASCII digit, the
/// value fitting in `usize`.
pub open spec fn parse_usize_spec(s: Seq<char>) -> Option<usize> {
    let d = unsigned_digits(s);
    if d.len() > 0 && (forall|i: int| 0 <= i < d.len() ==> is_digit(#[trigger] d[i]))
        && digits_value(d) <= usize::MAX {
        Some(digits_value(d) as usize)
    } else {
        None
    }
}

pub proof fn lemma_parse_usize_none(s: Seq<char>, d: Seq<char>, k: int)
    requires
        d == unsigned_digits(s),
        0 <= k < d.len(),
        !is_digit(d[k]),
    ensures
        parse_usize_spec(s) is None,
{
    assert(!(forall|i: int| 0 <= i < d.len() ==> is_digit(#[trigger] d[i])));
}

pub proof fn lemma_parse_usize_too_big(s: Seq<char>, d: Seq<char>)
    requires
        d == unsigned_digits(s),
        (forall|i: int| 0 <= i < d.len() ==> is_digit(#[trigger] d[i])) ==> digits_value(d) > usize::MAX,
    ensures
        parse_usize_spec(s) is None,
{
}

/// Parses a decimal `usize` as `str::parse::<usize>` does.
pub fn parse_usize(s: &Vec<char>) -> (r: Option<usize>)
    ensures
        r == parse_usize_spec(s@),
{
    let start: usize = if s.len() > 0 && s[0] == '+' { 1 } else { 0 };
    let ghost d = unsigned_digits(s@);
    proof {
        assert(d =~= s@.subrange(start as int, s@.len() as int));
    }
    if start >= s.len() {
        return None;
    }
    let mut acc: usize = 0;
    let mut i = start;
    while i < s.len()
        invariant
            start <= i <= s.len(),
            d == unsigned_digits(s@),
            d =~= s@.subrange(start as int, s@.len() as int),
            forall|k: int| 0 <= k < i - start ==> is_digit(#[trigger] d[k]),
            acc == digits_value(d.subrange(0, i - start)),
        decreases s.len() - i,
    {
        let c = s[i];
        if !('0' <= c && c <= '9') {
            proof {
                assert(d[i - start] == c);
                assert(!is_digit(d[i - start]));
                lemma_parse_usize_none(s@, d, i - start);
            }
            return None;
        }
        let dv = (c as u32 - '0' as u32) as usize;
        proof {
            assert(d.subrange(0, i - start + 1).drop_last() =~= d.subrange(0, i - start));
            assert(d.subrange(0, i - start + 1).last() == c);
        }
        if acc > (usize::MAX - dv) / 10 {
            proof {
                let pre = d.subrange(0, i - start + 1);
                assert(d[i - start] == c);
                assert(digits_value(pre) == acc * 10 + dv);
                assert(acc * 10 + dv > usize::MAX) by (nonlinear_arith)
                    requires acc > (usize::MAX - dv) / 10, dv <= 9;
                if forall|k: int| 0 <= k < d.len() ==> is_digit(#[trigger] d[k]) {
                    lemma_digits_value_prefix_mono(d, i - start + 1);
                }
                lemma_parse_usize_too_big(s@, d);
            }
            return None;
        }
        acc = acc * 10 + dv;
        i = i + 1;
    }
    proof {
        assert(d.subrange(0, d.len() as int) =~= d);
    }
    Some(acc)
}

pub proof fn lemma_digits_value_prefix_mono(s: Seq<char>, k: int)
    requires
        0 <= k <= s.len(),
        forall|i: int| 0 <= i < s.len() ==> is_digit(#[trigger] s[i]),
    ensures
        digits_value(s.subrange(0, k)) <= digits_value(s),
    decreases s.len() - k,
{
    if k < s.len() {
        lemma_digits_value_prefix_mono(s.drop_last(), k);
        assert(s.drop_last().subrange(0, k) =~= s.subrange(0, k));
        assert(digits_value(s.drop_last()) <= digits_value(s)) by (nonlinear_arith)
            requires digits_value(s) == digits_value(s.drop_last()) * 10 + ((s.last() as u32) - ('0' as u32)) as nat;
    } else {
        assert(s.subrange(0, k) =~= s);
    }
}

/// The line is a Unity summary "N Tests F Failures I Ignored".
pub open spec fn is_summary(line: Seq<char>) -> bool {
    let w = words(line);
    w.len() == 6 && w[1] == "Tests"@ && w[3] == "Failures"@ && w[5] == "Ignored"@
}

/// Summary of the last summary line among the first `n` lines: found, and
/// the number of failures (1 where it does not parse); `(false, 1)` when none.
pub open spec fn summary_upto(ls: Seq<Seq<char>>, n: int) -> (bool, usize)
    decreases n,
{
    if n <= 0 {
        (false, 1)
    } else if is_summary(ls[n - 1]) {
        (true, match parse_usize_spec(words(ls[n - 1])[2]) {
            Some(f) => f,
            None => 1,
        })
    } else {
        summary_upto(ls, n - 1)
    }
}

/// The test summary of a harness run: whether a summary line was found
/// (the last one wins) and its failure count.
pub open spec fn test_summary(stdout: Seq<char>) -> (bool, usize) {
    summary_upto(lines(stdout), lines(stdout).len() as int)
}

/// Parses the Unity summary line "N Tests F Failures I Ignored": whether it
/// was found and the failure count (1 when absent or unreadable).
pub fn parse_test_summary(stdout: &str) -> (r: (bool, usize))
    ensures
        r == test_summary(stdout@),
{
    let v = chars_of(stdout);
    let ls = split_lines(&v);
    let mut n = ls.len();
    while n > 0
        invariant
            n <= ls.len(),
            views(ls@) == lines(v@),
            test_summary(stdout@) == summary_upto(views(ls@), n as int),
        decreases n,
    {
        let parts = split_words(&ls[n - 1]);
        proof {
            assert(views(ls@)[n - 1] == ls@[n - 1]@);
        }
        if parts.len() == 6 && crate::text::str_eq(string_of(&parts[1]).as_str(), "Tests")
            && crate::text::str_eq(string_of(&parts[3]).as_str(), "Failures")
            && crate::text::str_eq(string_of(&parts[5]).as_str(), "Ignored") {
            proof {
                assert(views(parts@)[1] == parts@[1]@);
                assert(views(parts@)[3] == parts@[3]@);
                assert(views(parts@)[5] == parts@[5]@);
                assert(views(parts@)[2] == parts@[2]@);
            }
            let failures = match parse_usize(&parts[2]) {
                Some(f) => f,
                None => 1,
            };
            return (true, failures);
        }
        proof {
            if is_summary(views(ls@)[n - 1]) {
                assert(views(parts@)[1] == parts@[1]@);
                assert(views(parts@)[3] == parts@[3]@);
                assert(views(parts@)[5] == parts@[5]@);
            }
        }
        n = n - 1;
    }
    (false, 1)
}

/// Number of lines among the first `n` that start with `OK` once their
/// leading whitespace is removed.
pub open spec fn ok_count_upto(ls: Seq<Seq<char>>, n: int) -> nat
    decreases n,
{
    if n <= 0 {
        0
    } else {
        ok_count_upto(ls, n - 1) + if starts_with(trim_start(ls[n - 1]), "OK"@) { 1nat } else { 0nat }
    }
}

/// Number of passing-test lines ("OK ...") in a harness's output.
pub open spec fn ok_count(stdout: Seq<char>) -> nat {
    ok_count_upto(lines(stdout), lines(stdout).len() as int)
}

/// Counts the passing-test lines of a harness's output.
pub fn count_ok_lines(stdout: &str) -> (r: usize)
    ensures
        r == ok_count(stdout@),
{
    let v = chars_of(stdout);
    let ls = split_lines(&v);
    let ok = chars_of("OK");
    let mut n: usize = 0;
    let mut count: usize = 0;
    while n < ls.len()
        invariant
            n <= ls.len(),
            views(ls@) == lines(v@),
            ok@ == "OK"@,
            count == ok_count_upto(views(ls@), n as int),
            count <= n,
        decreases ls.len() - n,
    {
        let t = trim_start_exec(&ls[n]);
        proof {
            assert(views(ls@)[n as int] == ls@[n as int]@);
        }
        let hit = starts_with_exec(&t, &ok);
        proof {
            assert(t@ == trim_start(ls@[n as int]@));
            assert(ok@ == "OK"@);
            assert(hit == starts_with(t@, ok@));
            assert(hit == starts_with(trim_start(views(ls@)[n as int]), "OK"@));
            assert(ok_count_upto(views(ls@), n + 1) == ok_count_upto(views(ls@), n as int)
                + if hit { 1nat } else { 0nat });
        }
        if hit {
            count = count + 1;
        }
        n = n + 1;
    }
    count
}

/// Whether a harness run passed: the summary was found with no failure and,
/// when a number of passing tests is expected, at least that many "OK" lines.
pub open spec fn harness_passed(stdout: Seq<char>, expected_pass: Option<usize>) -> bool {
    let (found, failures) = test_summary(stdout);
    let passed = found && failures == 0;
    match expected_pass {
        Some(n) => passed && ok_count(stdout) >= n,
        None => passed,
    }
}

/// The failure count a summary line reports (1 where it does not read).
pub open spec fn reported_failures(line: Seq<char>) -> usize {
    match parse_usize_spec(words(line)[2]) {
        Some(f) => f,
        None => 1,
    }
}

/// Line `i` of `ls` is a summary line and no later line is one.
pub open spec fn last_summary_at(ls: Seq<Seq<char>>, i: int) -> bool {
    &&& 0 <= i < ls.len()
    &&& is_summary(ls[i])
    &&& forall|j: int| i < j < ls.len() ==> !is_summary(#[trigger] ls[j])
}

proof fn lemma_summary_upto_last(ls: Seq<Seq<char>>, n: int)
    requires
        0 <= n <= ls.len(),
    ensures
        summary_upto(ls, n).0 ==> exists|i: int| 0 <= i < n && is_summary(#[trigger] ls[i])
            && (forall|j: int| i < j < n ==> !is_summary(#[trigger] ls[j]))
            && summary_upto(ls, n).1 == reported_failures(ls[i]),
        !summary_upto(ls, n).0 ==> forall|i: int| 0 <= i < n ==> !is_summary(#[trigger] ls[i]),
    decreases n,
{
    if n > 0 {
        lemma_summary_upto_last(ls, n - 1);
        if is_summary(ls[n - 1]) {
            assert(is_summary(ls[n - 1]));
        } else if summary_upto(ls, n).0 {
            let i = choose|i: int| 0 <= i < n - 1 && is_summary(#[trigger] ls[i])
                && (forall|j: int| i < j < n - 1 ==> !is_summary(#[trigger] ls[j]))
                && summary_upto(ls, n - 1).1 == reported_failures(ls[i]);
            assert forall|j: int| i < j < n implies !is_summary(#[trigger] ls[j]) by {
                if j < n - 1 {
                }
            }
        }
    }
}

/// A harness run passes exactly when its output's last summary line reports
/// 0 failures and, when a number of passing tests is expected, it shows at
/// least that many "OK" lines; so expecting passes only ever adds a demand.
pub proof fn lemma_harness_passed_means(stdout: Seq<char>, expected_pass: Option<usize>)
    ensures
        harness_passed(stdout, expected_pass) <==> {
            &&& exists|i: int| last_summary_at(lines(stdout), i)
                && parse_usize_spec(words(#[trigger] lines(stdout)[i])[2]) == Some(0usize)
            &&& expected_pass matches Some(n) ==> ok_count(stdout) >= n
        },
        harness_passed(stdout, expected_pass) ==> harness_passed(stdout, None),
{
    let ls = lines(stdout);
    lemma_summary_upto_last(ls, ls.len() as int);
    let found = summary_upto(ls, ls.len() as int).0;
    if found {
        let i = choose|i: int| 0 <= i < ls.len() && is_summary(#[trigger] ls[i])
            && (forall|j: int| i < j < ls.len() ==> !is_summary(#[trigger] ls[j]))
            && summary_upto(ls, ls.len() as int).1 == reported_failures(ls[i]);
        assert(last_summary_at(ls, i));
        assert forall|i2: int| last_summary_at(ls, i2) implies i2 == i by {
            if i2 < i {
                assert(!is_summary(ls[i]));
            } else if i < i2 {
                assert(!is_summary(ls[i2]));
            }
        }
    } else {
        assert forall|i2: int| !last_summary_at(ls, i2) by {
            if 0 <= i2 < ls.len() {
                assert(!is_summary(ls[i2]));
            }
        }
    }
}

/// The result of a test-mode run: a failing exit is reported with its
/// stderr (or the exit description when stderr is empty); otherwise the run
/// succeeds exactly when the harness passed.
pub fn evaluate_test_result(
    stdout: &str,
    stderr: &str,
    exit_success: bool,
    exit_description: &str,
    expected_pass: Option<usize>,
) -> (r: RunResult)
    ensures
        r.stdout@ == stdout@,
        r.duration_ms == 0,
        !r.compile_failed,
        !r.timeout,
        r.gcc_hint is None,
        !exit_success ==> !r.success && r.stderr@ == (if stderr@.len() == 0 {
            "Process exited with "@ + exit_description@
        } else {
            stderr@
        }),
        exit_success ==> r.stderr@ == stderr@ && r.success == harness_passed(stdout@, expected_pass),
        r.success ==> exists|i: int| last_summary_at(lines(stdout@), i)
            && parse_usize_spec(words(#[trigger] lines(stdout@)[i])[2]) == Some(0usize),
        r.success && expected_pass is Some ==> ok_count(stdout@) >= expected_pass->0,
{
    proof {
        lemma_harness_passed_means(stdout@, expected_pass);
    }
    if !exit_success {
        let err = if stderr.is_empty() {
            let mut m = chars_of("Process exited with ");
            push_str(&mut m, exit_description);
            string_of(&m)
        } else {
            String::from_str(stderr)
        };
        return RunResult {
            success: false,
            stdout: String::from_str(stdout),
            stderr: err,
            duration_ms: 0,
            compile_failed: false,
            timeout: false,
            gcc_hint: None,
        };
    }
    let (found, failures) = parse_test_summary(stdout);
    let passed = found && failures == 0;
    let ok = match expected_pass {
        Some(n) => passed && count_ok_lines(stdout) >= n,
        None => passed,
    };
    RunResult {
        success: ok,
        stdout: String::from_str(stdout),
        stderr: String::from_str(stderr),
        duration_ms: 0,
        compile_failed: false,
        timeout: false,
        gcc_hint: None,
    }
}

} // verus!
