//! Compilation support: compiler-error hints, linker flags, output
//! normalisation and validation, and the results of a run.
use vstd::prelude::*;

use crate::models::Exercise;
use crate::text::{
    chars_of, contains, copy_range, index_of_char, is_ws, lemma_index_of_char_bounds,
    lemma_trim_end_shape, lemma_trim_start_shape, lines, output_lines, push_all, push_str,
    split_lines, starts_with, starts_with_exec, str_contains, string_of, strip_cr, trim, trim_end,
    trim_end_exec, trim_exec, trim_start, unify_breaks, unify_breaks_exec, views,
};

verus! {

/// Maximum length, in UTF-8 bytes, of an output pattern.
pub const MAX_REGEX_PATTERN_LEN: usize = 500;

/// Result of compiling and running an exercise.
#[derive(Clone, Debug)]
pub struct RunResult {
    /// Compilation succeeded, the run finished and the output is valid.
    pub success: bool,
    /// Standard output of the program.
    pub stdout: String,
    /// Error output (compiler messages or the program's stderr).
    pub stderr: String,
    /// Run time in milliseconds.
    pub duration_ms: u64,
    /// The compiler failed (the program was not run).
    pub compile_failed: bool,
    /// The program did not finish within its time limit.
    pub timeout: bool,
    /// Teaching hint derived from the compiler's stderr.
    pub gcc_hint: Option<String>,
}

// ── Compiler hints ──────────────────────────────────────────────────────────

/// The compiler messages recognised, with their hints, in order of priority.
pub open spec fn hint_patterns() -> Seq<(Seq<char>, Seq<char>)> {
    seq![
        ("implicit declaration of function"@, "Fonction utilisée sans déclaration — ajoutez l'#include correspondant"@),
        ("undefined reference to"@, "Symbole non résolu — vérifiez l'include ou le flag de liaison (-lpthread, -lm…)"@),
        ("undeclared"@, "Identifiant non déclaré — vérifiez le nom et la portée de la variable/fonction"@),
        ("expected ';'"@, "Point-virgule manquant — repérez la ligne indiquée par gcc"@),
        ("too few arguments"@, "Trop peu d'arguments passés à la fonction"@),
        ("too many arguments"@, "Trop d'arguments passés à la fonction"@),
        ("incompatible types"@, "Types incompatibles — vérifiez les conversions ou un cast manquant"@),
        ("dereferencing pointer to incomplete type"@, "Pointeur vers un type incomplet — le struct est-il défini avant cet usage ?"@),
        ("unused variable"@, "Variable déclarée mais jamais utilisée"@),
        ("control reaches end of non-void function"@, "La fonction doit retourner une valeur sur tous les chemins d'exécution"@),
    ]
}

/// The hint of the first pattern, from position `i` on, that `stderr` contains.
pub open spec fn hint_from(stderr: Seq<char>, i: int) -> Option<Seq<char>>
    decreases hint_patterns().len() - i,
{
    if i < 0 || i >= hint_patterns().len() {
        None
    } else if contains(stderr, hint_patterns()[i].0) {
        Some(hint_patterns()[i].1)
    } else {
        hint_from(stderr, i + 1)
    }
}

/// The teaching hint for a compiler's stderr: that of the first recognised
/// message it contains.
pub open spec fn gcc_hint(stderr: Seq<char>) -> Option<Seq<char>> {
    hint_from(stderr, 0)
}

fn hint_pattern(i: usize) -> (r: (&'static str, &'static str))
    requires
        i < 10,
    ensures
        r.0@ == hint_patterns()[i as int].0,
        r.1@ == hint_patterns()[i as int].1,
{
    if i == 0 {
        ("implicit declaration of function", "Fonction utilisée sans déclaration — ajoutez l'#include correspondant")
    } else if i == 1 {
        ("undefined reference to", "Symbole non résolu — vérifiez l'include ou le flag de liaison (-lpthread, -lm…)")
    } else if i == 2 {
        ("undeclared", "Identifiant non déclaré — vérifiez le nom et la portée de la variable/fonction")
    } else if i == 3 {
        ("expected ';'", "Point-virgule manquant — repérez la ligne indiquée par gcc")
    } else if i == 4 {
        ("too few arguments", "Trop peu d'arguments passés à la fonction")
    } else if i == 5 {
        ("too many arguments", "Trop d'arguments passés à la fonction")
    } else if i == 6 {
        ("incompatible types", "Types incompatibles — vérifiez les conversions ou un cast manquant")
    } else if i == 7 {
        ("dereferencing pointer to incomplete type", "Pointeur vers un type incomplet — le struct est-il défini avant cet usage ?")
    } else if i == 8 {
        ("unused variable", "Variable déclarée mais jamais utilisée")
    } else {
        ("control reaches end of non-void function", "La fonction doit retourner une valeur sur tous les chemins d'exécution")
    }
}

/// Teaching hint for common compiler errors found in `stderr`.
pub fn parse_gcc_hint(stderr: &str) -> (r: Option<String>)
    ensures
        r matches Some(h) ==> gcc_hint(stderr@) == Some(h@),
        r is None ==> gcc_hint(stderr@) is None,
{
    let mut i: usize = 10;
    let mut found: Option<String> = None;
    while i > 0
        invariant
            i <= 10,
            found matches Some(h) ==> hint_from(stderr@, i as int) == Some(h@),
            found is None ==> hint_from(stderr@, i as int) is None,
        decreases i,
    {
        i = i - 1;
        let (pat, hint) = hint_pattern(i);
        if str_contains(stderr, pat) {
            found = Some(String::from_str(hint));
        }
    }
    found
}

/// `r` reports a failed compilation whose compiler output is `stderr`: not
/// run, no output, the teaching hint of that output.
pub open spec fn compile_error_result(r: RunResult, stderr: Seq<char>) -> bool {
    &&& !r.success
    &&& r.stdout@.len() == 0
    &&& r.stderr@ == stderr
    &&& r.duration_ms == 0
    &&& r.compile_failed
    &&& !r.timeout
    &&& (r.gcc_hint matches Some(h) ==> gcc_hint(stderr) == Some(h@))
    &&& (r.gcc_hint is None ==> gcc_hint(stderr) is None)
}

/// Construct the result of a failed compilation.
pub fn make_compile_error(stderr: String) -> (r: RunResult)
    ensures
        compile_error_result(r, stderr@),
        !r.success,
        r.stdout@.len() == 0,
        r.stderr@ == stderr@,
        r.duration_ms == 0,
        r.compile_failed,
        !r.timeout,
        r.gcc_hint matches Some(h) ==> gcc_hint(stderr@) == Some(h@),
        r.gcc_hint is None ==> gcc_hint(stderr@) is None,
{
    let hint = parse_gcc_hint(stderr.as_str());
    RunResult {
        success: false,
        stdout: String::new(),
        stderr,
        duration_ms: 0,
        compile_failed: true,
        timeout: false,
        gcc_hint: hint,
    }
}

// ── Linker flags ────────────────────────────────────────────────────────────

/// Linker flags a subject needs.
pub open spec fn linker_flags_of(subject: Seq<char>) -> Seq<Seq<char>> {
    if subject == "pthreads"@ || subject == "semaphores"@ || subject == "sync_concepts"@
        || subject == "sockets"@ || subject == "capstones"@ {
        seq!["-lpthread"@]
    } else if subject == "message_queues"@ || subject == "shared_memory"@ {
        seq!["-lrt"@, "-lpthread"@]
    } else if subject == "file_io"@ {
        seq!["-lrt"@]
    } else {
        seq![]
    }
}

/// The views of a list of static strings.
pub open spec fn str_views(v: Seq<&'static str>) -> Seq<Seq<char>> {
    v.map_values(|s: &'static str| s@)
}

/// Subject-specific linker flags for gcc: thread subjects need `-lpthread`,
/// message queues and shared memory `-lrt -lpthread`, file I/O `-lrt`.
pub fn linker_flags(subject: &str) -> (r: Vec<&'static str>)
    ensures
        str_views(r@) == linker_flags_of(subject@),
{
    let eq = |a: &str| -> (b: bool)
        ensures b == (subject@ == a@)
        { crate::text::str_eq(subject, a) };
    let mut v: Vec<&'static str> = Vec::new();
    if eq("pthreads") || eq("semaphores") || eq("sync_concepts") || eq("sockets") || eq("capstones") {
        v.push("-lpthread");
    } else if eq("message_queues") || eq("shared_memory") {
        v.push("-lrt");
        v.push("-lpthread");
    } else if eq("file_io") {
        v.push("-lrt");
    }
    proof {
        assert(str_views(v@) =~= linker_flags_of(subject@));
    }
    v
}

/// The gcc arguments: output file, source, include flag, then linker flags.
pub fn build_gcc_compilation_args<'a>(
    output_path: &'a str,
    source_path: &'a str,
    include_flag: &'a str,
    linker_flags: &Vec<&'a str>,
) -> (args: Vec<&'a str>)
    ensures
        args@ == seq!["-o", output_path, source_path, include_flag] + linker_flags@,
{
    let mut args: Vec<&'a str> = Vec::new();
    args.push("-o");
    args.push(output_path);
    args.push(source_path);
    args.push(include_flag);
    let mut i: usize = 0;
    while i < linker_flags.len()
        invariant
            i <= linker_flags.len(),
            args@ =~= seq!["-o", output_path, source_path, include_flag] + linker_flags@.subrange(0, i as int),
        decreases linker_flags.len() - i,
    {
        args.push(linker_flags[i]);
        i = i + 1;
    }
    proof {
        assert(linker_flags@.subrange(0, linker_flags@.len() as int) =~= linker_flags@);
    }
    args
}

// ── Output normalisation and validation ─────────────────────────────────────

/// Lines joined with `'\n'`, trailing whitespace removed from each; a
/// separator is added only once the accumulated text is non-empty.
pub open spec fn join_trimmed(ls: Seq<Seq<char>>, acc: Seq<char>) -> Seq<char>
    decreases ls.len(),
{
    if ls.len() == 0 {
        acc
    } else {
        let sep = if acc.len() == 0 { acc } else { acc.push('\n') };
        join_trimmed(ls.drop_first(), sep + trim_end(ls[0]))
    }
}

/// Normalised program output: its lines (ended by `'\n'`, `"\r\n"` or a
/// lone `'\r'`) with trailing whitespace removed, joined by `'\n'`, the
/// whole trimmed.
pub open spec fn normalize_spec(s: Seq<char>) -> Seq<char> {
    trim(join_trimmed(output_lines(s), seq![]))
}

/// Normalise output: trailing whitespace removed from each line, lines
/// joined by `'\n'` (CRLF and lone CR endings become LF), the whole trimmed.
pub fn normalize(s: &str) -> (res: String)
    ensures
        res@ == normalize_spec(s@),
{
    let raw = chars_of(s);
    let v = unify_breaks_exec(&raw);
    let ls = split_lines(&v);
    let mut out: Vec<char> = Vec::new();
    let mut i: usize = 0;
    proof {
        assert(views(ls@).subrange(0, 0) =~= Seq::<Seq<char>>::empty());
        assert(views(ls@).subrange(0, views(ls@).len() as int) =~= views(ls@));
    }
    while i < ls.len()
        invariant
            i <= ls.len(),
            views(ls@) == lines(v@),
            join_trimmed(views(ls@), seq![]) == join_trimmed(views(ls@).subrange(i as int, ls@.len() as int), out@),
        decreases ls.len() - i,
    {
        let ghost rest = views(ls@).subrange(i as int, ls@.len() as int);
        if out.len() > 0 {
            out.push('\n');
        }
        let t = trim_end_exec(&ls[i]);
        let ghost before = out@;
        push_all(&mut out, &t);
        proof {
            assert(rest[0] == ls@[i as int]@);
            assert(rest.drop_first() =~= views(ls@).subrange(i + 1, ls@.len() as int));
        }
        i = i + 1;
    }
    proof {
        assert(views(ls@).subrange(i as int, ls@.len() as int) =~= Seq::<Seq<char>>::empty());
    }
    let r = trim_exec(&out);
    string_of(&r)
}

// ── What normalising guarantees ─────────────────────────────────────────────

/// `s` holds no carriage return.
pub open spec fn no_cr(s: Seq<char>) -> bool {
    forall|i: int| 0 <= i < s.len() ==> s[i] != '\r'
}

/// No line of `s` (lines ended by `'\n'`) ends in whitespace.
pub open spec fn lines_tidy(s: Seq<char>) -> bool {
    forall|i: int| 0 <= i < s.len() && is_ws(#[trigger] s[i]) && s[i] != '\n' ==> i + 1 < s.len() && s[i + 1] != '\n'
}

proof fn lemma_unify_no_cr(s: Seq<char>)
    ensures
        no_cr(unify_breaks(s)),
    decreases s.len(),
{
    if s.len() > 0 {
        if s[0] == '\r' && s.len() > 1 && s[1] == '\n' {
            lemma_unify_no_cr(s.subrange(2, s.len() as int));
        } else {
            lemma_unify_no_cr(s.subrange(1, s.len() as int));
        }
        let u = unify_breaks(s);
        assert forall|i: int| 0 <= i < u.len() implies u[i] != '\r' by {
            if i > 0 {
                if s[0] == '\r' && s.len() > 1 && s[1] == '\n' {
                    assert(u[i] == unify_breaks(s.subrange(2, s.len() as int))[i - 1]);
                } else {
                    assert(u[i] == unify_breaks(s.subrange(1, s.len() as int))[i - 1]);
                }
            }
        }
    }
}

proof fn lemma_unify_keeps(s: Seq<char>)
    requires
        no_cr(s),
    ensures
        unify_breaks(s) == s,
    decreases s.len(),
{
    if s.len() > 0 {
        let t = s.subrange(1, s.len() as int);
        assert forall|i: int| 0 <= i < t.len() implies t[i] != '\r' by {
            assert(t[i] == s[i + 1]);
        }
        lemma_unify_keeps(t);
        assert(seq![s[0]] + t =~= s);
    }
}

/// Every line of a text without carriage returns has neither `'\n'` nor `'\r'`.
proof fn lemma_lines_clean(s: Seq<char>)
    requires
        no_cr(s),
    ensures
        forall|k: int| 0 <= k < lines(s).len() ==> no_cr(#[trigger] lines(s)[k])
            && forall|j: int| 0 <= j < lines(s)[k].len() ==> lines(s)[k][j] != '\n',
    decreases s.len(),
{
    if s.len() > 0 {
        let i = index_of_char(s, '\n');
        lemma_index_of_char_bounds(s, '\n');
        if i < s.len() {
            let rest = s.subrange(i + 1, s.len() as int);
            assert forall|j: int| 0 <= j < rest.len() implies rest[j] != '\r' by {
                assert(rest[j] == s[i + 1 + j]);
            }
            lemma_lines_clean(rest);
            let l0 = s.subrange(0, i);
            assert(strip_cr(l0) == l0) by {
                if l0.len() > 0 {
                    assert(l0.last() == s[i - 1]);
                }
            }
            let ls = lines(s);
            assert(ls == seq![l0] + lines(rest));
            assert forall|k: int| 0 <= k < ls.len() implies no_cr(#[trigger] ls[k])
                && forall|j: int| 0 <= j < ls[k].len() ==> ls[k][j] != '\n' by {
                if k == 0 {
                    assert(ls[0] == l0);
                    assert forall|j: int| 0 <= j < l0.len() implies l0[j] != '\r' && l0[j] != '\n' by {
                        assert(l0[j] == s[j]);
                    }
                } else {
                    assert(ls[k] == lines(rest)[k - 1]);
                }
            }
        } else {
            assert(lines(s) == seq![s]);
        }
    }
}

/// A text whose last character is no whitespace is its own `trim_end`.
proof fn lemma_trim_end_keeps(s: Seq<char>)
    requires
        s.len() == 0 || !is_ws(s.last()),
    ensures
        trim_end(s) == s,
{
}

/// Joining clean lines keeps the text tidy and free of carriage returns.
proof fn lemma_join_tidy(ls: Seq<Seq<char>>, acc: Seq<char>)
    requires
        lines_tidy(acc),
        no_cr(acc),
        forall|k: int| 0 <= k < ls.len() ==> no_cr(#[trigger] ls[k])
            && forall|j: int| 0 <= j < ls[k].len() ==> ls[k][j] != '\n',
    ensures
        lines_tidy(join_trimmed(ls, acc)),
        no_cr(join_trimmed(ls, acc)),
    decreases ls.len(),
{
    if ls.len() > 0 {
        let l = ls[0];
        let t = trim_end(l);
        lemma_trim_end_shape(l);
        let sep = if acc.len() == 0 { acc } else { acc.push('\n') };
        let n = sep + t;
        assert forall|j: int| 0 <= j < t.len() implies t[j] != '\n' && t[j] != '\r' by {
            assert(t[j] == l[j]);
        }
        assert forall|i: int| 0 <= i < n.len() implies n[i] != '\r' by {
            if i < acc.len() {
                assert(n[i] == acc[i]);
            } else if i >= sep.len() {
                assert(n[i] == t[i - sep.len()]);
            }
        }
        assert forall|i: int| 0 <= i < n.len() && is_ws(#[trigger] n[i]) && n[i] != '\n'
            implies i + 1 < n.len() && n[i + 1] != '\n' by {
            if i < acc.len() {
                assert(n[i] == acc[i]);
                assert(i + 1 < acc.len() && acc[i + 1] != '\n');
                assert(n[i + 1] == acc[i + 1]);
            } else {
                let j = i - sep.len();
                assert(n[i] == t[j]);
                assert(j + 1 < t.len());
                assert(n[i + 1] == t[j + 1]);
            }
        }
        let rest = ls.drop_first();
        assert forall|k: int| 0 <= k < rest.len() implies no_cr(#[trigger] rest[k])
            && forall|j: int| 0 <= j < rest[k].len() ==> rest[k][j] != '\n' by {
            assert(rest[k] == ls[k + 1]);
        }
        lemma_join_tidy(rest, n);
    }
}

/// Splitting a tidy text into lines and joining them again gives it back,
/// after a non-empty prefix.
proof fn lemma_join_lines_after(s: Seq<char>, acc: Seq<char>)
    requires
        acc.len() > 0,
        no_cr(s),
        lines_tidy(s),
        s.len() == 0 || s.last() != '\n',
    ensures
        join_trimmed(lines(s), acc) == (if s.len() == 0 { acc } else { acc.push('\n') + s }),
    decreases s.len(),
{
    if s.len() > 0 {
        let i = index_of_char(s, '\n');
        lemma_index_of_char_bounds(s, '\n');
        if i < s.len() {
            let l0 = s.subrange(0, i);
            let rest = s.subrange(i + 1, s.len() as int);
            assert(strip_cr(l0) == l0) by {
                if l0.len() > 0 {
                    assert(l0.last() == s[i - 1]);
                }
            }
            assert(l0.len() == 0 || !is_ws(l0.last())) by {
                if l0.len() > 0 {
                    assert(l0.last() == s[i - 1]);
                    assert(s[i - 1] != '\n');
                    if is_ws(s[i - 1]) {
                        assert(s[i] != '\n');
                    }
                }
            }
            lemma_trim_end_keeps(l0);
            assert(rest.len() > 0);
            assert(rest.last() == s.last());
            assert forall|j: int| 0 <= j < rest.len() implies rest[j] != '\r' by {
                assert(rest[j] == s[i + 1 + j]);
            }
            assert forall|j: int| 0 <= j < rest.len() && is_ws(#[trigger] rest[j]) && rest[j] != '\n'
                implies j + 1 < rest.len() && rest[j + 1] != '\n' by {
                assert(rest[j] == s[i + 1 + j]);
                assert(s[i + 1 + j + 1] == rest[j + 1]);
            }
            let ls = lines(s);
            assert(ls == seq![l0] + lines(rest));
            assert(ls.drop_first() =~= lines(rest));
            let acc2 = acc.push('\n') + l0;
            assert(ls[0] == l0);
            assert(join_trimmed(ls, acc) == join_trimmed(ls.drop_first(), acc.push('\n') + trim_end(ls[0])));
            lemma_join_lines_after(rest, acc2);
            assert(acc2.push('\n') + rest =~= acc.push('\n') + s);
        } else {
            assert(lines(s) == seq![s]);
            assert(!is_ws(s.last())) by {
                if is_ws(s.last()) {
                    assert(s[s.len() - 1] == s.last());
                }
            }
            lemma_trim_end_keeps(s);
            let ls = lines(s);
            assert(ls.drop_first() =~= Seq::<Seq<char>>::empty());
            assert(ls[0] == s);
            assert(join_trimmed(ls, acc) == join_trimmed(ls.drop_first(), acc.push('\n') + trim_end(ls[0])));
        }
    }
}

/// A tidy text with no whitespace at either end reads back from its lines.
proof fn lemma_join_lines_back(s: Seq<char>)
    requires
        no_cr(s),
        lines_tidy(s),
        s.len() == 0 || (!is_ws(s[0]) && !is_ws(s.last())),
    ensures
        join_trimmed(lines(s), seq![]) == s,
{
    if s.len() > 0 {
        assert(s.last() != '\n');
        let i = index_of_char(s, '\n');
        lemma_index_of_char_bounds(s, '\n');
        if i < s.len() {
            assert(i > 0);
            let l0 = s.subrange(0, i);
            let rest = s.subrange(i + 1, s.len() as int);
            assert(strip_cr(l0) == l0) by {
                assert(l0.last() == s[i - 1]);
            }
            assert(!is_ws(l0.last())) by {
                assert(l0.last() == s[i - 1]);
                assert(s[i - 1] != '\n');
                if is_ws(s[i - 1]) {
                    assert(s[i] != '\n');
                }
            }
            lemma_trim_end_keeps(l0);
            assert(rest.len() > 0 && rest.last() == s.last());
            assert forall|j: int| 0 <= j < rest.len() implies rest[j] != '\r' by {
                assert(rest[j] == s[i + 1 + j]);
            }
            assert forall|j: int| 0 <= j < rest.len() && is_ws(#[trigger] rest[j]) && rest[j] != '\n'
                implies j + 1 < rest.len() && rest[j + 1] != '\n' by {
                assert(rest[j] == s[i + 1 + j]);
                assert(s[i + 1 + j + 1] == rest[j + 1]);
            }
            let ls = lines(s);
            assert(ls == seq![l0] + lines(rest));
            assert(ls.drop_first() =~= lines(rest));
            assert(Seq::<char>::empty() + l0 =~= l0);
            assert(ls[0] == l0);
            assert(join_trimmed(ls, seq![]) == join_trimmed(ls.drop_first(), Seq::<char>::empty() + trim_end(ls[0])));
            lemma_join_lines_after(rest, l0);
            assert(l0.push('\n') + rest =~= s);
        } else {
            assert(lines(s) == seq![s]);
            lemma_trim_end_keeps(s);
            let ls = lines(s);
            assert(ls.drop_first() =~= Seq::<Seq<char>>::empty());
            assert(ls[0] == s);
            assert(Seq::<char>::empty() + s =~= s);
            assert(join_trimmed(ls, seq![]) == join_trimmed(ls.drop_first(), Seq::<char>::empty() + trim_end(ls[0])));
        }
    } else {
        assert(lines(s) == Seq::<Seq<char>>::empty());
    }
}

/// Trimming a tidy text keeps it tidy and leaves no whitespace at either end.
proof fn lemma_trim_tidy(j: Seq<char>)
    requires
        lines_tidy(j),
        no_cr(j),
    ensures
        lines_tidy(trim(j)),
        no_cr(trim(j)),
        trim(j).len() == 0 || (!is_ws(trim(j)[0]) && !is_ws(trim(j).last())),
        trim(trim(j)) == trim(j),
{
    let e = trim_end(j);
    lemma_trim_end_shape(j);
    let r = trim_start(e);
    lemma_trim_start_shape(e);
    let a = e.len() - r.len();
    assert forall|i: int| 0 <= i < r.len() implies r[i] == j[a + i] by {
        assert(r[i] == e[a + i]);
        assert(e[a + i] == j[a + i]);
    }
    assert forall|i: int| 0 <= i < r.len() implies r[i] != '\r' by {
        assert(r[i] == j[a + i]);
    }
    if r.len() > 0 {
        assert(r.last() == e.last()) by {
            assert(r[r.len() - 1] == e[a + r.len() - 1]);
        }
    }
    assert forall|i: int| 0 <= i < r.len() && is_ws(#[trigger] r[i]) && r[i] != '\n'
        implies i + 1 < r.len() && r[i + 1] != '\n' by {
        assert(r[i] == j[a + i]);
        if i + 1 == r.len() {
            assert(r.last() == r[i]);
        } else {
            assert(r[i + 1] == j[a + i + 1]);
        }
    }
    lemma_trim_end_keeps(r);
    if r.len() > 0 {
        assert(trim_start(r) == r);
    }
}

/// Normalising is done once for all: normalised output normalises to
/// itself, has no whitespace at either end, and none of its lines ends in
/// whitespace.
pub proof fn lemma_normalize_idempotent(s: Seq<char>)
    ensures
        normalize_spec(normalize_spec(s)) == normalize_spec(s),
        lines_tidy(normalize_spec(s)),
        no_cr(normalize_spec(s)),
        trim(normalize_spec(s)) == normalize_spec(s),
{
    let u = unify_breaks(s);
    lemma_unify_no_cr(s);
    lemma_lines_clean(u);
    lemma_join_tidy(lines(u), seq![]);
    let j = join_trimmed(lines(u), seq![]);
    lemma_trim_tidy(j);
    let r = trim(j);
    assert(r == normalize_spec(s));
    lemma_unify_keeps(r);
    lemma_join_lines_back(r);
}

/// Number of UTF-8 bytes that encode `c`.
pub open spec fn utf8_width(c: char) -> nat {
    let u = c as u32;
    if u < 0x80 { 1 } else if u < 0x800 { 2 } else if u < 0x10000 { 3 } else { 4 }
}

/// Number of UTF-8 bytes that encode `s`.
pub open spec fn utf8_len(s: Seq<char>) -> nat
    decreases s.len(),
{
    if s.len() == 0 { 0 } else { utf8_len(s.drop_last()) + utf8_width(s.last()) }
}

/// Whether `s` takes more than `limit` bytes in UTF-8.
pub(crate) fn utf8_len_exceeds(s: &Vec<char>, limit: usize) -> (r: bool)
    ensures
        r == (utf8_len(s@) > limit),
{
    let mut total: usize = 0;
    let mut i: usize = 0;
    while i < s.len()
        invariant
            i <= s.len(),
            total == utf8_len(s@.subrange(0, i as int)),
            total <= limit,
        decreases s.len() - i,
    {
        let u = s[i] as u32;
        let w: usize = if u < 0x80 { 1 } else if u < 0x800 { 2 } else if u < 0x10000 { 3 } else { 4 };
        proof {
            assert(s@.subrange(0, i + 1).drop_last() =~= s@.subrange(0, i as int));
        }
        if w > limit - total {
            proof {
                lemma_utf8_len_prefix_mono(s@, i + 1);
            }
            return true;
        }
        total = total + w;
        i = i + 1;
    }
    proof {
        assert(s@.subrange(0, s@.len() as int) =~= s@);
    }
    false
}

pub proof fn lemma_utf8_len_prefix_mono(s: Seq<char>, k: int)
    requires
        0 <= k <= s.len(),
    ensures
        utf8_len(s.subrange(0, k)) <= utf8_len(s),
    decreases s.len() - k,
{
    if k < s.len() {
        lemma_utf8_len_prefix_mono(s.drop_last(), k);
        assert(s.drop_last().subrange(0, k) =~= s.subrange(0, k));
    } else {
        assert(s.subrange(0, k) =~= s);
    }
}

/// The regex crate accepts `pattern` (`Regex::new` succeeds).
pub uninterp spec fn regex_compiles(pattern: Seq<char>) -> bool;

/// `text` matches `pattern` somewhere, as the regex crate's `is_match` decides.
pub uninterp spec fn regex_matches(pattern: Seq<char>, text: Seq<char>) -> bool;

/// regex's `Regex::new(pattern)` then `Regex::is_match(text)`: `None` where
/// the pattern does not compile, else whether `text` matches it. Both depend
/// on the arguments alone; no more of the regex language is stated.
#[verifier::external_body]
fn regex_match(pattern: &str, text: &str) -> (r: Option<bool>)
    ensures
        r is Some <==> regex_compiles(pattern@),
        r matches Some(b) ==> b == regex_matches(pattern@, text@),
{
    regex::Regex::new(pattern).ok().map(|re| re.is_match(text))
}

/// The prefix that makes an expected output a pattern.
pub open spec fn regex_prefix() -> Seq<char> {
    "REGEX:"@
}

/// Whether `stdout` satisfies the expected output: with none, always; with a
/// `REGEX:` prefix (after normalisation), when the trimmed pattern is at most
/// 500 bytes, compiles and matches the normalised output; otherwise when the
/// normalised texts are equal.
pub open spec fn output_valid(stdout: Seq<char>, expected: Option<Seq<char>>) -> bool {
    match expected {
        None => true,
        Some(e) => {
            let no = normalize_spec(stdout);
            let ne = normalize_spec(e);
            if starts_with(ne, regex_prefix()) {
                let p = trim(ne.subrange(regex_prefix().len() as int, ne.len() as int));
                utf8_len(p) <= MAX_REGEX_PATTERN_LEN && regex_compiles(p) && regex_matches(p, no)
            } else {
                no == ne
            }
        },
    }
}

/// The expected output of an exercise, as a plain value.
pub open spec fn expected_of(ex: Exercise) -> Option<Seq<char>> {
    match ex.validation.expected_output {
        Some(e) => Some(e@),
        None => None,
    }
}

/// Validate program output against the exercise's expected output (exact
/// comparison after normalisation, or a pattern after a `REGEX:` prefix).
pub fn validate_output(stdout: &str, exercise: &Exercise) -> (r: bool)
    ensures
        r == output_valid(stdout@, expected_of(*exercise)),
{
    match &exercise.validation.expected_output {
        None => true,
        Some(expected) => {
            let norm_out = normalize(stdout);
            let norm_exp = normalize(expected.as_str());
            let ne = chars_of(norm_exp.as_str());
            let prefix = chars_of("REGEX:");
            if starts_with_exec(&ne, &prefix) {
                let rest = copy_range(&ne, prefix.len(), ne.len());
                let p = trim_exec(&rest);
                if utf8_len_exceeds(&p, MAX_REGEX_PATTERN_LEN) {
                    return false;
                }
                let pat = string_of(&p);
                match regex_match(pat.as_str(), norm_out.as_str()) {
                    Some(b) => b,
                    None => false,
                }
            } else {
                crate::text::str_eq(norm_out.as_str(), norm_exp.as_str())
            }
        },
    }
}

/// The result of an output-mode run: a failing exit is reported with its
/// stderr (or the exit description when stderr is empty); otherwise the
/// run succeeds exactly when the output is valid.
pub fn output_run_result(
    stdout: String,
    stderr: String,
    exit_success: bool,
    exit_description: &str,
    duration_ms: u64,
    exercise: &Exercise,
) -> (r: RunResult)
    ensures
        r.stdout@ == stdout@,
        r.duration_ms == duration_ms,
        !r.compile_failed,
        !r.timeout,
        r.gcc_hint is None,
        !exit_success ==> !r.success && r.stderr@ == (if stderr@.len() == 0 {
            "Process exited with "@ + exit_description@
        } else {
            stderr@
        }),
        exit_success ==> r.stderr@ == stderr@ && r.success == output_valid(stdout@, expected_of(*exercise)),
{
    if !exit_success {
        let err = if stderr.as_str().is_empty() {
            let mut m = chars_of("Process exited with ");
            push_str(&mut m, exit_description);
            string_of(&m)
        } else {
            stderr
        };
        return RunResult {
            success: false,
            stdout,
            stderr: err,
            duration_ms,
            compile_failed: false,
            timeout: false,
            gcc_hint: None,
        };
    }
    let valid = validate_output(stdout.as_str(), exercise);
    RunResult {
        success: valid,
        stdout,
        stderr,
        duration_ms,
        compile_failed: false,
        timeout: false,
        gcc_hint: None,
    }
}

// ── Starter code stages ─────────────────────────────────────────────────────

/// The starter code for mastery stage `stage` (0 to 4): the staged version
/// when the exercise has one for that stage, else the default starter code.
pub fn starter_code_for_stage(exercise: &Exercise, stage: u8) -> (r: &String)
    ensures
        (stage as int) < exercise.starter_code_stages@.len() ==> r == &exercise.starter_code_stages@[stage as int],
        (stage as int) >= exercise.starter_code_stages@.len() ==> r == &exercise.starter_code,
{
    let i = stage as usize;
    if i < exercise.starter_code_stages.len() {
        &exercise.starter_code_stages[i]
    } else {
        &exercise.starter_code
    }
}

// ── Compiler diagnostics ────────────────────────────────────────────────────

/// The pattern of a compiler diagnostic that points at a line:
/// `file:line:column: severity: message`.
pub open spec fn diagnostic_pattern() -> Seq<char> {
    "^[^:]+:(\\d+):\\d+: (error|warning|note): (.+)$"@
}

/// The capture groups of the first match of `pattern` in `text`, as the
/// regex crate's `Regex::captures` gives them (group 0 is the whole match).
pub uninterp spec fn regex_captures(pattern: Seq<char>, text: Seq<char>) -> Seq<Option<Seq<char>>>;

/// The views of optional strings.
pub open spec fn opt_views(v: Seq<Option<String>>) -> Seq<Option<Seq<char>>> {
    v.map_values(|o: Option<String>| match o {
        Some(s) => Some(s@),
        None => None,
    })
}

/// regex's `Regex::new(pattern)` then `Regex::captures(text)`: `None` where
/// the pattern does not compile; else the groups of the first match, or
/// `None` when `text` does not match (`captures` finds a match exactly when
/// `is_match` does). Which groups come out is named, not stated.
#[verifier::external_body]
fn regex_capture_groups(pattern: &str, text: &str) -> (r: Option<Option<Vec<Option<String>>>>)
    ensures
        r is Some <==> regex_compiles(pattern@),
        r matches Some(c) ==> (c is Some <==> regex_matches(pattern@, text@)),
        r matches Some(Some(v)) ==> opt_views(v@) == regex_captures(pattern@, text@),
{
    regex::Regex::new(pattern)
        .ok()
        .map(|re| re.captures(text).map(|caps| caps.iter().map(|m| m.map(|m| m.as_str().to_string())).collect()))
}

/// Severity of a compiler diagnostic.
#[derive(Debug, Clone, Copy, PartialEq, Eq)]
pub enum Severity {
    /// `error`.
    Error,
    /// `warning`.
    Warning,
    /// `note` (and anything else).
    Note,
}

/// The severity named by `s`.
pub open spec fn severity_of(s: Seq<char>) -> Severity {
    if s == "error"@ { Severity::Error } else if s == "warning"@ { Severity::Warning } else { Severity::Note }
}

/// A line of compiler output: a diagnostic that points at a line of the
/// source, or any other line.
pub enum CompilerLine {
    /// A diagnostic at a source line.
    Located {
        /// Line number, as written by the compiler.
        line: String,
        /// Severity of the diagnostic.
        severity: Severity,
        /// Message of the diagnostic.
        message: String,
    },
    /// Any other line.
    Plain(String),
}

/// The parts of a line that matches `diagnostic_pattern`: line number,
/// severity and message; `None` for any other line.
pub open spec fn diagnostic_parts(l: Seq<char>) -> Option<(Seq<char>, Severity, Seq<char>)> {
    let p = diagnostic_pattern();
    let c = regex_captures(p, l);
    if regex_compiles(p) && regex_matches(p, l) && c.len() >= 4 && c[1] is Some && c[2] is Some && c[3] is Some {
        Some((c[1]->0, severity_of(c[2]->0), c[3]->0))
    } else {
        None
    }
}

/// The view of a line of compiler output.
pub open spec fn compiler_line_view(c: CompilerLine) -> (Option<(Seq<char>, Severity, Seq<char>)>, Seq<char>) {
    match c {
        CompilerLine::Located { line, severity, message } => (Some((line@, severity, message@)), seq![]),
        CompilerLine::Plain(t) => (None, t@),
    }
}

/// How a line of compiler output is shown: its diagnostic parts, or the line.
pub open spec fn compiler_line_spec(l: Seq<char>) -> (Option<(Seq<char>, Severity, Seq<char>)>, Seq<char>) {
    match diagnostic_parts(l) {
        Some(d) => (Some(d), seq![]),
        None => (None, l),
    }
}

/// The diagnostic parts given by capture groups: line number, severity and
/// message when the pattern matched with its three groups, else none.
pub open spec fn parts_of_groups(g: Option<Option<Seq<Option<Seq<char>>>>>) -> Option<(Seq<char>, Severity, Seq<char>)> {
    match g {
        Some(Some(c)) => if c.len() >= 4 && c[1] is Some && c[2] is Some && c[3] is Some {
            Some((c[1]->0, severity_of(c[2]->0), c[3]->0))
        } else {
            None
        },
        _ => None,
    }
}

/// The view of what the pattern search gives back.
pub open spec fn groups_view(g: Option<Option<Vec<Option<String>>>>) -> Option<Option<Seq<Option<Seq<char>>>>> {
    match g {
        Some(Some(v)) => Some(Some(opt_views(v@))),
        Some(None) => Some(None),
        None => None,
    }
}

/// A line of compiler output read from the result of the diagnostic
/// pattern's search on it (`None`: no pattern; `Some(None)`: no match):
/// located when the three groups are there, else the line itself.
pub fn compiler_line_of(l: &str, groups: Option<Option<Vec<Option<String>>>>) -> (r: CompilerLine)
    ensures
        compiler_line_view(r) == match parts_of_groups(groups_view(groups)) {
            Some(d) => (Some(d), Seq::<char>::empty()),
            None => (None, l@),
        },
{
    if let Some(Some(groups)) = groups {
        if groups.len() >= 4 {
            match (&groups[1], &groups[2], &groups[3]) {
                (Some(line), Some(sev), Some(msg)) => {
                    proof {
                        assert(opt_views(groups@)[1] == Some(line@));
                        assert(opt_views(groups@)[2] == Some(sev@));
                        assert(opt_views(groups@)[3] == Some(msg@));
                    }
                    let severity = if crate::text::str_eq(sev.as_str(), "error") {
                        Severity::Error
                    } else if crate::text::str_eq(sev.as_str(), "warning") {
                        Severity::Warning
                    } else {
                        Severity::Note
                    };
                    return CompilerLine::Located { line: line.clone(), severity, message: msg.clone() };
                },
                _ => {
                    proof {
                        assert(opt_views(groups@)[1] == match groups@[1] { Some(s) => Some(s@), None => None::<Seq<char>> });
                        assert(opt_views(groups@)[2] == match groups@[2] { Some(s) => Some(s@), None => None::<Seq<char>> });
                        assert(opt_views(groups@)[3] == match groups@[3] { Some(s) => Some(s@), None => None::<Seq<char>> });
                    }
                },
            }
        }
    }
    CompilerLine::Plain(String::from_str(l))
}

/// Reads one line of compiler output.
pub fn compiler_line(l: &str) -> (r: CompilerLine)
    ensures
        compiler_line_view(r) == compiler_line_spec(l@),
{
    let pattern = "^[^:]+:(\\d+):\\d+: (error|warning|note): (.+)$";
    let groups = regex_capture_groups(pattern, l);
    compiler_line_of(l, groups)
}

/// The lines of a compiler's error output, each read as `compiler_line` does.
pub fn compiler_lines(stderr: &str) -> (r: Vec<CompilerLine>)
    ensures
        r@.len() == lines(stderr@).len(),
        forall|i: int| 0 <= i < r@.len() ==> compiler_line_view(#[trigger] r@[i]) == compiler_line_spec(lines(stderr@)[i]),
{
    let v = chars_of(stderr);
    let ls = split_lines(&v);
    let mut out: Vec<CompilerLine> = Vec::new();
    let mut i: usize = 0;
    while i < ls.len()
        invariant
            i <= ls.len(),
            views(ls@) == lines(stderr@),
            out@.len() == i,
            forall|j: int| 0 <= j < i ==> compiler_line_view(#[trigger] out@[j]) == compiler_line_spec(views(ls@)[j]),
        decreases ls.len() - i,
    {
        let s = string_of(&ls[i]);
        proof {
            assert(views(ls@)[i as int] == ls@[i as int]@);
        }
        out.push(compiler_line(s.as_str()));
        i = i + 1;
    }
    out
}

} // verus!

