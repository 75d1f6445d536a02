//! The learner's personal C library ("libsys"): export markers, file
//! entries, module catalogue and README text.
use vstd::prelude::*;

use crate::text::{
    chars_of, contains, copy_range, ends_with, ends_with_exec, lines, occurs_at, push_all,
    push_str, split_lines, starts_with, starts_with_exec, string_of, trim,
    trim_end, trim_end_exec, trim_exec, views,
};

verus! {

/// A function to export into the library.
#[derive(Debug, Clone)]
pub struct LibsysExport {
    /// Target module (e.g. "my_string", for src/my_string.c and include/my_string.h).
    pub module: String,
    /// Function name (e.g. "my_strdup").
    pub function: String,
    /// Complete C code of the implementation.
    pub c_code: String,
    /// Header declaration (e.g. "char *my_strdup(const char *s);").
    pub h_decl: String,
}

/// Status of one library module.
#[derive(Debug, Clone)]
pub struct ModuleStatus {
    /// Module name.
    pub name: String,
    /// Functions already exported.
    pub functions: Vec<ExportedFn>,
    /// Subject required to unlock the module (`None`: always available).
    pub unlock_subject: Option<String>,
}

/// A function already exported in a module.
#[derive(Debug, Clone)]
pub struct ExportedFn {
    /// Function name.
    pub name: String,
    /// Hash of the commit that exported it.
    pub commit_hash: String,
}

/// Opening of an export marker comment.
pub open spec fn marker_open() -> Seq<char> {
    "/* libsys: "@
}

/// Closing of an export marker comment.
pub open spec fn marker_close() -> Seq<char> {
    " */"@
}

/// The marker comment that tags an exported function.
pub open spec fn marker(fn_name: Seq<char>) -> Seq<char> {
    marker_open() + fn_name + marker_close()
}

/// The function named by a marker line, if the trimmed line is one.
pub open spec fn marker_name(line: Seq<char>) -> Option<Seq<char>> {
    let t = trim(line);
    let n = marker_open().len() as int;
    if starts_with(t, marker_open()) && ends_with(t.subrange(n, t.len() as int), marker_close()) {
        Some(t.subrange(n, t.len() - marker_close().len()))
    } else {
        None
    }
}

/// Extracts the function name from a marker line `/* libsys: fn_name */`.
pub fn parse_libsys_fn_marker(line: &str) -> (r: Option<String>)
    ensures
        r matches Some(n) ==> marker_name(line@) == Some(n@),
        r is None ==> marker_name(line@) is None,
{
    let v = chars_of(line);
    let t = trim_exec(&v);
    let open = chars_of("/* libsys: ");
    let close = chars_of(" */");
    if !starts_with_exec(&t, &open) {
        return None;
    }
    let rest = copy_range(&t, open.len(), t.len());
    if !ends_with_exec(&rest, &close) {
        return None;
    }
    let inner = copy_range(&t, open.len(), t.len() - close.len());
    Some(string_of(&inner))
}

/// Whether the function is already exported in the C file (its marker occurs).
pub fn function_already_present(c_content: &str, fn_name: &str) -> (r: bool)
    ensures
        r == contains(c_content@, marker(fn_name@)),
{
    let mut m = chars_of("/* libsys: ");
    push_str(&mut m, fn_name);
    push_str(&mut m, " */");
    let hay = chars_of(c_content);
    crate::text::contains_exec(&hay, &m)
}

/// Entry appended to a module's C file: a blank line, the marker, the code
/// without trailing whitespace, a newline.
pub open spec fn c_entry(c_code: Seq<char>, fn_name: Seq<char>) -> Seq<char> {
    "\n"@ + marker(fn_name) + "\n"@ + trim_end(c_code) + "\n"@
}

/// Entry appended to a module's header: the marker, the trimmed declaration, a newline.
pub open spec fn h_entry(h_decl: Seq<char>, fn_name: Seq<char>) -> Seq<char> {
    marker(fn_name) + "\n"@ + trim(h_decl) + "\n"@
}

/// Formats the entry appended to a module's C file.
pub fn format_c_entry(c_code: &str, fn_name: &str) -> (s: String)
    ensures
        s@ == c_entry(c_code@, fn_name@),
{
    let mut out = chars_of("\n/* libsys: ");
    push_str(&mut out, fn_name);
    push_str(&mut out, " */\n");
    let code = chars_of(c_code);
    let t = trim_end_exec(&code);
    push_all(&mut out, &t);
    push_str(&mut out, "\n");
    proof {
        reveal_strlit("\n/* libsys: ");
        reveal_strlit(" */\n");
        reveal_strlit("\n");
        reveal_strlit("/* libsys: ");
        reveal_strlit(" */");
        assert(out@ =~= c_entry(c_code@, fn_name@));
    }
    string_of(&out)
}

/// Formats the entry appended to a module's header.
pub fn format_h_entry(h_decl: &str, fn_name: &str) -> (s: String)
    ensures
        s@ == h_entry(h_decl@, fn_name@),
{
    let mut out = chars_of("/* libsys: ");
    push_str(&mut out, fn_name);
    push_str(&mut out, " */\n");
    let decl = chars_of(h_decl);
    let t = trim_exec(&decl);
    push_all(&mut out, &t);
    push_str(&mut out, "\n");
    proof {
        reveal_strlit(" */\n");
        reveal_strlit("\n");
        reveal_strlit(" */");
        assert(out@ =~= h_entry(h_decl@, fn_name@));
    }
    string_of(&out)
}

/// Export is idempotent: once a function's entry has been appended to a C
/// file, whatever the file held before, the function is detected as present.
pub proof fn lemma_exported_function_detected(existing: Seq<char>, c_code: Seq<char>, fn_name: Seq<char>)
    ensures
        contains(existing + c_entry(c_code, fn_name), marker(fn_name)),
{
    let all = existing + c_entry(c_code, fn_name);
    reveal_strlit("\n");
    let i: int = existing.len() as int + 1;
    assert(all.subrange(i, i + marker(fn_name).len()) =~= marker(fn_name));
    assert(occurs_at(all, marker(fn_name), i));
}

/// A marker line names back the function it was made for.
pub proof fn lemma_marker_roundtrip(fn_name: Seq<char>)
    ensures
        marker_name(marker(fn_name)) == Some(fn_name),
{
    reveal_strlit("/* libsys: ");
    reveal_strlit(" */");
    let m = marker(fn_name);
    assert(m[0] == '/');
    assert(m.last() == '/');
    assert(trim_end(m) == m);
    assert(crate::text::trim_start(m) == m);
    let n = marker_open().len() as int;
    assert(m.subrange(0, n) =~= marker_open());
    let rest = m.subrange(n, m.len() as int);
    assert(rest.subrange(rest.len() - 3, rest.len() as int) =~= marker_close());
    assert(m.subrange(n, m.len() - 3) =~= fn_name);
}

/// Names of the functions whose marker lines appear in a C file, in order.
pub open spec fn marker_names_upto(ls: Seq<Seq<char>>, n: int) -> Seq<Seq<char>>
    decreases n,
{
    if n <= 0 {
        seq![]
    } else {
        marker_names_upto(ls, n - 1) + match marker_name(ls[n - 1]) {
            Some(f) => seq![f],
            None => seq![],
        }
    }
}

/// The views of a list of strings.
pub open spec fn names_of(v: Seq<String>) -> Seq<Seq<char>> {
    v.map_values(|s: String| s@)
}

/// Names of the exported functions recorded in a module's C file.
pub fn exported_function_names(content: &str) -> (r: Vec<String>)
    ensures
        names_of(r@) == marker_names_upto(lines(content@), lines(content@).len() as int),
{
    let v = chars_of(content);
    let ls = split_lines(&v);
    let mut r: Vec<String> = Vec::new();
    let mut i: usize = 0;
    while i < ls.len()
        invariant
            i <= ls.len(),
            views(ls@) == lines(content@),
            names_of(r@) == marker_names_upto(views(ls@), i as int),
        decreases ls.len() - i,
    {
        let line = string_of(&ls[i]);
        proof {
            assert(views(ls@)[i as int] == line@);
        }
        let ghost before = r@;
        match parse_libsys_fn_marker(line.as_str()) {
            Some(f) => {
                r.push(f);
                proof {
                    assert(names_of(r@) =~= names_of(before) + seq![r@.last()@]);
                }
            },
            None => {
                proof {
                    assert(marker_names_upto(views(ls@), i + 1) =~= marker_names_upto(views(ls@), i as int));
                }
            },
        }
        i = i + 1;
    }
    r
}

// ── Module catalogue ────────────────────────────────────────────────────────

/// The library's modules with the subject that unlocks each (if any), in order.
pub open spec fn known_modules() -> Seq<(Seq<char>, Option<Seq<char>>)> {
    seq![
        ("my_string"@, None), ("my_memory"@, None), ("my_list"@, None), ("my_algo"@, None),
        ("my_io"@, None), ("my_process"@, Some("processes"@)), ("my_signal"@, Some("signals"@)),
        ("my_ipc"@, Some("pipes"@)), ("my_thread"@, Some("pthreads"@)),
        ("my_sync"@, Some("semaphores"@)), ("my_socket"@, Some("sockets"@)),
    ]
}

/// Number of known library modules.
pub const KNOWN_MODULE_COUNT: usize = 11;

/// The known module at position `i`: its name and unlocking subject.
pub fn known_module(i: usize) -> (r: (&'static str, Option<&'static str>))
    requires
        i < KNOWN_MODULE_COUNT,
    ensures
        r.0@ == known_modules()[i as int].0,
        r.1 matches Some(u) ==> known_modules()[i as int].1 == Some(u@),
        r.1 is None ==> known_modules()[i as int].1 is None,
{
    if i == 0 { ("my_string", None) }
    else if i == 1 { ("my_memory", None) }
    else if i == 2 { ("my_list", None) }
    else if i == 3 { ("my_algo", None) }
    else if i == 4 { ("my_io", None) }
    else if i == 5 { ("my_process", Some("processes")) }
    else if i == 6 { ("my_signal", Some("signals")) }
    else if i == 7 { ("my_ipc", Some("pipes")) }
    else if i == 8 { ("my_thread", Some("pthreads")) }
    else if i == 9 { ("my_sync", Some("semaphores")) }
    else { ("my_socket", Some("sockets")) }
}

/// The status of every known module, in catalogue order, from the
/// functions found exported in each (`exported[i]` for module `i`).
pub fn portfolio_status(exported: Vec<Vec<ExportedFn>>) -> (r: Vec<ModuleStatus>)
    requires
        exported@.len() == KNOWN_MODULE_COUNT,
    ensures
        r@.len() == KNOWN_MODULE_COUNT,
        forall|i: int| 0 <= i < KNOWN_MODULE_COUNT ==> {
            &&& (#[trigger] r@[i]).name@ == known_modules()[i].0
            &&& r@[i].functions@ == exported@[i]@
            &&& (match r@[i].unlock_subject {
                Some(u) => known_modules()[i].1 == Some(u@),
                None => known_modules()[i].1 is None,
            })
        },
{
    let mut exported = exported;
    let ghost orig = exported@;
    let mut r: Vec<ModuleStatus> = Vec::new();
    let mut rev: Vec<Vec<ExportedFn>> = Vec::new();
    // take the lists out from the back, then rebuild in catalogue order
    while exported.len() > 0
        invariant
            exported@.len() + rev@.len() == KNOWN_MODULE_COUNT,
            orig.len() == KNOWN_MODULE_COUNT,
            exported@ == orig.subrange(0, exported@.len() as int),
            forall|k: int| 0 <= k < rev@.len() ==> #[trigger] rev@[k] == orig[KNOWN_MODULE_COUNT - 1 - k],
        decreases exported@.len(),
    {
        let f = exported.pop().unwrap();
        rev.push(f);
    }
    let mut i: usize = 0;
    while i < KNOWN_MODULE_COUNT
        invariant
            i <= KNOWN_MODULE_COUNT,
            rev@.len() == KNOWN_MODULE_COUNT - i,
            orig.len() == KNOWN_MODULE_COUNT,
            forall|k: int| 0 <= k < rev@.len() ==> #[trigger] rev@[k] == orig[KNOWN_MODULE_COUNT - 1 - k],
            r@.len() == i,
            forall|k: int| 0 <= k < i ==> {
                &&& (#[trigger] r@[k]).name@ == known_modules()[k].0
                &&& r@[k].functions@ == orig[k]@
                &&& (match r@[k].unlock_subject {
                    Some(u) => known_modules()[k].1 == Some(u@),
                    None => known_modules()[k].1 is None,
                })
            },
        decreases KNOWN_MODULE_COUNT - i,
    {
        let (name, unlock) = known_module(i);
        let functions = rev.pop().unwrap();
        let unlock_subject = match unlock {
            Some(u) => Some(String::from_str(u)),
            None => None,
        };
        r.push(ModuleStatus { name: String::from_str(name), functions, unlock_subject });
        i = i + 1;
    }
    r
}

// ── README ──────────────────────────────────────────────────────────────────

/// The README section of one module: nothing when it has no function, else
/// a heading and one bullet per function.
pub open spec fn module_section(m: ModuleStatus) -> Seq<char> {
    if m.functions@.len() == 0 {
        seq![]
    } else {
        "### `"@ + m.name@ + "`\n\n"@ + function_bullets(m.functions@, m.functions@.len() as int) + "\n"@
    }
}

/// Bullets of the first `n` functions.
pub open spec fn function_bullets(fs: Seq<ExportedFn>, n: int) -> Seq<char>
    decreases n,
{
    if n <= 0 {
        seq![]
    } else {
        function_bullets(fs, n - 1) + "- `"@ + fs[n - 1].name@ + "()`\n"@
    }
}

/// Sections of the first `n` modules.
pub open spec fn module_sections(ms: Seq<ModuleStatus>, n: int) -> Seq<char>
    decreases n,
{
    if n <= 0 {
        seq![]
    } else {
        module_sections(ms, n - 1) + module_section(ms[n - 1])
    }
}

/// The README text of the library.
pub open spec fn readme_spec(ms: Seq<ModuleStatus>) -> Seq<char> {
    "# libsys\n\nBibliothèque C personnelle générée par [clings](https://github.com/trollheap/clings).\n\n"@
        + "## Modules\n\n"@ + module_sections(ms, ms.len() as int)
        + if forall|i: int| 0 <= i < ms.len() ==> (#[trigger] ms[i]).functions@.len() == 0 {
            "_Aucune fonction exportée pour l'instant._\n"@
        } else {
            seq![]
        }
}

/// The README text listing every exported function, module by module.
pub fn readme_content(modules: &Vec<ModuleStatus>) -> (s: String)
    ensures
        s@ == readme_spec(modules@),
{
    let mut out = chars_of("# libsys\n\nBibliothèque C personnelle générée par [clings](https://github.com/trollheap/clings).\n\n");
    push_str(&mut out, "## Modules\n\n");
    let ghost head = out@;
    let mut all_empty = true;
    let mut i: usize = 0;
    while i < modules.len()
        invariant
            i <= modules.len(),
            out@ == head + module_sections(modules@, i as int),
            all_empty == forall|k: int| 0 <= k < i ==> (#[trigger] modules@[k]).functions@.len() == 0,
        decreases modules.len() - i,
    {
        let m = &modules[i];
        let ghost before = out@;
        if m.functions.len() > 0 {
            all_empty = false;
            push_str(&mut out, "### `");
            push_str(&mut out, m.name.as_str());
            push_str(&mut out, "`\n\n");
            let ghost mid = out@;
            let mut j: usize = 0;
            while j < m.functions.len()
                invariant
                    j <= m.functions.len(),
                    out@ == mid + function_bullets(m.functions@, j as int),
                decreases m.functions.len() - j,
            {
                push_str(&mut out, "- `");
                push_str(&mut out, m.functions[j].name.as_str());
                push_str(&mut out, "()`\n");
                proof {
                    assert(out@ =~= mid + function_bullets(m.functions@, j + 1));
                }
                j = j + 1;
            }
            push_str(&mut out, "\n");
            proof {
                assert(out@ =~= before + module_section(*m));
            }
        } else {
            proof {
                assert(out@ =~= before + module_section(*m));
            }
        }
        proof {
            assert(out@ =~= head + module_sections(modules@, i + 1));
        }
        i = i + 1;
    }
    if all_empty {
        push_str(&mut out, "_Aucune fonction exportée pour l'instant._\n");
    }
    proof {
        assert(out@ =~= readme_spec(modules@));
    }
    string_of(&out)
}

} // verus!
