//! Editor integration: choosing the editor command and telling graphical
//! editors (which detach from the terminal) from terminal ones.
use vstd::prelude::*;

use crate::text::{
    chars_of, copy_range, split_words, str_eq, string_of, views, words,
};

verus! {

/// Graphical editors that detach from the terminal on their own.
pub open spec fn gui_editors() -> Seq<Seq<char>> {
    seq![
        "code"@, "codium"@, "subl"@, "sublime_text"@, "gedit"@, "kate"@, "xed"@, "mousepad"@,
        "pluma"@, "atom"@, "zed"@, "lapce"@, "lite-xl"@, "gvim"@,
    ]
}

fn gui_editor(i: usize) -> (s: &'static str)
    requires
        i < 14,
    ensures
        s@ == gui_editors()[i as int],
{
    if i == 0 { "code" }
    else if i == 1 { "codium" }
    else if i == 2 { "subl" }
    else if i == 3 { "sublime_text" }
    else if i == 4 { "gedit" }
    else if i == 5 { "kate" }
    else if i == 6 { "xed" }
    else if i == 7 { "mousepad" }
    else if i == 8 { "pluma" }
    else if i == 9 { "atom" }
    else if i == 10 { "zed" }
    else if i == 11 { "lapce" }
    else if i == 12 { "lite-xl" }
    else { "gvim" }
}

fn is_known_gui(name: &str) -> (r: bool)
    ensures
        r == gui_editors().contains(name@),
{
    let mut i: usize = 0;
    while i < 14
        invariant
            i <= 14,
            forall|j: int| 0 <= j < i ==> gui_editors()[j] != name@,
        decreases 14 - i,
    {
        if str_eq(name, gui_editor(i)) {
            proof {
                assert(gui_editors()[i as int] == name@);
            }
            return true;
        }
        i = i + 1;
    }
    proof {
        if gui_editors().contains(name@) {
            let j = choose|j: int| 0 <= j < gui_editors().len() && gui_editors()[j] == name@;
            assert(gui_editors()[j] != name@);
        }
    }
    false
}

/// The final component of a path, as `std::path::Path::file_name` yields it.
pub uninterp spec fn path_file_name(path: Seq<char>) -> Option<Seq<char>>;

/// std's `Path::new(path).file_name()`, converted back to a string (always
/// possible since the path came from a string). Its result depends on the
/// argument alone; the details of path splitting are not stated.
#[verifier::external_body]
fn file_name_of(path: &str) -> (r: Option<String>)
    ensures
        r matches Some(n) ==> path_file_name(path@) == Some(n@),
        r is None ==> path_file_name(path@) is None,
{
    std::path::Path::new(path).file_name().and_then(|n| n.to_str()).map(|s| s.to_string())
}

/// Position of the last `c` in `s`, or -1.
pub open spec fn last_index_of(s: Seq<char>, c: char) -> int
    decreases s.len(),
{
    if s.len() == 0 {
        -1
    } else if s.last() == c {
        s.len() - 1
    } else {
        last_index_of(s.drop_last(), c)
    }
}

/// The text after the last `.` (the whole text when there is none).
pub open spec fn last_dot_segment(s: Seq<char>) -> Seq<char> {
    s.subrange(last_index_of(s, '.') + 1, s.len() as int)
}

/// Whether a binary is a graphical editor: its file name (or the whole
/// argument when it has none) is a known graphical editor, or its last
/// `.`-separated segment is (Flatpak ids such as `com.visualstudio.code`).
pub open spec fn gui_editor_spec(bin: Seq<char>) -> bool {
    let name = match path_file_name(bin) {
        Some(n) => n,
        None => bin,
    };
    gui_editors().contains(name) || gui_editors().contains(last_dot_segment(name))
}

pub proof fn lemma_last_index_bounds(s: Seq<char>, c: char)
    ensures
        -1 <= last_index_of(s, c) < s.len(),
        last_index_of(s, c) >= 0 ==> s[last_index_of(s, c)] == c,
        forall|j: int| last_index_of(s, c) < j < s.len() ==> s[j] != c,
    decreases s.len(),
{
    if s.len() > 0 && s.last() != c {
        lemma_last_index_bounds(s.drop_last(), c);
        assert forall|j: int| last_index_of(s, c) < j < s.len() implies s[j] != c by {
            if j < s.len() - 1 {
                assert(s[j] == s.drop_last()[j]);
            }
        }
    }
}

/// Whether the binary is a graphical editor (which can run beside the TUI).
pub fn is_gui_editor(bin: &str) -> (r: bool)
    ensures
        r == gui_editor_spec(bin@),
{
    let name = match file_name_of(bin) {
        Some(n) => n,
        None => String::from_str(bin),
    };
    if is_known_gui(name.as_str()) {
        return true;
    }
    let v = chars_of(name.as_str());
    let mut k = v.len();
    while k > 0 && v[k - 1] != '.'
        invariant
            k <= v.len(),
            forall|j: int| k <= j < v@.len() ==> v@[j] != '.',
        decreases k,
    {
        k = k - 1;
    }
    proof {
        lemma_last_index_bounds(v@, '.');
        let li = last_index_of(v@, '.');
        if k > 0 {
            assert(v@[k - 1] == '.');
            assert(li == k - 1);
        } else {
            assert(li == -1);
        }
    }
    let seg = copy_range(&v, k, v.len());
    let segs = string_of(&seg);
    is_known_gui(segs.as_str())
}

/// Whether `c` is alphanumeric in the Unicode sense (`char::is_alphanumeric`).
pub uninterp spec fn unicode_alphanumeric(c: char) -> bool;

/// std's `char::is_alphanumeric`; its result depends on the character alone.
#[verifier::external_body]
fn is_alphanumeric(c: char) -> (r: bool)
    ensures
        r == unicode_alphanumeric(c),
{
    c.is_alphanumeric()
}

/// A relative executable name is only looked up when every character is
/// alphanumeric or one of `_ - .` (nothing a shell would interpret).
pub open spec fn safe_executable_name(bin: Seq<char>) -> bool {
    forall|i: int| 0 <= i < bin.len() ==> (unicode_alphanumeric(#[trigger] bin[i]) || bin[i] == '_' || bin[i] == '-' || bin[i] == '.')
}

/// Whether every character of a relative executable name is safe to pass to a shell lookup.
pub fn executable_name_is_safe(bin: &str) -> (r: bool)
    ensures
        r == safe_executable_name(bin@),
{
    let v = chars_of(bin);
    let mut i: usize = 0;
    while i < v.len()
        invariant
            i <= v.len(),
            v@ == bin@,
            forall|j: int| 0 <= j < i ==> (unicode_alphanumeric(#[trigger] v@[j]) || v@[j] == '_' || v@[j] == '-' || v@[j] == '.'),
        decreases v.len() - i,
    {
        let c = v[i];
        if !(is_alphanumeric(c) || c == '_' || c == '-' || c == '.') {
            return false;
        }
        i = i + 1;
    }
    true
}

/// The editor command: `$VISUAL`, else `$EDITOR`, else the configured
/// editor, else `nvim` when the configured one is empty.
pub open spec fn editor_choice(visual: Option<Seq<char>>, editor: Option<Seq<char>>, configured: Seq<char>) -> Seq<char> {
    match visual {
        Some(v) => v,
        None => match editor {
            Some(e) => e,
            None => if configured.len() == 0 { "nvim"@ } else { configured },
        },
    }
}

/// The views of an optional string.
pub open spec fn opt_view(o: Option<String>) -> Option<Seq<char>> {
    match o {
        Some(s) => Some(s@),
        None => None,
    }
}

/// Chooses the editor command from the environment and the configuration.
pub fn choose_editor(visual: Option<String>, editor: Option<String>, configured: &str) -> (r: String)
    ensures
        r@ == editor_choice(opt_view(visual), opt_view(editor), configured@),
{
    match visual {
        Some(v) => v,
        None => match editor {
            Some(e) => e,
            None => if configured.is_empty() { String::from_str("nvim") } else { String::from_str(configured) },
        },
    }
}

/// The first word of an editor command (the binary), or the empty text.
pub open spec fn command_binary(cmd: Seq<char>) -> Seq<char> {
    if words(cmd).len() > 0 { words(cmd)[0] } else { seq![] }
}

/// The binary of an editor command: its first whitespace-separated word.
pub fn editor_binary(cmd: &str) -> (r: String)
    ensures
        r@ == command_binary(cmd@),
{
    let v = chars_of(cmd);
    let ws = split_words(&v);
    if ws.len() > 0 {
        proof {
            assert(views(ws@)[0] == ws@[0]@);
        }
        string_of(&ws[0])
    } else {
        String::new()
    }
}

/// A tmux pane identifier as tmux prints it: `%` then at least one ASCII digit.
pub open spec fn valid_pane_id(id: Seq<char>) -> bool {
    id.len() >= 2 && id[0] == '%' && forall|i: int| 1 <= i < id.len() ==> '0' <= #[trigger] id[i] <= '9'
}

/// Whether the text tmux printed is a pane identifier.
pub fn pane_id_is_valid(id: &str) -> (r: bool)
    ensures
        r == valid_pane_id(id@),
{
    let v = chars_of(id);
    if v.len() < 2 || v[0] != '%' {
        return false;
    }
    let mut i: usize = 1;
    while i < v.len()
        invariant
            1 <= i <= v.len(),
            v@ == id@,
            forall|k: int| 1 <= k < i ==> '0' <= #[trigger] v@[k] <= '9',
        decreases v.len() - i,
    {
        if !('0' <= v[i] && v[i] <= '9') {
            return false;
        }
        i = i + 1;
    }
    true
}

/// An editor argument passed to tmux: every character alphanumeric or one
/// of `_ - . /` (absolute paths are allowed, shell syntax is not).
pub open spec fn safe_editor_arg(arg: Seq<char>) -> bool {
    forall|i: int| 0 <= i < arg.len() ==> (unicode_alphanumeric(#[trigger] arg[i]) || arg[i] == '_'
        || arg[i] == '-' || arg[i] == '.' || arg[i] == '/')
}

/// Whether every argument of the editor command is safe to hand to tmux.
pub fn editor_args_are_safe(args: &Vec<String>) -> (r: bool)
    ensures
        r == forall|k: int| 0 <= k < args@.len() ==> safe_editor_arg(#[trigger] args@[k]@),
{
    let mut k: usize = 0;
    while k < args.len()
        invariant
            k <= args@.len(),
            forall|j: int| 0 <= j < k ==> safe_editor_arg(#[trigger] args@[j]@),
        decreases args.len() - k,
    {
        let v = chars_of(args[k].as_str());
        let mut i: usize = 0;
        while i < v.len()
            invariant
                i <= v.len(),
                k < args@.len(),
                v@ == args@[k as int]@,
                forall|j: int| 0 <= j < i ==> (unicode_alphanumeric(#[trigger] v@[j]) || v@[j] == '_'
                    || v@[j] == '-' || v@[j] == '.' || v@[j] == '/'),
            decreases v.len() - i,
        {
            let c = v[i];
            if !(is_alphanumeric(c) || c == '_' || c == '-' || c == '.' || c == '/') {
                proof {
                    assert(args@[k as int]@[i as int] == c);
                    assert(!safe_editor_arg(args@[k as int]@));
                }
                return false;
            }
            i = i + 1;
        }
        k = k + 1;
    }
    true
}

} // verus!
