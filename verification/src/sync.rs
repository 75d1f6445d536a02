//! Multi-machine synchronisation through a private git repository: status,
//! branch checks, commit messages and snapshot change detection.
use vstd::prelude::*;

use crate::config::SyncConfig;
use crate::error::KfError;
use crate::text::{chars_of, push_str, str_eq, string_of, trim, trim_exec};

verus! {

/// The `.gitignore` of the synchronised directory: only the progress
/// snapshot is versioned.
pub const SYNC_GITIGNORE_CONTENT: &'static str = "# clings sync — seul progress.json est versionné\n*.db\n*.db-wal\n*.db-shm\n*.toml\n*.c\n*.h\n";

/// State of the synchronisation.
#[derive(Debug, Clone)]
pub struct SyncStatus {
    /// Whether synchronisation is enabled.
    pub enabled: bool,
    /// Git remote URL.
    pub remote: String,
    /// Git branch.
    pub branch: String,
    /// Date and subject of the last commit, if any.
    pub last_commit: Option<String>,
    /// Number of subjects in the snapshot.
    pub subject_count: usize,
}

/// The branch used for synchronisation: the configured one, or `main` when empty.
pub open spec fn effective_branch(cfg_branch: Seq<char>) -> Seq<char> {
    if cfg_branch.len() == 0 { "main"@ } else { cfg_branch }
}

/// The last-commit line from `git log -1` output: trimmed, absent when empty.
pub open spec fn last_commit_of(output: Option<String>) -> Option<Seq<char>> {
    match output {
        Some(o) => if trim(o@).len() > 0 { Some(trim(o@)) } else { None },
        None => None,
    }
}

/// The synchronisation status from the configuration, the output of
/// `git log -1` (`None` outside a repository or when git failed) and the
/// number of subjects in the snapshot.
pub fn status(cfg: &SyncConfig, git_log_output: Option<String>, subject_count: usize) -> (s: SyncStatus)
    ensures
        s.enabled == cfg.enabled,
        s.remote@ == cfg.remote@,
        s.branch@ == effective_branch(cfg.branch@),
        s.subject_count == subject_count,
        s.last_commit matches Some(c) ==> last_commit_of(git_log_output) == Some(c@),
        s.last_commit is None ==> last_commit_of(git_log_output) is None,
{
    let last_commit = match git_log_output {
        Some(o) => {
            let v = chars_of(o.as_str());
            let t = trim_exec(&v);
            if t.len() > 0 { Some(string_of(&t)) } else { None }
        },
        None => None,
    };
    let branch = if cfg.branch.as_str().is_empty() { String::from_str("main") } else { cfg.branch.clone() };
    SyncStatus { enabled: cfg.enabled, remote: cfg.remote.clone(), branch, last_commit, subject_count }
}

/// A branch name is refused when empty, starting with `-`, or holding a
/// space, a newline or a NUL.
pub open spec fn branch_name_invalid(b: Seq<char>) -> bool {
    b.len() == 0 || b[0] == '-' || b.contains(' ') || b.contains('\n') || b.contains('\0')
}

/// Checks a branch name before it is passed to git.
pub fn validate_branch_name(branch: &str) -> (r: Result<(), KfError>)
    ensures
        r is Ok <==> !branch_name_invalid(branch@),
        r matches Err(KfError::Config(msg)) ==> msg@ == "Nom de branche invalide : '"@ + branch@ + "'"@,
        r is Err ==> r matches Err(KfError::Config(_)),
{
    let v = chars_of(branch);
    let mut bad = v.len() == 0 || v[0] == '-';
    let mut i: usize = 0;
    while i < v.len()
        invariant
            i <= v.len(),
            v@ == branch@,
            bad == (v@.len() == 0 || v@[0] == '-' || exists|j: int| 0 <= j < i && (v@[j] == ' ' || v@[j] == '\n' || v@[j] == '\0')),
        decreases v.len() - i,
    {
        if v[i] == ' ' || v[i] == '\n' || v[i] == '\0' {
            bad = true;
        }
        i = i + 1;
    }
    proof {
        if branch@.contains(' ') {
            let j = choose|j: int| 0 <= j < branch@.len() && branch@[j] == ' ';
            assert(v@[j] == ' ');
        }
        if branch@.contains('\n') {
            let j = choose|j: int| 0 <= j < branch@.len() && branch@[j] == '\n';
            assert(v@[j] == '\n');
        }
        if branch@.contains('\0') {
            let j = choose|j: int| 0 <= j < branch@.len() && branch@[j] == '\0';
            assert(v@[j] == '\0');
        }
        if bad && v@.len() > 0 && v@[0] != '-' {
            let j = choose|j: int| 0 <= j < v@.len() && (v@[j] == ' ' || v@[j] == '\n' || v@[j] == '\0');
            assert(branch@.contains(v@[j]));
        }
    }
    if bad {
        let mut msg = chars_of("Nom de branche invalide : '");
        push_str(&mut msg, branch);
        push_str(&mut msg, "'");
        Err(KfError::Config(string_of(&msg)))
    } else {
        Ok(())
    }
}

/// The branch to push to: `main` when none is configured, else the
/// configured branch once checked.
pub fn push_branch(cfg: &SyncConfig) -> (r: Result<String, KfError>)
    ensures
        cfg.branch@.len() == 0 ==> (r matches Ok(b) && b@ == "main"@),
        cfg.branch@.len() > 0 ==> (r is Ok <==> !branch_name_invalid(cfg.branch@)),
        r matches Ok(b) ==> b@ == effective_branch(cfg.branch@),
{
    if cfg.branch.as_str().is_empty() {
        Ok(String::from_str("main"))
    } else {
        match validate_branch_name(cfg.branch.as_str()) {
            Ok(()) => Ok(cfg.branch.clone()),
            Err(e) => Err(e),
        }
    }
}

/// The machine name for commit messages: the configured one, else the
/// trimmed output of `hostname` when non-empty, else `unknown`.
pub fn resolve_hostname(cfg: &SyncConfig, system_hostname: Option<String>) -> (h: String)
    ensures
        cfg.hostname@.len() > 0 ==> h@ == cfg.hostname@,
        cfg.hostname@.len() == 0 ==> h@ == (match system_hostname {
            Some(s) => if trim(s@).len() > 0 { trim(s@) } else { "unknown"@ },
            None => "unknown"@,
        }),
{
    if !cfg.hostname.as_str().is_empty() {
        return cfg.hostname.clone();
    }
    match system_hostname {
        Some(s) => {
            let v = chars_of(s.as_str());
            let t = trim_exec(&v);
            if t.len() > 0 { string_of(&t) } else { String::from_str("unknown") }
        },
        None => String::from_str("unknown"),
    }
}

/// A character that could break a commit message is replaced by `_`.
pub open spec fn sanitize_char(c: char) -> char {
    if c == '\n' || c == '\0' || c == '"' || c == '\'' { '_' } else { c }
}

/// The commit message of a snapshot: `sync: <host> <timestamp>`, with
/// newlines, NULs and quotes in the host name replaced by `_`.
pub open spec fn commit_message_spec(hostname: Seq<char>, timestamp: Seq<char>) -> Seq<char> {
    "sync: "@ + hostname.map_values(|c: char| sanitize_char(c)) + " "@ + timestamp
}

/// The commit message of a snapshot.
pub fn commit_message(hostname: &str, timestamp: &str) -> (m: String)
    ensures
        m@ == commit_message_spec(hostname@, timestamp@),
{
    let h = chars_of(hostname);
    let mut out = chars_of("sync: ");
    let ghost head = out@;
    let mut i: usize = 0;
    while i < h.len()
        invariant
            i <= h.len(),
            out@ == head + h@.subrange(0, i as int).map_values(|c: char| sanitize_char(c)),
        decreases h.len() - i,
    {
        let c = h[i];
        let d = if c == '\n' || c == '\0' || c == '"' || c == '\'' { '_' } else { c };
        out.push(d);
        proof {
            assert(h@.subrange(0, i + 1).map_values(|c: char| sanitize_char(c))
                =~= h@.subrange(0, i as int).map_values(|c: char| sanitize_char(c)).push(d));
        }
        i = i + 1;
    }
    proof {
        assert(h@.subrange(0, h@.len() as int) =~= h@);
    }
    push_str(&mut out, " ");
    push_str(&mut out, timestamp);
    string_of(&out)
}

/// Light change-detection hash of a snapshot: its size plus the sum of its
/// first 64 bytes weighted by their position (1-based), modulo 2^64.
pub open spec fn snapshot_hash_spec(bytes: Seq<u8>) -> int {
    (bytes.len() + weighted_sum(bytes, if bytes.len() < 64 { bytes.len() as int } else { 64 })) % 0x1_0000_0000_0000_0000
}

/// Sum of `bytes[i] * (i + 1)` for `i < n`.
pub open spec fn weighted_sum(bytes: Seq<u8>, n: int) -> int
    decreases n,
{
    if n <= 0 { 0 } else { weighted_sum(bytes, n - 1) + bytes[n - 1] * n }
}

/// Change-detection hash of a snapshot's bytes.
pub fn snapshot_hash(bytes: &Vec<u8>) -> (h: u64)
    ensures
        h as int == snapshot_hash_spec(bytes@),
{
    let n: usize = if bytes.len() < 64 { bytes.len() } else { 64 };
    let mut sample: u64 = 0;
    let mut i: usize = 0;
    while i < n
        invariant
            i <= n <= 64,
            n <= bytes.len(),
            sample == weighted_sum(bytes@, i as int),
            sample <= 16575 * i,
        decreases n - i,
    {
        let b = bytes[i] as u64;
        let w: u64 = i as u64 + 1;
        assert(b * w <= 16575) by (nonlinear_arith)
            requires b <= 255, w <= 65;
        let add = b * w;
        sample = sample + add;
        i = i + 1;
    }
    let size = bytes.len() as u64;
    let h = size.wrapping_add(sample);
    proof {
        assert(bytes@.len() < 0x1_0000_0000_0000_0000);
    }
    h
}

/// The top level of a JSON text, as far as a snapshot's subject count reads it.
pub enum JsonTop {
    /// An object: each key, with the length of its value where that value is an array.
    Object(Vec<(String, Option<usize>)>),
    /// An array: for each element, its length where it is an array.
    Array(Vec<Option<usize>>),
    /// `null`, a boolean, a number or a string.
    Scalar,
}

/// The top level of a JSON text as serde_json reads it into a value; `None`
/// when the text is no JSON.
pub uninterp spec fn json_top(text: Seq<char>) -> Option<JsonTop>;

/// serde_json's `from_str` into a `Value`, its top level then taken apart
/// variant by variant, each inner value kept only as the length of the array
/// it is (`Value::as_array`). Claimed: the result is the named top level of
/// the text; it depends on the text alone. serde_json's grammar is not stated.
/// A `Value` object keeps one entry per key (the last of duplicates), so a
/// repeated key does not reach the library.
#[verifier::external_body]
fn json_top_of(text: &str) -> (r: Option<JsonTop>)
    ensures
        r == json_top(text@),
{
    let len = |v: serde_json::Value| v.as_array().map(|a| a.len());
    match serde_json::from_str::<serde_json::Value>(text).ok()? {
        serde_json::Value::Object(m) => Some(JsonTop::Object(m.into_iter().map(|(k, v)| (k, len(v))).collect())),
        serde_json::Value::Array(a) => Some(JsonTop::Array(a.into_iter().map(len).collect())),
        serde_json::Value::Null | serde_json::Value::Bool(_) => Some(JsonTop::Scalar),
        serde_json::Value::Number(_) | serde_json::Value::String(_) => Some(JsonTop::Scalar),
    }
}

/// The values filed under the key `subjects` among the first `k` entries, in order.
pub open spec fn subjects_values(entries: Seq<(String, Option<usize>)>, k: int) -> Seq<Option<usize>>
    decreases k,
{
    if k <= 0 {
        Seq::empty()
    } else if entries[k - 1].0@ == "subjects"@ {
        subjects_values(entries, k - 1).push(entries[k - 1].1)
    } else {
        subjects_values(entries, k - 1)
    }
}

/// The subject count of a snapshot whose top level is `top`, as a snapshot
/// record of one field `subjects` (a list) reads it: from an object with
/// exactly one `subjects` key whose value is an array, that array's length;
/// from an array of exactly one element that is an array, that element's
/// length; 0 otherwise (a missing, repeated or non-array field, another shape).
pub open spec fn top_subject_count(top: JsonTop) -> nat {
    match top {
        JsonTop::Object(entries) => {
            let vs = subjects_values(entries@, entries@.len() as int);
            if vs.len() == 1 && vs[0] is Some {
                vs[0]->0 as nat
            } else {
                0
            }
        },
        JsonTop::Array(items) => {
            if items@.len() == 1 && items@[0] is Some {
                items@[0]->0 as nat
            } else {
                0
            }
        },
        JsonTop::Scalar => 0,
    }
}

/// The subject count of a snapshot from its JSON top level.
pub fn subject_count_in(top: &JsonTop) -> (n: usize)
    ensures
        n == top_subject_count(*top),
{
    match top {
        JsonTop::Object(entries) => {
            let mut found: Vec<Option<usize>> = Vec::new();
            let mut i: usize = 0;
            while i < entries.len()
                invariant
                    i <= entries@.len(),
                    found@ == subjects_values(entries@, i as int),
                decreases entries.len() - i,
            {
                if str_eq(entries[i].0.as_str(), "subjects") {
                    found.push(entries[i].1);
                }
                i = i + 1;
            }
            if found.len() == 1 {
                match found[0] {
                    Some(c) => c,
                    None => 0,
                }
            } else {
                0
            }
        },
        JsonTop::Array(items) => {
            if items.len() == 1 {
                match items[0] {
                    Some(c) => c,
                    None => 0,
                }
            } else {
                0
            }
        },
        JsonTop::Scalar => 0,
    }
}

/// The number of subjects that the sync status shows for the snapshot's
/// text: its subject count, or 0 when there is no snapshot or it does not read.
pub fn snapshot_subject_count(text: Option<String>) -> (n: usize)
    ensures
        n == match text {
            Some(t) => match json_top(t@) {
                Some(top) => top_subject_count(top),
                None => 0,
            },
            None => 0,
        },
{
    match text {
        Some(t) => match json_top_of(t.as_str()) {
            Some(top) => subject_count_in(&top),
            None => 0,
        },
        None => 0,
    }
}

} // verus!

