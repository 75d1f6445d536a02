//! User configuration sections and the keys that may be set.
use vstd::prelude::*;

use crate::error::KfError;
use crate::text::{chars_of, push_str, str_eq, string_of};
use crate::unity::{digits_value, is_digit, lemma_digits_value_prefix_mono};

verus! {

/// Default editor command.
pub const TMUX_EDITOR: &'static str = "nvim";

/// Default git branch for synchronisation.
pub const SYNC_DEFAULT_BRANCH: &'static str = "main";

/// UI and editor configuration.
#[derive(Debug, Clone)]
pub struct UiConfig {
    /// Editor command (e.g. `nvim`).
    pub editor: String,
    /// Width of the tmux editor pane, in columns.
    pub tmux_pane_width: u8,
}

impl Default for UiConfig {
    fn default() -> (c: UiConfig)
        ensures
            c.editor@ == "nvim"@,
            c.tmux_pane_width == 50,
    {
        UiConfig { editor: String::from_str("nvim"), tmux_pane_width: 50 }
    }
}

/// tmux integration configuration.
#[derive(Debug, Clone, Copy)]
pub struct TmuxConfig {
    /// Whether an editor pane is opened automatically inside tmux.
    pub enabled: bool,
}

impl Default for TmuxConfig {
    fn default() -> (c: TmuxConfig)
        ensures
            c.enabled,
    {
        TmuxConfig { enabled: true }
    }
}

/// Git synchronisation configuration.
#[derive(Debug, Clone)]
pub struct SyncConfig {
    /// Whether progress snapshots are synchronised.
    pub enabled: bool,
    /// Git remote URL.
    pub remote: String,
    /// Git branch for snapshots.
    pub branch: String,
    /// Machine name for commit messages (empty: the system hostname).
    pub hostname: String,
}

impl Default for SyncConfig {
    fn default() -> (c: SyncConfig)
        ensures
            !c.enabled,
            c.remote@.len() == 0,
            c.branch@ == "main"@,
            c.hostname@.len() == 0,
    {
        SyncConfig {
            enabled: false,
            remote: String::new(),
            branch: String::from_str("main"),
            hostname: String::new(),
        }
    }
}

/// The `section.key` pairs that `clings config` may set, in order.
pub open spec fn settable_keys() -> Seq<(Seq<char>, Seq<char>)> {
    seq![
        ("srs"@, "decay_days"@), ("srs"@, "base_interval_days"@), ("ui"@, "editor"@),
        ("tmux"@, "enabled"@), ("ui"@, "tmux_pane_width"@), ("sync"@, "enabled"@),
        ("sync"@, "remote"@), ("sync"@, "branch"@), ("sync"@, "hostname"@),
    ]
}

/// The list of settable keys as shown in the error message.
pub open spec fn settable_keys_text() -> Seq<char> {
    "srs.decay_days, srs.base_interval_days, ui.editor, tmux.enabled, ui.tmux_pane_width, sync.enabled, sync.remote, sync.branch, sync.hostname"@
}

fn settable_key(i: usize) -> (r: (&'static str, &'static str))
    requires
        i < 9,
    ensures
        r.0@ == settable_keys()[i as int].0,
        r.1@ == settable_keys()[i as int].1,
{
    if i == 0 { ("srs", "decay_days") }
    else if i == 1 { ("srs", "base_interval_days") }
    else if i == 2 { ("ui", "editor") }
    else if i == 3 { ("tmux", "enabled") }
    else if i == 4 { ("ui", "tmux_pane_width") }
    else if i == 5 { ("sync", "enabled") }
    else if i == 6 { ("sync", "remote") }
    else if i == 7 { ("sync", "branch") }
    else { ("sync", "hostname") }
}

/// Accepts a `section.key` that may be set; any other is refused with the
/// list of allowed keys.
pub fn check_config_key(section: &str, key: &str) -> (r: Result<(), KfError>)
    ensures
        r is Ok <==> settable_keys().contains((section@, key@)),
        r matches Err(KfError::Config(msg)) ==> msg@ == "clé inconnue '"@ + section@ + "."@
            + key@ + "' — valeurs autorisées : "@ + settable_keys_text(),
        r is Err ==> r matches Err(KfError::Config(_)),
{
    let mut i: usize = 0;
    while i < 9
        invariant
            i <= 9,
            forall|j: int| 0 <= j < i ==> settable_keys()[j] != (section@, key@),
        decreases 9 - i,
    {
        let (s, k) = settable_key(i);
        if str_eq(section, s) && str_eq(key, k) {
            proof {
                assert(settable_keys()[i as int] == (section@, key@));
            }
            return Ok(());
        }
        i = i + 1;
    }
    proof {
        if settable_keys().contains((section@, key@)) {
            let j = choose|j: int| 0 <= j < settable_keys().len() && settable_keys()[j] == (section@, key@);
            assert(settable_keys()[j] != (section@, key@));
        }
    }
    let mut msg = chars_of("clé inconnue '");
    push_str(&mut msg, section);
    push_str(&mut msg, ".");
    push_str(&mut msg, key);
    push_str(&mut msg, "' — valeurs autorisées : ");
    push_str(&mut msg, "srs.decay_days, srs.base_interval_days, ui.editor, tmux.enabled, ui.tmux_pane_width, sync.enabled, sync.remote, sync.branch, sync.hostname");
    Err(KfError::Config(string_of(&msg)))
}

// ── Values ──────────────────────────────────────────────────────────────────

/// All of `d` are ASCII digits, and there is at least one.
pub open spec fn all_digits(d: Seq<char>) -> bool {
    d.len() > 0 && forall|i: int| 0 <= i < d.len() ==> is_digit(#[trigger] d[i])
}

/// `i64::from_str`: an optional sign, then at least one ASCII digit, the
/// value fitting in `i64`.
pub open spec fn parse_i64_spec(s: Seq<char>) -> Option<i64> {
    if s.len() > 0 && s[0] == '-' {
        let d = s.drop_first();
        if all_digits(d) && digits_value(d) <= 0x8000_0000_0000_0000 {
            Some((-(digits_value(d) as int)) as i64)
        } else {
            None
        }
    } else {
        let d = if s.len() > 0 && s[0] == '+' { s.drop_first() } else { s };
        if all_digits(d) && digits_value(d) <= i64::MAX {
            Some(digits_value(d) as i64)
        } else {
            None
        }
    }
}

/// The value of the digits of `s` from `start` on, when they are all
/// digits, there is one at least, and the value is at most `limit`.
fn digits_up_to(s: &Vec<char>, start: usize, limit: u64) -> (r: Option<u64>)
    requires
        start <= s.len(),
    ensures
        ({
            let d = s@.subrange(start as int, s@.len() as int);
            r == if all_digits(d) && digits_value(d) <= limit { Some(digits_value(d) as u64) } else { None::<u64> }
        }),
{
    let ghost d = s@.subrange(start as int, s@.len() as int);
    if start >= s.len() {
        return None;
    }
    let mut acc: u64 = 0;
    let mut i = start;
    while i < s.len()
        invariant
            start <= i <= s.len(),
            d == s@.subrange(start as int, s@.len() as int),
            forall|k: int| 0 <= k < i - start ==> is_digit(#[trigger] d[k]),
            acc == digits_value(d.subrange(0, i - start)),
            acc <= limit,
        decreases s.len() - i,
    {
        let c = s[i];
        if !('0' <= c && c <= '9') {
            proof {
                assert(d[i - start] == c);
            }
            return None;
        }
        let dv = (c as u32 - '0' as u32) as u64;
        proof {
            assert(d.subrange(0, i - start + 1).drop_last() =~= d.subrange(0, i - start));
            assert(d.subrange(0, i - start + 1).last() == c);
            assert(d[i - start] == c);
        }
        if dv > limit || acc > (limit - dv) / 10 {
            proof {
                let pre = d.subrange(0, i - start + 1);
                assert(digits_value(pre) == acc * 10 + dv);
                assert(acc * 10 + dv > limit) by (nonlinear_arith)
                    requires acc > (limit - dv) / 10 || dv > limit, dv <= 9, acc >= 0;
                if all_digits(d) {
                    lemma_digits_value_prefix_mono(d, i - start + 1);
                }
            }
            return None;
        }
        assert(acc * 10 + dv <= limit) by (nonlinear_arith)
            requires acc <= (limit - dv) / 10, dv <= limit;
        acc = acc * 10 + dv;
        i = i + 1;
    }
    proof {
        assert(d.subrange(0, d.len() as int) =~= d);
    }
    Some(acc)
}

/// Parses a decimal `i64` as `str::parse::<i64>` does.
pub fn parse_i64(s: &str) -> (r: Option<i64>)
    ensures
        r == parse_i64_spec(s@),
{
    let v = chars_of(s);
    if v.len() > 0 && v[0] == '-' {
        proof {
            assert(v@.subrange(1, v@.len() as int) =~= v@.drop_first());
        }
        match digits_up_to(&v, 1, 0x8000_0000_0000_0000) {
            Some(m) => {
                if m == 0x8000_0000_0000_0000 {
                    Some(i64::MIN)
                } else {
                    Some(-(m as i64))
                }
            },
            None => None,
        }
    } else {
        let start: usize = if v.len() > 0 && v[0] == '+' { 1 } else { 0 };
        proof {
            if start == 1 {
                assert(v@.subrange(1, v@.len() as int) =~= v@.drop_first());
            } else {
                assert(v@.subrange(0, v@.len() as int) =~= v@);
            }
        }
        match digits_up_to(&v, start, 0x7fff_ffff_ffff_ffff) {
            Some(m) => Some(m as i64),
            None => None,
        }
    }
}

/// How a value given to `clings config` is stored.
#[derive(Debug, Clone, Copy, PartialEq, Eq)]
pub enum ConfigValue {
    /// A whole number.
    Integer(i64),
    /// A floating-point number (not an integer).
    Float,
    /// `true` or `false`.
    Boolean(bool),
    /// Anything else, kept as text.
    Text,
}

/// The kind of a configuration value: an integer if it reads as one, else
/// a float if it reads as one (`parses_as_float`: whether `f64::from_str`
/// accepts it), else a boolean if it is `true` or `false`, else text.
pub open spec fn config_value_spec(value: Seq<char>, parses_as_float: bool) -> ConfigValue {
    match parse_i64_spec(value) {
        Some(i) => ConfigValue::Integer(i),
        None => if parses_as_float {
            ConfigValue::Float
        } else if value == "true"@ {
            ConfigValue::Boolean(true)
        } else if value == "false"@ {
            ConfigValue::Boolean(false)
        } else {
            ConfigValue::Text
        },
    }
}

/// How `clings config` stores `value`: integer, then float, then boolean,
/// else text. Whether the value reads as a float is decided by the caller.
pub fn config_value_kind(value: &str, parses_as_float: bool) -> (r: ConfigValue)
    ensures
        r == config_value_spec(value@, parses_as_float),
{
    match parse_i64(value) {
        Some(i) => ConfigValue::Integer(i),
        None => {
            if parses_as_float {
                ConfigValue::Float
            } else if str_eq(value, "true") {
                ConfigValue::Boolean(true)
            } else if str_eq(value, "false") {
                ConfigValue::Boolean(false)
            } else {
                ConfigValue::Text
            }
        },
    }
}

} // verus!

