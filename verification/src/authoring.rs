//! Authoring tools: exercise skeleton generator and structural exercise checks.
use vstd::prelude::*;

use crate::error::KfError;
use crate::models::{
    difficulty_of_level, invalid_difficulty_message, Difficulty, Exercise, ExerciseType, Lang,
    ValidationConfig, ValidationMode, Visualizer,
};
use crate::text::{
    chars_of, contains, decimal, decimal_exec, push_all, push_str, str_contains, string_of,
    trim, trim_exec,
};

verus! {

/// An error found while checking an exercise definition.
#[derive(Debug, PartialEq, Eq, Clone)]
pub struct ValidationError(pub String);

impl ValidationError {
    /// The message of the error.
    pub fn to_string(&self) -> (s: String)
        ensures
            s@ == self.0@,
    {
        self.0.clone()
    }
}

/// The lower-case form of `s`, as `str::to_lowercase` computes it.
pub uninterp spec fn lowercase(s: Seq<char>) -> Seq<char>;

/// `c` is an ASCII character.
pub open spec fn is_ascii_char(c: char) -> bool {
    (c as u32) < 0x80
}

/// `s` with its ASCII capitals `A`..`Z` made `a`..`z`.
pub open spec fn ascii_lowercase(s: Seq<char>) -> Seq<char> {
    s.map_values(|c: char| if 'A' <= c <= 'Z' { ((c as u32) + 32) as char } else { c })
}

/// `s` holds ASCII characters only.
pub open spec fn all_ascii(s: Seq<char>) -> bool {
    forall|i: int| 0 <= i < s.len() ==> is_ascii_char(#[trigger] s[i])
}

/// std's `str::to_lowercase` (full Unicode lower-casing); its result depends
/// on the argument alone. Also claimed, from std's documentation of
/// `char::to_lowercase` (a character without a lower-case mapping is kept)
/// and of `str::to_lowercase`: ASCII text is lower-cased letter by letter,
/// `A`..`Z` becoming `a`..`z` and every other ASCII character kept.
#[verifier::external_body]
fn to_lowercase(s: &str) -> (res: String)
    ensures
        res@ == lowercase(s@),
        all_ascii(s@) ==> res@ == ascii_lowercase(s@),
{
    s.to_lowercase()
}

/// Seconds since the Unix epoch, read from the system clock (std's
/// `SystemTime::now`, with 0 where the clock is before the epoch).
#[verifier::external_body]
pub(crate) fn unix_now_secs() -> u64 {
    std::time::SystemTime::now().duration_since(std::time::UNIX_EPOCH).map(|d| d.as_secs()).unwrap_or(
        0,
    )
}

/// The mode named by `mode`, compared after lower-casing.
pub open spec fn mode_of(mode: Seq<char>) -> Option<ValidationMode> {
    if lowercase(mode) == "output"@ {
        Some(ValidationMode::Output)
    } else if lowercase(mode) == "test"@ {
        Some(ValidationMode::Test)
    } else {
        None
    }
}

/// The message for an unknown mode.
pub open spec fn invalid_mode_message(mode: Seq<char>) -> Seq<char> {
    "mode invalide : '"@ + lowercase(mode) + "' (attendu : output, test)"@
}

/// Parses a validation mode name (`output` or `test`, in any case).
pub fn parse_mode(mode: &str) -> (r: Result<ValidationMode, KfError>)
    ensures
        all_ascii(mode@) ==> lowercase(mode@) == ascii_lowercase(mode@),
        r matches Ok(m) ==> mode_of(mode@) == Some(m),
        r is Err ==> mode_of(mode@) is None,
        r matches Err(KfError::Config(msg)) ==> msg@ == invalid_mode_message(mode@),
        r is Err ==> r matches Err(KfError::Config(_)),
{
    let lower = to_lowercase(mode);
    mode_of_lowercase(lower.as_str())
}

/// The mode named by an already lower-cased name: `output` or `test`; any
/// other name is a configuration error that quotes it.
pub fn mode_of_lowercase(lower: &str) -> (r: Result<ValidationMode, KfError>)
    ensures
        lower@ == "output"@ ==> r == Ok::<ValidationMode, KfError>(ValidationMode::Output),
        lower@ == "test"@ ==> r == Ok::<ValidationMode, KfError>(ValidationMode::Test),
        lower@ != "output"@ && lower@ != "test"@ ==> (r matches Err(KfError::Config(msg))
            && msg@ == "mode invalide : '"@ + lower@ + "' (attendu : output, test)"@),
{
    proof {
        reveal_strlit("output");
        reveal_strlit("test");
        assert("test"@.len() != "output"@.len());
    }
    if crate::text::str_eq(lower, "output") {
        Ok(ValidationMode::Output)
    } else if crate::text::str_eq(lower, "test") {
        Ok(ValidationMode::Test)
    } else {
        let mut msg = chars_of("mode invalide : '");
        push_str(&mut msg, lower);
        push_str(&mut msg, "' (attendu : output, test)");
        Err(KfError::Config(string_of(&msg)))
    }
}

pub open spec fn skeleton_test_code() -> Seq<char> {
    "#include \"unity.h\"\n\nvoid test_placeholder(void) {\n\tTEST_ASSERT_EQUAL_INT(1, 1);\n}\n\nint main(void) {\n\tUNITY_BEGIN();\n\tRUN_TEST(test_placeholder);\n\treturn UNITY_END();\n}"@
}

pub open spec fn skeleton_description() -> Seq<char> {
    "__DESCRIPTION__\n\nRemplacez ce texte par l'énoncé de l'exercice."@
}

pub open spec fn skeleton_starter() -> Seq<char> {
    "#include <stdio.h>\n\nint main(void) {\n    // __STARTER_CODE__\n    return 0;\n}\n"@
}

pub open spec fn skeleton_solution() -> Seq<char> {
    "#include <stdio.h>\n\nint main(void) {\n    // __SOLUTION_CODE__\n    return 0;\n}\n"@
}

/// Identifier of a skeleton made at time `ts`.
pub open spec fn skeleton_id(subject: Seq<char>, ts: u64) -> Seq<char> {
    subject + "-new-"@ + decimal(ts as nat)
}

/// `ex` is the skeleton for `subject`, difficulty `d` and mode `m` made at time `ts`.
pub open spec fn is_skeleton(ex: Exercise, subject: Seq<char>, d: Difficulty, m: ValidationMode, ts: u64) -> bool {
    &&& ex.id@ == skeleton_id(subject, ts)
    &&& ex.subject@ == subject
    &&& ex.lang == Lang::C
    &&& ex.difficulty == d
    &&& ex.title@ == "__TITLE__ ("@ + skeleton_id(subject, ts) + ")"@
    &&& ex.description@ == skeleton_description()
    &&& ex.starter_code@ == skeleton_starter()
    &&& ex.solution_code@ == skeleton_solution()
    &&& ex.hints@.len() == 2
    &&& ex.hints@[0]@ == "__HINT_1__"@
    &&& ex.hints@[1]@ == "__HINT_2__"@
    &&& ex.validation.mode == m
    &&& ex.validation.max_duration_ms is None
    &&& (m == ValidationMode::Output ==> {
        &&& ex.validation.expected_output matches Some(o) && o@ == "__EXPECTED_OUTPUT__"@
        &&& ex.validation.test_code is None
        &&& ex.validation.expected_tests_pass is None
    })
    &&& (m == ValidationMode::Test ==> {
        &&& ex.validation.expected_output is None
        &&& ex.validation.test_code matches Some(t) && t@ == skeleton_test_code()
        &&& ex.validation.expected_tests_pass == Some(1usize)
    })
    &&& ex.prerequisites@.len() == 0
    &&& ex.files@.len() == 0
    &&& ex.exercise_type == ExerciseType::Complete
    &&& ex.key_concept matches Some(k) && k@ == "__KEY_CONCEPT__"@
    &&& ex.common_mistake matches Some(c) && c@ == "__COMMON_MISTAKE__"@
    &&& ex.kc_ids@.len() == 0
    &&& ex.starter_code_stages@.len() == 0
    &&& ex.visualizer.vis_type@.len() == 0
    &&& ex.visualizer.steps@.len() == 0
    &&& ex.libsys_module is None
    &&& ex.libsys_function is None
    &&& ex.libsys_unlock is None
    &&& ex.header_code is None
}

/// The skeleton exercise for `subject`, difficulty level `difficulty` and
/// mode name `mode`, stamped with the time `ts`.
pub fn skeleton_at(subject: &str, difficulty: u8, mode: &str, ts: u64) -> (r: Result<Exercise, KfError>)
    ensures
        all_ascii(mode@) ==> lowercase(mode@) == ascii_lowercase(mode@),
        r is Ok <==> (1 <= difficulty <= 5 && mode_of(mode@) is Some),
        r matches Ok(ex) ==> is_skeleton(ex, subject@, difficulty_of_level(difficulty)->0,
            mode_of(mode@)->0, ts),
        !(1 <= difficulty <= 5) ==> (r matches Err(KfError::Config(msg)) && msg@
            == "difficulty invalide : "@ + invalid_difficulty_message(difficulty)),
        (1 <= difficulty <= 5 && mode_of(mode@) is None) ==> (r matches Err(KfError::Config(msg))
            && msg@ == invalid_mode_message(mode@)),
{
    // the mode is read first; a bad difficulty is still the error reported first
    let parsed = parse_mode(mode);
    let d = match Difficulty::from_level(difficulty) {
        Ok(d) => d,
        Err(e) => {
            let mut msg = chars_of("difficulty invalide : ");
            push_str(&mut msg, e.as_str());
            return Err(KfError::Config(string_of(&msg)));
        },
    };
    let m = match parsed {
        Ok(m) => m,
        Err(e) => return Err(e),
    };
    let mut id = chars_of(subject);
    push_str(&mut id, "-new-");
    let digits = decimal_exec(ts);
    push_all(&mut id, &digits);
    let mut title = chars_of("__TITLE__ (");
    push_all(&mut title, &id);
    push_str(&mut title, ")");
    let (expected_output, test_code, expected_tests_pass) = match m {
        ValidationMode::Output => (Some(String::from_str("__EXPECTED_OUTPUT__")), None, None),
        ValidationMode::Test => (
            None,
            Some(String::from_str("#include \"unity.h\"\n\nvoid test_placeholder(void) {\n\tTEST_ASSERT_EQUAL_INT(1, 1);\n}\n\nint main(void) {\n\tUNITY_BEGIN();\n\tRUN_TEST(test_placeholder);\n\treturn UNITY_END();\n}")),
            Some(1usize),
        ),
    };
    let mut hints: Vec<String> = Vec::new();
    hints.push(String::from_str("__HINT_1__"));
    hints.push(String::from_str("__HINT_2__"));
    let ex = Exercise {
        id: string_of(&id),
        subject: String::from_str(subject),
        lang: Lang::C,
        difficulty: d,
        title: string_of(&title),
        description: String::from_str("__DESCRIPTION__\n\nRemplacez ce texte par l'énoncé de l'exercice."),
        starter_code: String::from_str("#include <stdio.h>\n\nint main(void) {\n    // __STARTER_CODE__\n    return 0;\n}\n"),
        solution_code: String::from_str("#include <stdio.h>\n\nint main(void) {\n    // __SOLUTION_CODE__\n    return 0;\n}\n"),
        hints,
        validation: ValidationConfig {
            mode: m,
            expected_output,
            test_code,
            expected_tests_pass,
            max_duration_ms: None,
        },
        prerequisites: Vec::new(),
        files: Vec::new(),
        exercise_type: ExerciseType::Complete,
        key_concept: Some(String::from_str("__KEY_CONCEPT__")),
        common_mistake: Some(String::from_str("__COMMON_MISTAKE__")),
        kc_ids: Vec::new(),
        starter_code_stages: Vec::new(),
        visualizer: Visualizer { vis_type: String::new(), steps: Vec::new() },
        libsys_module: None,
        libsys_function: None,
        libsys_unlock: None,
        header_code: None,
    };
    Ok(ex)
}

/// Generates a skeleton exercise with visible placeholders, stamped with
/// the current time; fails on a difficulty outside 1..=5 or an unknown mode.
pub fn generate_skeleton(subject: &str, difficulty: u8, mode: &str) -> (r: Result<Exercise, KfError>)
    ensures
        all_ascii(mode@) ==> lowercase(mode@) == ascii_lowercase(mode@),
        r is Ok <==> (1 <= difficulty <= 5 && mode_of(mode@) is Some),
        r matches Ok(ex) ==> exists|ts: u64| is_skeleton(ex, subject@,
            difficulty_of_level(difficulty)->0, mode_of(mode@)->0, ts),
        !(1 <= difficulty <= 5) ==> (r matches Err(KfError::Config(msg)) && msg@
            == "difficulty invalide : "@ + invalid_difficulty_message(difficulty)),
        (1 <= difficulty <= 5 && mode_of(mode@) is None) ==> (r matches Err(KfError::Config(msg))
            && msg@ == invalid_mode_message(mode@)),
{
    let ts = unix_now_secs();
    skeleton_at(subject, difficulty, mode, ts)
}

// ── Structural checks ───────────────────────────────────────────────────────

/// A text that is blank or still holds the placeholder `marker`.
pub open spec fn blank_or_placeholder(s: Seq<char>, marker: Seq<char>) -> bool {
    trim(s).len() == 0 || contains(s, marker)
}

/// `msg` as a one-element list when `cond` holds, else the empty list.
pub open spec fn when(cond: bool, msg: Seq<char>) -> Seq<Seq<char>> {
    if cond {
        seq![msg]
    } else {
        seq![]
    }
}

/// The messages `check_exercise` reports for `ex`, in order.
pub open spec fn exercise_problems(ex: Exercise) -> Seq<Seq<char>> {
    when(trim(ex.id@).len() == 0, "`id` est vide"@)
    + when(blank_or_placeholder(ex.title@, "__TITLE__"@), "`title` contient un placeholder ou est vide"@)
    + when(blank_or_placeholder(ex.description@, "__DESCRIPTION__"@), "`description` contient un placeholder ou est vide"@)
    + when(blank_or_placeholder(ex.starter_code@, "__STARTER_CODE__"@), "`starter_code` contient un placeholder ou est vide"@)
    + when(blank_or_placeholder(ex.solution_code@, "__SOLUTION_CODE__"@), "`solution_code` contient un placeholder ou est vide"@)
    + when(ex.hints@.len() == 0, "`hints` est vide (au moins 1 indice requis)"@)
    + when(ex.validation.mode == ValidationMode::Output && ex.validation.expected_output is None,
        "`validation.expected_output` manquant pour mode output"@)
    + when(ex.validation.mode == ValidationMode::Output && (ex.validation.expected_output matches Some(o) && contains(o@, "__EXPECTED_OUTPUT__"@)),
        "`validation.expected_output` contient un placeholder"@)
    + when(ex.validation.mode == ValidationMode::Test && ex.validation.test_code is None,
        "`validation.test_code` manquant pour mode test"@)
    + when(ex.validation.mode == ValidationMode::Test && (ex.validation.test_code matches Some(t) && trim(t@).len() == 0),
        "`validation.test_code` est vide"@)
}

/// The messages of a list of validation errors.
pub open spec fn error_messages(v: Seq<ValidationError>) -> Seq<Seq<char>> {
    v.map_values(|e: ValidationError| e.0@)
}

fn is_blank(s: &str) -> (r: bool)
    ensures
        r == (trim(s@).len() == 0),
{
    let v = chars_of(s);
    let t = trim_exec(&v);
    t.len() == 0
}

fn report(errors: &mut Vec<ValidationError>, cond: bool, msg: &str)
    ensures
        error_messages(final(errors)@) == error_messages(old(errors)@) + when(cond, msg@),
{
    let ghost before = errors@;
    if cond {
        errors.push(ValidationError(String::from_str(msg)));
        proof {
            assert(error_messages(errors@) =~= error_messages(before) + when(cond, msg@));
        }
    } else {
        proof {
            assert(error_messages(errors@) =~= error_messages(before) + when(cond, msg@));
        }
    }
}

/// Structural checks of an exercise definition; an empty list means the
/// exercise is structurally valid (its C code is not compiled).
pub fn check_exercise(ex: &Exercise) -> (errors: Vec<ValidationError>)
    ensures
        error_messages(errors@) == exercise_problems(*ex),
{
    let mut errors: Vec<ValidationError> = Vec::new();
    proof {
        assert(error_messages(errors@) =~= Seq::<Seq<char>>::empty());
    }
    report(&mut errors, is_blank(ex.id.as_str()), "`id` est vide");
    let c = is_blank(ex.title.as_str()) || str_contains(ex.title.as_str(), "__TITLE__");
    report(&mut errors, c, "`title` contient un placeholder ou est vide");
    let c = is_blank(ex.description.as_str()) || str_contains(ex.description.as_str(), "__DESCRIPTION__");
    report(&mut errors, c, "`description` contient un placeholder ou est vide");
    let c = is_blank(ex.starter_code.as_str()) || str_contains(ex.starter_code.as_str(), "__STARTER_CODE__");
    report(&mut errors, c, "`starter_code` contient un placeholder ou est vide");
    let c = is_blank(ex.solution_code.as_str()) || str_contains(ex.solution_code.as_str(), "__SOLUTION_CODE__");
    report(&mut errors, c, "`solution_code` contient un placeholder ou est vide");
    report(&mut errors, ex.hints.len() == 0, "`hints` est vide (au moins 1 indice requis)");
    let is_output = match ex.validation.mode {
        ValidationMode::Output => true,
        ValidationMode::Test => false,
    };
    let missing_out = is_output && ex.validation.expected_output.is_none();
    report(&mut errors, missing_out, "`validation.expected_output` manquant pour mode output");
    let placeholder_out = is_output && match &ex.validation.expected_output {
        Some(o) => str_contains(o.as_str(), "__EXPECTED_OUTPUT__"),
        None => false,
    };
    report(&mut errors, placeholder_out, "`validation.expected_output` contient un placeholder");
    let missing_test = !is_output && ex.validation.test_code.is_none();
    report(&mut errors, missing_test, "`validation.test_code` manquant pour mode test");
    let blank_test = !is_output && match &ex.validation.test_code {
        Some(t) => is_blank(t.as_str()),
        None => false,
    };
    report(&mut errors, blank_test, "`validation.test_code` est vide");
    proof {
        assert(error_messages(errors@) =~= exercise_problems(*ex));
    }
    errors
}

} // verus!
