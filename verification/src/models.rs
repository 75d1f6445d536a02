//! Core data types: exercises, difficulty levels, validation settings.
use vstd::prelude::*;

use crate::text::{chars_of, decimal, decimal_exec, push_all, string_of};

verus! {

/// Difficulty level of an exercise, from 1 (Easy) to 5 (Expert).
/// Levels are unlocked progressively through the mastery score.
#[derive(Debug, Clone, Copy, PartialEq, Eq, PartialOrd, Ord, Hash)]
pub enum Difficulty {
    /// Level 1: introduction to the concept.
    Easy,
    /// Level 2: unlocked at mastery 2.0.
    Medium,
    /// Level 3: unlocked at mastery 4.0.
    Hard,
    /// Level 4: unlocked at mastery 4.5.
    Advanced,
    /// Level 5: unlocked at mastery 5.0.
    Expert,
}

/// The difficulty whose level is `v`, if `v` is a level.
pub open spec fn difficulty_of_level(v: u8) -> Option<Difficulty> {
    if v == 1 {
        Some(Difficulty::Easy)
    } else if v == 2 {
        Some(Difficulty::Medium)
    } else if v == 3 {
        Some(Difficulty::Hard)
    } else if v == 4 {
        Some(Difficulty::Advanced)
    } else if v == 5 {
        Some(Difficulty::Expert)
    } else {
        None
    }
}

/// The error text for a byte that is no difficulty level.
pub open spec fn invalid_difficulty_message(v: u8) -> Seq<char> {
    "invalid difficulty: "@ + decimal(v as nat)
}

impl Difficulty {
    /// The numeric level, 1 to 5.
    pub open spec fn level(self) -> u8 {
        match self {
            Difficulty::Easy => 1,
            Difficulty::Medium => 2,
            Difficulty::Hard => 3,
            Difficulty::Advanced => 4,
            Difficulty::Expert => 5,
        }
    }

    /// The name shown to the learner.
    pub open spec fn name(self) -> Seq<char> {
        match self {
            Difficulty::Easy => "Easy"@,
            Difficulty::Medium => "Medium"@,
            Difficulty::Hard => "Hard"@,
            Difficulty::Advanced => "Advanced"@,
            Difficulty::Expert => "Expert"@,
        }
    }

    /// The numeric level, 1 to 5.
    pub fn as_u8(&self) -> (r: u8)
        ensures
            r == self.level(),
            1 <= r <= 5,
    {
        match self {
            Difficulty::Easy => 1,
            Difficulty::Medium => 2,
            Difficulty::Hard => 3,
            Difficulty::Advanced => 4,
            Difficulty::Expert => 5,
        }
    }

    /// The difficulty of level `v`; an error message for any other byte.
    pub fn from_level(v: u8) -> (r: Result<Difficulty, String>)
        ensures
            r is Ok <==> 1 <= v <= 5,
            r matches Ok(d) ==> Some(d) == difficulty_of_level(v) && d.level() == v,
            r matches Err(msg) ==> msg@ == invalid_difficulty_message(v),
    {
        match v {
            1 => Ok(Difficulty::Easy),
            2 => Ok(Difficulty::Medium),
            3 => Ok(Difficulty::Hard),
            4 => Ok(Difficulty::Advanced),
            5 => Ok(Difficulty::Expert),
            _ => {
                let mut msg = chars_of("invalid difficulty: ");
                let digits = decimal_exec(v as u64);
                push_all(&mut msg, &digits);
                Err(string_of(&msg))
            },
        }
    }

    /// The name shown to the learner ("Easy" ... "Expert").
    pub fn to_string(&self) -> (s: String)
        ensures
            s@ == self.name(),
    {
        match self {
            Difficulty::Easy => String::from_str("Easy"),
            Difficulty::Medium => String::from_str("Medium"),
            Difficulty::Hard => String::from_str("Hard"),
            Difficulty::Advanced => String::from_str("Advanced"),
            Difficulty::Expert => String::from_str("Expert"),
        }
    }
}

impl TryFrom<u8> for Difficulty {
    type Error = String;

    fn try_from(v: u8) -> (r: Result<Difficulty, String>)
        ensures
            r is Ok <==> 1 <= v <= 5,
            r matches Ok(d) ==> Some(d) == difficulty_of_level(v) && d.level() == v,
            r matches Err(msg) ==> msg@ == invalid_difficulty_message(v),
    {
        Difficulty::from_level(v)
    }
}

impl vstd::std_specs::convert::TryFromSpecImpl<u8> for Difficulty {
    /// The error message is a string built at run time, which a spec value
    /// cannot name; the contract of `Difficulty::from_level` states the result.
    open spec fn obeys_try_from_spec() -> bool {
        false
    }

    open spec fn try_from_spec(v: u8) -> Result<Difficulty, String> {
        vstd::pervasive::arbitrary()
    }
}

impl From<Difficulty> for u8 {
    fn from(d: Difficulty) -> (r: u8) {
        d.as_u8()
    }
}

impl vstd::std_specs::convert::FromSpecImpl<Difficulty> for u8 {
    open spec fn obeys_from_spec() -> bool {
        true
    }

    open spec fn from_spec(d: Difficulty) -> u8 {
        d.level()
    }
}

/// Every difficulty is found again from its level, and only levels 1 to 5
/// name a difficulty.
pub proof fn lemma_difficulty_level_roundtrip(d: Difficulty, v: u8)
    ensures
        difficulty_of_level(d.level()) == Some(d),
        1 <= d.level() <= 5,
        difficulty_of_level(v) is Some <==> 1 <= v <= 5,
        difficulty_of_level(v) matches Some(e) ==> e.level() == v,
{
}

/// Levels order the difficulties strictly: Easy < Medium < Hard < Advanced < Expert.
pub proof fn lemma_difficulty_levels_ordered()
    ensures
        Difficulty::Easy.level() < Difficulty::Medium.level(),
        Difficulty::Medium.level() < Difficulty::Hard.level(),
        Difficulty::Hard.level() < Difficulty::Advanced.level(),
        Difficulty::Advanced.level() < Difficulty::Expert.level(),
        forall|a: Difficulty, b: Difficulty| a.level() == b.level() ==> a == b,
{
}

/// Programming language of an exercise.
#[derive(Debug, Clone, Copy, PartialEq, Eq)]
pub enum Lang {
    /// Rust exercise.
    Rust,
    /// C exercise.
    C,
    /// C++ exercise.
    Cpp,
}

impl Lang {
    /// The lower-case name used in exercise files.
    pub open spec fn name(self) -> Seq<char> {
        match self {
            Lang::Rust => "rust"@,
            Lang::C => "c"@,
            Lang::Cpp => "cpp"@,
        }
    }

    /// The lower-case name used in exercise files.
    pub fn to_string(&self) -> (s: String)
        ensures
            s@ == self.name(),
    {
        match self {
            Lang::Rust => String::from_str("rust"),
            Lang::C => String::from_str("c"),
            Lang::Cpp => String::from_str("cpp"),
        }
    }
}

/// How an exercise is validated.
#[derive(Debug, Clone, Copy, PartialEq, Eq)]
pub enum ValidationMode {
    /// Compare the program's stdout with `expected_output`.
    Output,
    /// Run C unit tests (Unity framework).
    Test,
}

/// Validation settings of an exercise.
#[derive(Debug, Clone)]
pub struct ValidationConfig {
    /// Validation mode applied.
    pub mode: ValidationMode,
    /// Expected output in `Output` mode; a `REGEX:` prefix makes it a pattern.
    pub expected_output: Option<String>,
    /// Unit-test harness used in `Test` mode.
    pub test_code: Option<String>,
    /// Minimum number of passing tests required in `Test` mode.
    pub expected_tests_pass: Option<usize>,
    /// Maximum run time in milliseconds (replaces the global limit).
    pub max_duration_ms: Option<u64>,
}

impl Default for ValidationConfig {
    fn default() -> (r: ValidationConfig)
        ensures
            r.mode == ValidationMode::Output,
            r.expected_output is None,
            r.test_code is None,
            r.expected_tests_pass is None,
            r.max_duration_ms is None,
    {
        ValidationConfig {
            mode: ValidationMode::Output,
            expected_output: None,
            test_code: None,
            expected_tests_pass: None,
            max_duration_ms: None,
        }
    }
}

/// Pedagogical nature of an exercise.
#[derive(Debug, Clone, Copy, PartialEq, Eq, Default)]
pub enum ExerciseType {
    /// Write the complete code from the skeleton (default).
    #[default]
    Complete,
    /// Find and fix an existing bug.
    FixBug,
    /// Fill in the blanks left in the code.
    FillBlank,
    /// Rewrite the code under constraints.
    Refactor,
}

impl ExerciseType {
    /// The label shown to the learner.
    pub open spec fn label(self) -> Seq<char> {
        match self {
            ExerciseType::Complete => "Complete"@,
            ExerciseType::FixBug => "Fix Bug"@,
            ExerciseType::FillBlank => "Fill Blank"@,
            ExerciseType::Refactor => "Refactoring"@,
        }
    }

    /// The label shown to the learner.
    pub fn to_string(&self) -> (s: String)
        ensures
            s@ == self.label(),
    {
        match self {
            ExerciseType::Complete => String::from_str("Complete"),
            ExerciseType::FixBug => String::from_str("Fix Bug"),
            ExerciseType::FillBlank => String::from_str("Fill Blank"),
            ExerciseType::Refactor => String::from_str("Refactoring"),
        }
    }
}

/// Auxiliary file shipped with an exercise (header, data...).
#[derive(Debug, Clone)]
pub struct ExerciseFile {
    /// File name as written into the working directory.
    pub name: String,
    /// Text content of the file.
    pub content: String,
    /// Whether the learner must leave the file unchanged.
    pub readonly: bool,
}

/// Complete definition of an exercise.
#[derive(Debug, Clone)]
pub struct Exercise {
    /// Unique identifier (e.g. `ptr-deref-01`).
    pub id: String,
    /// Subject the exercise belongs to (e.g. `pointers`).
    pub subject: String,
    /// Programming language.
    pub lang: Lang,
    /// Difficulty level.
    pub difficulty: Difficulty,
    /// Short title.
    pub title: String,
    /// Full statement shown to the learner.
    pub description: String,
    /// Starting code written to the working file.
    pub starter_code: String,
    /// Reference solution.
    pub solution_code: String,
    /// Progressive hints.
    pub hints: Vec<String>,
    /// Validation rules.
    pub validation: ValidationConfig,
    /// Identifiers of exercises required first.
    pub prerequisites: Vec<String>,
    /// Auxiliary files copied into the working directory.
    pub files: Vec<ExerciseFile>,
    /// Pedagogical type.
    pub exercise_type: ExerciseType,
    /// Key concept put forward by the exercise.
    pub key_concept: Option<String>,
    /// Frequent mistake associated with the exercise.
    pub common_mistake: Option<String>,
    /// Knowledge-component identifiers.
    pub kc_ids: Vec<String>,
    /// Starter code versions by mastery stage (S0 to S4).
    pub starter_code_stages: Vec<String>,
    /// Step-by-step memory visualiser.
    pub visualizer: Visualizer,
    /// Portfolio module the solution is exported to, if any.
    pub libsys_module: Option<String>,
    /// Portfolio function the solution exports, if any.
    pub libsys_function: Option<String>,
    /// Subject whose mastery unlocks the export, if any.
    pub libsys_unlock: Option<String>,
    /// Header code shown with the exercise, if any.
    pub header_code: Option<String>,
}

/// Exercise visualiser: a sequence of annotated steps.
#[derive(Debug, Clone, Default)]
pub struct Visualizer {
    /// Kind of visualisation.
    pub vis_type: String,
    /// The steps, in order.
    pub steps: Vec<VisStep>,
}

/// One visualiser step with a memory snapshot.
#[derive(Debug, Clone)]
pub struct VisStep {
    /// Step title.
    pub label: String,
    /// Variables on the stack.
    pub stack: Vec<VisVar>,
    /// Blocks on the heap.
    pub heap: Vec<VisVar>,
    /// Explanation of the step.
    pub explanation: String,
    /// Short step label.
    pub step_label: String,
}

/// A variable shown on the stack or the heap.
#[derive(Debug, Clone)]
pub struct VisVar {
    /// Name (or address) of the variable.
    pub name: String,
    /// Value (or content) of the variable.
    pub value: String,
}

} // verus!
