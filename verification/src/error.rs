//! The library's error type.
use vstd::prelude::*;

use crate::text::{chars_of, push_str, string_of};

verus! {

/// Errors raised by the library's own checks.
#[derive(Debug, Clone, PartialEq, Eq)]
pub enum KfError {
    /// Configuration or argument error (free-form message).
    Config(String),
    /// The requested exercise or chapter does not exist.
    ExerciseNotFound(String),
    /// Git synchronisation error.
    Sync(String),
}

/// The message of an error, as it is shown to the learner.
pub open spec fn error_message(e: KfError) -> Seq<char> {
    match e {
        KfError::Config(m) => m@,
        KfError::ExerciseNotFound(m) => "exercice introuvable : "@ + m@,
        KfError::Sync(m) => "erreur de synchronisation : "@ + m@,
    }
}

impl KfError {
    /// The message of the error, as it is shown to the learner.
    pub fn to_string(&self) -> (s: String)
        ensures
            s@ == error_message(*self),
    {
        match self {
            KfError::Config(m) => m.clone(),
            KfError::ExerciseNotFound(m) => {
                let mut v = chars_of("exercice introuvable : ");
                push_str(&mut v, m.as_str());
                string_of(&v)
            },
            KfError::Sync(m) => {
                let mut v = chars_of("erreur de synchronisation : ");
                push_str(&mut v, m.as_str());
                string_of(&v)
            },
        }
    }
}

/// `e` is a configuration error with message `msg`.
pub open spec fn is_config_error(e: KfError, msg: Seq<char>) -> bool {
    match e {
        KfError::Config(m) => m@ == msg,
        _ => false,
    }
}

} // verus!
