//! Which question set a command asks, from the flags it was given.
//!
//! A set can arrive whole, as JSON on the command line or in a file, or be
//! built from a convenience flag for the common case of one question. The
//! JSON forms win over the flags, the command line over the file, and among
//! the flags a choice over a score over a lone yes/no question.

use vstd::prelude::*;

use crate::source::{copy_all, Error};

verus! {

/// The question set a command was asked for, before it is put into the
/// wire vocabulary.
#[derive(Debug, PartialEq, Eq)]
pub enum QuestionSet {
    /// A question set written out as JSON.
    Json(String),
    /// A file holding a question set as JSON, or `-` for standard input.
    File(String),
    /// One choice between `labels`, asked with `instructions`.
    Choice {
        /// What to ask; empty when no `--noul` text was given.
        instructions: String,
        /// The labels, in the order given.
        labels: Vec<String>,
    },
    /// One score against `levels`, lowest first, asked with `instructions`.
    Score {
        /// What to ask; empty when no `--noul` text was given.
        instructions: String,
        /// The rubric's levels, lowest first.
        levels: Vec<String>,
    },
    /// One yes/no question.
    Noul(String),
}

/// Said when no question was given in any form.
pub const NO_QUESTIONS: &'static str = "No questions were given. Pass --questions, --questions-file, --choice, --score or --noul.";

/// The text of an optional string, empty when there is none.
pub open spec fn text_or_empty(s: Option<&str>) -> Seq<char> {
    match s {
        Some(t) => t@,
        None => Seq::empty(),
    }
}

/// The question set the flags ask for: the JSON given on the command line,
/// else the file named, else a choice between the labels, else a score
/// against the levels (either asked with the `--noul` text, or nothing), else
/// the lone yes/no question; and an error when none was given.
pub fn question_set(
    json: Option<&str>,
    file: Option<&str>,
    choice: &[String],
    levels: &[String],
    noul: Option<&str>,
) -> (r: Result<QuestionSet, Error>)
    ensures
        json is Some ==> (r matches Ok(QuestionSet::Json(j)) && j@ == json->0@),
        (json is None && file is Some) ==> (r matches Ok(QuestionSet::File(p)) && p@ == file->0@),
        (json is None && file is None && choice@.len() > 0) ==> (r matches Ok(
            QuestionSet::Choice { instructions, labels },
        ) && instructions@ == text_or_empty(noul) && labels@ == choice@),
        (json is None && file is None && choice@.len() == 0 && levels@.len() > 0) ==> (r matches Ok(
            QuestionSet::Score { instructions, levels: l },
        ) && instructions@ == text_or_empty(noul) && l@ == levels@),
        (json is None && file is None && choice@.len() == 0 && levels@.len() == 0 && noul is Some)
            ==> (r matches Ok(QuestionSet::Noul(t)) && t@ == noul->0@),
        (json is None && file is None && choice@.len() == 0 && levels@.len() == 0 && noul is None)
            ==> (r matches Err(Error::Invalid(m)) && m@ == NO_QUESTIONS@),
{
    if let Some(j) = json {
        return Ok(QuestionSet::Json(j.to_owned()));
    }
    if let Some(p) = file {
        return Ok(QuestionSet::File(p.to_owned()));
    }
    let instructions = match noul {
        Some(t) => t.to_owned(),
        None => String::new(),
    };
    if choice.len() > 0 {
        return Ok(QuestionSet::Choice { instructions, labels: copy_all(choice) });
    }
    if levels.len() > 0 {
        return Ok(QuestionSet::Score { instructions, levels: copy_all(levels) });
    }
    match noul {
        Some(t) => Ok(QuestionSet::Noul(t.to_owned())),
        None => Err(Error::Invalid(NO_QUESTIONS.to_owned())),
    }
}

} // verus!
