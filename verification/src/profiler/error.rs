//! What can go wrong while profiling.

use vstd::prelude::*;
use vstd::string::StringExecFns;
use crate::text::{decimal, push_decimal};

verus! {

/// The recorder operation that was called out of turn.
#[derive(Clone, Copy, Debug, PartialEq, Eq, Structural)]
pub enum RecorderStage {
    /// `enter` after the recorder was finished.
    Enter,
    /// `exit` with no call open, or after the recorder was finished.
    Exit,
    /// `settle` after the recorder was finished.
    Settle,
    /// `finish` with a call still open, or a second `finish`.
    Finish,
    /// The call tree was asked for before the recorder was finished.
    Tree,
}

/// The part of a profile document that failed validation.
#[derive(Clone, Copy, Debug, PartialEq, Eq, Structural)]
pub enum DocumentField {
    /// The overhead is not between 0% and 100%.
    OverheadPercent,
    /// An entry's key differs from the name inside it, or repeats an
    /// earlier key.
    FunctionKey,
    /// An entry records zero calls.
    CallCount,
    /// An entry's average is not its total divided by its call count.
    AvgTime,
}

/// Failures of the profiling engine. None is retried or repaired: each is
/// handed to the caller as it is.
#[derive(Clone, Debug, PartialEq, Eq)]
pub enum ProfileError {
    /// The artifact to simulate does not exist.
    NotFound { path: String },
    /// The artifact exists but is not a contract.
    MalformedArtifact { path: String },
    /// The recorder was driven out of turn.
    RecorderMisuse { stage: RecorderStage },
    /// A profile document is not a valid profile. `entry` is the position
    /// of the offending function entry, where the fault lies in one.
    SerializationError { field: DocumentField, entry: Option<usize> },
}

impl RecorderStage {
    /// What went wrong, in words.
    pub open spec fn words(self) -> Seq<char> {
        match self {
            RecorderStage::Enter => "enter after finish"@,
            RecorderStage::Exit => "exit without matching enter"@,
            RecorderStage::Settle => "settle after finish"@,
            RecorderStage::Finish => "finish with a call open or after finish"@,
            RecorderStage::Tree => "call tree before finish"@,
        }
    }

    /// What went wrong, in words.
    pub fn describe(&self) -> (text: &'static str)
        ensures
            text@ == self.words(),
    {
        match self {
            RecorderStage::Enter => "enter after finish",
            RecorderStage::Exit => "exit without matching enter",
            RecorderStage::Settle => "settle after finish",
            RecorderStage::Finish => "finish with a call open or after finish",
            RecorderStage::Tree => "call tree before finish",
        }
    }
}

impl DocumentField {
    /// The name of the field in a profile document.
    pub open spec fn words(self) -> Seq<char> {
        match self {
            DocumentField::OverheadPercent => "overhead_percent"@,
            DocumentField::FunctionKey => "name"@,
            DocumentField::CallCount => "call_count"@,
            DocumentField::AvgTime => "avg_time"@,
        }
    }

    /// The name of the field in a profile document.
    pub fn describe(&self) -> (text: &'static str)
        ensures
            text@ == self.words(),
    {
        match self {
            DocumentField::OverheadPercent => "overhead_percent",
            DocumentField::FunctionKey => "name",
            DocumentField::CallCount => "call_count",
            DocumentField::AvgTime => "avg_time",
        }
    }
}

/// Where in a document a fault lies: in the function entry at the given
/// position, or in the document's own fields.
pub open spec fn place_words(entry: Option<usize>) -> Seq<char> {
    match entry {
        Some(i) => " in function entry "@ + decimal(i as nat),
        None => Seq::empty(),
    }
}

impl ProfileError {
    /// The error in words, with what it concerns.
    pub open spec fn words(self) -> Seq<char> {
        match self {
            ProfileError::NotFound { path } => "Contract file not found: "@ + path@,
            ProfileError::MalformedArtifact { path } => "Not a contract: "@ + path@,
            ProfileError::RecorderMisuse { stage } => "Recorder misuse: "@ + stage.words(),
            ProfileError::SerializationError { field, entry } => "Invalid profile document: "@
                + field.words() + place_words(entry),
        }
    }

    /// The error in words, with what it concerns.
    pub fn message(&self) -> (text: String)
        ensures
            text@ == self.words(),
    {
        match self {
            ProfileError::NotFound { path } => {
                let mut out = String::from_str("Contract file not found: ");
                out.append(path.as_str());
                out
            },
            ProfileError::MalformedArtifact { path } => {
                let mut out = String::from_str("Not a contract: ");
                out.append(path.as_str());
                out
            },
            ProfileError::RecorderMisuse { stage } => {
                let mut out = String::from_str("Recorder misuse: ");
                out.append(stage.describe());
                out
            },
            ProfileError::SerializationError { field, entry } => {
                let mut out = String::from_str("Invalid profile document: ");
                out.append(field.describe());
                match entry {
                    Some(i) => {
                        out.append(" in function entry ");
                        push_decimal(&mut out, *i as u128);
                    },
                    None => {},
                }
                proof {
                    assert(out@ =~= self.words());
                }
                out
            },
        }
    }
}

} // verus!
