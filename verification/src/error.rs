//! The failures that abort the pipeline.

use vstd::prelude::*;
use vstd::string::StringExecFns;
use crate::text::{append_decimal, decimal_text};

verus! {

/// The stage of the pipeline in which a failure arises.
#[derive(Debug, Clone, Copy, PartialEq, Eq, Structural)]
pub enum Stage {
    Parse,
    Generate,
    Compile,
    Transmit,
}

/// A fatal failure, with what the caller needs to diagnose it.
#[derive(Debug, Clone, PartialEq, Eq)]
pub enum PipelineError {
    /// Under the strict policy, the segment at this position (counted from zero) has no colon.
    MalformedInput { segment: usize },
    /// No segment of the input yields an entry.
    EmptyEntrySet,
    /// The program skeleton names a placeholder for which no fragment was supplied.
    UnreplacedPlaceholder { name: String },
    /// The device-runtime resource is absent at this path.
    MissingResource { path: String },
    /// The assembler failed or produced no machine code; its diagnostics are kept as they came.
    AssemblyFailure { diagnostics: Vec<String> },
    /// The transport adapter reported this error.
    TransmissionFailure { message: String },
}

impl Stage {
    /// The name of the stage.
    pub open spec fn name_of(self) -> Seq<char> {
        match self {
            Stage::Parse => "parse"@,
            Stage::Generate => "generate"@,
            Stage::Compile => "compile"@,
            Stage::Transmit => "transmit"@,
        }
    }

    /// The name of the stage.
    pub fn name(self) -> (name: &'static str)
        ensures
            name@ == self.name_of(),
    {
        match self {
            Stage::Parse => "parse",
            Stage::Generate => "generate",
            Stage::Compile => "compile",
            Stage::Transmit => "transmit",
        }
    }
}

impl PipelineError {
    /// The stage that a failure of this kind comes from.
    pub open spec fn stage_of(self) -> Stage {
        match self {
            PipelineError::MalformedInput { .. } => Stage::Parse,
            PipelineError::EmptyEntrySet => Stage::Generate,
            PipelineError::UnreplacedPlaceholder { .. } => Stage::Generate,
            PipelineError::MissingResource { .. } => Stage::Compile,
            PipelineError::AssemblyFailure { .. } => Stage::Compile,
            PipelineError::TransmissionFailure { .. } => Stage::Transmit,
        }
    }

    /// The stage that this failure comes from.
    pub fn stage(&self) -> (stage: Stage)
        ensures
            stage == self.stage_of(),
    {
        match self {
            PipelineError::MalformedInput { .. } => Stage::Parse,
            PipelineError::EmptyEntrySet => Stage::Generate,
            PipelineError::UnreplacedPlaceholder { .. } => Stage::Generate,
            PipelineError::MissingResource { .. } => Stage::Compile,
            PipelineError::AssemblyFailure { .. } => Stage::Compile,
            PipelineError::TransmissionFailure { .. } => Stage::Transmit,
        }
    }

    /// What went wrong, in words. What an outside component reported is passed on as it
    /// came.
    pub open spec fn message_of(self) -> Seq<char> {
        match self {
            PipelineError::MalformedInput { segment } => "segment "@ + decimal_text(segment as nat)
                + " has no colon"@,
            PipelineError::EmptyEntrySet => "the input holds no service:code pair"@,
            PipelineError::UnreplacedPlaceholder { name } => "placeholder "@ + name@
                + " was not replaced"@,
            PipelineError::MissingResource { path } => "Include file not found: "@ + path@,
            PipelineError::AssemblyFailure { .. } => "Assembly compilation failed"@,
            PipelineError::TransmissionFailure { message } => message@,
        }
    }

    /// What went wrong, in words.
    pub fn message(&self) -> (text: String)
        ensures
            text@ == self.message_of(),
    {
        match self {
            PipelineError::MalformedInput { segment } => {
                let mut text = String::from_str("segment ");
                append_decimal(&mut text, *segment);
                text.append(" has no colon");
                text
            },
            PipelineError::EmptyEntrySet => String::from_str("the input holds no service:code pair"),
            PipelineError::UnreplacedPlaceholder { name } => {
                let mut text = String::from_str("placeholder ");
                text.append(name.as_str());
                text.append(" was not replaced");
                text
            },
            PipelineError::MissingResource { path } => {
                let mut text = String::from_str("Include file not found: ");
                text.append(path.as_str());
                text
            },
            PipelineError::AssemblyFailure { .. } => String::from_str("Assembly compilation failed"),
            PipelineError::TransmissionFailure { message } => message.clone(),
        }
    }
}

} // verus!
