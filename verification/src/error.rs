//! Failures that travel through an evaluation as ordinary values.

use vstd::prelude::*;
use vstd::string::*;

verus! {

/// Mathematical image of a [`TemplarError`]: the kind of failure and its
/// message as a sequence of characters.
pub enum Failure {
    Render(Seq<char>),
    Parse(Seq<char>),
    External(Seq<char>),
}

/// A failure raised while a template is built or evaluated.
#[derive(Debug, PartialEq, Eq)]
pub enum TemplarError {
    /// Evaluation went wrong: a type mismatch, a bad arity, an assignment
    /// through an incompatible path, a condition that is no boolean.
    RenderFailure(String),
    /// The shape of a template was rejected before any evaluation.
    ParseFailure(String),
    /// A filter or function reported a failure of its own.
    ExternalFailure(String),
}

impl View for TemplarError {
    type V = Failure;

    open spec fn view(&self) -> Failure {
        match self {
            TemplarError::RenderFailure(m) => Failure::Render(m@),
            TemplarError::ParseFailure(m) => Failure::Parse(m@),
            TemplarError::ExternalFailure(m) => Failure::External(m@),
        }
    }
}

impl Failure {
    /// The human-readable message, whatever the kind.
    pub open spec fn message(self) -> Seq<char> {
        match self {
            Failure::Render(m) => m,
            Failure::Parse(m) => m,
            Failure::External(m) => m,
        }
    }
}

impl Clone for TemplarError {
    fn clone(&self) -> (r: Self)
        ensures
            r@ == self@,
    {
        match self {
            TemplarError::RenderFailure(m) => TemplarError::RenderFailure(m.clone()),
            TemplarError::ParseFailure(m) => TemplarError::ParseFailure(m.clone()),
            TemplarError::ExternalFailure(m) => TemplarError::ExternalFailure(m.clone()),
        }
    }
}

impl TemplarError {
    /// A render failure with the given message.
    pub fn render(message: &str) -> (r: Self)
        ensures
            r@ == Failure::Render(message@),
    {
        TemplarError::RenderFailure(String::from_str(message))
    }

    /// The message carried by this failure.
    pub fn message(&self) -> (r: String)
        ensures
            r@ == self@.message(),
    {
        match self {
            TemplarError::RenderFailure(m) => m.clone(),
            TemplarError::ParseFailure(m) => m.clone(),
            TemplarError::ExternalFailure(m) => m.clone(),
        }
    }
}

} // verus!
