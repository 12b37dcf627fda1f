//! Diagnostics that analysis reports, and the errors of evaluation.

use vstd::prelude::*;

use crate::named_entity::EntRef;
use crate::package_instance::InstantiationError;
use crate::syntax::Designator;
use crate::syntax::SrcPos;

verus! {

/// What a diagnostic says.
#[derive(Debug)]
pub enum Message {
    /// A message given as text.
    Text(String),
    /// `suffix` is not declared within the design unit `prefix`.
    NoDeclarationWithin { prefix: EntRef, suffix: Designator },
    /// The design unit `prefix` may not be the prefix of a selected name.
    InvalidSelectedNamePrefix { prefix: EntRef },
    /// `designator` is not declared.
    NoDeclaration { designator: Designator },
    /// A declaration could not be instantiated.
    Instantiation(InstantiationError),
}

/// An error found in the source, at a position, with related positions.
#[derive(Debug)]
pub struct Diagnostic {
    pub pos: SrcPos,
    pub message: Message,
    pub related: Vec<(SrcPos, String)>,
}

impl Diagnostic {
    pub fn error(pos: &SrcPos, message: Message) -> (d: Diagnostic)
        ensures
            d.pos == *pos,
            d.message == message,
            d.related@.len() == 0,
    {
        Diagnostic { pos: *pos, message, related: Vec::new() }
    }

    pub fn add_related(&mut self, pos: &SrcPos, message: String)
        ensures
            final(self).pos == old(self).pos,
            final(self).message == old(self).message,
            final(self).related@ == old(self).related@.push((*pos, message)),
    {
        self.related.push((*pos, message));
    }

    pub fn no_declaration_within(prefix: &EntRef, pos: &SrcPos, suffix: &Designator) -> (d: Diagnostic)
        ensures
            d.pos == *pos,
            d.message == (Message::NoDeclarationWithin { prefix: *prefix, suffix: *suffix }),
            d.related@.len() == 0,
    {
        Diagnostic::error(pos, Message::NoDeclarationWithin { prefix: prefix.clone(), suffix: *suffix })
    }

    pub fn invalid_selected_name_prefix(prefix: &EntRef, pos: &SrcPos) -> (d: Diagnostic)
        ensures
            d.pos == *pos,
            d.message == (Message::InvalidSelectedNamePrefix { prefix: *prefix }),
            d.related@.len() == 0,
    {
        Diagnostic::error(pos, Message::InvalidSelectedNamePrefix { prefix: prefix.clone() })
    }
}

/// Why an evaluation stopped.
#[derive(Clone, Copy, PartialEq, Eq, Structural, Debug)]
pub enum EvalError {
    /// The error has been reported as a diagnostic, or cannot be known here.
    Unknown,
    /// Analysis cannot go on.
    FatalError,
}

/// An error of analysis: fatal, or a diagnostic to report.
#[derive(Debug)]
pub enum AnalysisError {
    Fatal,
    NotFatal(Diagnostic),
}

impl AnalysisError {
    /// The diagnostic to report, or `FatalError` where there is none.
    pub fn into_non_fatal(self) -> (r: Result<Diagnostic, EvalError>)
        ensures
            self matches AnalysisError::NotFatal(d) ==> r == Ok::<Diagnostic, EvalError>(d),
            self is Fatal ==> r == Err::<Diagnostic, EvalError>(EvalError::FatalError),
    {
        match self {
            AnalysisError::Fatal => Err(EvalError::FatalError),
            AnalysisError::NotFatal(d) => Ok(d),
        }
    }
}

/// An evaluation whose non-fatal failure has already been reported counts as
/// done; a fatal one is passed on.
pub fn as_fatal<T>(r: Result<T, EvalError>) -> (o: Result<Option<T>, EvalError>)
    ensures
        r matches Ok(v) ==> o == Ok::<Option<T>, EvalError>(Some(v)),
        r == Err::<T, EvalError>(EvalError::Unknown) ==> o == Ok::<Option<T>, EvalError>(None),
        r == Err::<T, EvalError>(EvalError::FatalError) ==> o == Err::<Option<T>, EvalError>(EvalError::FatalError),
{
    match r {
        Ok(v) => Ok(Some(v)),
        Err(EvalError::Unknown) => Ok(None),
        Err(EvalError::FatalError) => Err(EvalError::FatalError),
    }
}

} // verus!
