use vstd::prelude::*;

verus! {

/// The failures of the administrative operations. Each carries the name it
/// is about: a parameter, a condition or an axis coordinate.
#[derive(Debug, PartialEq, Eq)]
pub enum AnalysisError {
    /// A parameter of that name is already registered.
    DuplicateName(String),
    /// A spectrum names a parameter that is not registered.
    UnknownParameter(String),
    /// A gate names a condition that is not in the dictionary.
    NoSuchGate(String),
    /// An axis coordinate ("x-low", "y-bins", ...) was neither given nor
    /// could be defaulted from the parameters.
    AxisUndefined(String),
    /// The axis would hold no bins: zero bins, or equal low and high edges.
    InvalidAxis(String),
}

/// The kind of an [`AnalysisError`], without its payload.
#[derive(Debug, Clone, Copy, PartialEq, Eq, Structural)]
pub enum ErrorKind {
    DuplicateName,
    UnknownParameter,
    NoSuchGate,
    AxisUndefined,
    InvalidAxis,
}

impl AnalysisError {
    /// The kind of the error and the name it carries.
    pub open spec fn view(&self) -> (ErrorKind, Seq<char>) {
        match self {
            AnalysisError::DuplicateName(s) => (ErrorKind::DuplicateName, s@),
            AnalysisError::UnknownParameter(s) => (ErrorKind::UnknownParameter, s@),
            AnalysisError::NoSuchGate(s) => (ErrorKind::NoSuchGate, s@),
            AnalysisError::AxisUndefined(s) => (ErrorKind::AxisUndefined, s@),
            AnalysisError::InvalidAxis(s) => (ErrorKind::InvalidAxis, s@),
        }
    }

    /// The name the error is about.
    pub fn subject(&self) -> (r: String)
        ensures
            r@ == self@.1,
    {
        match self {
            AnalysisError::DuplicateName(s) => s.clone(),
            AnalysisError::UnknownParameter(s) => s.clone(),
            AnalysisError::NoSuchGate(s) => s.clone(),
            AnalysisError::AxisUndefined(s) => s.clone(),
            AnalysisError::InvalidAxis(s) => s.clone(),
        }
    }

    pub fn kind(&self) -> (r: ErrorKind)
        ensures
            r == self@.0,
    {
        match self {
            AnalysisError::DuplicateName(_) => ErrorKind::DuplicateName,
            AnalysisError::UnknownParameter(_) => ErrorKind::UnknownParameter,
            AnalysisError::NoSuchGate(_) => ErrorKind::NoSuchGate,
            AnalysisError::AxisUndefined(_) => ErrorKind::AxisUndefined,
            AnalysisError::InvalidAxis(_) => ErrorKind::InvalidAxis,
        }
    }
}

} // verus!
