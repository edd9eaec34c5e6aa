//! Errors of model loading.

use vstd::prelude::*;

verus! {

/// What can go wrong with a model file.
#[derive(Debug, PartialEq, Eq)]
pub enum ModelError {
    Parse(String),
    UnsupportedDtype(String),
}

/// The contents of a [`ModelError`].
pub enum ModelFault {
    Parse(Seq<char>),
    UnsupportedDtype(Seq<char>),
}

impl View for ModelError {
    type V = ModelFault;

    open spec fn view(&self) -> ModelFault {
        match self {
            ModelError::Parse(m) => ModelFault::Parse(m@),
            ModelError::UnsupportedDtype(m) => ModelFault::UnsupportedDtype(m@),
        }
    }
}

impl Clone for ModelError {
    fn clone(&self) -> (e: Self)
        ensures
            e@ == self@,
    {
        match self {
            ModelError::Parse(m) => ModelError::Parse(m.clone()),
            ModelError::UnsupportedDtype(m) => ModelError::UnsupportedDtype(m.clone()),
        }
    }
}

/// What an error says is what it holds, under its own kind.
pub proof fn error_contents(m: String)
    ensures
        ModelError::Parse(m)@ == ModelFault::Parse(m@),
        ModelError::UnsupportedDtype(m)@ == ModelFault::UnsupportedDtype(m@),
{
}

} // verus!
