//! Errors of inference.

use vstd::prelude::*;
use vstd::string::*;

use crate::models::error::ModelError;
use crate::pg::error::{model_error_message, model_fault_text};
use crate::vindex::error::VindexError;

verus! {

/// What can go wrong while a model is loaded or run.
#[derive(Debug)]
pub enum InferenceError {
    NotADirectory(String),
    NoSafetensors(String),
    MissingTensor(String),
    Parse(String),
    UnsupportedDtype(String),
    Io(String),
    Vindex(VindexError),
    Model(ModelError),
}

impl InferenceError {
    /// The text of the error.
    pub open spec fn text(self) -> Seq<char> {
        match self {
            InferenceError::NotADirectory(p) => "not a directory: "@ + p@,
            InferenceError::NoSafetensors(p) => "no safetensors files in "@ + p@,
            InferenceError::MissingTensor(t) => "missing tensor: "@ + t@,
            InferenceError::Parse(m) => "parse error: "@ + m@,
            InferenceError::UnsupportedDtype(d) => "unsupported dtype: "@ + d@,
            InferenceError::Io(e) => "IO error: "@ + e@,
            InferenceError::Vindex(e) => "vindex error: "@ + e.text(),
            InferenceError::Model(e) => "model error: "@ + model_fault_text(e@),
        }
    }

    /// The error as text.
    pub fn message(&self) -> (s: String)
        ensures
            s@ == self.text(),
    {
        let mut s: String = String::new();
        match self {
            InferenceError::NotADirectory(p) => {
                s = String::from_str("not a directory: ");
                s.append(p.as_str());
            },
            InferenceError::NoSafetensors(p) => {
                s = String::from_str("no safetensors files in ");
                s.append(p.as_str());
            },
            InferenceError::MissingTensor(t) => {
                s = String::from_str("missing tensor: ");
                s.append(t.as_str());
            },
            InferenceError::Parse(m) => {
                s = String::from_str("parse error: ");
                s.append(m.as_str());
            },
            InferenceError::UnsupportedDtype(d) => {
                s = String::from_str("unsupported dtype: ");
                s.append(d.as_str());
            },
            InferenceError::Io(e) => {
                s = String::from_str("IO error: ");
                s.append(e.as_str());
            },
            InferenceError::Vindex(e) => {
                s = String::from_str("vindex error: ");
                let m: String = e.message();
                s.append(m.as_str());
            },
            InferenceError::Model(e) => {
                s = String::from_str("model error: ");
                let m: String = model_error_message(e);
                s.append(m.as_str());
            },
        }
        s
    }
}

} // verus!
