//! Errors of the SQL functions.

use vstd::prelude::*;
use vstd::string::*;

use crate::models::error::{ModelError, ModelFault};
use crate::vindex::error::VindexError;

verus! {

/// What can go wrong in an SQL function.
#[derive(Debug)]
pub enum PgInferError {
    Vindex(VindexError),
    Model(ModelError),
    ModelNotFound { name: String },
    NoDefaultModel,
    InsufficientExtractLevel { needed: String, have: String },
    Tokenize(String),
    EmptyPrompt,
    PathNotPermitted { path: String, allowed: String },
    Internal(String),
    /// A query against the catalog failed.
    Spi(String),
}

/// The text of a model error.
pub open spec fn model_fault_text(e: ModelFault) -> Seq<char> {
    match e {
        ModelFault::Parse(m) => "parse error: "@ + m,
        ModelFault::UnsupportedDtype(m) => "unsupported dtype: "@ + m,
    }
}

/// The text of a model error.
pub fn model_error_message(e: &ModelError) -> (s: String)
    ensures
        s@ == model_fault_text(e@),
{
    match e {
        ModelError::Parse(m) => {
            let mut s: String = String::from_str("parse error: ");
            s.append(m.as_str());
            s
        },
        ModelError::UnsupportedDtype(m) => {
            let mut s: String = String::from_str("unsupported dtype: ");
            s.append(m.as_str());
            s
        },
    }
}

impl PgInferError {
    /// The text of the error.
    pub open spec fn text(self) -> Seq<char> {
        match self {
            PgInferError::Vindex(e) => "INFER vindex error: "@ + e.text(),
            PgInferError::Model(e) => "INFER model error: "@ + model_fault_text(e@),
            PgInferError::ModelNotFound { name } => "model not found: "@ + name@,
            PgInferError::NoDefaultModel =>
                "no default model configured — SET infer.default_model first"@,
            PgInferError::InsufficientExtractLevel { needed, have } =>
                "model requires extract level '"@ + needed@ + "' but was built at '"@ + have@
                + "'"@,
            PgInferError::Tokenize(e) => "tokenization failed: "@ + e@,
            PgInferError::EmptyPrompt => "empty prompt"@,
            PgInferError::PathNotPermitted { path, allowed } => "path not permitted: "@ + path@
                + " is not under allowed directory "@ + allowed@,
            PgInferError::Internal(m) => m@,
            PgInferError::Spi(e) => "SPI error: "@ + e@,
        }
    }

    /// The error as text.
    pub fn message(&self) -> (s: String)
        ensures
            s@ == self.text(),
    {
        let mut s: String = String::new();
        match self {
            PgInferError::Vindex(e) => {
                s = String::from_str("INFER vindex error: ");
                let m: String = e.message();
                s.append(m.as_str());
            },
            PgInferError::Model(e) => {
                s = String::from_str("INFER model error: ");
                let m: String = model_error_message(e);
                s.append(m.as_str());
            },
            PgInferError::ModelNotFound { name } => {
                s = String::from_str("model not found: ");
                s.append(name.as_str());
            },
            PgInferError::NoDefaultModel => {
                s = String::from_str("no default model configured — SET infer.default_model first");
            },
            PgInferError::InsufficientExtractLevel { needed, have } => {
                s = String::from_str("model requires extract level '");
                s.append(needed.as_str());
                s.append("' but was built at '");
                s.append(have.as_str());
                s.append("'");
            },
            PgInferError::Tokenize(e) => {
                s = String::from_str("tokenization failed: ");
                s.append(e.as_str());
            },
            PgInferError::EmptyPrompt => {
                s = String::from_str("empty prompt");
            },
            PgInferError::PathNotPermitted { path, allowed } => {
                s = String::from_str("path not permitted: ");
                s.append(path.as_str());
                s.append(" is not under allowed directory ");
                s.append(allowed.as_str());
            },
            PgInferError::Internal(m) => {
                s = m.clone();
            },
            PgInferError::Spi(e) => {
                s = String::from_str("SPI error: ");
                s.append(e.as_str());
            },
        }
        s
    }

    /// What an SQL caller is told.
    pub open spec fn report_text(self) -> Seq<char> {
        match self {
            PgInferError::ModelNotFound { name } => "INFER: model '"@ + name@
                + "' not found — register it with infer_create_model()"@,
            PgInferError::NoDefaultModel =>
                "INFER: no default model configured. Use SET infer.default_model = 'name'; or pass model => 'name'"@,
            PgInferError::InsufficientExtractLevel { needed, have } =>
                "INFER: operation requires extract level '"@ + needed@
                + "' but model was built at '"@ + have@ + "'"@,
            PgInferError::EmptyPrompt => "INFER: prompt is empty after tokenization"@,
            PgInferError::PathNotPermitted { path, allowed } => "INFER: path '"@ + path@
                + "' is not under allowed directory '"@ + allowed@ + "'"@,
            _ => "INFER: "@ + self.text(),
        }
    }

    /// What an SQL caller is told.
    pub fn report(&self) -> (s: String)
        ensures
            s@ == self.report_text(),
    {
        let mut s: String = String::new();
        match self {
            PgInferError::ModelNotFound { name } => {
                s = String::from_str("INFER: model '");
                s.append(name.as_str());
                s.append("' not found — register it with infer_create_model()");
            },
            PgInferError::NoDefaultModel => {
                s = String::from_str(
                    "INFER: no default model configured. Use SET infer.default_model = 'name'; or pass model => 'name'",
                );
            },
            PgInferError::InsufficientExtractLevel { needed, have } => {
                s = String::from_str("INFER: operation requires extract level '");
                s.append(needed.as_str());
                s.append("' but model was built at '");
                s.append(have.as_str());
                s.append("'");
            },
            PgInferError::EmptyPrompt => {
                s = String::from_str("INFER: prompt is empty after tokenization");
            },
            PgInferError::PathNotPermitted { path, allowed } => {
                s = String::from_str("INFER: path '");
                s.append(path.as_str());
                s.append("' is not under allowed directory '");
                s.append(allowed.as_str());
                s.append("'");
            },
            _ => {
                s = String::from_str("INFER: ");
                let m: String = self.message();
                s.append(m.as_str());
            },
        }
        s
    }
}

/// What a caller is told names what it is about: the model, the level that is
/// needed before the one that is there, the path before the directory; any
/// other error is told with its own text.
pub proof fn reports_name_what_they_are_about(name: String, other: String)
    ensures
        ({
            let t = (PgInferError::ModelNotFound { name }).report_text();
            t.subrange(14, 14 + name@.len() as int) == name@
        }),
        ({
            let t = (PgInferError::InsufficientExtractLevel {
                needed: name,
                have: other,
            }).report_text();
            &&& t.subrange(41, 41 + name@.len() as int) == name@
            &&& t.subrange(t.len() - 1 - other@.len(), t.len() - 1) == other@
        }),
        ({
            let t = (PgInferError::PathNotPermitted { path: name, allowed: other }).report_text();
            &&& t.subrange(13, 13 + name@.len() as int) == name@
            &&& t.subrange(t.len() - 1 - other@.len(), t.len() - 1) == other@
        }),
        ({
            let t = PgInferError::Internal(name).report_text();
            t.subrange(7, t.len() as int) == name@
        }),
        ({
            let e = PgInferError::Tokenize(name);
            e.report_text().subrange(7, e.report_text().len() as int) == e.text()
        }),
{
    reveal_strlit("INFER: model '");
    reveal_strlit("INFER: operation requires extract level '");
    reveal_strlit("INFER: path '");
    reveal_strlit("'");
    reveal_strlit("INFER: ");
    let a = (PgInferError::ModelNotFound { name }).report_text();
    assert(a.subrange(14, 14 + name@.len() as int) =~= name@);
    let b = (PgInferError::InsufficientExtractLevel { needed: name, have: other }).report_text();
    assert(b.subrange(41, 41 + name@.len() as int) =~= name@);
    assert(b.subrange(b.len() - 1 - other@.len(), b.len() - 1) =~= other@);
    let c = (PgInferError::PathNotPermitted { path: name, allowed: other }).report_text();
    assert(c.subrange(13, 13 + name@.len() as int) =~= name@);
    assert(c.subrange(c.len() - 1 - other@.len(), c.len() - 1) =~= other@);
    let d = PgInferError::Internal(name).report_text();
    assert(d.subrange(7, d.len() as int) =~= name@);
    let e = PgInferError::Tokenize(name);
    assert(e.report_text().subrange(7, e.report_text().len() as int) =~= e.text());
}

} // verus!
