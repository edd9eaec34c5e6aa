//! Errors of the index.

use vstd::prelude::*;
use vstd::string::*;

use crate::text::{append_decimal, decimal};

verus! {

/// What can go wrong with an index.
#[derive(Debug, Clone, PartialEq, Eq)]
pub enum VindexError {
    NotADirectory(String),
    NoSafetensors(String),
    MissingTensor(String),
    Parse(String),
    UnsupportedDtype(String),
    /// The container is of a generation that cannot be read.
    UnsupportedFormatVersion { found: u32, min: u32, max: u32 },
    /// The container declares a weight layout that cannot be decoded.
    UnsupportedQuantLayout { field: String },
    InsufficientExtractLevel { needed: String, have: String },
    Io(String),
    Model(String),
}

impl VindexError {
    /// The text of the error.
    pub open spec fn text(self) -> Seq<char> {
        match self {
            VindexError::NotADirectory(p) => "not a directory: "@ + p@,
            VindexError::NoSafetensors(p) => "no safetensors files in "@ + p@,
            VindexError::MissingTensor(t) => "missing tensor: "@ + t@,
            VindexError::Parse(m) => "parse error: "@ + m@,
            VindexError::UnsupportedDtype(d) => "unsupported dtype: "@ + d@,
            VindexError::UnsupportedFormatVersion { found, min, max } => "vindex format version "@
                + decimal(found as nat) + " is not supported (this build reads "@ + decimal(
                min as nat,
            ) + "..="@ + decimal(max as nat)
                + "). Version 3+ is the VINDEX3 container generation, which has a different on-disk layout; rebuild the vindex with a VINDEX2 extract, or use a newer pg_infer."@,
            VindexError::UnsupportedQuantLayout { field } => "vindex declares `"@ + field@
                + "`, whose weight layout this build cannot decode. Refusing rather than misreading the weights: the field carries block geometry and scale dtypes that change how bytes are interpreted. Use a vindex without "@
                + field@ + ", or a pg_infer that implements it."@,
            VindexError::InsufficientExtractLevel { needed, have } => "requires extract level '"@
                + needed@ + "' but vindex was built at '"@ + have@ + "'"@,
            VindexError::Io(e) => "IO error: "@ + e@,
            VindexError::Model(e) => "model error: "@ + e@,
        }
    }

    /// The error as text.
    pub fn message(&self) -> (s: String)
        ensures
            s@ == self.text(),
    {
        let mut s: String = String::new();
        match self {
            VindexError::NotADirectory(p) => {
                s = String::from_str("not a directory: ");
                s.append(p.as_str());
            },
            VindexError::NoSafetensors(p) => {
                s = String::from_str("no safetensors files in ");
                s.append(p.as_str());
            },
            VindexError::MissingTensor(t) => {
                s = String::from_str("missing tensor: ");
                s.append(t.as_str());
            },
            VindexError::Parse(m) => {
                s = String::from_str("parse error: ");
                s.append(m.as_str());
            },
            VindexError::UnsupportedDtype(d) => {
                s = String::from_str("unsupported dtype: ");
                s.append(d.as_str());
            },
            VindexError::UnsupportedFormatVersion { found, min, max } => {
                s = String::from_str("vindex format version ");
                append_decimal(&mut s, *found as u128);
                s.append(" is not supported (this build reads ");
                append_decimal(&mut s, *min as u128);
                s.append("..=");
                append_decimal(&mut s, *max as u128);
                s.append(
                    "). Version 3+ is the VINDEX3 container generation, which has a different on-disk layout; rebuild the vindex with a VINDEX2 extract, or use a newer pg_infer.",
                );
            },
            VindexError::UnsupportedQuantLayout { field } => {
                s = String::from_str("vindex declares `");
                s.append(field.as_str());
                s.append(
                    "`, whose weight layout this build cannot decode. Refusing rather than misreading the weights: the field carries block geometry and scale dtypes that change how bytes are interpreted. Use a vindex without ",
                );
                s.append(field.as_str());
                s.append(", or a pg_infer that implements it.");
            },
            VindexError::InsufficientExtractLevel { needed, have } => {
                s = String::from_str("requires extract level '");
                s.append(needed.as_str());
                s.append("' but vindex was built at '");
                s.append(have.as_str());
                s.append("'");
            },
            VindexError::Io(e) => {
                s = String::from_str("IO error: ");
                s.append(e.as_str());
            },
            VindexError::Model(e) => {
                s = String::from_str("model error: ");
                s.append(e.as_str());
            },
        }
        s
    }
}

} // verus!
