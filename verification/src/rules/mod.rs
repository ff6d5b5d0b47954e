//! The declarative rule engine: data refs, the condition language, the
//! classifier and the rules document (with per-account overrides).

use vstd::prelude::*;

pub mod classifier;
pub mod data;
pub mod document;
pub mod dsl;

verus! {

/// Everything that can go wrong while compiling rules.
#[derive(Debug)]
pub enum RuleError {
    /// The rules file is not a YAML document.
    Yaml(serde_yaml_ng::Error),
    /// `refs.patterns.<key>` (or an inline pattern) is not a valid regex.
    BadRegex { key: String, source: regex::Error },
    /// `refs.thresholds.<key>` is not a valid duration.
    BadDuration { key: String, value: String },
    /// A `ref` names no known bucket or key.
    UnknownRef(String),
    /// The op needs another kind of field.
    WrongField { op: String, expected: String, field: String },
    /// A leaf has neither a value nor a ref.
    MissingOperand { field: String, op: String },
    /// The operand has the wrong shape for the op.
    OperandType { op: String, expected: String },
}

/// The model of a rule error: its texts (the YAML and regex errors themselves are opaque).
pub enum ErrModel {
    Yaml,
    BadRegex(Seq<char>),
    BadDuration(Seq<char>, Seq<char>),
    UnknownRef(Seq<char>),
    WrongField(Seq<char>, Seq<char>, Seq<char>),
    MissingOperand(Seq<char>, Seq<char>),
    OperandType(Seq<char>, Seq<char>),
}

impl View for RuleError {
    type V = ErrModel;

    open spec fn view(&self) -> ErrModel {
        match self {
            RuleError::Yaml(_) => ErrModel::Yaml,
            RuleError::BadRegex { key, .. } => ErrModel::BadRegex(key@),
            RuleError::BadDuration { key, value } => ErrModel::BadDuration(key@, value@),
            RuleError::UnknownRef(path) => ErrModel::UnknownRef(path@),
            RuleError::WrongField { op, expected, field } => ErrModel::WrongField(op@, expected@, field@),
            RuleError::MissingOperand { field, op } => ErrModel::MissingOperand(field@, op@),
            RuleError::OperandType { op, expected } => ErrModel::OperandType(op@, expected@),
        }
    }
}

} // verus!
