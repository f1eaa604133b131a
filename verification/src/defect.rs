use vstd::prelude::*;

verus! {

/// A located, classified reason a document fails to satisfy a target
/// schema.  The enumeration is closed: a decoder reports every failure as
/// one of these kinds, and the repair loop matches on them exhaustively.
#[derive(Debug)]
pub enum Defect {
    /// A required field is absent; the pointer addresses the missing field.
    MissingField { pointer: String },
    /// A value matched no variant of an untagged union.
    UntaggedUnionMismatch { pointer: String },
    /// A string failed a formatted-value constraint.
    InvalidFormattedString { pointer: String },
    /// A value did not equal a required fixed literal.
    InvalidFixedValue { pointer: String, expected: String },
    /// An object stood where a sequence was expected.
    SequenceShapeMismatch { pointer: String },
    /// Any other type mismatch.
    TypeMismatch { pointer: String },
    /// A decode failure the classifier does not recognize.
    UnrecognizedFailure { description: String },
}

/// The model of a defect.
pub enum DefectV {
    MissingField { pointer: Seq<char> },
    UntaggedUnionMismatch { pointer: Seq<char> },
    InvalidFormattedString { pointer: Seq<char> },
    InvalidFixedValue { pointer: Seq<char>, expected: Seq<char> },
    SequenceShapeMismatch { pointer: Seq<char> },
    TypeMismatch { pointer: Seq<char> },
    UnrecognizedFailure { description: Seq<char> },
}

impl View for Defect {
    type V = DefectV;

    open spec fn view(&self) -> DefectV {
        match self {
            Defect::MissingField { pointer } => DefectV::MissingField { pointer: pointer@ },
            Defect::UntaggedUnionMismatch { pointer } => DefectV::UntaggedUnionMismatch {
                pointer: pointer@,
            },
            Defect::InvalidFormattedString { pointer } => DefectV::InvalidFormattedString {
                pointer: pointer@,
            },
            Defect::InvalidFixedValue { pointer, expected } => DefectV::InvalidFixedValue {
                pointer: pointer@,
                expected: expected@,
            },
            Defect::SequenceShapeMismatch { pointer } => DefectV::SequenceShapeMismatch {
                pointer: pointer@,
            },
            Defect::TypeMismatch { pointer } => DefectV::TypeMismatch { pointer: pointer@ },
            Defect::UnrecognizedFailure { description } => DefectV::UnrecognizedFailure {
                description: description@,
            },
        }
    }
}

} // verus!
