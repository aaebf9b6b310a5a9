//! What can go wrong while decoding.

use vstd::prelude::*;

verus! {

/// Why a token is not a tick count.
#[derive(Clone, Copy, Debug, PartialEq, Eq, Structural, Hash)]
pub enum ParseCause {
    /// The token has no characters.
    Empty,
    /// The token holds a character that is not a decimal digit.
    InvalidDigit,
    /// The token is a decimal number too large for a tick count.
    Overflow,
}

/// Why a text could not be decoded.
#[derive(Clone, Debug, PartialEq, Eq)]
pub enum DecodeError {
    /// The source holds no line at all.
    EmptySource,
    /// No per-core line follows the first line of the source.
    MissingPerCpu,
    /// A line holds `actual` numeric fields where `expected` are required.
    FieldCount { expected: usize, actual: usize },
    /// The numeric field at position `index`, counted from zero after the
    /// label, reads `token`, which is not a tick count.
    InvalidField { index: usize, token: String, cause: ParseCause },
}

/// The mathematical value of a [`DecodeError`].
pub enum DecodeErrorView {
    EmptySource,
    MissingPerCpu,
    FieldCount { expected: nat, actual: nat },
    InvalidField { index: nat, token: Seq<char>, cause: ParseCause },
}

impl View for DecodeError {
    type V = DecodeErrorView;

    open spec fn view(&self) -> DecodeErrorView {
        match *self {
            DecodeError::EmptySource => DecodeErrorView::EmptySource,
            DecodeError::MissingPerCpu => DecodeErrorView::MissingPerCpu,
            DecodeError::FieldCount { expected, actual } => DecodeErrorView::FieldCount {
                expected: expected as nat,
                actual: actual as nat,
            },
            DecodeError::InvalidField { index, token, cause } => DecodeErrorView::InvalidField {
                index: index as nat,
                token: token@,
                cause,
            },
        }
    }
}

} // verus!
