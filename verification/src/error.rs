//! Why a decode fails.

use vstd::prelude::*;
use crate::schema::{ValidationError, ValidationErrorView};

verus! {

/// A decode error as a mathematical value.
pub enum DecodeErrorView {
    MalformedField,
    Transport,
    Validation(ValidationErrorView),
}

/// Why a decode failed. Each kind ends the decode at once; no part of a
/// document or of a target value is handed out beside it.
#[derive(Debug, PartialEq, Eq)]
pub enum DecodeError {
    /// A field had no name.
    MalformedField,
    /// The transport failed while a field or a chunk was pulled from it.
    Transport,
    /// The finished document does not match the target shape.
    Validation(ValidationError),
}

impl View for DecodeError {
    type V = DecodeErrorView;

    open spec fn view(&self) -> DecodeErrorView {
        match self {
            DecodeError::MalformedField => DecodeErrorView::MalformedField,
            DecodeError::Transport => DecodeErrorView::Transport,
            DecodeError::Validation(e) => DecodeErrorView::Validation(e@),
        }
    }
}

} // verus!
