//! The values that a structured document holds.

use vstd::prelude::*;
use crate::file::{File, FileView};

verus! {

/// A document value as a mathematical value: one variant per kind.
pub enum ValueView {
    Null,
    Bool(bool),
    Integer(int),
    Text(Seq<char>),
    File(FileView),
    Sequence(Seq<ValueView>),
}

/// A value of a structured document.
#[derive(Debug, PartialEq, Eq)]
pub enum Value {
    /// No value: a body that was absent or was not text.
    Null,
    Bool(bool),
    Integer(i64),
    Text(String),
    File(File),
    /// Values in the order in which they arrived.
    Sequence(Vec<Value>),
}

impl View for Value {
    type V = ValueView;

    open spec fn view(&self) -> ValueView
        decreases self,
    {
        match self {
            Value::Null => ValueView::Null,
            Value::Bool(b) => ValueView::Bool(*b),
            Value::Integer(n) => ValueView::Integer(*n as int),
            Value::Text(s) => ValueView::Text(s@),
            Value::File(f) => ValueView::File(f@),
            Value::Sequence(items) => ValueView::Sequence(views_of(items@)),
        }
    }
}

/// The views of a sequence of values, item by item.
pub open spec fn views_of(items: Seq<Value>) -> Seq<ValueView>
    decreases items,
{
    Seq::new(
        items.len(),
        |i: int|
            if 0 <= i < items.len() {
                items[i]@
            } else {
                ValueView::Null
            },
    )
}

} // verus!
