//! What a view is asked for, what it hands back, and how it refuses.

use crate::element::ElementType;
use vstd::prelude::*;

verus! {

/// Picks the elements of a view that an operation reads or writes.
///
/// Positions count elements from the view's offset.
#[derive(Clone, Copy, Debug, PartialEq, Eq, Structural)]
pub enum Selector {
    /// The single element at this position.
    Index(isize),
    /// The positions `start`, `start + step`, `start + 2 * step`, ... below
    /// `stop`. A range without a step of its own has step 1.
    Range { start: usize, stop: usize, step: isize },
}

impl Selector {
    /// The range from `start` up to `stop`, with the implied step of 1.
    pub fn range(start: usize, stop: usize) -> (selector: Selector)
        ensures
            selector == (Selector::Range { start, stop, step: 1 }),
    {
        Selector::Range { start, stop, step: 1 }
    }
}

/// Why a view refused an operation.
#[derive(Clone, Copy, Debug, PartialEq, Eq, Structural)]
pub enum ViewError {
    /// An index below zero.
    NegativeIndex,
    /// An access to element `index` of a memory that holds `size` elements
    /// and so has none at or past `size`. Both count from the start of the
    /// memory, not from the offset of the view.
    IndexOutOfBounds { index: u128, size: usize },
    /// A range whose start is not below its stop, or a write with a step below 1.
    EmptySlice,
    /// A read with a step other than 1.
    UnsupportedStep,
    /// A write to a range of `slice_length` positions through a view that is
    /// only `view_length` elements long.
    SliceOverflow { slice_length: usize, view_length: usize },
    /// A value that the element type `expected` cannot hold.
    TypeMismatch { expected: ElementType },
    /// An index paired with a sequence, or a range paired with a single value.
    InvalidSelector,
}

/// One element value or a run of them: what `get` returns and `set` takes.
#[derive(Debug, PartialEq, Eq)]
pub enum Value {
    Scalar(i128),
    Sequence(Vec<i128>),
}

/// The mathematical content of a [`Value`].
pub enum ValueView {
    Scalar(int),
    Sequence(Seq<int>),
}

/// The numbers held by a run of machine integers.
pub open spec fn as_ints(values: Seq<i128>) -> Seq<int> {
    values.map_values(|v: i128| v as int)
}

impl View for Value {
    type V = ValueView;

    open spec fn view(&self) -> ValueView {
        match self {
            Value::Scalar(v) => ValueView::Scalar(*v as int),
            Value::Sequence(values) => ValueView::Sequence(as_ints(values@)),
        }
    }
}

impl Clone for Value {
    fn clone(&self) -> (copy: Value)
        ensures
            copy@ == self@,
    {
        match self {
            Value::Scalar(v) => Value::Scalar(*v),
            Value::Sequence(values) => {
                let copied = values.clone();
                assert(copied@ =~= values@);
                Value::Sequence(copied)
            },
        }
    }
}

} // verus!
