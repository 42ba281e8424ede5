//! The typed memory view: an element type and an offset, laid over whatever
//! memory an operation is handed.

use crate::element::ElementType;
use crate::memory::{
    element_at, element_count, elements, lemma_store_len, lemma_store_reads_back,
    raw_element_count, read_element, store, write_element,
};
use crate::selector::{as_ints, Selector, Value, ValueView, ViewError};
use vstd::prelude::*;

verus! {

/// A window onto linear memory that starts `offset` elements into it and
/// reaches to its current end.
///
/// The view owns no memory and caches nothing about it. Views of any element
/// type and offset may be used on one memory in any order; a write through one
/// is seen by every later read that covers the same bytes.
#[derive(Clone, Copy, Debug, PartialEq, Eq, Structural)]
pub struct TypedMemoryView {
    element_type: ElementType,
    offset: usize,
}

/// Number of positions `start`, `start + step`, ... that lie below `stop`,
/// for `start < stop` and `step >= 1`.
pub open spec fn slice_len(start: int, stop: int, step: int) -> int {
    (stop - start - 1) / step + 1
}

/// `slice_len` counts the positions of a stepped range: position number `j`
/// lies below `stop` exactly when `j` is below `slice_len`.
pub proof fn lemma_slice_len(start: int, stop: int, step: int, j: int)
    requires
        start < stop,
        step >= 1,
        0 <= j,
    ensures
        slice_len(start, stop, step) >= 1,
        j < slice_len(start, stop, step) <==> start + j * step < stop,
{
    let d = stop - start - 1;
    let q = d / step;
    assert(q >= 0 && q * step <= d < q * step + step) by (nonlinear_arith)
        requires
            d >= 0,
            step >= 1,
            q == d / step,
    ;
    if j <= q {
        assert(j * step <= q * step) by (nonlinear_arith)
            requires
                0 <= j <= q,
                step >= 1,
        ;
    } else {
        assert(j * step >= q * step + step) by (nonlinear_arith)
            requires
                j >= q + 1,
                step >= 1,
        ;
    }
}

/// The refusal of an access to element `index` of a memory that holds `size`
/// elements.
pub open spec fn out_of_bounds(index: int, size: nat) -> ViewError {
    ViewError::IndexOutOfBounds { index: index as u128, size: size as usize }
}

impl TypedMemoryView {
    /// The element type of the view.
    pub closed spec fn kind(&self) -> ElementType {
        self.element_type
    }

    /// The first element of the memory that the view covers.
    pub closed spec fn start(&self) -> nat {
        self.offset as nat
    }

    /// Number of elements the view covers in `memory`: those from its offset
    /// to the end, none if the memory is shorter than the offset.
    pub open spec fn spec_length(&self, memory: Seq<u8>) -> nat {
        let count = element_count(self.kind(), memory);
        if self.start() <= count {
            (count - self.start()) as nat
        } else {
            0
        }
    }

    /// What `get` answers for `selector` on `memory`.
    pub open spec fn get_outcome(&self, memory: Seq<u8>, selector: Selector) -> Result<
        ValueView,
        ViewError,
    > {
        let count = element_count(self.kind(), memory);
        match selector {
            Selector::Index(index) => {
                if index < 0 {
                    Err(ViewError::NegativeIndex)
                } else if self.start() + index >= count {
                    Err(out_of_bounds(self.start() + index, count))
                } else {
                    Ok(ValueView::Scalar(element_at(self.kind(), memory, self.start() + index)))
                }
            },
            Selector::Range { start, stop, step } => {
                if start >= stop {
                    Err(ViewError::EmptySlice)
                } else if step != 1 {
                    Err(ViewError::UnsupportedStep)
                } else if self.start() + stop > count {
                    Err(out_of_bounds(self.start() + stop - 1, count))
                } else {
                    Ok(
                        ValueView::Sequence(
                            elements(self.kind(), memory).subrange(
                                self.start() + start,
                                self.start() + stop,
                            ),
                        ),
                    )
                }
            },
        }
    }

    /// Whether `value` can be written at `position`: the element type admits
    /// it and the position lies inside the memory.
    pub open spec fn can_write(&self, memory: Seq<u8>, position: int, value: int) -> bool {
        self.kind().admits(value) && self.start() + position < element_count(self.kind(), memory)
    }

    /// How many of the first `limit` writes of a slice write go through,
    /// counting on from `done`: the writes are tried in order and the first
    /// that cannot be made stops the run.
    pub open spec fn writes_applied(
        &self,
        memory: Seq<u8>,
        first: int,
        step: int,
        values: Seq<int>,
        limit: nat,
        done: nat,
    ) -> nat
        decreases limit - done,
    {
        if done >= limit || !self.can_write(memory, first + done * step, values[done as int]) {
            done
        } else {
            self.writes_applied(memory, first, step, values, limit, done + 1)
        }
    }

    /// The element of the memory that write number `j` of a slice write goes to.
    pub open spec fn target(&self, first: int, step: int, j: int) -> int {
        self.start() + first + j * step
    }

    /// `memory` after the first `count` writes of a slice write: `values[j]`
    /// stored at position `first + j * step`, for each `j` below `count`.
    pub open spec fn after_writes(
        &self,
        memory: Seq<u8>,
        first: int,
        step: int,
        values: Seq<int>,
        count: nat,
    ) -> Seq<u8>
        decreases count,
    {
        if count == 0 {
            memory
        } else {
            store(
                self.kind(),
                self.after_writes(memory, first, step, values, (count - 1) as nat),
                self.target(first, step, count - 1),
                values[count - 1],
            )
        }
    }

    /// What `set` does for `selector` and `value` on `memory`: the memory it
    /// leaves and the answer it gives.
    pub open spec fn set_outcome(&self, memory: Seq<u8>, selector: Selector, value: ValueView) -> (
        Seq<u8>,
        Result<(), ViewError>,
    ) {
        let count = element_count(self.kind(), memory);
        match (selector, value) {
            (Selector::Index(index), ValueView::Scalar(v)) => {
                if !self.kind().admits(v) {
                    (memory, Err(ViewError::TypeMismatch { expected: self.kind() }))
                } else if index < 0 {
                    (memory, Err(ViewError::NegativeIndex))
                } else if self.start() + index >= count {
                    (memory, Err(out_of_bounds(self.start() + index, count)))
                } else {
                    (store(self.kind(), memory, self.start() + index, v), Ok(()))
                }
            },
            (Selector::Range { start, stop, step }, ValueView::Sequence(values)) => {
                if start >= stop || step < 1 {
                    (memory, Err(ViewError::EmptySlice))
                } else if slice_len(start as int, stop as int, step as int) > self.spec_length(
                    memory,
                ) {
                    (
                        memory,
                        Err(
                            ViewError::SliceOverflow {
                                slice_length: slice_len(start as int, stop as int, step as int)
                                    as usize,
                                view_length: self.spec_length(memory) as usize,
                            },
                        ),
                    )
                } else {
                    let planned = slice_len(start as int, stop as int, step as int);
                    let limit = if planned <= values.len() {
                        planned as nat
                    } else {
                        values.len()
                    };
                    let done = self.writes_applied(
                        memory,
                        start as int,
                        step as int,
                        values,
                        limit,
                        0,
                    );
                    (
                        self.after_writes(memory, start as int, step as int, values, done),
                        if done == limit {
                            Ok(())
                        } else if !self.kind().admits(values[done as int]) {
                            Err(ViewError::TypeMismatch { expected: self.kind() })
                        } else {
                            Err(
                                out_of_bounds(
                                    self.target(start as int, step as int, done as int),
                                    count,
                                ),
                            )
                        },
                    )
                }
            },
            _ => (memory, Err(ViewError::InvalidSelector)),
        }
    }

    /// A view of `element_type` elements that starts `offset` elements into
    /// the memory. The offset is not held against any memory: one that lies
    /// past the end of a memory makes a view of length 0 on it.
    pub fn new(element_type: ElementType, offset: usize) -> (view: TypedMemoryView)
        ensures
            view.kind() == element_type,
            view.start() == offset,
    {
        TypedMemoryView { element_type, offset }
    }

    /// The element type of the view.
    pub fn element_type(&self) -> (kind: ElementType)
        ensures
            kind == self.kind(),
    {
        self.element_type
    }

    /// The offset of the view, in elements.
    pub fn offset(&self) -> (offset: usize)
        ensures
            offset == self.start(),
    {
        self.offset
    }

    /// Bytes taken by one element of the view: 1, 2, 4 or 8.
    pub fn bytes_per_element(&self) -> (n: u8)
        ensures
            n == self.kind().width(),
            n == 1 || n == 2 || n == 4 || n == 8,
    {
        self.element_type.bytes_per_element()
    }

    /// The refusal of an access to the element `position` places past the
    /// offset of the view, in a memory that holds `size` elements.
    fn refuse(&self, position: usize, size: usize) -> (error: ViewError)
        ensures
            error == out_of_bounds(self.start() + position, size as nat),
    {
        ViewError::IndexOutOfBounds { index: self.offset as u128 + position as u128, size }
    }

    /// Number of elements the view covers in `memory` as it is now.
    pub fn length(&self, memory: &[u8]) -> (n: usize)
        ensures
            n == self.spec_length(memory@),
    {
        let count = raw_element_count(self.element_type, memory);
        if self.offset <= count {
            count - self.offset
        } else {
            0
        }
    }

    /// Reads the element at position `index`.
    ///
    /// Fails with `NegativeIndex` for an index below zero and with
    /// `IndexOutOfBounds` for one at or past the length of the view.
    pub fn get_index(&self, memory: &[u8], index: isize) -> (result: Result<i128, ViewError>)
        ensures
            index < 0 ==> result == Err::<i128, ViewError>(ViewError::NegativeIndex),
            index >= self.spec_length(memory@) ==> result == Err::<i128, ViewError>(
                out_of_bounds(self.start() + index, element_count(self.kind(), memory@)),
            ),
            0 <= index < self.spec_length(memory@) ==> result is Ok && result->Ok_0 == element_at(
                self.kind(),
                memory@,
                self.start() + index,
            ),
            match result {
                Ok(v) => self.get_outcome(memory@, Selector::Index(index)) == Ok::<
                    ValueView,
                    ViewError,
                >(ValueView::Scalar(v as int)),
                Err(e) => self.get_outcome(memory@, Selector::Index(index)) == Err::<
                    ValueView,
                    ViewError,
                >(e),
            },
    {
        if index < 0 {
            return Err(ViewError::NegativeIndex);
        }
        let count = raw_element_count(self.element_type, memory);
        match self.offset.checked_add(index as usize) {
            Some(absolute) => {
                if absolute >= count {
                    Err(self.refuse(index as usize, count))
                } else {
                    Ok(read_element(self.element_type, memory, absolute))
                }
            },
            None => Err(self.refuse(index as usize, count)),
        }
    }

    /// Reads the elements at the positions from `start` up to `stop`, in order.
    ///
    /// Fails with `EmptySlice` unless `start < stop`, then with
    /// `UnsupportedStep` unless `step` is 1, then with `IndexOutOfBounds` if
    /// the range reaches past the end of the memory. Such a range is refused,
    /// never shortened.
    pub fn get_range(&self, memory: &[u8], start: usize, stop: usize, step: isize) -> (result:
        Result<Vec<i128>, ViewError>)
        ensures
            match result {
                Ok(values) => self.get_outcome(memory@, (Selector::Range { start, stop, step }))
                    == Ok::<ValueView, ViewError>(ValueView::Sequence(as_ints(values@))),
                Err(e) => self.get_outcome(memory@, (Selector::Range { start, stop, step }))
                    == Err::<ValueView, ViewError>(e),
            },
            result matches Ok(values) ==> values@.len() == stop - start && forall|j: int|
                0 <= j < stop - start ==> values@[j] == element_at(
                    self.kind(),
                    memory@,
                    self.start() + start + j,
                ),
    {
        if start >= stop {
            return Err(ViewError::EmptySlice);
        }
        if step != 1 {
            return Err(ViewError::UnsupportedStep);
        }
        let count = raw_element_count(self.element_type, memory);
        let end = match self.offset.checked_add(stop) {
            Some(end) => end,
            None => {
                return Err(self.refuse(stop - 1, count));
            },
        };
        if end > count {
            return Err(self.refuse(stop - 1, count));
        }
        let begin = self.offset + start;
        let mut values: Vec<i128> = Vec::new();
        let mut at = begin;
        while at < end
            invariant
                begin <= at <= end <= count,
                count == element_count(self.kind(), memory@),
                values@.len() == at - begin,
                forall|j: int|
                    0 <= j < values@.len() ==> values@[j] == element_at(
                        self.kind(),
                        memory@,
                        begin + j,
                    ),
            decreases end - at,
        {
            values.push(read_element(self.element_type, memory, at));
            at += 1;
        }
        assert(as_ints(values@) =~= elements(self.kind(), memory@).subrange(
            begin as int,
            end as int,
        ));
        Ok(values)
    }

    /// Reads one element or a range of them.
    ///
    /// An index yields a scalar, a range a sequence, whatever its length.
    pub fn get(&self, memory: &[u8], selector: &Selector) -> (result: Result<Value, ViewError>)
        ensures
            match result {
                Ok(value) => self.get_outcome(memory@, *selector) == Ok::<ValueView, ViewError>(
                    value@,
                ),
                Err(e) => self.get_outcome(memory@, *selector) == Err::<ValueView, ViewError>(e),
            },
    {
        match *selector {
            Selector::Index(index) => {
                match self.get_index(memory, index) {
                    Ok(v) => Ok(Value::Scalar(v)),
                    Err(e) => Err(e),
                }
            },
            Selector::Range { start, stop, step } => {
                match self.get_range(memory, start, stop, step) {
                    Ok(values) => Ok(Value::Sequence(values)),
                    Err(e) => Err(e),
                }
            },
        }
    }

    /// Writes `value` to the element at position `index`.
    ///
    /// Fails with `TypeMismatch` if the element type cannot hold `value`, then
    /// with `NegativeIndex` or `IndexOutOfBounds` as `get_index` does. A
    /// failed write leaves the memory untouched.
    pub fn set_index(&self, memory: &mut Vec<u8>, index: isize, value: i128) -> (result: Result<
        (),
        ViewError,
    >)
        ensures
            (final(memory)@, result) == self.set_outcome(
                old(memory)@,
                Selector::Index(index),
                ValueView::Scalar(value as int),
            ),
            result is Err ==> final(memory)@ == old(memory)@,
            result is Ok ==> element_at(self.kind(), final(memory)@, self.start() + index)
                == value,
            final(memory)@.len() == old(memory)@.len(),
    {
        if !self.element_type.accepts(value) {
            return Err(ViewError::TypeMismatch { expected: self.element_type });
        }
        if index < 0 {
            return Err(ViewError::NegativeIndex);
        }
        let count = raw_element_count(self.element_type, memory.as_slice());
        match self.offset.checked_add(index as usize) {
            Some(absolute) => {
                if absolute >= count {
                    Err(self.refuse(index as usize, count))
                } else {
                    proof {
                        lemma_store_reads_back(
                            self.kind(),
                            memory@,
                            absolute as int,
                            value as int,
                        );
                    }
                    write_element(self.element_type, memory, absolute, value);
                    Ok(())
                }
            },
            None => Err(self.refuse(index as usize, count)),
        }
    }

    /// Writes `values` to the positions `start`, `start + step`, ... below
    /// `stop`, pairing positions and values in order until either runs out.
    ///
    /// Fails with `EmptySlice` unless `start < stop` and `step >= 1`, then with
    /// `SliceOverflow` if the range has more positions than the view is long;
    /// either way nothing is written. After that the writes are made one at a
    /// time in ascending order. The first value that the element type cannot
    /// hold stops the run with `TypeMismatch`, the first position past the end
    /// of the memory with `IndexOutOfBounds`: the writes made before it stay.
    pub fn set_range(
        &self,
        memory: &mut Vec<u8>,
        start: usize,
        stop: usize,
        step: isize,
        values: &[i128],
    ) -> (result: Result<(), ViewError>)
        ensures
            (final(memory)@, result) == self.set_outcome(
                old(memory)@,
                (Selector::Range { start, stop, step }),
                ValueView::Sequence(as_ints(values@)),
            ),
            final(memory)@.len() == old(memory)@.len(),
    {
        if start >= stop || step < 1 {
            return Err(ViewError::EmptySlice);
        }
        let count = raw_element_count(self.element_type, memory.as_slice());
        let length = self.length(memory.as_slice());
        let stride = step as usize;
        let planned = (stop - start - 1) / stride + 1;
        if planned > length {
            return Err(ViewError::SliceOverflow { slice_length: planned, view_length: length });
        }
        let limit = if planned <= values.len() {
            planned
        } else {
            values.len()
        };
        let ghost before = memory@;
        let ghost ints = as_ints(values@);
        let mut done: usize = 0;
        let mut position: usize = start;
        while done < limit
            invariant
                start < stop,
                step >= 1,
                stride == step,
                done <= limit <= planned,
                planned == slice_len(start as int, stop as int, step as int),
                planned <= self.spec_length(before),
                limit == (if planned <= values@.len() {
                    planned as int
                } else {
                    values@.len() as int
                }),
                before == old(memory)@,
                ints == as_ints(values@),
                done < limit ==> position == start + done * step,
                memory@.len() == before.len(),
                count == element_count(self.kind(), before),
                memory@ == self.after_writes(before, start as int, step as int, ints, done as nat),
                self.writes_applied(before, start as int, step as int, ints, limit as nat, 0)
                    == self.writes_applied(
                    before,
                    start as int,
                    step as int,
                    ints,
                    limit as nat,
                    done as nat,
                ),
            decreases limit - done,
        {
            let value = values[done];
            if !self.element_type.accepts(value) {
                return Err(ViewError::TypeMismatch { expected: self.element_type });
            }
            let absolute = match self.offset.checked_add(position) {
                Some(absolute) => absolute,
                None => {
                    return Err(self.refuse(position, count));
                },
            };
            if absolute >= count {
                return Err(self.refuse(position, count));
            }
            proof {
                lemma_store_len(self.kind(), memory@, absolute as int, value as int);
            }
            write_element(self.element_type, memory, absolute, value);
            done += 1;
            if done < limit {
                proof {
                    lemma_slice_len(start as int, stop as int, step as int, done as int);
                    assert(done * step == (done - 1) * step + step) by (nonlinear_arith);
                }
                position = position + stride;
            }
        }
        Ok(())
    }

    /// Writes one element or a range of them.
    ///
    /// An index takes a scalar and a range takes a sequence, as `set_index`
    /// and `set_range` describe; any other pairing fails with
    /// `InvalidSelector` and writes nothing.
    pub fn set(&self, memory: &mut Vec<u8>, selector: &Selector, value: &Value) -> (result: Result<
        (),
        ViewError,
    >)
        ensures
            (final(memory)@, result) == self.set_outcome(old(memory)@, *selector, value@),
            final(memory)@.len() == old(memory)@.len(),
    {
        match *selector {
            Selector::Index(index) => {
                match value {
                    Value::Scalar(v) => self.set_index(memory, index, *v),
                    Value::Sequence(_) => Err(ViewError::InvalidSelector),
                }
            },
            Selector::Range { start, stop, step } => {
                match value {
                    Value::Sequence(values) => self.set_range(
                        memory,
                        start,
                        stop,
                        step,
                        values.as_slice(),
                    ),
                    Value::Scalar(_) => Err(ViewError::InvalidSelector),
                }
            },
        }
    }
}

} // verus!
