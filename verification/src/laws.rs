//! What holds of views across operations, proved from the models that the
//! operations' contracts are stated over.

use crate::memory::{
    element_at, element_count, elements, lemma_element_span, lemma_store_keeps_others,
    lemma_store_len, lemma_store_reads_back,
};
use crate::selector::{Selector, ValueView, ViewError};
use crate::view::{out_of_bounds, slice_len, TypedMemoryView};
use vstd::prelude::*;

verus! {

/// Read after write: at a position inside the view, `set` succeeds with
/// every value that the element type admits and with no other, and once it has
/// succeeded `get` at that position returns the value set.
pub proof fn lemma_read_after_write(
    view: TypedMemoryView,
    memory: Seq<u8>,
    index: isize,
    value: int,
)
    requires
        0 <= index < view.spec_length(memory),
    ensures
        view.set_outcome(memory, Selector::Index(index), ValueView::Scalar(value)).1 is Ok
            <==> view.kind().admits(value),
        view.kind().admits(value) ==> view.get_outcome(
            view.set_outcome(memory, Selector::Index(index), ValueView::Scalar(value)).0,
            Selector::Index(index),
        ) == Ok::<ValueView, ViewError>(ValueView::Scalar(value)),
{
    if view.kind().admits(value) {
        let absolute = view.start() + index;
        lemma_store_len(view.kind(), memory, absolute, value);
        lemma_store_reads_back(view.kind(), memory, absolute, value);
    }
}

/// A write at one position changes what `get` returns at no other position,
/// so a position keeps the value most recently set there.
pub proof fn lemma_write_keeps_other_positions(
    view: TypedMemoryView,
    memory: Seq<u8>,
    index: isize,
    value: int,
    other: isize,
)
    requires
        other != index,
    ensures
        view.get_outcome(
            view.set_outcome(memory, Selector::Index(index), ValueView::Scalar(value)).0,
            Selector::Index(other),
        ) == view.get_outcome(memory, Selector::Index(other)),
{
    let after = view.set_outcome(memory, Selector::Index(index), ValueView::Scalar(value)).0;
    if after != memory {
        let absolute = view.start() + index;
        lemma_store_len(view.kind(), memory, absolute, value);
        if 0 <= other && view.start() + other < element_count(view.kind(), memory) {
            lemma_store_keeps_others(view.kind(), memory, absolute, value, view.start() + other);
        }
    }
}

/// `get` at an index below zero fails with `NegativeIndex`, at an index at or
/// past the length of the view with `IndexOutOfBounds`, and succeeds at every
/// index between.
pub proof fn lemma_index_bounds(view: TypedMemoryView, memory: Seq<u8>, index: isize)
    ensures
        index < 0 ==> view.get_outcome(memory, Selector::Index(index)) == Err::<
            ValueView,
            ViewError,
        >(ViewError::NegativeIndex),
        index >= view.spec_length(memory) ==> view.get_outcome(memory, Selector::Index(index))
            == Err::<ValueView, ViewError>(
            out_of_bounds(view.start() + index, element_count(view.kind(), memory)),
        ),
        0 <= index < view.spec_length(memory) ==> view.get_outcome(memory, Selector::Index(index))
            is Ok,
{
}

/// Offsets shift and do nothing else: reading the whole of a view with offset
/// `k` gives what reading the whole memory through a view with offset 0 gives,
/// without its first `k` elements.
pub proof fn lemma_offset_is_shift(
    view: TypedMemoryView,
    whole: TypedMemoryView,
    memory: Seq<u8>,
    length: usize,
    count: usize,
)
    requires
        whole.kind() == view.kind(),
        whole.start() == 0,
        count == element_count(view.kind(), memory),
        length == view.spec_length(memory),
        length > 0,
    ensures
        whole.get_outcome(memory, (Selector::Range { start: 0, stop: count, step: 1 })) == Ok::<
            ValueView,
            ViewError,
        >(ValueView::Sequence(elements(view.kind(), memory))),
        view.get_outcome(memory, (Selector::Range { start: 0, stop: length, step: 1 })) == Ok::<
            ValueView,
            ViewError,
        >(ValueView::Sequence(elements(view.kind(), memory).skip(view.start() as int))),
{
    let all = elements(view.kind(), memory);
    assert(all.subrange(0, count as int) =~= all);
    assert(all.subrange(view.start() as int, view.start() + length) =~= all.skip(
        view.start() as int,
    ));
}

/// Growth is seen at once: when bytes are appended to the memory, every
/// element that was there keeps its value, no view gets shorter, and a view
/// that started inside the memory gains one position for each element gained.
pub proof fn lemma_growth_extends_view(view: TypedMemoryView, memory: Seq<u8>, added: Seq<u8>)
    ensures
        element_count(view.kind(), memory + added) >= element_count(view.kind(), memory),
        view.spec_length(memory + added) >= view.spec_length(memory),
        view.start() <= element_count(view.kind(), memory) ==> view.spec_length(memory + added)
            == view.spec_length(memory) + element_count(view.kind(), memory + added)
            - element_count(view.kind(), memory),
        forall|i: int|
            0 <= i < element_count(view.kind(), memory) ==> element_at(
                view.kind(),
                memory + added,
                i,
            ) == element_at(view.kind(), memory, i),
{
    let kind = view.kind();
    let w = kind.width() as int;
    let a = memory.len() as int;
    let b = (memory + added).len() as int;
    assert(a / w <= b / w) by (nonlinear_arith)
        requires
            w > 0,
            0 <= a <= b,
    ;
    assert forall|i: int| 0 <= i < element_count(kind, memory) implies element_at(
        kind,
        memory + added,
        i,
    ) == element_at(kind, memory, i) by {
        lemma_element_span(kind, memory, i);
        assert((memory + added).subrange(i * w, i * w + w) =~= memory.subrange(i * w, i * w + w));
    }
}

/// Appending whole elements to a memory that holds whole elements adds that
/// many elements, and a view that started inside the memory grows by as many.
pub proof fn lemma_growth_by_elements(
    view: TypedMemoryView,
    memory: Seq<u8>,
    added: Seq<u8>,
    gained: nat,
)
    requires
        memory.len() % view.kind().width() == 0,
        added.len() == gained * view.kind().width(),
    ensures
        element_count(view.kind(), memory + added) == element_count(view.kind(), memory) + gained,
        view.start() <= element_count(view.kind(), memory) ==> view.spec_length(memory + added)
            == view.spec_length(memory) + gained,
{
    let w = view.kind().width() as int;
    let a = memory.len() as int;
    let g = gained as int;
    assert((a + g * w) / w == a / w + g) by (nonlinear_arith)
        requires
            w > 0,
            a >= 0,
            g >= 0,
            a % w == 0,
    ;
}

/// `set` leaves the memory as long as it was, whatever it is asked and
/// however it ends; so no view gets shorter or longer by it.
pub proof fn lemma_set_keeps_extent(
    view: TypedMemoryView,
    memory: Seq<u8>,
    selector: Selector,
    value: ValueView,
)
    ensures
        view.set_outcome(memory, selector, value).0.len() == memory.len(),
        view.spec_length(view.set_outcome(memory, selector, value).0) == view.spec_length(memory),
{
    match (selector, value) {
        (Selector::Index(index), ValueView::Scalar(v)) => {
            lemma_store_len(view.kind(), memory, view.start() + index, v);
        },
        (Selector::Range { start, stop, step }, ValueView::Sequence(values)) => {
            let after = view.set_outcome(memory, selector, value).0;
            if after != memory {
                let planned = slice_len(start as int, stop as int, step as int);
                let limit = if planned <= values.len() {
                    planned as nat
                } else {
                    values.len()
                };
                let done = view.writes_applied(memory, start as int, step as int, values, limit, 0);
                lemma_after_writes_len(view, memory, start as int, step as int, values, done);
            }
        },
        _ => {},
    }
}

/// The writes of a slice write leave the memory as long as it was.
pub proof fn lemma_after_writes_len(
    view: TypedMemoryView,
    memory: Seq<u8>,
    first: int,
    step: int,
    values: Seq<int>,
    count: nat,
)
    ensures
        view.after_writes(memory, first, step, values, count).len() == memory.len(),
    decreases count,
{
    if count > 0 {
        lemma_after_writes_len(view, memory, first, step, values, (count - 1) as nat);
        lemma_store_len(
            view.kind(),
            view.after_writes(memory, first, step, values, (count - 1) as nat),
            view.target(first, step, count - 1),
            values[count - 1],
        );
    }
}

/// The run of a slice write stops at the first write that cannot be made:
/// `writes_applied` is at most the limit, every write below it can be made,
/// and the write at it cannot, unless it is the limit.
pub proof fn lemma_writes_applied(
    view: TypedMemoryView,
    memory: Seq<u8>,
    first: int,
    step: int,
    values: Seq<int>,
    limit: nat,
    done: nat,
)
    requires
        done <= limit,
    ensures
        done <= view.writes_applied(memory, first, step, values, limit, done) <= limit,
        forall|j: int|
            done <= j < view.writes_applied(memory, first, step, values, limit, done)
                ==> view.can_write(memory, first + j * step, #[trigger] values[j]),
        view.writes_applied(memory, first, step, values, limit, done) < limit ==> !view.can_write(
            memory,
            first + view.writes_applied(memory, first, step, values, limit, done) * step,
            values[view.writes_applied(memory, first, step, values, limit, done) as int],
        ),
    decreases limit - done,
{
    if done < limit && view.can_write(memory, first + done * step, values[done as int]) {
        lemma_writes_applied(view, memory, first, step, values, limit, done + 1);
    }
}

/// What a slice write leaves behind: after its first `count` writes, each of
/// which could be made, position `first + j * step` holds `values[j]` for
/// every `j` below `count`, and every element that no write went to is as it
/// was.
pub proof fn lemma_after_writes_elements(
    view: TypedMemoryView,
    memory: Seq<u8>,
    first: int,
    step: int,
    values: Seq<int>,
    count: nat,
)
    requires
        first >= 0,
        step >= 1,
        forall|j: int|
            0 <= j < count ==> view.can_write(
                memory,
                first + j * step,
                #[trigger] values[j],
            ),
    ensures
        view.after_writes(memory, first, step, values, count).len() == memory.len(),
        forall|j: int|
            0 <= j < count ==> element_at(
                view.kind(),
                view.after_writes(memory, first, step, values, count),
                #[trigger] view.target(first, step, j),
            ) == values[j],
        forall|e: int|
            0 <= e < element_count(view.kind(), memory) && (forall|j: int|
                0 <= j < count ==> #[trigger] view.target(first, step, j) != e) ==> element_at(
                view.kind(),
                view.after_writes(memory, first, step, values, count),
                e,
            ) == element_at(view.kind(), memory, e),
    decreases count,
{
    lemma_after_writes_len(view, memory, first, step, values, count);
    if count > 0 {
        let kind = view.kind();
        let last = count - 1;
        let earlier = view.after_writes(memory, first, step, values, last as nat);
        let after = view.after_writes(memory, first, step, values, count);
        let at = view.target(first, step, last);
        lemma_after_writes_elements(view, memory, first, step, values, last as nat);
        assert(view.can_write(memory, first + last * step, values[last]));
        assert(last * step >= 0) by (nonlinear_arith)
            requires
                last >= 0,
                step >= 1,
        ;
        lemma_store_reads_back(kind, earlier, at, values[last]);
        assert forall|j: int| 0 <= j < count implies element_at(
            kind,
            after,
            #[trigger] view.target(first, step, j),
        ) == values[j] by {
            if j < last {
                assert(j * step < last * step) by (nonlinear_arith)
                    requires
                        0 <= j < last,
                        step >= 1,
                ;
                assert(j * step >= 0) by (nonlinear_arith)
                    requires
                        j >= 0,
                        step >= 1,
                ;
                assert(view.can_write(memory, first + j * step, values[j]));
                lemma_store_keeps_others(kind, earlier, at, values[last], view.target(first, step, j));
            }
        }
        assert forall|e: int|
            0 <= e < element_count(kind, memory) && (forall|j: int|
                0 <= j < count ==> #[trigger] view.target(first, step, j) != e) implies element_at(
            kind,
            after,
            e,
        ) == element_at(kind, memory, e) by {
            assert(view.target(first, step, last) != e);
            lemma_store_keeps_others(kind, earlier, at, values[last], e);
        }
    }
}

/// A slice write pairs positions and values in order until either runs out
/// or a write cannot be made. It succeeds exactly when none failed. However it
/// ends, each position it got to holds its value, and every element it did
/// not get to is as it was: those of the range past the last value, those
/// between the steps, and those from the failed write on.
pub proof fn lemma_slice_write(
    view: TypedMemoryView,
    memory: Seq<u8>,
    start: usize,
    stop: usize,
    step: isize,
    values: Seq<int>,
)
    requires
        start < stop,
        step >= 1,
        slice_len(start as int, stop as int, step as int) <= view.spec_length(memory),
    ensures
        ({
            let planned = slice_len(start as int, stop as int, step as int);
            let limit = if planned <= values.len() {
                planned as nat
            } else {
                values.len()
            };
            let done = view.writes_applied(memory, start as int, step as int, values, limit, 0);
            let outcome = view.set_outcome(
                memory,
                (Selector::Range { start, stop, step }),
                ValueView::Sequence(values),
            );
            &&& done <= limit
            &&& outcome.0 == view.after_writes(memory, start as int, step as int, values, done)
            &&& outcome.0.len() == memory.len()
            &&& outcome.1 is Ok <==> done == limit
            &&& forall|j: int|
                0 <= j < done ==> element_at(
                    view.kind(),
                    outcome.0,
                    #[trigger] view.target(start as int, step as int, j),
                ) == values[j]
            &&& forall|e: int|
                0 <= e < element_count(view.kind(), memory) && (forall|j: int|
                    0 <= j < done ==> #[trigger] view.target(start as int, step as int, j) != e)
                    ==> element_at(view.kind(), outcome.0, e) == element_at(view.kind(), memory, e)
        }),
{
    let planned = slice_len(start as int, stop as int, step as int);
    let limit = if planned <= values.len() {
        planned as nat
    } else {
        values.len()
    };
    lemma_writes_applied(view, memory, start as int, step as int, values, limit, 0);
    let done = view.writes_applied(memory, start as int, step as int, values, limit, 0);
    lemma_after_writes_elements(view, memory, start as int, step as int, values, done);
}

} // verus!
