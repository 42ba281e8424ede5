//! Linear memory seen as a sequence of typed elements.
//!
//! A memory is a run of bytes. Under an element type of width `w` it holds
//! `len / w` elements; element `i` occupies the bytes from `i * w` up to
//! `(i + 1) * w`, least significant byte first. Bytes past the last whole
//! element belong to no element.

use crate::element::ElementType;
use crate::encoding::{
    decode, encode, le_bytes, le_value, lemma_decode_admits, lemma_decode_encode,
    lemma_le_bytes_len, lemma_le_value_bound, lemma_radix_bound,
};
use vstd::prelude::*;

verus! {

/// Number of whole elements of type `kind` in `memory`.
pub open spec fn element_count(kind: ElementType, memory: Seq<u8>) -> nat {
    memory.len() / kind.width()
}

/// The bytes of element `index`.
pub open spec fn element_bytes(kind: ElementType, memory: Seq<u8>, index: int) -> Seq<u8> {
    memory.subrange(index * kind.width(), index * kind.width() + kind.width())
}

/// The value of element `index`.
pub open spec fn element_at(kind: ElementType, memory: Seq<u8>, index: int) -> int {
    decode(kind, element_bytes(kind, memory, index))
}

/// All elements of `memory`, in address order.
pub open spec fn elements(kind: ElementType, memory: Seq<u8>) -> Seq<int> {
    Seq::new(element_count(kind, memory), |i: int| element_at(kind, memory, i))
}

/// `memory` after `value` has been written to element `index`: the bytes of
/// that element are replaced by the encoding of `value`, all others stay.
pub open spec fn store(kind: ElementType, memory: Seq<u8>, index: int, value: int) -> Seq<u8> {
    let base = index * kind.width();
    Seq::new(
        memory.len(),
        |a: int|
            if base <= a < base + kind.width() {
                encode(kind, value)[a - base]
            } else {
                memory[a]
            },
    )
}

/// The bytes of an element that exists lie inside the memory.
pub proof fn lemma_element_span(kind: ElementType, memory: Seq<u8>, index: int)
    requires
        0 <= index < element_count(kind, memory),
    ensures
        0 <= index * kind.width(),
        index * kind.width() + kind.width() <= memory.len(),
        element_bytes(kind, memory, index).len() == kind.width(),
{
    let w = kind.width() as int;
    let len = memory.len() as int;
    assert(0 <= index * w && index * w + w <= len) by (nonlinear_arith)
        requires
            w > 0,
            0 <= index < len / w,
    ;
}

/// Two different elements share no byte.
pub proof fn lemma_elements_disjoint(kind: ElementType, first: int, second: int)
    requires
        first < second,
    ensures
        first * kind.width() + kind.width() <= second * kind.width(),
{
    let w = kind.width() as int;
    assert(first * w + w <= second * w) by (nonlinear_arith)
        requires
            w > 0,
            first < second,
    ;
}

/// A write changes neither the length of the memory nor its element count.
pub proof fn lemma_store_len(kind: ElementType, memory: Seq<u8>, index: int, value: int)
    ensures
        store(kind, memory, index, value).len() == memory.len(),
        element_count(kind, store(kind, memory, index, value)) == element_count(kind, memory),
{
}

/// The element just written holds the value written.
pub proof fn lemma_store_reads_back(kind: ElementType, memory: Seq<u8>, index: int, value: int)
    requires
        0 <= index < element_count(kind, memory),
        kind.admits(value),
    ensures
        element_at(kind, store(kind, memory, index, value), index) == value,
{
    lemma_element_span(kind, memory, index);
    lemma_decode_encode(kind, value);
    assert(element_bytes(kind, store(kind, memory, index, value), index) =~= encode(kind, value));
}

/// A write leaves every other element as it was.
pub proof fn lemma_store_keeps_others(
    kind: ElementType,
    memory: Seq<u8>,
    index: int,
    value: int,
    other: int,
)
    requires
        0 <= index,
        0 <= other < element_count(kind, memory),
        other != index,
    ensures
        element_at(kind, store(kind, memory, index, value), other) == element_at(
            kind,
            memory,
            other,
        ),
{
    lemma_element_span(kind, memory, other);
    if other < index {
        lemma_elements_disjoint(kind, other, index);
    } else {
        lemma_elements_disjoint(kind, index, other);
    }
    assert(element_bytes(kind, store(kind, memory, index, value), other) =~= element_bytes(
        kind,
        memory,
        other,
    ));
}

/// Number of whole elements of type `kind` that `memory` holds now.
pub fn raw_element_count(kind: ElementType, memory: &[u8]) -> (count: usize)
    ensures
        count == element_count(kind, memory@),
{
    memory.len() / (kind.bytes_per_element() as usize)
}

/// Reads element `index`.
pub fn read_element(kind: ElementType, memory: &[u8], index: usize) -> (value: i128)
    requires
        index < element_count(kind, memory@),
    ensures
        value == element_at(kind, memory@, index as int),
        kind.admits(value as int),
{
    let width = kind.bytes_per_element() as usize;
    proof {
        lemma_element_span(kind, memory@, index as int);
        assert(index * width == (index as int) * kind.width());
        assert(memory@.len() == memory.len());
    }
    let base = index * width;
    let ghost bytes = element_bytes(kind, memory@, index as int);
    let mut raw: u128 = 0;
    let mut j: usize = width;
    while j > 0
        invariant
            j <= width <= 8,
            width == kind.width(),
            base + width <= memory.len(),
            bytes == memory@.subrange(base as int, base + width),
            raw == le_value(bytes.skip(j as int)),
        decreases j,
    {
        proof {
            lemma_le_value_bound(bytes.skip(j as int));
            lemma_radix_bound((width - j) as nat);
            assert(bytes.skip(j - 1).drop_first() =~= bytes.skip(j as int));
        }
        j -= 1;
        raw = raw * 256 + memory[base + j] as u128;
    }
    proof {
        assert(bytes.skip(0) =~= bytes);
        lemma_decode_admits(kind, bytes);
    }
    let span = kind.span();
    if kind.signed() && raw as i128 >= span / 2 {
        raw as i128 - span
    } else {
        raw as i128
    }
}

/// Writes `value` to element `index`.
pub fn write_element(kind: ElementType, memory: &mut Vec<u8>, index: usize, value: i128)
    requires
        index < element_count(kind, old(memory)@),
        kind.admits(value as int),
    ensures
        final(memory)@ == store(kind, old(memory)@, index as int, value as int),
{
    let width = kind.bytes_per_element() as usize;
    proof {
        lemma_element_span(kind, memory@, index as int);
        assert(index * width == (index as int) * kind.width());
        assert(memory@.len() == memory.len());
    }
    let base = index * width;
    let start: u128 = if value < 0 {
        (value + kind.span()) as u128
    } else {
        value as u128
    };
    let ghost before = memory@;
    let ghost bytes = encode(kind, value as int);
    proof {
        lemma_le_bytes_len(start as nat, width as nat);
    }
    let mut raw = start;
    let mut j: usize = 0;
    while j < width
        invariant
            j <= width,
            width == kind.width(),
            base + width <= memory.len(),
            memory.len() == before.len(),
            bytes.len() == width,
            le_bytes(raw as nat, (width - j) as nat) == bytes.skip(j as int),
            forall|a: int|
                0 <= a < memory.len() ==> memory@[a] == (if base <= a < base + j {
                    bytes[a - base]
                } else {
                    before[a]
                }),
        decreases width - j,
    {
        proof {
            let rest = le_bytes(raw as nat / 256, (width - j - 1) as nat);
            assert(bytes.skip(j as int)[0] == (raw % 256) as u8);
            assert(bytes.skip(j + 1) =~= bytes.skip(j as int).drop_first());
            assert(bytes.skip(j as int).drop_first() =~= rest);
        }
        memory.set(base + j, (raw % 256) as u8);
        raw = raw / 256;
        j += 1;
    }
    assert(memory@ =~= store(kind, before, index as int, value as int));
}

} // verus!
