//! Little-endian encoding of element values, as a mathematical model with
//! the facts the rest of the crate builds on.

use crate::element::ElementType;
use vstd::prelude::*;

verus! {

/// The unsigned number that `bytes` spell, least significant byte first.
pub open spec fn le_value(bytes: Seq<u8>) -> nat
    decreases bytes.len(),
{
    if bytes.len() == 0 {
        0
    } else {
        bytes[0] as nat + 256 * le_value(bytes.drop_first())
    }
}

/// The `width` low bytes of `value`, least significant byte first.
pub open spec fn le_bytes(value: nat, width: nat) -> Seq<u8>
    decreases width,
{
    if width == 0 {
        Seq::empty()
    } else {
        seq![(value % 256) as u8].add(le_bytes(value / 256, (width - 1) as nat))
    }
}

/// 256 to the power `width`.
pub open spec fn radix(width: nat) -> nat
    decreases width,
{
    if width == 0 {
        1
    } else {
        256 * radix((width - 1) as nat)
    }
}

/// The value of the element that `bytes` hold: unsigned, or two's complement
/// for a signed element type.
pub open spec fn decode(kind: ElementType, bytes: Seq<u8>) -> int {
    let raw = le_value(bytes) as int;
    if kind.is_signed() && raw >= kind.modulus() / 2 {
        raw - kind.modulus()
    } else {
        raw
    }
}

/// The bytes that hold `value` in an element of type `kind`.
pub open spec fn encode(kind: ElementType, value: int) -> Seq<u8> {
    let raw = if value < 0 {
        value + kind.modulus()
    } else {
        value
    };
    le_bytes(raw as nat, kind.width())
}

/// An element type has as many bit patterns as its width allows.
pub proof fn lemma_modulus_is_radix(kind: ElementType)
    ensures
        kind.modulus() == radix(kind.width()),
{
    reveal_with_fuel(radix, 9);
}

/// Up to eight bytes spell a number below 2 to the power 64.
pub proof fn lemma_radix_bound(width: nat)
    requires
        width <= 8,
    ensures
        0 < radix(width) <= 0x1_0000_0000_0000_0000,
{
    reveal_with_fuel(radix, 9);
}

/// `le_bytes` yields exactly `width` bytes.
pub proof fn lemma_le_bytes_len(value: nat, width: nat)
    ensures
        le_bytes(value, width).len() == width,
    decreases width,
{
    if width > 0 {
        lemma_le_bytes_len(value / 256, (width - 1) as nat);
    }
}

/// The number that a run of bytes spells is below 256 to the power of its length.
pub proof fn lemma_le_value_bound(bytes: Seq<u8>)
    ensures
        le_value(bytes) < radix(bytes.len()),
    decreases bytes.len(),
{
    if bytes.len() > 0 {
        lemma_le_value_bound(bytes.drop_first());
    }
}

/// Spelling a number in enough bytes and reading them back gives the number.
pub proof fn lemma_le_round_trip(value: nat, width: nat)
    requires
        value < radix(width),
    ensures
        le_value(le_bytes(value, width)) == value,
    decreases width,
{
    if width > 0 {
        let rest = le_bytes(value / 256, (width - 1) as nat);
        let all = le_bytes(value, width);
        lemma_le_round_trip(value / 256, (width - 1) as nat);
        assert(all.drop_first() =~= rest);
        assert(all[0] == (value % 256) as u8);
    }
}

/// Every run of `width` bytes holds a value that the element type admits.
pub proof fn lemma_decode_admits(kind: ElementType, bytes: Seq<u8>)
    requires
        bytes.len() == kind.width(),
    ensures
        kind.admits(decode(kind, bytes)),
{
    lemma_le_value_bound(bytes);
    lemma_modulus_is_radix(kind);
}

/// An admitted value survives being encoded and decoded.
pub proof fn lemma_decode_encode(kind: ElementType, value: int)
    requires
        kind.admits(value),
    ensures
        encode(kind, value).len() == kind.width(),
        decode(kind, encode(kind, value)) == value,
{
    let raw = if value < 0 {
        value + kind.modulus()
    } else {
        value
    };
    lemma_modulus_is_radix(kind);
    lemma_le_bytes_len(raw as nat, kind.width());
    lemma_le_round_trip(raw as nat, kind.width());
}

} // verus!
