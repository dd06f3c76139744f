//! The bit cursor: a sequential, MSB-first reader and writer of unsigned
//! fields, backed by `bitvec_helpers`.
//!
//! A reader is modelled by the bits it has not consumed yet, a writer by the
//! bits it holds. Fields are unsigned integers whose first bit is the most
//! significant one.
use vstd::prelude::*;

use bitvec_helpers::bitvec_reader::BitVecReader;
use bitvec_helpers::bitvec_writer::BitVecWriter;

verus! {

#[verifier::external_type_specification]
#[verifier::external_body]
pub struct ExBitVecReader(BitVecReader);

#[verifier::external_type_specification]
#[verifier::external_body]
pub struct ExBitVecWriter(BitVecWriter);

#[verifier::external_type_specification]
#[verifier::external_body]
pub struct ExAnyhowError(anyhow::Error);

/// The bits that a reader has not consumed yet, in stream order.
pub uninterp spec fn unread_bits(r: BitVecReader) -> Seq<bool>;

/// The bits that a writer holds, in stream order.
pub uninterp spec fn written_bits(w: BitVecWriter) -> Seq<bool>;

/// `2` to the power `n`.
pub open spec fn two_pow(n: nat) -> nat
    decreases n,
{
    if n == 0 {
        1
    } else {
        2 * two_pow((n - 1) as nat)
    }
}

/// The unsigned value of a bit sequence, first bit most significant.
pub open spec fn bits_value(s: Seq<bool>) -> nat
    decreases s.len(),
{
    if s.len() == 0 {
        0
    } else {
        2 * bits_value(s.drop_last()) + if s.last() {
            1nat
        } else {
            0nat
        }
    }
}

/// The `n` lowest bits of `v`, most significant first.
pub open spec fn bits_of(v: nat, n: nat) -> Seq<bool>
    decreases n,
{
    if n == 0 {
        Seq::empty()
    } else {
        bits_of(v / 2, (n - 1) as nat).push(v % 2 == 1)
    }
}

/// The value of the `width` bits that start at `offset`.
pub open spec fn field_at(s: Seq<bool>, offset: int, width: int) -> nat {
    bits_value(s.subrange(offset, offset + width))
}

pub proof fn lemma_bits_of_len(v: nat, n: nat)
    ensures
        bits_of(v, n).len() == n,
    decreases n,
{
    if n > 0 {
        lemma_bits_of_len(v / 2, (n - 1) as nat);
    }
}

/// A value of `n` bits fits below `2^n`.
pub proof fn lemma_bits_value_bound(s: Seq<bool>)
    ensures
        bits_value(s) < two_pow(s.len()),
    decreases s.len(),
{
    if s.len() > 0 {
        lemma_bits_value_bound(s.drop_last());
    }
}

/// Writing the `n` low bits of a value below `2^n` and reading them back
/// gives the value.
pub proof fn lemma_bits_value_of(v: nat, n: nat)
    requires
        v < two_pow(n),
    ensures
        bits_value(bits_of(v, n)) == v,
    decreases n,
{
    if n > 0 {
        let m = (n - 1) as nat;
        lemma_bits_of_len(v / 2, m);
        lemma_bits_value_of(v / 2, m);
        assert(bits_of(v, n).drop_last() =~= bits_of(v / 2, m));
    }
}

pub proof fn lemma_field_widths()
    ensures
        two_pow(8) == 256,
        two_pow(12) == 4096,
        two_pow(16) == 65536,
{
    reveal_with_fuel(two_pow, 17);
}

/// Relies on `BitVecReader::available`: the number of bits not consumed yet.
#[verifier::external_body]
pub(crate) fn available_bits(reader: &BitVecReader) -> (r: usize)
    ensures
        r == unread_bits(*reader).len(),
{
    reader.available()
}

/// Relies on `BitVecReader::get_n`: it fails without moving when fewer than
/// `width` bits remain; otherwise it consumes `width` bits and returns them
/// as a big-endian integer. `width` must lie in `1..=16`, as `load_be::<u16>`
/// panics outside that range.
#[verifier::external_body]
pub(crate) fn read_bits(reader: &mut BitVecReader, width: usize) -> (r: Result<u16, anyhow::Error>)
    requires
        1 <= width <= 16,
    ensures
        r is Ok <==> width <= unread_bits(*old(reader)).len(),
        r is Ok ==> r->Ok_0 as nat == bits_value(unread_bits(*old(reader)).take(width as int)),
        r is Ok ==> unread_bits(*final(reader)) == unread_bits(*old(reader)).skip(width as int),
        r is Err ==> unread_bits(*final(reader)) == unread_bits(*old(reader)),
{
    reader.get_n::<u16>(width)
}

/// Relies on `BitVecWriter::write_n`: for `width <= 16` it appends the
/// `width` low bits of `value`, most significant first.
#[verifier::external_body]
pub(crate) fn write_bits(writer: &mut BitVecWriter, value: u16, width: usize)
    requires
        width <= 16,
    ensures
        written_bits(*final(writer)) == written_bits(*old(writer)) + bits_of(
            value as nat,
            width as nat,
        ),
{
    writer.write_n(&value, width)
}

} // verus!
