//! Level 8 blocks: creative-intent trim passes for one target display.
use vstd::prelude::*;

use bitvec_helpers::bitvec_reader::BitVecReader;
use bitvec_helpers::bitvec_writer::BitVecWriter;

use crate::bitstream::{
    available_bits, bits_of, field_at, lemma_bits_of_len, lemma_bits_value_bound,
    lemma_bits_value_of, lemma_field_widths, read_bits, two_pow, unread_bits, write_bits,
    written_bits,
};
use crate::block::ExtMetadataBlock;
use crate::error::{BlockError, Coefficient};

verus! {

/// The largest value of a 12-bit field.
pub const MAX_12_BIT_VALUE: u16 = 4095;

/// Creative intent trim passes per target display peak brightness.
/// For CM v4.0 only level 8 metadata is present, and level 2 is computed
/// from it.
#[derive(Debug, Clone, Copy, PartialEq, Eq, Structural)]
pub struct ExtMetadataBlockLevel8 {
    pub length: u64,
    pub target_display_index: u8,
    pub trim_slope: u16,
    pub trim_offset: u16,
    pub trim_power: u16,
    pub trim_chroma_weight: u16,
    pub trim_saturation_gain: u16,
    pub ms_weight: u16,
    pub target_mid_contrast: u16,
    pub clip_trim: u16,
}

/// The number of bits that a block of the given declared length occupies
/// on the wire: the mandatory fields, then one optional field from length
/// 11 on and a second from length 13 on.
pub open spec fn encoded_bits(length: u64) -> nat {
    80 + (if length >= 11 {
        12nat
    } else {
        0nat
    }) + (if length >= 13 {
        12nat
    } else {
        0nat
    })
}

/// The bit count that the outer container budgets for a block of the given
/// declared length. It reports 80 for length 11, unlike `encoded_bits`.
pub open spec fn required_bits_of(length: u64) -> u64 {
    if length == 13 {
        104
    } else if length == 12 {
        92
    } else {
        80
    }
}

impl ExtMetadataBlockLevel8 {
    pub open spec fn coefficient(self, c: Coefficient) -> u16 {
        match c {
            Coefficient::TrimSlope => self.trim_slope,
            Coefficient::TrimOffset => self.trim_offset,
            Coefficient::TrimPower => self.trim_power,
            Coefficient::TrimChromaWeight => self.trim_chroma_weight,
            Coefficient::TrimSaturationGain => self.trim_saturation_gain,
            Coefficient::MsWeight => self.ms_weight,
            Coefficient::TargetMidContrast => self.target_mid_contrast,
            Coefficient::ClipTrim => self.clip_trim,
        }
    }

    /// The record with one coefficient replaced.
    pub open spec fn with_coefficient(self, c: Coefficient, v: u16) -> Self {
        match c {
            Coefficient::TrimSlope => Self { trim_slope: v, ..self },
            Coefficient::TrimOffset => Self { trim_offset: v, ..self },
            Coefficient::TrimPower => Self { trim_power: v, ..self },
            Coefficient::TrimChromaWeight => Self { trim_chroma_weight: v, ..self },
            Coefficient::TrimSaturationGain => Self { trim_saturation_gain: v, ..self },
            Coefficient::MsWeight => Self { ms_weight: v, ..self },
            Coefficient::TargetMidContrast => Self { target_mid_contrast: v, ..self },
            Coefficient::ClipTrim => Self { clip_trim: v, ..self },
        }
    }

    /// The first coefficient, in wire order, that exceeds 12 bits.
    pub open spec fn first_out_of_range(self) -> Option<Coefficient> {
        if self.trim_slope > MAX_12_BIT_VALUE {
            Some(Coefficient::TrimSlope)
        } else if self.trim_offset > MAX_12_BIT_VALUE {
            Some(Coefficient::TrimOffset)
        } else if self.trim_power > MAX_12_BIT_VALUE {
            Some(Coefficient::TrimPower)
        } else if self.trim_chroma_weight > MAX_12_BIT_VALUE {
            Some(Coefficient::TrimChromaWeight)
        } else if self.trim_saturation_gain > MAX_12_BIT_VALUE {
            Some(Coefficient::TrimSaturationGain)
        } else if self.ms_weight > MAX_12_BIT_VALUE {
            Some(Coefficient::MsWeight)
        } else if self.target_mid_contrast > MAX_12_BIT_VALUE {
            Some(Coefficient::TargetMidContrast)
        } else if self.clip_trim > MAX_12_BIT_VALUE {
            Some(Coefficient::ClipTrim)
        } else {
            None
        }
    }

    /// Every coefficient, optional ones included, fits in 12 bits.
    pub open spec fn is_valid(self) -> bool {
        &&& self.trim_slope <= MAX_12_BIT_VALUE
        &&& self.trim_offset <= MAX_12_BIT_VALUE
        &&& self.trim_power <= MAX_12_BIT_VALUE
        &&& self.trim_chroma_weight <= MAX_12_BIT_VALUE
        &&& self.trim_saturation_gain <= MAX_12_BIT_VALUE
        &&& self.ms_weight <= MAX_12_BIT_VALUE
        &&& self.target_mid_contrast <= MAX_12_BIT_VALUE
        &&& self.clip_trim <= MAX_12_BIT_VALUE
    }

    /// The outcome of validation: the first offending coefficient, if any.
    pub open spec fn check(self) -> Result<(), BlockError> {
        match self.first_out_of_range() {
            None => Ok(()),
            Some(c) => Err(
                BlockError::OutOfRange {
                    field: c,
                    value: self.coefficient(c),
                    bound: MAX_12_BIT_VALUE,
                },
            ),
        }
    }

    /// The record that a stream starting with `bits` decodes to under the
    /// given declared length. Optional fields that are not present are zero.
    pub open spec fn decode(bits: Seq<bool>, length: u64) -> Self {
        ExtMetadataBlockLevel8 {
            length,
            target_display_index: field_at(bits, 0, 8) as u8,
            trim_slope: field_at(bits, 8, 12) as u16,
            trim_offset: field_at(bits, 20, 12) as u16,
            trim_power: field_at(bits, 32, 12) as u16,
            trim_chroma_weight: field_at(bits, 44, 12) as u16,
            trim_saturation_gain: field_at(bits, 56, 12) as u16,
            ms_weight: field_at(bits, 68, 12) as u16,
            target_mid_contrast: if length >= 11 {
                field_at(bits, 80, 12) as u16
            } else {
                0
            },
            clip_trim: if length >= 13 {
                field_at(bits, 92, 12) as u16
            } else {
                0
            },
        }
    }

    /// The wire form of the record: the mandatory fields, then the optional
    /// ones that its declared length calls for.
    pub open spec fn encode(self) -> Seq<bool> {
        bits_of(self.target_display_index as nat, 8) + bits_of(self.trim_slope as nat, 12)
            + bits_of(self.trim_offset as nat, 12) + bits_of(self.trim_power as nat, 12)
            + bits_of(self.trim_chroma_weight as nat, 12) + bits_of(
            self.trim_saturation_gain as nat,
            12,
        ) + bits_of(self.ms_weight as nat, 12) + (if self.length >= 11 {
            bits_of(self.target_mid_contrast as nat, 12)
        } else {
            Seq::empty()
        }) + (if self.length >= 13 {
            bits_of(self.clip_trim as nat, 12)
        } else {
            Seq::empty()
        })
    }
}

/// Reads one field of `width` bits at `offset` of the stream `bits`, of which
/// the reader has consumed the first `offset` bits.
fn read_field(
    reader: &mut BitVecReader,
    width: usize,
    Ghost(bits): Ghost<Seq<bool>>,
    Ghost(offset): Ghost<int>,
) -> (r: Result<u16, BlockError>)
    requires
        1 <= width <= 16,
        0 <= offset,
        offset + width <= bits.len(),
        unread_bits(*old(reader)) == bits.skip(offset),
    ensures
        r is Ok,
        r->Ok_0 as nat == field_at(bits, offset, width as int),
        r->Ok_0 < two_pow(width as nat),
        unread_bits(*final(reader)) == bits.skip(offset + width),
{
    proof {
        assert(bits.skip(offset).take(width as int) =~= bits.subrange(offset, offset + width));
        assert(bits.skip(offset).skip(width as int) =~= bits.skip(offset + width));
        lemma_bits_value_bound(bits.subrange(offset, offset + width));
    }
    match read_bits(reader, width) {
        Ok(v) => Ok(v),
        Err(_) => Err(
            BlockError::Truncated { needed: width as u64, available: available_bits(reader) as u64 },
        ),
    }
}

/// The encoded form of a record has the length that its declared length
/// calls for.
pub proof fn lemma_encode_len(r: ExtMetadataBlockLevel8)
    ensures
        r.encode().len() == encoded_bits(r.length),
{
    lemma_bits_of_len(r.target_display_index as nat, 8);
    lemma_bits_of_len(r.trim_slope as nat, 12);
    lemma_bits_of_len(r.trim_offset as nat, 12);
    lemma_bits_of_len(r.trim_power as nat, 12);
    lemma_bits_of_len(r.trim_chroma_weight as nat, 12);
    lemma_bits_of_len(r.trim_saturation_gain as nat, 12);
    lemma_bits_of_len(r.ms_weight as nat, 12);
    lemma_bits_of_len(r.target_mid_contrast as nat, 12);
    lemma_bits_of_len(r.clip_trim as nat, 12);
}

/// A field written at `offset` of a stream is read back from there.
proof fn lemma_field_read_back(s: Seq<bool>, offset: int, v: nat, width: nat)
    requires
        0 <= offset,
        offset + width <= s.len(),
        v < two_pow(width),
        s.subrange(offset, offset + width) == bits_of(v, width),
    ensures
        field_at(s, offset, width as int) == v,
{
    lemma_bits_value_of(v, width);
}

/// Round trip: a valid record with a declared length from 10 to 13, whose
/// absent optional coefficients are zero, is written as exactly
/// `encoded_bits(length)` bits, and parsing those bits, whatever follows them,
/// with the same length gives the record back field for field.
pub proof fn lemma_round_trip(r: ExtMetadataBlockLevel8, rest: Seq<bool>)
    requires
        r.is_valid(),
        10 <= r.length <= 13,
        r.length < 11 ==> r.target_mid_contrast == 0,
        r.length < 13 ==> r.clip_trim == 0,
    ensures
        r.encode().len() == encoded_bits(r.length),
        ExtMetadataBlockLevel8::decode(r.encode() + rest, r.length) == r,
{
    lemma_encode_len(r);
    lemma_field_widths();
    let s = r.encode() + rest;
    let b0 = bits_of(r.target_display_index as nat, 8);
    let b1 = bits_of(r.trim_slope as nat, 12);
    let b2 = bits_of(r.trim_offset as nat, 12);
    let b3 = bits_of(r.trim_power as nat, 12);
    let b4 = bits_of(r.trim_chroma_weight as nat, 12);
    let b5 = bits_of(r.trim_saturation_gain as nat, 12);
    let b6 = bits_of(r.ms_weight as nat, 12);
    let b7 = bits_of(r.target_mid_contrast as nat, 12);
    let b8 = bits_of(r.clip_trim as nat, 12);
    lemma_bits_of_len(r.target_display_index as nat, 8);
    lemma_bits_of_len(r.trim_slope as nat, 12);
    lemma_bits_of_len(r.trim_offset as nat, 12);
    lemma_bits_of_len(r.trim_power as nat, 12);
    lemma_bits_of_len(r.trim_chroma_weight as nat, 12);
    lemma_bits_of_len(r.trim_saturation_gain as nat, 12);
    lemma_bits_of_len(r.ms_weight as nat, 12);
    lemma_bits_of_len(r.target_mid_contrast as nat, 12);
    lemma_bits_of_len(r.clip_trim as nat, 12);
    assert(s.subrange(0, 8) =~= b0);
    assert(s.subrange(8, 20) =~= b1);
    assert(s.subrange(20, 32) =~= b2);
    assert(s.subrange(32, 44) =~= b3);
    assert(s.subrange(44, 56) =~= b4);
    assert(s.subrange(56, 68) =~= b5);
    assert(s.subrange(68, 80) =~= b6);
    lemma_field_read_back(s, 0, r.target_display_index as nat, 8);
    lemma_field_read_back(s, 8, r.trim_slope as nat, 12);
    lemma_field_read_back(s, 20, r.trim_offset as nat, 12);
    lemma_field_read_back(s, 32, r.trim_power as nat, 12);
    lemma_field_read_back(s, 44, r.trim_chroma_weight as nat, 12);
    lemma_field_read_back(s, 56, r.trim_saturation_gain as nat, 12);
    lemma_field_read_back(s, 68, r.ms_weight as nat, 12);
    if r.length >= 11 {
        assert(s.subrange(80, 92) =~= b7);
        lemma_field_read_back(s, 80, r.target_mid_contrast as nat, 12);
    }
    if r.length >= 13 {
        assert(s.subrange(92, 104) =~= b8);
        lemma_field_read_back(s, 92, r.clip_trim as nat, 12);
    }
}

/// Validation boundary: a coefficient of 4096 always fails validation, and
/// on a valid record a coefficient of 4095 still passes.
pub proof fn lemma_validation_boundary(r: ExtMetadataBlockLevel8, c: Coefficient)
    ensures
        !r.with_coefficient(c, 4096).is_valid(),
        r.with_coefficient(c, 4096).check() is Err,
        r.is_valid() ==> r.with_coefficient(c, 4095).is_valid(),
        r.is_valid() ==> r.with_coefficient(c, 4095).check() is Ok,
{
}

/// Conditional presence: with declared length 10 a block takes 80 bits and
/// its optional coefficients are zero; with length 13 it takes 104 bits and
/// every coefficient comes from the stream.
pub proof fn lemma_conditional_presence(bits: Seq<bool>)
    ensures
        encoded_bits(10) == 80,
        ExtMetadataBlockLevel8::decode(bits, 10).target_mid_contrast == 0,
        ExtMetadataBlockLevel8::decode(bits, 10).clip_trim == 0,
        encoded_bits(13) == 104,
        ExtMetadataBlockLevel8::decode(bits, 13).target_mid_contrast == field_at(bits, 80, 12)
            as u16,
        ExtMetadataBlockLevel8::decode(bits, 13).clip_trim == field_at(bits, 92, 12) as u16,
{
}

impl ExtMetadataBlockLevel8 {
    /// Decodes a level 8 block of the given declared length from the reader.
    /// Nothing is consumed when the reader holds too few bits.
    pub fn parse(reader: &mut BitVecReader, length: u64) -> (r: Result<ExtMetadataBlock, BlockError>)
        ensures
            r is Ok <==> encoded_bits(length) <= unread_bits(*old(reader)).len(),
            r is Ok ==> r->Ok_0 == ExtMetadataBlock::Level8(
                Self::decode(unread_bits(*old(reader)), length),
            ),
            r is Ok ==> unread_bits(*final(reader)) == unread_bits(*old(reader)).skip(
                encoded_bits(length) as int,
            ),
            r is Err ==> *final(reader) == *old(reader),
            r is Err ==> r->Err_0 == (BlockError::Truncated {
                needed: encoded_bits(length) as u64,
                available: unread_bits(*old(reader)).len() as u64,
            }),
    {
        let available = available_bits(reader);
        let needed: u64 = if length >= 13 {
            104
        } else if length >= 11 {
            92
        } else {
            80
        };
        if (available as u64) < needed {
            return Err(BlockError::Truncated { needed, available: available as u64 });
        }
        let ghost bits = unread_bits(*reader);
        proof {
            lemma_field_widths();
            assert(bits.skip(0) =~= bits);
        }
        let target_display_index = read_field(reader, 8, Ghost(bits), Ghost(0))?;
        let trim_slope = read_field(reader, 12, Ghost(bits), Ghost(8))?;
        let trim_offset = read_field(reader, 12, Ghost(bits), Ghost(20))?;
        let trim_power = read_field(reader, 12, Ghost(bits), Ghost(32))?;
        let trim_chroma_weight = read_field(reader, 12, Ghost(bits), Ghost(44))?;
        let trim_saturation_gain = read_field(reader, 12, Ghost(bits), Ghost(56))?;
        let ms_weight = read_field(reader, 12, Ghost(bits), Ghost(68))?;
        let mut level8 = ExtMetadataBlockLevel8 {
            length,
            target_display_index: target_display_index as u8,
            trim_slope,
            trim_offset,
            trim_power,
            trim_chroma_weight,
            trim_saturation_gain,
            ms_weight,
            target_mid_contrast: 0,
            clip_trim: 0,
        };
        if length >= 11 {
            level8.target_mid_contrast = read_field(reader, 12, Ghost(bits), Ghost(80))?;
            if length >= 13 {
                level8.clip_trim = read_field(reader, 12, Ghost(bits), Ghost(92))?;
            }
        }
        Ok(ExtMetadataBlock::Level8(level8))
    }
    /// Checks each coefficient, in wire order, against the 12-bit bound and
    /// reports the first one that exceeds it.
    pub fn validate(&self) -> (r: Result<(), BlockError>)
        ensures
            r == self.check(),
            r is Ok <==> self.is_valid(),
    {
        let fields: [(Coefficient, u16); 8] = [
            (Coefficient::TrimSlope, self.trim_slope),
            (Coefficient::TrimOffset, self.trim_offset),
            (Coefficient::TrimPower, self.trim_power),
            (Coefficient::TrimChromaWeight, self.trim_chroma_weight),
            (Coefficient::TrimSaturationGain, self.trim_saturation_gain),
            (Coefficient::MsWeight, self.ms_weight),
            (Coefficient::TargetMidContrast, self.target_mid_contrast),
            (Coefficient::ClipTrim, self.clip_trim),
        ];
        let mut i: usize = 0;
        while i < 8
            invariant
                0 <= i <= 8,
                fields@ == seq![
                    (Coefficient::TrimSlope, self.trim_slope),
                    (Coefficient::TrimOffset, self.trim_offset),
                    (Coefficient::TrimPower, self.trim_power),
                    (Coefficient::TrimChromaWeight, self.trim_chroma_weight),
                    (Coefficient::TrimSaturationGain, self.trim_saturation_gain),
                    (Coefficient::MsWeight, self.ms_weight),
                    (Coefficient::TargetMidContrast, self.target_mid_contrast),
                    (Coefficient::ClipTrim, self.clip_trim),
                ],
                forall|j: int| 0 <= j < i ==> fields@[j].1 <= MAX_12_BIT_VALUE,
            decreases 8 - i,
        {
            let (field, value) = fields[i];
            if value > MAX_12_BIT_VALUE {
                return Err(BlockError::OutOfRange { field, value, bound: MAX_12_BIT_VALUE });
            }
            i = i + 1;
        }
        Ok(())
    }

    /// Writes the block, after validating it. Nothing is written when
    /// validation fails.
    pub fn write(&self, writer: &mut BitVecWriter) -> (r: Result<(), BlockError>)
        ensures
            r == self.check(),
            r is Ok ==> written_bits(*final(writer)) == written_bits(*old(writer)) + self.encode(),
            r is Err ==> *final(writer) == *old(writer),
    {
        self.validate()?;
        let ghost start = written_bits(*writer);
        write_bits(writer, self.target_display_index as u16, 8);
        write_bits(writer, self.trim_slope, 12);
        write_bits(writer, self.trim_offset, 12);
        write_bits(writer, self.trim_power, 12);
        write_bits(writer, self.trim_chroma_weight, 12);
        write_bits(writer, self.trim_saturation_gain, 12);
        write_bits(writer, self.ms_weight, 12);
        if self.length >= 11 {
            write_bits(writer, self.target_mid_contrast, 12);
            if self.length >= 13 {
                write_bits(writer, self.clip_trim, 12);
            }
        }
        assert(written_bits(*writer) =~= start + self.encode());
        Ok(())
    }

    pub fn level(&self) -> (r: u8)
        ensures
            r == 8,
    {
        8
    }

    /// The declared length, as it was given.
    pub fn bytes_size(&self) -> (r: u64)
        ensures
            r == self.length,
    {
        self.length
    }

    pub fn required_bits(&self) -> (r: u64)
        ensures
            r == required_bits_of(self.length),
    {
        if self.length == 13 {
            104
        } else if self.length == 12 {
            92
        } else {
            80
        }
    }

    /// The key of the canonical order: level, then target display.
    pub fn sort_key(&self) -> (r: (u8, u16))
        ensures
            r == (8u8, self.target_display_index as u16),
    {
        (self.level(), self.target_display_index as u16)
    }
}

/// Target display: 1000 nits, wide gamut with a D65 white point, ST.2084,
/// full range, home viewing.
impl Default for ExtMetadataBlockLevel8 {
    fn default() -> (r: Self)
        ensures
            r == (ExtMetadataBlockLevel8 {
                length: 10,
                target_display_index: 48,
                trim_slope: 2048,
                trim_offset: 2048,
                trim_power: 2048,
                trim_chroma_weight: 2048,
                trim_saturation_gain: 2048,
                ms_weight: 2048,
                target_mid_contrast: 0,
                clip_trim: 0,
            }),
    {
        ExtMetadataBlockLevel8 {
            length: 10,
            target_display_index: 48,
            trim_slope: 2048,
            trim_offset: 2048,
            trim_power: 2048,
            trim_chroma_weight: 2048,
            trim_saturation_gain: 2048,
            ms_weight: 2048,
            target_mid_contrast: 0,
            clip_trim: 0,
        }
    }
}

} // verus!
