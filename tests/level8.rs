use bitvec_helpers::bitvec_reader::BitVecReader;
use bitvec_helpers::bitvec_writer::BitVecWriter;
use dolby_vision::block::{canonical_order, sort_blocks};
use dolby_vision::{BlockError, Coefficient, ExtMetadataBlock, ExtMetadataBlockLevel8};

fn sample(length: u64) -> ExtMetadataBlockLevel8 {
    ExtMetadataBlockLevel8 {
        length,
        target_display_index: 0xA5,
        trim_slope: 0x123,
        trim_offset: 0xFFF,
        trim_power: 0,
        trim_chroma_weight: 0x800,
        trim_saturation_gain: 0x7FF,
        ms_weight: 0x001,
        target_mid_contrast: if length >= 11 { 0xABC } else { 0 },
        clip_trim: if length >= 13 { 0xFED } else { 0 },
    }
}

fn encode(block: &ExtMetadataBlockLevel8) -> Vec<u8> {
    let mut writer = BitVecWriter::new();
    block.write(&mut writer).unwrap();
    writer.as_slice().to_vec()
}

fn set(block: &mut ExtMetadataBlockLevel8, c: Coefficient, v: u16) {
    match c {
        Coefficient::TrimSlope => block.trim_slope = v,
        Coefficient::TrimOffset => block.trim_offset = v,
        Coefficient::TrimPower => block.trim_power = v,
        Coefficient::TrimChromaWeight => block.trim_chroma_weight = v,
        Coefficient::TrimSaturationGain => block.trim_saturation_gain = v,
        Coefficient::MsWeight => block.ms_weight = v,
        Coefficient::TargetMidContrast => block.target_mid_contrast = v,
        Coefficient::ClipTrim => block.clip_trim = v,
    }
}

const ALL: [Coefficient; 8] = [
    Coefficient::TrimSlope,
    Coefficient::TrimOffset,
    Coefficient::TrimPower,
    Coefficient::TrimChromaWeight,
    Coefficient::TrimSaturationGain,
    Coefficient::MsWeight,
    Coefficient::TargetMidContrast,
    Coefficient::ClipTrim,
];

#[test]
fn round_trip_all_lengths() {
    for length in 10..=13u64 {
        let block = sample(length);
        let mut writer = BitVecWriter::new();
        assert_eq!(block.write(&mut writer), Ok(()));
        let bits = writer.written_bits();
        let mut reader = BitVecReader::new(writer.as_slice().to_vec());
        let parsed = ExtMetadataBlockLevel8::parse(&mut reader, length).unwrap();
        assert_eq!(parsed, ExtMetadataBlock::Level8(block));
        assert_eq!(reader.position(), bits);
    }
}

#[test]
fn write_default_exact_bytes() {
    let bytes = encode(&ExtMetadataBlockLevel8::default());
    assert_eq!(bytes, vec![0x30, 0x80, 0x08, 0x00, 0x80, 0x08, 0x00, 0x80, 0x08, 0x00]);
}

#[test]
fn write_optional_fields_exact_bytes() {
    let mut block = ExtMetadataBlockLevel8::default();
    block.length = 13;
    block.target_mid_contrast = 0xABC;
    block.clip_trim = 0x00F;
    let bytes = encode(&block);
    assert_eq!(bytes.len(), 13);
    assert_eq!(&bytes[10..], &[0xAB, 0xC0, 0x0F]);
}

#[test]
fn parse_exact_fields() {
    let data = vec![0x01, 0x00, 0x20, 0x03, 0x00, 0x40, 0x05, 0x00, 0x60, 0x07, 0x00, 0x80, 0x09];
    let mut reader = BitVecReader::new(data);
    let parsed = ExtMetadataBlockLevel8::parse(&mut reader, 13).unwrap();
    let ExtMetadataBlock::Level8(b) = parsed;
    assert_eq!(b.length, 13);
    assert_eq!(b.target_display_index, 1);
    assert_eq!(b.trim_slope, 2);
    assert_eq!(b.trim_offset, 3);
    assert_eq!(b.trim_power, 4);
    assert_eq!(b.trim_chroma_weight, 5);
    assert_eq!(b.trim_saturation_gain, 6);
    assert_eq!(b.ms_weight, 7);
    assert_eq!(b.target_mid_contrast, 8);
    assert_eq!(b.clip_trim, 9);
}

#[test]
fn validation_boundary() {
    for c in ALL {
        let mut block = sample(13);
        set(&mut block, c, 4095);
        assert_eq!(block.validate(), Ok(()));
        set(&mut block, c, 4096);
        assert_eq!(
            block.validate(),
            Err(BlockError::OutOfRange { field: c, value: 4096, bound: 4095 })
        );
        let mut writer = BitVecWriter::new();
        assert!(block.write(&mut writer).is_err());
        assert_eq!(writer.written_bits(), 0);
    }
}

#[test]
fn validate_reports_first_offending_field() {
    let mut block = ExtMetadataBlockLevel8::default();
    block.ms_weight = 5000;
    block.trim_power = 4100;
    assert_eq!(
        block.validate(),
        Err(BlockError::OutOfRange { field: Coefficient::TrimPower, value: 4100, bound: 4095 })
    );
}

#[test]
fn validate_checks_absent_optional_fields() {
    let mut block = ExtMetadataBlockLevel8::default();
    block.clip_trim = 4096;
    assert_eq!(
        block.validate(),
        Err(BlockError::OutOfRange { field: Coefficient::ClipTrim, value: 4096, bound: 4095 })
    );
}

#[test]
fn conditional_presence_length_10() {
    let mut reader = BitVecReader::new(vec![0xFF; 16]);
    let ExtMetadataBlock::Level8(b) = ExtMetadataBlockLevel8::parse(&mut reader, 10).unwrap();
    assert_eq!(reader.position(), 80);
    assert_eq!(b.target_mid_contrast, 0);
    assert_eq!(b.clip_trim, 0);
    assert_eq!(b.ms_weight, 4095);
}

#[test]
fn conditional_presence_length_11_and_12() {
    for length in [11u64, 12] {
        let mut reader = BitVecReader::new(vec![0xFF; 16]);
        let ExtMetadataBlock::Level8(b) =
            ExtMetadataBlockLevel8::parse(&mut reader, length).unwrap();
        assert_eq!(reader.position(), 92);
        assert_eq!(b.target_mid_contrast, 4095);
        assert_eq!(b.clip_trim, 0);
    }
}

#[test]
fn conditional_presence_length_13() {
    let mut reader = BitVecReader::new(vec![0xFF; 16]);
    let ExtMetadataBlock::Level8(b) = ExtMetadataBlockLevel8::parse(&mut reader, 13).unwrap();
    assert_eq!(reader.position(), 104);
    assert_eq!(b.target_display_index, 255);
    assert_eq!(b.target_mid_contrast, 4095);
    assert_eq!(b.clip_trim, 4095);
}

#[test]
fn parse_truncated_consumes_nothing() {
    let mut reader = BitVecReader::new(vec![0xFF; 12]);
    let r = ExtMetadataBlockLevel8::parse(&mut reader, 13);
    assert_eq!(r, Err(BlockError::Truncated { needed: 104, available: 96 }));
    assert_eq!(reader.position(), 0);
    assert!(ExtMetadataBlockLevel8::parse(&mut reader, 12).is_ok());
}

#[test]
fn required_bits_mapping() {
    let mut block = ExtMetadataBlockLevel8::default();
    for (length, bits) in [(13u64, 104u64), (12, 92), (11, 80), (10, 80), (0, 80), (200, 80)] {
        block.length = length;
        assert_eq!(block.required_bits(), bits);
        assert_eq!(ExtMetadataBlock::Level8(block).required_bits(), bits);
    }
}

#[test]
fn default_record() {
    let b = ExtMetadataBlockLevel8::default();
    assert_eq!(b.length, 10);
    assert_eq!(b.target_display_index, 48);
    for v in [
        b.trim_slope,
        b.trim_offset,
        b.trim_power,
        b.trim_chroma_weight,
        b.trim_saturation_gain,
        b.ms_weight,
    ] {
        assert_eq!(v, 2048);
    }
    assert_eq!(b.target_mid_contrast, 0);
    assert_eq!(b.clip_trim, 0);
    assert_eq!(b.validate(), Ok(()));
}

#[test]
fn accessors() {
    let mut b = ExtMetadataBlockLevel8::default();
    b.length = 12;
    b.target_display_index = 20;
    assert_eq!(b.level(), 8);
    assert_eq!(b.bytes_size(), 12);
    assert_eq!(b.sort_key(), (8, 20));
    let block = ExtMetadataBlock::Level8(b);
    assert_eq!(block.level(), 8);
    assert_eq!(block.bytes_size(), 12);
    assert_eq!(block.sort_key(), (8, 20));
}

#[test]
fn dispatch_by_level() {
    let data = encode(&sample(12));
    let mut reader = BitVecReader::new(data.clone());
    assert_eq!(
        ExtMetadataBlock::parse(8, &mut reader, 12),
        Ok(ExtMetadataBlock::Level8(sample(12)))
    );
    let mut reader = BitVecReader::new(data);
    assert_eq!(
        ExtMetadataBlock::parse(2, &mut reader, 12),
        Err(BlockError::UnsupportedLevel { level: 2 })
    );
    assert_eq!(reader.position(), 0);
}

#[test]
fn dispatch_write_and_validate() {
    let block = ExtMetadataBlock::Level8(sample(11));
    let mut writer = BitVecWriter::new();
    assert_eq!(block.write(&mut writer), Ok(()));
    assert_eq!(writer.written_bits(), 92);
    assert_eq!(block.validate(), Ok(()));
}

#[test]
fn ordering_levels_then_display_index() {
    let keys = vec![(8u8, 48u16), (2, 0), (8, 20)];
    assert_eq!(canonical_order(&keys), vec![1, 2, 0]);
    let keys = vec![(2u8, 0u16), (8, 48), (8, 20)];
    assert_eq!(canonical_order(&keys), vec![0, 2, 1]);
}

#[test]
fn ordering_is_stable() {
    let keys = vec![(8u8, 5u16), (1, 9), (8, 5), (1, 9), (0, 0)];
    assert_eq!(canonical_order(&keys), vec![4, 1, 3, 0, 2]);
    assert_eq!(canonical_order(&Vec::new()), Vec::<usize>::new());
}

#[test]
fn sort_blocks_by_display_index() {
    let mut a = ExtMetadataBlockLevel8::default();
    a.target_display_index = 48;
    let mut b = ExtMetadataBlockLevel8::default();
    b.target_display_index = 20;
    let mut c = ExtMetadataBlockLevel8::default();
    c.target_display_index = 20;
    c.length = 13;
    let blocks = vec![
        ExtMetadataBlock::Level8(a),
        ExtMetadataBlock::Level8(b),
        ExtMetadataBlock::Level8(c),
    ];
    let sorted = sort_blocks(&blocks);
    assert_eq!(
        sorted,
        vec![ExtMetadataBlock::Level8(b), ExtMetadataBlock::Level8(c), ExtMetadataBlock::Level8(a)]
    );
}
