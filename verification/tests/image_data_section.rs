use psd::{
    ChannelBytes, ImageDataSection, ImageDataSectionError, PsdChannelCompression, PsdCursor,
    PsdDepth, PsdVersion,
};

fn push_u16(buf: &mut Vec<u8>, v: u16) {
    buf.extend_from_slice(&v.to_be_bytes());
}

fn push_u32(buf: &mut Vec<u8>, v: u32) {
    buf.extend_from_slice(&v.to_be_bytes());
}

/// A converter that must not be reached (8 and 16-bit composites and RLE never use it).
fn unused(_bits: u32) -> u8 {
    panic!("32-bit converter called outside a 32-bit raw composite")
}

/// Linear-light float to sRGB-encoded byte, as a display pipeline would do it.
fn srgb(bits: u32) -> u8 {
    let v = f32::from_bits(bits).clamp(0.0, 1.0);
    let s = if v <= 0.0031308 {
        12.92 * v
    } else {
        1.055 * v.powf(1.0 / 2.4) - 0.055
    };
    (s * 255.0).round() as u8
}

fn raw_section(planes: &[&[u8]]) -> Vec<u8> {
    let mut d = Vec::new();
    push_u16(&mut d, 0);
    for p in planes {
        d.extend_from_slice(p);
    }
    d
}

fn raw(c: &ChannelBytes) -> Vec<u8> {
    match c {
        ChannelBytes::RawData(v) => v.clone(),
        ChannelBytes::RleCompressed(_) => panic!("expected raw data"),
    }
}

fn rle(c: &ChannelBytes) -> Vec<u8> {
    match c {
        ChannelBytes::RleCompressed(v) => v.clone(),
        ChannelBytes::RawData(_) => panic!("expected rle data"),
    }
}

#[test]
fn raw_eight_bit_rgb_splits_planes() {
    let bytes = raw_section(&[&[10, 11], &[20, 21], &[30, 31]]);
    let sec = ImageDataSection::from_bytes(&bytes, PsdDepth::Eight, 1, 3, PsdVersion::One, unused)
        .unwrap();
    assert_eq!(sec.compression, PsdChannelCompression::RawData);
    assert_eq!(raw(&sec.red), vec![10, 11]);
    assert_eq!(raw(sec.green.as_ref().unwrap()), vec![20, 21]);
    assert_eq!(raw(sec.blue.as_ref().unwrap()), vec![30, 31]);
    assert!(sec.alpha.is_none());
}

#[test]
fn raw_sixteen_bit_keeps_high_byte_of_every_channel() {
    let bytes = raw_section(&[
        &[0x12, 0x34, 0x56, 0x78],
        &[0xAB, 0x00, 0xCD, 0x00],
        &[0x00, 0xFF, 0xFF, 0x00],
    ]);
    let sec =
        ImageDataSection::from_bytes(&bytes, PsdDepth::Sixteen, 1, 3, PsdVersion::One, unused)
            .unwrap();
    assert_eq!(raw(&sec.red), vec![0x12, 0x56]);
    assert_eq!(raw(sec.green.as_ref().unwrap()), vec![0xAB, 0xCD]);
    assert_eq!(raw(sec.blue.as_ref().unwrap()), vec![0x00, 0xFF]);
}

#[test]
fn raw_thirty_two_bit_converts_each_sample() {
    let bytes = raw_section(&[
        &0.0f32.to_be_bytes(),
        &0.5f32.to_be_bytes(),
        &2.0f32.to_be_bytes(),
    ]);
    let sec =
        ImageDataSection::from_bytes(&bytes, PsdDepth::ThirtyTwo, 1, 3, PsdVersion::One, srgb)
            .unwrap();
    assert_eq!(raw(&sec.red), vec![0]);
    assert_eq!(raw(sec.green.as_ref().unwrap()), vec![188]);
    assert_eq!(raw(sec.blue.as_ref().unwrap()), vec![255]);
}

#[test]
fn raw_thirty_two_bit_hands_over_big_endian_bits() {
    let bytes = raw_section(&[&[0x01, 0x02, 0x03, 0x04, 0x05, 0x06, 0x07, 0x08, 0x09]]);
    let sec = ImageDataSection::from_bytes(
        &bytes,
        PsdDepth::ThirtyTwo,
        1,
        1,
        PsdVersion::One,
        |bits: u32| (bits & 0xFF) as u8,
    )
    .unwrap();
    // Two whole samples; the trailing byte is not a sample.
    assert_eq!(raw(&sec.red), vec![0x04, 0x08]);
}

#[test]
fn raw_rgba_has_alpha() {
    let bytes = raw_section(&[&[255, 0], &[0, 255], &[0, 0], &[255, 128]]);
    let sec = ImageDataSection::from_bytes(&bytes, PsdDepth::Eight, 1, 4, PsdVersion::Two, unused)
        .unwrap();
    assert_eq!(raw(sec.alpha.as_ref().unwrap()), vec![255, 128]);
}

#[test]
fn raw_uneven_payload_drops_the_remainder() {
    let bytes = raw_section(&[&[1, 2, 3, 4, 5, 6, 7]]);
    let sec = ImageDataSection::from_bytes(&bytes, PsdDepth::Eight, 1, 3, PsdVersion::One, unused)
        .unwrap();
    assert_eq!(raw(&sec.red), vec![1, 2]);
    assert_eq!(raw(sec.green.as_ref().unwrap()), vec![3, 4]);
    assert_eq!(raw(sec.blue.as_ref().unwrap()), vec![5, 6]);
}

#[test]
fn raw_with_no_channels_has_empty_red() {
    let bytes = raw_section(&[&[1, 2, 3]]);
    let sec = ImageDataSection::from_bytes(&bytes, PsdDepth::Eight, 1, 0, PsdVersion::One, unused)
        .unwrap();
    assert_eq!(raw(&sec.red), Vec::<u8>::new());
    assert!(sec.green.is_none());
}

#[test]
fn raw_one_bit_is_unsupported() {
    let bytes = raw_section(&[&[1], &[2], &[3]]);
    let err = ImageDataSection::from_bytes(&bytes, PsdDepth::One, 1, 3, PsdVersion::One, unused)
        .unwrap_err();
    assert_eq!(err, ImageDataSectionError::UnsupportedDepth);
}

#[test]
fn zip_composites_are_clean_errors() {
    for code in [2u16, 3] {
        let mut bytes = Vec::new();
        push_u16(&mut bytes, code);
        bytes.extend_from_slice(&[0u8; 8]);
        for depth in [PsdDepth::One, PsdDepth::Eight] {
            let err =
                ImageDataSection::from_bytes(&bytes, depth, 1, 3, PsdVersion::One, unused)
                    .unwrap_err();
            assert_eq!(err, ImageDataSectionError::UnsupportedCompression);
        }
    }
}

#[test]
fn unknown_compression_is_invalid() {
    let bytes = vec![0, 4, 1, 2, 3];
    let err = ImageDataSection::from_bytes(&bytes, PsdDepth::Eight, 1, 3, PsdVersion::One, unused)
        .unwrap_err();
    assert_eq!(err, ImageDataSectionError::InvalidCompression { compression: 4 });
}

#[test]
fn one_byte_section_reads_a_zero_padded_code() {
    let err = ImageDataSection::from_bytes(&[1], PsdDepth::Eight, 1, 3, PsdVersion::One, unused)
        .unwrap_err();
    assert_eq!(err, ImageDataSectionError::InvalidCompression { compression: 256 });

    let sec = ImageDataSection::from_bytes(&[], PsdDepth::Eight, 1, 3, PsdVersion::One, unused)
        .unwrap();
    assert_eq!(raw(&sec.red), Vec::<u8>::new());
    assert_eq!(raw(sec.blue.as_ref().unwrap()), Vec::<u8>::new());
}

/// An RLE section for `planes[c][row]` (already packed bytes), with byte counts of
/// the width the version asks for.
fn rle_section(version: PsdVersion, planes: &[Vec<Vec<u8>>]) -> Vec<u8> {
    let mut d = Vec::new();
    push_u16(&mut d, 1);
    for ch in planes {
        for row in ch {
            match version {
                PsdVersion::One => push_u16(&mut d, row.len() as u16),
                PsdVersion::Two => push_u32(&mut d, row.len() as u32),
            }
        }
    }
    for ch in planes {
        for row in ch {
            d.extend_from_slice(row);
        }
    }
    d
}

#[test]
fn rle_psd_slices_each_channel() {
    let planes = vec![
        vec![vec![1, 2], vec![3]],
        vec![vec![4], vec![5, 6, 7]],
        vec![vec![8], vec![9]],
    ];
    let bytes = rle_section(PsdVersion::One, &planes);
    let sec = ImageDataSection::from_bytes(&bytes, PsdDepth::Eight, 2, 3, PsdVersion::One, unused)
        .unwrap();
    assert_eq!(sec.compression, PsdChannelCompression::RleCompressed);
    assert_eq!(rle(&sec.red), vec![1, 2, 3]);
    assert_eq!(rle(sec.green.as_ref().unwrap()), vec![4, 5, 6, 7]);
    assert_eq!(rle(sec.blue.as_ref().unwrap()), vec![8, 9]);
    assert!(sec.alpha.is_none());
}

#[test]
fn rle_psb_uses_four_byte_counts() {
    let planes = vec![
        vec![vec![2, 255, 0, 0], vec![2, 255, 0, 128]],
        vec![vec![2, 0, 255, 0], vec![2, 255, 0, 128]],
        vec![vec![2, 0, 0, 255], vec![2, 255, 0, 128]],
    ];
    let bytes = rle_section(PsdVersion::Two, &planes);
    let sec = ImageDataSection::from_bytes(&bytes, PsdDepth::Eight, 2, 3, PsdVersion::Two, unused)
        .unwrap();
    assert_eq!(rle(&sec.red), vec![2, 255, 0, 0, 2, 255, 0, 128]);
    assert_eq!(rle(sec.green.as_ref().unwrap()), vec![2, 0, 255, 0, 2, 255, 0, 128]);
    assert_eq!(rle(sec.blue.as_ref().unwrap()), vec![2, 0, 0, 255, 2, 255, 0, 128]);
}

#[test]
fn rle_alpha_only_with_exactly_four_channels() {
    let four: Vec<Vec<Vec<u8>>> = (0..4u8).map(|c| vec![vec![c]]).collect();
    let bytes = rle_section(PsdVersion::One, &four);
    let sec = ImageDataSection::from_bytes(&bytes, PsdDepth::Eight, 1, 4, PsdVersion::One, unused)
        .unwrap();
    assert_eq!(rle(sec.alpha.as_ref().unwrap()), vec![3]);

    let five: Vec<Vec<Vec<u8>>> = (0..5u8).map(|c| vec![vec![c]]).collect();
    let bytes = rle_section(PsdVersion::One, &five);
    let sec = ImageDataSection::from_bytes(&bytes, PsdDepth::Eight, 1, 5, PsdVersion::One, unused)
        .unwrap();
    assert!(sec.alpha.is_none());
    // The data starts after all five channels' counts.
    assert_eq!(rle(&sec.red), vec![0]);
    assert_eq!(rle(sec.blue.as_ref().unwrap()), vec![2]);
}

#[test]
fn rle_is_accepted_at_one_bit() {
    let bytes = rle_section(PsdVersion::One, &[vec![vec![7, 7]]]);
    let sec = ImageDataSection::from_bytes(&bytes, PsdDepth::One, 1, 1, PsdVersion::One, unused)
        .unwrap();
    assert_eq!(rle(&sec.red), vec![7, 7]);
}

#[test]
fn rle_channel_past_the_end_degrades_to_empty() {
    let planes = vec![vec![vec![1, 2]], vec![vec![3, 4, 5]]];
    let bytes = rle_section(PsdVersion::One, &planes);
    // Drop the last byte: green runs past the end, red is still whole.
    let cut = &bytes[..bytes.len() - 1];
    let sec = ImageDataSection::from_bytes(cut, PsdDepth::Eight, 1, 2, PsdVersion::One, unused)
        .unwrap();
    assert_eq!(rle(&sec.red), vec![1, 2]);
    assert_eq!(rle(sec.green.as_ref().unwrap()), Vec::<u8>::new());
}

#[test]
fn truncation_keeps_the_outcome() {
    let planes = vec![vec![vec![1, 2], vec![3]], vec![vec![4], vec![5]], vec![vec![6], vec![7]]];
    let rle_bytes = rle_section(PsdVersion::One, &planes);
    let raw_bytes = raw_section(&[&[1, 2], &[3, 4], &[5, 6]]);
    let mut zip = Vec::new();
    push_u16(&mut zip, 3);
    zip.extend_from_slice(&[9; 6]);
    for full in [rle_bytes, raw_bytes, zip] {
        for depth in [PsdDepth::One, PsdDepth::Eight, PsdDepth::Sixteen] {
            let whole =
                ImageDataSection::from_bytes(&full, depth, 2, 3, PsdVersion::One, |_| 0).is_ok();
            for cut in 2..=full.len() {
                let part =
                    ImageDataSection::from_bytes(&full[..cut], depth, 2, 3, PsdVersion::One, |_| 0);
                assert_eq!(part.is_ok(), whole);
            }
        }
    }
}

#[test]
fn raw_channels_have_equal_length() {
    let bytes = raw_section(&[&[1, 2, 3, 4, 5, 6, 7, 8, 9, 10, 11]]);
    for depth in [PsdDepth::Eight, PsdDepth::Sixteen, PsdDepth::ThirtyTwo] {
        let sec = ImageDataSection::from_bytes(&bytes, depth, 1, 4, PsdVersion::One, |_| 1)
            .unwrap();
        let n = raw(&sec.red).len();
        assert_eq!(raw(sec.green.as_ref().unwrap()).len(), n);
        assert_eq!(raw(sec.blue.as_ref().unwrap()).len(), n);
        assert_eq!(raw(sec.alpha.as_ref().unwrap()).len(), n);
    }
}

#[test]
fn cursor_zero_pads_at_end() {
    let bytes = [0x12, 0x34, 0x56];
    let mut c = PsdCursor::new(&bytes);
    assert_eq!(c.read_u16(), 0x1234);
    assert_eq!(c.read_u16(), 0x5600);
    assert_eq!(c.read_u32(), 0);
    let mut c = PsdCursor::new(&bytes);
    assert_eq!(c.read_u32(), 0x1234_5600);
}

#[test]
fn compression_codes() {
    assert_eq!(PsdChannelCompression::new(0), Some(PsdChannelCompression::RawData));
    assert_eq!(PsdChannelCompression::new(1), Some(PsdChannelCompression::RleCompressed));
    assert_eq!(PsdChannelCompression::new(2), Some(PsdChannelCompression::ZipWithoutPrediction));
    assert_eq!(PsdChannelCompression::new(3), Some(PsdChannelCompression::ZipWithPrediction));
    assert_eq!(PsdChannelCompression::new(4), None);
}

#[test]
fn version_widths() {
    assert!(!PsdVersion::One.is_psb());
    assert!(PsdVersion::Two.is_psb());
    assert_eq!(PsdVersion::One.rle_scanline_len_bytes(), 2);
    assert_eq!(PsdVersion::Two.rle_scanline_len_bytes(), 4);
}
