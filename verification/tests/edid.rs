use sysfetch::displays::edid::check_version;
use sysfetch::displays::edid::decode_identity;
use sysfetch::displays::edid::decode_manufacturer_id;
use sysfetch::displays::edid::decode_video_input;
use sysfetch::displays::edid::skip_reserved;
use sysfetch::displays::edid::validate_header;
use sysfetch::displays::edid::version_gate;
use sysfetch::displays::edid::EDIDError;
use sysfetch::displays::edid::EDIDIdentity;
use sysfetch::displays::edid::EDIDVersion;
use sysfetch::displays::edid::EDID;
use sysfetch::displays::edid::EDID_HEADER;
use sysfetch::displays::edid_video_input_params::EDIDAnalogVideoInputParams;
use sysfetch::displays::edid_video_input_params::EDIDBitDepth;
use sysfetch::displays::edid_video_input_params::EDIDDigitalVideoInputParams;
use sysfetch::displays::edid_video_input_params::EDIDInputParams;
use sysfetch::displays::edid_video_input_params::EDIDVideoInterface;
use sysfetch::displays::edid_video_input_params::EDIDWhiteSyncLevels;
use sysfetch::byte_reader::ByteReader;

const HEADER: [u8; 8] = [0x00, 0xFF, 0xFF, 0xFF, 0xFF, 0xFF, 0xFF, 0x00];

/// A whole 128-byte base block with the given fields; the unread parts hold
/// a pattern of their own.
fn block(manufacturer: [u8; 2], version: u8, revision: u8, input: u8) -> Vec<u8> {
    let mut b = Vec::new();
    b.extend_from_slice(&HEADER);
    b.extend_from_slice(&manufacturer);
    b.extend_from_slice(&[0x34, 0x12]);
    b.extend_from_slice(&[0x78, 0x56, 0x34, 0x12]);
    b.extend_from_slice(&[0x2A, 0x21]);
    b.push(version);
    b.push(revision);
    b.push(input);
    while b.len() < 128 {
        b.push((b.len() * 7 % 251) as u8);
    }
    b
}

#[test]
fn header_constant_is_the_pattern() {
    assert_eq!(EDID_HEADER, 0x00FFFFFFFFFFFF00);
    assert_eq!(EDID_HEADER.to_be_bytes(), HEADER);
}

#[test]
fn wrong_header_fails_whatever_follows() {
    for at in 0..8 {
        for tail in [0usize, 1, 13, 120] {
            let mut b = block([0x04, 0x43], 1, 4, 0x80);
            b.truncate(8 + tail);
            b[at] ^= 0x10;
            assert_eq!(EDID::parse(&b), Err(EDIDError::InvalidHeader));
        }
    }
}

#[test]
fn byte_swapped_header_fails() {
    let mut b = block([0x04, 0x43], 1, 4, 0x80);
    b[0] = 0xFF;
    b[1] = 0x00;
    assert_eq!(EDID::parse(&b), Err(EDIDError::InvalidHeader));
}

#[test]
fn short_header_fails_as_invalid_header() {
    for len in 0..8 {
        assert_eq!(EDID::parse(&HEADER[..len]), Err(EDIDError::InvalidHeader));
    }
}

#[test]
fn header_then_end_of_stream() {
    assert_eq!(EDID::parse(&HEADER), Err(EDIDError::EarlyEof("Manufacturer id missing")));
}

#[test]
fn each_missing_field_is_named() {
    let b = block([0x04, 0x43], 1, 4, 0x80);
    for len in 8..=21 {
        let got = EDID::parse(&b[..len]);
        let want = match len {
            8..=9 => Err(EDIDError::EarlyEof("Manufacturer id missing")),
            10..=11 => Err(EDIDError::EarlyEof("Product code missing")),
            12..=15 => Err(EDIDError::EarlyEof("Serial missing")),
            16..=19 => Err(EDIDError::EarlyEof("EDID Version Missing")),
            20 => Err(EDIDError::EarlyEof("Display info missing")),
            _ => EDID::parse(&b),
        };
        assert_eq!(got, want, "length {}", len);
    }
    assert!(EDID::parse(&b).is_ok());
}

#[test]
fn unsupported_version_is_reported_before_missing_display_info() {
    let b = block([0x04, 0x43], 2, 0, 0x80);
    assert_eq!(
        EDID::parse(&b[..20]),
        Err(EDIDError::UnsupportedEDIDVer("EDID Version Unsupported"))
    );
}

#[test]
fn manufacturer_id_abc() {
    assert_eq!(decode_manufacturer_id(0b00001_00010_00011), ['A', 'B', 'C']);
    assert_eq!(decode_manufacturer_id(0x0443), ['A', 'B', 'C']);
    let edid = EDID::parse(&block([0x04, 0x43], 1, 4, 0x80)).unwrap();
    assert_eq!(edid.manufacturer_id, ['A', 'B', 'C']);
    assert_eq!(edid.manufacturer_id.iter().collect::<String>(), "ABC");
}

#[test]
fn manufacturer_id_edges() {
    assert_eq!(decode_manufacturer_id(0x0000), ['@', '@', '@']);
    assert_eq!(decode_manufacturer_id(0x7FFF), ['_', '_', '_']);
    // Bit 15 is not part of any letter.
    assert_eq!(decode_manufacturer_id(0x8443), ['A', 'B', 'C']);
    // "ZZZ": 26, 26, 26.
    assert_eq!(decode_manufacturer_id((26 << 10) | (26 << 5) | 26), ['Z', 'Z', 'Z']);
    // "DEL" is 0x10AC, "SAM" is 0x4C2D.
    assert_eq!(decode_manufacturer_id(0x10AC), ['D', 'E', 'L']);
    assert_eq!(decode_manufacturer_id(0x4C2D), ['S', 'A', 'M']);
}

#[test]
fn manufacturer_letters_stay_in_range() {
    for packed in 0..=u16::MAX {
        for c in decode_manufacturer_id(packed) {
            assert!(('@'..='_').contains(&c));
        }
    }
}

#[test]
fn version_1_revision_0_is_accepted_as_1_4() {
    let edid = EDID::parse(&block([0x04, 0x43], 0x01, 0x00, 0x80)).unwrap();
    assert_eq!(edid.edid_version, EDIDVersion { major: 1, minor: 4 });
    assert_eq!(check_version(1, 0), Ok(EDIDVersion { major: 1, minor: 4 }));
}

#[test]
fn version_2_revision_3_is_accepted_as_1_4() {
    let edid = EDID::parse(&block([0x04, 0x43], 0x02, 0x03, 0x80)).unwrap();
    assert_eq!(edid.edid_version, EDIDVersion { major: 1, minor: 4 });
    assert_eq!(check_version(2, 3), Ok(EDIDVersion { major: 1, minor: 4 }));
}

#[test]
fn version_2_revision_0_is_unsupported() {
    assert_eq!(
        EDID::parse(&block([0x04, 0x43], 0x02, 0x00, 0x80)),
        Err(EDIDError::UnsupportedEDIDVer("EDID Version Unsupported"))
    );
    assert_eq!(
        check_version(2, 0),
        Err(EDIDError::UnsupportedEDIDVer("EDID Version Unsupported"))
    );
}

#[test]
fn version_gate_over_all_pairs() {
    for version in 0..=255u8 {
        for revision in 0..=255u8 {
            let accepted = check_version(version, revision).is_ok();
            assert_eq!(accepted, version == 1 || revision == 3);
        }
    }
}

#[test]
fn whole_record() {
    let edid = EDID::parse(&block([0x10, 0xAC], 1, 4, 0b1010_0101)).unwrap();
    assert_eq!(
        edid,
        EDID {
            header_valid: true,
            manufacturer_id: ['D', 'E', 'L'],
            product_code: 0x1234,
            serial_number: 0x12345678,
            edid_version: EDIDVersion { major: 1, minor: 4 },
            video_input: EDIDInputParams::Digital(EDIDDigitalVideoInputParams {
                bit_depth: EDIDBitDepth::B8,
                interface: EDIDVideoInterface::DP,
            }),
        }
    );
}

#[test]
fn analog_record() {
    let edid = EDID::parse(&block([0x04, 0x43], 1, 3, 0x7F)).unwrap();
    assert_eq!(
        edid.video_input,
        EDIDInputParams::Analog(EDIDAnalogVideoInputParams {
            white_sync_levels: EDIDWhiteSyncLevels::V0_7_0_0_EVC,
            blank_to_black: true,
            separate_sync_support: true,
            composite_sync: true,
            sync_on_green: true,
            green_sync_vsync_serration: true,
        })
    );
}

#[test]
fn product_code_and_serial_are_little_endian() {
    let mut b = block([0x04, 0x43], 1, 4, 0x80);
    b[10] = 0x01;
    b[11] = 0x02;
    b[12] = 0x0A;
    b[13] = 0x0B;
    b[14] = 0x0C;
    b[15] = 0x0D;
    let edid = EDID::parse(&b).unwrap();
    assert_eq!(edid.product_code, 0x0201);
    assert_eq!(edid.serial_number, 0x0D0C0B0A);
}

#[test]
fn unread_fields_do_not_matter() {
    let full = block([0x04, 0x43], 1, 4, 0x3F);
    let want = EDID::parse(&full);
    assert!(want.is_ok());
    // A source that ends anywhere behind the video input byte decodes alike.
    for len in 21..=128 {
        assert_eq!(EDID::parse(&full[..len]), want);
    }
    // Neither the manufacture date nor the fields read past are looked at.
    let mut other = full.clone();
    other[16] = 0xEE;
    other[17] = 0xEE;
    for b in other.iter_mut().skip(21) {
        *b = !*b;
    }
    assert_eq!(EDID::parse(&other), want);
    // Bytes behind the base block are not looked at either.
    let mut longer = full.clone();
    longer.extend_from_slice(&[0xAB; 128]);
    assert_eq!(EDID::parse(&longer), want);
}

#[test]
fn parsing_twice_gives_the_same_record() {
    let b = block([0x4C, 0x2D], 1, 4, 0x95);
    let first = EDID::parse(&b);
    let second = EDID::parse(&b);
    assert!(first.is_ok());
    assert_eq!(first, second);
    let first = first.unwrap();
    let second = second.unwrap();
    assert_eq!(first.header_valid, second.header_valid);
    assert_eq!(first.manufacturer_id, second.manufacturer_id);
    assert_eq!(first.product_code, second.product_code);
    assert_eq!(first.serial_number, second.serial_number);
    assert_eq!(first.edid_version, second.edid_version);
    assert_eq!(first.video_input, second.video_input);
}

#[test]
fn missing_file_is_reported_without_bytes() {
    assert_eq!(EDID::parse_file(None), Err(EDIDError::MissingFile));
}

#[test]
fn present_file_is_decoded() {
    let b = block([0x04, 0x43], 1, 4, 0x80);
    assert_eq!(EDID::parse_file(Some(&b)), EDID::parse(&b));
    assert_eq!(EDID::parse_file(Some(&[])), Err(EDIDError::InvalidHeader));
}

#[test]
fn header_stage_alone() {
    let b = block([0x04, 0x43], 1, 4, 0x80);
    let mut r = ByteReader::new(&b);
    assert_eq!(validate_header(&mut r), Ok(true));
    // The reader now stands at the manufacturer id.
    assert_eq!(r.read_u16_be(), Some(0x0443));

    let mut r = ByteReader::new(&b[1..]);
    assert_eq!(validate_header(&mut r), Err(EDIDError::InvalidHeader));
    let mut r = ByteReader::new(&b[..7]);
    assert_eq!(validate_header(&mut r), Err(EDIDError::InvalidHeader));
}

#[test]
fn identity_stage_alone() {
    let bytes = [0x10, 0xAC, 0x34, 0x12, 0x78, 0x56, 0x34, 0x12, 0xFF, 0xFF, 0x99];
    let mut r = ByteReader::new(&bytes);
    assert_eq!(
        decode_identity(&mut r),
        Ok(EDIDIdentity { manufacturer_id: ['D', 'E', 'L'], product_code: 0x1234, serial_number: 0x12345678 })
    );
    // The two bytes of the manufacture date were read past.
    assert_eq!(r.read_u8(), Some(0x99));

    // Without the date the identity is still decoded, and the source is used up.
    let mut r = ByteReader::new(&bytes[..9]);
    assert!(decode_identity(&mut r).is_ok());
    assert_eq!(r.read_u8(), None);

    let mut r = ByteReader::new(&bytes[..1]);
    assert_eq!(decode_identity(&mut r), Err(EDIDError::EarlyEof("Manufacturer id missing")));
    let mut r = ByteReader::new(&bytes[..3]);
    assert_eq!(decode_identity(&mut r), Err(EDIDError::EarlyEof("Product code missing")));
    let mut r = ByteReader::new(&bytes[..7]);
    assert_eq!(decode_identity(&mut r), Err(EDIDError::EarlyEof("Serial missing")));
}

#[test]
fn version_stage_alone() {
    let mut r = ByteReader::new(&[1, 4, 7]);
    assert_eq!(version_gate(&mut r), Ok(EDIDVersion { major: 1, minor: 4 }));
    assert_eq!(r.read_u8(), Some(7));
    let mut r = ByteReader::new(&[9, 9]);
    assert_eq!(version_gate(&mut r), Err(EDIDError::UnsupportedEDIDVer("EDID Version Unsupported")));
    let mut r = ByteReader::new(&[1]);
    assert_eq!(version_gate(&mut r), Err(EDIDError::EarlyEof("EDID Version Missing")));
    let mut r = ByteReader::new(&[]);
    assert_eq!(version_gate(&mut r), Err(EDIDError::EarlyEof("EDID Version Missing")));
}

#[test]
fn video_input_stage_alone() {
    let mut r = ByteReader::new(&[0x80, 0x11]);
    assert_eq!(decode_video_input(&mut r), Ok(EDIDInputParams::from(0x80)));
    assert_eq!(r.read_u8(), Some(0x11));
    let mut r = ByteReader::new(&[]);
    assert_eq!(decode_video_input(&mut r), Err(EDIDError::EarlyEof("Display info missing")));
}

#[test]
fn reserved_fields_are_33_bytes() {
    let bytes: Vec<u8> = (0..40u8).collect();
    let mut r = ByteReader::new(&bytes);
    skip_reserved(&mut r);
    assert_eq!(r.read_u8(), Some(33));
    // A source that ends inside them is used up without an error.
    let mut r = ByteReader::new(&bytes[..20]);
    skip_reserved(&mut r);
    assert_eq!(r.read_u8(), None);
}
