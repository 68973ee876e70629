//! A strict decoder for the EDID base block.
//!
//! The block is a fixed layout: an eight-byte header, the vendor's identity,
//! the version of the format, one byte of video input parameters, and fields
//! that this decoder reads past without interpreting them. Decoding is all or
//! nothing: the first field that is missing or wrong ends it with an error.
//!
//! | offset | size | field                                   |
//! |--------|------|-----------------------------------------|
//! | 0      | 8    | header                                  |
//! | 8      | 2    | manufacturer id, big-endian, 3 x 5 bits |
//! | 10     | 2    | product code, little-endian             |
//! | 12     | 4    | serial number, little-endian            |
//! | 16     | 2    | week and year of manufacture, unread    |
//! | 18     | 1    | version                                 |
//! | 19     | 1    | revision                                |
//! | 20     | 1    | video input parameters                  |
//! | 21     | 33   | size, gamma, features, colours, timings |

use vstd::prelude::*;
use crate::byte_reader::{after_read, be_value, le_value, ByteReader};
use crate::displays::edid_video_input_params::EDIDInputParams;

verus! {

/// The fixed pattern that opens every EDID block, as a big-endian number.
pub const EDID_HEADER: u64 = 0x00FF_FFFF_FFFF_FF00;

/// Bytes between the video input parameters and the detailed descriptors:
/// horizontal and vertical size, gamma and the feature bitmap (one byte
/// each), chromaticity (10), established timings (3), standard timings (16).
pub const RESERVED_LEN: usize = 33;

/// Why a block could not be decoded.
#[derive(Clone, Copy, Debug, PartialEq, Eq)]
pub enum EDIDError {
    /// The path does not name a regular file.
    MissingFile,
    /// The first eight bytes are not the header pattern, or are not there.
    InvalidHeader,
    /// The source ended before the named field.
    EarlyEof(&'static str),
    /// The version and revision bytes are not an accepted combination.
    UnsupportedEDIDVer(&'static str),
}

/// A version of the EDID format, as in "1.4".
#[derive(Clone, Copy, Debug, PartialEq, Eq, Structural)]
pub struct EDIDVersion {
    pub major: u8,
    pub minor: u8,
}

/// Who made the display, and which one it is.
#[derive(Clone, Copy, Debug, PartialEq, Eq)]
pub struct EDIDIdentity {
    pub manufacturer_id: [char; 3],
    pub product_code: u16,
    pub serial_number: u32,
}

/// A decoded EDID base block.
#[derive(Clone, Copy, Debug, PartialEq, Eq)]
pub struct EDID {
    pub header_valid: bool,
    pub manufacturer_id: [char; 3],
    pub product_code: u16,
    pub serial_number: u32,
    pub edid_version: EDIDVersion,
    pub video_input: EDIDInputParams,
}

/// The only version that the decoder reports.
pub open spec fn supported_version() -> EDIDVersion {
    EDIDVersion { major: 1, minor: 4 }
}

/// Whether `s` opens with the header pattern.
pub open spec fn has_header(s: Seq<u8>) -> bool {
    s.len() >= 8 && be_value(s.take(8)) == EDID_HEADER
}

/// Letter `index` (0, 1 or 2) of the manufacturer id packed in `packed`: the
/// five-bit field at bits 14 to 10, 9 to 5 or 4 to 0, counted from `'@'`.
pub open spec fn manufacturer_letter(packed: u16, index: int) -> char {
    let field = if index == 0 {
        (packed as int / 1024) % 32
    } else if index == 1 {
        (packed as int / 32) % 32
    } else {
        packed as int % 32
    };
    (field + 0x40) as char
}

/// The three letters packed in `packed`.
pub open spec fn manufacturer_id_of(packed: u16) -> [char; 3] {
    [
        manufacturer_letter(packed, 0),
        manufacturer_letter(packed, 1),
        manufacturer_letter(packed, 2),
    ]
}

/// Whether the version gate lets a block with these two bytes through. One of
/// the two conditions is enough.
pub open spec fn version_accepted(version: u8, revision: u8) -> bool {
    version == 1 || revision == 3
}

/// What the version gate makes of the two bytes.
pub open spec fn gate_of(version: u8, revision: u8) -> Result<EDIDVersion, EDIDError> {
    if version_accepted(version, revision) {
        Ok(supported_version())
    } else {
        Err(EDIDError::UnsupportedEDIDVer("EDID Version Unsupported"))
    }
}

/// The identity that a source holds whose unread bytes are `s`.
pub open spec fn identity_of(s: Seq<u8>) -> Result<EDIDIdentity, EDIDError> {
    if s.len() < 2 {
        Err(EDIDError::EarlyEof("Manufacturer id missing"))
    } else if s.len() < 4 {
        Err(EDIDError::EarlyEof("Product code missing"))
    } else if s.len() < 8 {
        Err(EDIDError::EarlyEof("Serial missing"))
    } else {
        Ok(
            EDIDIdentity {
                manufacturer_id: manufacturer_id_of(be_value(s.subrange(0, 2)) as u16),
                product_code: le_value(s.subrange(2, 4)) as u16,
                serial_number: le_value(s.subrange(4, 8)) as u32,
            },
        )
    }
}

/// The version that a source reports whose unread bytes are `s`.
pub open spec fn version_of(s: Seq<u8>) -> Result<EDIDVersion, EDIDError> {
    if s.len() < 2 {
        Err(EDIDError::EarlyEof("EDID Version Missing"))
    } else {
        gate_of(s[0], s[1])
    }
}

/// The video input that a source describes whose unread bytes are `s`.
pub open spec fn video_input_of(s: Seq<u8>) -> Result<EDIDInputParams, EDIDError> {
    if s.len() < 1 {
        Err(EDIDError::EarlyEof("Display info missing"))
    } else {
        Ok(EDIDInputParams::decode(s[0]))
    }
}

/// What decoding the byte source `s` gives, field by field of the layout.
///
/// The week and year of manufacture and everything behind the video input
/// parameters are read past without a check, so a source that ends inside
/// them is not rejected on their account.
pub open spec fn decode_base_block(s: Seq<u8>) -> Result<EDID, EDIDError> {
    if !has_header(s) {
        Err(EDIDError::InvalidHeader)
    } else if s.len() < 10 {
        Err(EDIDError::EarlyEof("Manufacturer id missing"))
    } else if s.len() < 12 {
        Err(EDIDError::EarlyEof("Product code missing"))
    } else if s.len() < 16 {
        Err(EDIDError::EarlyEof("Serial missing"))
    } else if s.len() < 20 {
        Err(EDIDError::EarlyEof("EDID Version Missing"))
    } else if !version_accepted(s[18], s[19]) {
        Err(EDIDError::UnsupportedEDIDVer("EDID Version Unsupported"))
    } else if s.len() < 21 {
        Err(EDIDError::EarlyEof("Display info missing"))
    } else {
        Ok(
            EDID {
                header_valid: true,
                manufacturer_id: manufacturer_id_of(be_value(s.subrange(8, 10)) as u16),
                product_code: le_value(s.subrange(10, 12)) as u16,
                serial_number: le_value(s.subrange(12, 16)) as u32,
                edid_version: supported_version(),
                video_input: EDIDInputParams::decode(s[20]),
            },
        )
    }
}

/// What decoding gives for a path: `None` stands for a path that names no
/// regular file, `Some` holds the bytes of the file.
pub open spec fn decode_file(contents: Option<Seq<u8>>) -> Result<EDID, EDIDError> {
    match contents {
        None => Err(EDIDError::MissingFile),
        Some(s) => decode_base_block(s),
    }
}

/// The failure of a read that found the field `field` missing.
fn early_eof<T>(field: &'static str) -> (failure: Result<T, EDIDError>)
    ensures
        failure == Err::<T, EDIDError>(EDIDError::EarlyEof(field)),
{
    Err(EDIDError::EarlyEof(field))
}

/// Unpacks the three letters of a manufacturer id. Every 16-bit value is
/// accepted; well-formed ids give letters from `'A'` to `'Z'`, others may give
/// one of the five characters around them.
pub fn decode_manufacturer_id(packed: u16) -> (id: [char; 3])
    ensures
        id == manufacturer_id_of(packed),
        forall|i: int| 0 <= i < 3 ==> '@' <= #[trigger] id[i] <= '_',
{
    let first: u8 = ((packed >> 10) & 0x1F) as u8;
    let second: u8 = ((packed >> 5) & 0x1F) as u8;
    let third: u8 = (packed & 0x1F) as u8;
    proof {
        assert((packed >> 10) & 0x1F == (packed / 1024) % 32) by (bit_vector);
        assert((packed >> 5) & 0x1F == (packed / 32) % 32) by (bit_vector);
        assert(packed & 0x1F == packed % 32) by (bit_vector);
    }
    let id = [(first + 0x40) as char, (second + 0x40) as char, (third + 0x40) as char];
    assert(id =~= manufacturer_id_of(packed));
    id
}

/// The version gate on the two bytes: accepts when the version is 1 or the
/// revision is 3, and then reports 1.4 whatever the bytes were.
pub fn check_version(version: u8, revision: u8) -> (gate: Result<EDIDVersion, EDIDError>)
    ensures
        gate == gate_of(version, revision),
{
    if version == 1 || revision == 3 {
        Ok(EDIDVersion { major: 1, minor: 4 })
    } else {
        Err(EDIDError::UnsupportedEDIDVer("EDID Version Unsupported"))
    }
}

/// Reads the header and compares it with the pattern. A source too short to
/// hold a header fails like one with a wrong header.
pub fn validate_header(reader: &mut ByteReader) -> (valid: Result<bool, EDIDError>)
    ensures
        final(reader)@ == after_read(old(reader)@, 8),
        valid == (if has_header(old(reader)@) {
            Ok::<bool, EDIDError>(true)
        } else {
            Err(EDIDError::InvalidHeader)
        }),
{
    match reader.read_u64_be() {
        Some(header) => {
            if header == EDID_HEADER {
                Ok(true)
            } else {
                Err(EDIDError::InvalidHeader)
            }
        },
        None => Err(EDIDError::InvalidHeader),
    }
}

/// Reads manufacturer id, product code and serial number, then reads past the
/// week and year of manufacture without checking that they were there.
pub fn decode_identity(reader: &mut ByteReader) -> (identity: Result<EDIDIdentity, EDIDError>)
    ensures
        final(reader)@ == after_read(old(reader)@, 10),
        identity == identity_of(old(reader)@),
{
    let ghost before = reader@;
    let packed = match reader.read_u16_be() {
        Some(v) => v,
        None => {
            return early_eof("Manufacturer id missing");
        },
    };
    let manufacturer_id = decode_manufacturer_id(packed);
    let ghost after_id = reader@;
    let product_code = match reader.read_u16_le() {
        Some(v) => v,
        None => {
            return early_eof("Product code missing");
        },
    };
    let ghost after_code = reader@;
    let serial_number = match reader.read_u32_le() {
        Some(v) => v,
        None => {
            return early_eof("Serial missing");
        },
    };
    let ghost after_serial = reader@;
    reader.skip(2);
    proof {
        assert(before.take(2) =~= before.subrange(0, 2));
        assert(after_id.take(2) =~= before.subrange(2, 4));
        assert(after_code.take(4) =~= before.subrange(4, 8));
        assert(after_serial =~= before.skip(8));
        assert(after_read(after_serial, 2) =~= after_read(before, 10));
    }
    Ok(EDIDIdentity { manufacturer_id, product_code, serial_number })
}

/// Reads the version and revision bytes and puts them to the version gate.
pub fn version_gate(reader: &mut ByteReader) -> (version: Result<EDIDVersion, EDIDError>)
    ensures
        final(reader)@ == after_read(old(reader)@, 2),
        version == version_of(old(reader)@),
{
    let ghost before = reader@;
    let version = match reader.read_u8() {
        Some(v) => v,
        None => {
            return early_eof("EDID Version Missing");
        },
    };
    let revision = match reader.read_u8() {
        Some(v) => v,
        None => {
            return early_eof("EDID Version Missing");
        },
    };
    proof {
        assert(after_read(after_read(before, 1), 1) =~= after_read(before, 2));
    }
    check_version(version, revision)
}

/// Reads the video input parameters byte and decodes it.
pub fn decode_video_input(reader: &mut ByteReader) -> (input: Result<EDIDInputParams, EDIDError>)
    ensures
        final(reader)@ == after_read(old(reader)@, 1),
        input == video_input_of(old(reader)@),
{
    match reader.read_u8() {
        Some(v) => Ok(EDIDInputParams::from(v)),
        None => early_eof("Display info missing"),
    }
}

/// Reads past the fields between the video input parameters and the detailed
/// descriptors. Nothing is checked and nothing can fail: a source that ends
/// early is simply used up.
pub fn skip_reserved(reader: &mut ByteReader)
    ensures
        final(reader)@ == after_read(old(reader)@, RESERVED_LEN as nat),
{
    let ghost before = reader@;
    reader.skip(1);
    reader.skip(1);
    reader.skip(1);
    reader.skip(1);
    reader.skip(10);
    reader.skip(3);
    reader.skip(16);
    proof {
        let s1 = after_read(before, 1);
        let s2 = after_read(s1, 1);
        let s3 = after_read(s2, 1);
        let s4 = after_read(s3, 1);
        let s5 = after_read(s4, 10);
        let s6 = after_read(s5, 3);
        assert(s2 =~= after_read(before, 2));
        assert(s3 =~= after_read(before, 3));
        assert(s4 =~= after_read(before, 4));
        assert(s5 =~= after_read(before, 14));
        assert(s6 =~= after_read(before, 17));
        assert(after_read(s6, 16) =~= after_read(before, 33));
    }
}

impl EDID {
    /// Decodes the base block that `bytes` holds.
    pub fn parse(bytes: &[u8]) -> (edid: Result<EDID, EDIDError>)
        ensures
            edid == decode_base_block(bytes@),
            !has_header(bytes@) ==> edid == Err::<EDID, EDIDError>(EDIDError::InvalidHeader),
            edid matches Ok(e) ==> e.header_valid && e.edid_version == supported_version(),
    {
        let mut reader = ByteReader::new(bytes);
        let header_valid = match validate_header(&mut reader) {
            Ok(v) => v,
            Err(e) => {
                return Err(e);
            },
        };
        let identity = match decode_identity(&mut reader) {
            Ok(v) => v,
            Err(e) => {
                return Err(e);
            },
        };
        let edid_version = match version_gate(&mut reader) {
            Ok(v) => v,
            Err(e) => {
                return Err(e);
            },
        };
        let video_input = match decode_video_input(&mut reader) {
            Ok(v) => v,
            Err(e) => {
                return Err(e);
            },
        };
        skip_reserved(&mut reader);
        proof {
            let s = bytes@;
            let body = s.skip(8);
            assert(body.subrange(0, 2) =~= s.subrange(8, 10));
            assert(body.subrange(2, 4) =~= s.subrange(10, 12));
            assert(body.subrange(4, 8) =~= s.subrange(12, 16));
            assert(after_read(body, 10) =~= s.skip(18));
            assert(after_read(s.skip(18), 2) =~= s.skip(20));
        }
        Ok(
            EDID {
                header_valid,
                manufacturer_id: identity.manufacturer_id,
                product_code: identity.product_code,
                serial_number: identity.serial_number,
                edid_version,
                video_input,
            },
        )
    }

    /// Decodes the file behind a path, given what the file system said of
    /// it: `None` where the path names no regular file, else its bytes. A
    /// missing file is reported before any byte is looked at.
    pub fn parse_file(contents: Option<&[u8]>) -> (edid: Result<EDID, EDIDError>)
        ensures
            edid == decode_file(
                match contents {
                    Some(bytes) => Some(bytes@),
                    None => None,
                },
            ),
            contents is None ==> edid == Err::<EDID, EDIDError>(EDIDError::MissingFile),
    {
        match contents {
            None => Err(EDIDError::MissingFile),
            Some(bytes) => EDID::parse(bytes),
        }
    }
}

/// A source opens with the header exactly when its first eight bytes are
/// `00 FF FF FF FF FF FF 00`.
pub proof fn lemma_header_bytes(s: Seq<u8>)
    ensures
        has_header(s) <==> s.len() >= 8 && s[0] == 0x00 && s[1] == 0xFF && s[2] == 0xFF && s[3]
            == 0xFF && s[4] == 0xFF && s[5] == 0xFF && s[6] == 0xFF && s[7] == 0x00,
{
    if s.len() >= 8 {
        let h = s.take(8);
        let h7 = h.drop_last();
        let h6 = h7.drop_last();
        let h5 = h6.drop_last();
        let h4 = h5.drop_last();
        let h3 = h4.drop_last();
        let h2 = h3.drop_last();
        let h1 = h2.drop_last();
        assert(be_value(h1.drop_last()) == 0);
        assert(be_value(h1) == s[0]);
        assert(be_value(h2) == be_value(h1) * 256 + s[1]);
        assert(be_value(h3) == be_value(h2) * 256 + s[2]);
        assert(be_value(h4) == be_value(h3) * 256 + s[3]);
        assert(be_value(h5) == be_value(h4) * 256 + s[4]);
        assert(be_value(h6) == be_value(h5) * 256 + s[5]);
        assert(be_value(h7) == be_value(h6) * 256 + s[6]);
        assert(be_value(h) == be_value(h7) * 256 + s[7]);
    }
}

/// Eight bytes that are not the header pattern fail the source as a whole,
/// whatever follows them.
pub proof fn lemma_wrong_header_fails(s: Seq<u8>)
    requires
        s.len() >= 8,
        !(s[0] == 0x00 && s[1] == 0xFF && s[2] == 0xFF && s[3] == 0xFF && s[4] == 0xFF && s[5]
            == 0xFF && s[6] == 0xFF && s[7] == 0x00),
    ensures
        decode_base_block(s) == Err::<EDID, EDIDError>(EDIDError::InvalidHeader),
        decode_file(Some(s)) == Err::<EDID, EDIDError>(EDIDError::InvalidHeader),
{
    lemma_header_bytes(s);
}

/// What the version gate does to a source that holds the header and both
/// version bytes: version 1 lets it pass, and so does revision 3, each on
/// its own; the record then says 1.4 and that the header was valid. Any
/// other pair fails it as unsupported, and nothing else does.
pub proof fn lemma_version_gate(s: Seq<u8>)
    requires
        has_header(s),
        s.len() >= 20,
    ensures
        (s[18] == 1 || s[19] == 3) && s.len() >= 21 ==> (decode_base_block(s) matches Ok(r)
            && r.edid_version == (EDIDVersion { major: 1, minor: 4 }) && r.header_valid),
        s[18] != 1 && s[19] != 3 <==> decode_base_block(s) == Err::<EDID, EDIDError>(
            EDIDError::UnsupportedEDIDVer("EDID Version Unsupported"),
        ),
        s[18] != 1 && s[19] != 3 <==> decode_base_block(s) matches Err(
            EDIDError::UnsupportedEDIDVer(_),
        ),
{
}

/// A path that names no regular file fails as a missing file; there is no
/// byte that could be read.
pub proof fn lemma_missing_file(contents: Option<Seq<u8>>)
    ensures
        contents is None <==> decode_file(contents) == Err::<EDID, EDIDError>(
            EDIDError::MissingFile,
        ),
{
}

/// A source is decoded exactly when it opens with the header, holds the
/// first 21 bytes of the block, and passes the version gate.
pub proof fn lemma_decoded_exactly(s: Seq<u8>)
    ensures
        decode_base_block(s) is Ok <==> has_header(s) && s.len() >= 21 && version_accepted(
            s[18],
            s[19],
        ),
{
}

/// Of a source that is decoded, only the header, the identity, the version
/// and the video input parameters count: two sources that agree in bytes 0
/// to 15 and 18 to 20 give the same result, whatever else they hold and
/// however long they are.
pub proof fn lemma_unread_bytes_do_not_count(s: Seq<u8>, t: Seq<u8>)
    requires
        s.len() >= 21,
        t.len() >= 21,
        s.take(16) == t.take(16),
        s.subrange(18, 21) == t.subrange(18, 21),
    ensures
        decode_base_block(s) == decode_base_block(t),
{
    assert(s.take(8) =~= s.take(16).take(8));
    assert(t.take(8) =~= t.take(16).take(8));
    assert(s.subrange(8, 10) =~= s.take(16).subrange(8, 10));
    assert(t.subrange(8, 10) =~= t.take(16).subrange(8, 10));
    assert(s.subrange(10, 12) =~= s.take(16).subrange(10, 12));
    assert(t.subrange(10, 12) =~= t.take(16).subrange(10, 12));
    assert(s.subrange(12, 16) =~= s.take(16).subrange(12, 16));
    assert(t.subrange(12, 16) =~= t.take(16).subrange(12, 16));
    assert(s[18] == s.subrange(18, 21)[0] && t[18] == t.subrange(18, 21)[0]);
    assert(s[19] == s.subrange(18, 21)[1] && t[19] == t.subrange(18, 21)[1]);
    assert(s[20] == s.subrange(18, 21)[2] && t[20] == t.subrange(18, 21)[2]);
}

/// Decoding is a function of the bytes alone: two runs over the same source
/// end in the same record, field for field, or in the same error.
pub proof fn lemma_parse_idempotent(
    bytes: &[u8],
    first: Result<EDID, EDIDError>,
    second: Result<EDID, EDIDError>,
)
    requires
        call_ensures(EDID::parse, (bytes,), first),
        call_ensures(EDID::parse, (bytes,), second),
    ensures
        first == second,
{
}

/// Decoding a file is a function of what the file system says of its path:
/// two runs on the same answer end in the same record, field for field, or
/// in the same error.
pub proof fn lemma_parse_file_idempotent(
    contents: Option<&[u8]>,
    first: Result<EDID, EDIDError>,
    second: Result<EDID, EDIDError>,
)
    requires
        call_ensures(EDID::parse_file, (contents,), first),
        call_ensures(EDID::parse_file, (contents,), second),
    ensures
        first == second,
{
}

} // verus!
