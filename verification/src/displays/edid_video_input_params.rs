//! The video input parameters byte of an EDID base block.
//!
//! One byte describes how a display is driven. Its top bit says whether the
//! input is digital or analog; the remaining seven bits are packed fields
//! whose layout depends on that choice.

use vstd::prelude::*;

verus! {

/// Colour depth of a digital input, per primary colour.
#[derive(Clone, Copy, Debug, PartialEq, Eq, Structural)]
pub enum EDIDBitDepth {
    Undef,
    B6,
    B8,
    B10,
    B12,
    B14,
    Bpp16,
    Reserved,
}

/// Interface standard of a digital input.
#[derive(Clone, Copy, Debug, PartialEq, Eq, Structural)]
pub enum EDIDVideoInterface {
    Undef,
    DVI,
    HDMIA,
    HDMIB,
    MDDI,
    DP,
}

/// Video white and sync levels of an analog input, relative to blank.
#[allow(non_camel_case_types)]
#[derive(Clone, Copy, Debug, PartialEq, Eq, Structural)]
pub enum EDIDWhiteSyncLevels {
    /// +0.7 / -0.3 V
    V0_7_0_3,
    /// +0.714 / -0.286 V
    V0_714_0_286,
    /// +1.0 / -0.4 V
    V1_0_0_4,
    /// +0.7 / 0 V (EVC)
    V0_7_0_0_EVC,
    /// Defensive state for a level code outside the two-bit field. No byte
    /// decodes to it.
    CodeFailure,
}

/// Parameters of a digital input.
#[derive(Clone, Copy, Debug, PartialEq, Eq, Structural)]
pub struct EDIDDigitalVideoInputParams {
    pub bit_depth: EDIDBitDepth,
    pub interface: EDIDVideoInterface,
}

/// Parameters of an analog input.
#[derive(Clone, Copy, Debug, PartialEq, Eq, Structural)]
pub struct EDIDAnalogVideoInputParams {
    pub white_sync_levels: EDIDWhiteSyncLevels,
    pub blank_to_black: bool,
    pub separate_sync_support: bool,
    pub composite_sync: bool,
    pub sync_on_green: bool,
    pub green_sync_vsync_serration: bool,
}

/// The decoded video input parameters: digital or analog, never both and
/// never neither.
#[derive(Clone, Copy, Debug, PartialEq, Eq, Structural)]
pub enum EDIDInputParams {
    Digital(EDIDDigitalVideoInputParams),
    Analog(EDIDAnalogVideoInputParams),
}

/// The number that `width` bits of `v` spell, from bit `low` upwards.
pub open spec fn bit_field(v: u8, low: int, width: int) -> int {
    (v as int / pow2_small(low)) % pow2_small(width)
}

/// Two to the power `n`, for the exponents that occur inside one byte.
pub open spec fn pow2_small(n: int) -> int {
    if n <= 0 {
        1
    } else if n == 1 {
        2
    } else if n == 2 {
        4
    } else if n == 3 {
        8
    } else if n == 4 {
        16
    } else if n == 5 {
        32
    } else if n == 6 {
        64
    } else if n == 7 {
        128
    } else {
        256
    }
}

/// Whether bit `i` of `v` is set.
pub open spec fn bit_set(v: u8, i: int) -> bool {
    bit_field(v, i, 1) == 1
}

impl EDIDBitDepth {
    /// The depth that a three-bit code selects.
    pub open spec fn of_code(code: int) -> Self {
        if code == 1 {
            EDIDBitDepth::B6
        } else if code == 2 {
            EDIDBitDepth::B8
        } else if code == 3 {
            EDIDBitDepth::B10
        } else if code == 4 {
            EDIDBitDepth::B12
        } else if code == 5 {
            EDIDBitDepth::B14
        } else if code == 6 {
            EDIDBitDepth::Bpp16
        } else if code == 7 {
            EDIDBitDepth::Reserved
        } else {
            EDIDBitDepth::Undef
        }
    }
}

impl EDIDVideoInterface {
    /// The interface that a four-bit code selects. Codes 6 to 15 have no
    /// state of their own and fall back to `Undef`.
    pub open spec fn of_code(code: int) -> Self {
        if code == 1 {
            EDIDVideoInterface::DVI
        } else if code == 2 {
            EDIDVideoInterface::HDMIA
        } else if code == 3 {
            EDIDVideoInterface::HDMIB
        } else if code == 4 {
            EDIDVideoInterface::MDDI
        } else if code == 5 {
            EDIDVideoInterface::DP
        } else {
            EDIDVideoInterface::Undef
        }
    }
}

impl EDIDWhiteSyncLevels {
    /// The level pair that a two-bit code selects.
    pub open spec fn of_code(code: int) -> Self {
        if code == 0 {
            EDIDWhiteSyncLevels::V0_7_0_3
        } else if code == 1 {
            EDIDWhiteSyncLevels::V0_714_0_286
        } else if code == 2 {
            EDIDWhiteSyncLevels::V1_0_0_4
        } else if code == 3 {
            EDIDWhiteSyncLevels::V0_7_0_0_EVC
        } else {
            EDIDWhiteSyncLevels::CodeFailure
        }
    }
}

impl EDIDDigitalVideoInputParams {
    /// What byte `v` means when read as digital parameters: bits 6 to 4 are
    /// the bit depth, bits 3 to 0 the interface. Bit 7 is not looked at.
    pub open spec fn decode(v: u8) -> Self {
        EDIDDigitalVideoInputParams {
            bit_depth: EDIDBitDepth::of_code(bit_field(v, 4, 3)),
            interface: EDIDVideoInterface::of_code(bit_field(v, 0, 4)),
        }
    }
}

impl EDIDAnalogVideoInputParams {
    /// What byte `v` means when read as analog parameters: bits 6 and 5 are
    /// the white and sync levels, bits 4 to 0 one flag each. Bit 7 is not
    /// looked at.
    pub open spec fn decode(v: u8) -> Self {
        EDIDAnalogVideoInputParams {
            white_sync_levels: EDIDWhiteSyncLevels::of_code(bit_field(v, 5, 2)),
            blank_to_black: bit_set(v, 4),
            separate_sync_support: bit_set(v, 3),
            composite_sync: bit_set(v, 2),
            sync_on_green: bit_set(v, 1),
            green_sync_vsync_serration: bit_set(v, 0),
        }
    }
}

impl EDIDInputParams {
    /// What the video input parameters byte `v` means: bit 7 selects the
    /// variant, the other bits are read according to it.
    pub open spec fn decode(v: u8) -> Self {
        if bit_set(v, 7) {
            EDIDInputParams::Digital(EDIDDigitalVideoInputParams::decode(v))
        } else {
            EDIDInputParams::Analog(EDIDAnalogVideoInputParams::decode(v))
        }
    }
}

impl From<u8> for EDIDDigitalVideoInputParams {
    fn from(v: u8) -> (params: Self) {
        let depth_code: u8 = (v >> 4) & 0b0000_0111;
        let interface_code: u8 = v & 0b0000_1111;
        proof {
            assert(depth_code == (v / 16) % 8) by (bit_vector)
                requires
                    depth_code == (v >> 4) & 0b0000_0111,
            ;
            assert(interface_code == v % 16) by (bit_vector)
                requires
                    interface_code == v & 0b0000_1111,
            ;
        }
        EDIDDigitalVideoInputParams {
            bit_depth: match depth_code {
                0b001 => EDIDBitDepth::B6,
                0b010 => EDIDBitDepth::B8,
                0b011 => EDIDBitDepth::B10,
                0b100 => EDIDBitDepth::B12,
                0b101 => EDIDBitDepth::B14,
                0b110 => EDIDBitDepth::Bpp16,
                0b111 => EDIDBitDepth::Reserved,
                _ => EDIDBitDepth::Undef,
            },
            interface: match interface_code {
                0b0001 => EDIDVideoInterface::DVI,
                0b0010 => EDIDVideoInterface::HDMIA,
                0b0011 => EDIDVideoInterface::HDMIB,
                0b0100 => EDIDVideoInterface::MDDI,
                0b0101 => EDIDVideoInterface::DP,
                _ => EDIDVideoInterface::Undef,
            },
        }
    }
}

impl vstd::std_specs::convert::FromSpecImpl<u8> for EDIDDigitalVideoInputParams {
    open spec fn obeys_from_spec() -> bool {
        true
    }

    open spec fn from_spec(v: u8) -> Self {
        EDIDDigitalVideoInputParams::decode(v)
    }
}

impl From<u8> for EDIDAnalogVideoInputParams {
    fn from(v: u8) -> (params: Self) {
        let level_code: u8 = (v & 0b0110_0000) >> 5;
        proof {
            assert(level_code == (v / 32) % 4) by (bit_vector)
                requires
                    level_code == (v & 0b0110_0000) >> 5,
            ;
            assert((v & 0b0001_0000 > 0) == ((v / 16) % 2 == 1)) by (bit_vector);
            assert((v & 0b0000_1000 > 0) == ((v / 8) % 2 == 1)) by (bit_vector);
            assert((v & 0b0000_0100 > 0) == ((v / 4) % 2 == 1)) by (bit_vector);
            assert((v & 0b0000_0010 > 0) == ((v / 2) % 2 == 1)) by (bit_vector);
            assert((v & 0b0000_0001 > 0) == (v % 2 == 1)) by (bit_vector);
        }
        EDIDAnalogVideoInputParams {
            white_sync_levels: match level_code {
                0b00 => EDIDWhiteSyncLevels::V0_7_0_3,
                0b01 => EDIDWhiteSyncLevels::V0_714_0_286,
                0b10 => EDIDWhiteSyncLevels::V1_0_0_4,
                0b11 => EDIDWhiteSyncLevels::V0_7_0_0_EVC,
                _ => EDIDWhiteSyncLevels::CodeFailure,
            },
            blank_to_black: (v & 0b0001_0000) > 0,
            separate_sync_support: (v & 0b0000_1000) > 0,
            composite_sync: (v & 0b0000_0100) > 0,
            sync_on_green: (v & 0b0000_0010) > 0,
            green_sync_vsync_serration: (v & 0b0000_0001) > 0,
        }
    }
}

impl vstd::std_specs::convert::FromSpecImpl<u8> for EDIDAnalogVideoInputParams {
    open spec fn obeys_from_spec() -> bool {
        true
    }

    open spec fn from_spec(v: u8) -> Self {
        EDIDAnalogVideoInputParams::decode(v)
    }
}

impl From<u8> for EDIDInputParams {
    fn from(v: u8) -> (params: Self) {
        proof {
            assert((v & 0b1000_0000 != 0) == ((v / 128) % 2 == 1)) by (bit_vector);
        }
        if v & 0b1000_0000 != 0 {
            EDIDInputParams::Digital(EDIDDigitalVideoInputParams::from(v))
        } else {
            EDIDInputParams::Analog(EDIDAnalogVideoInputParams::from(v))
        }
    }
}

impl vstd::std_specs::convert::FromSpecImpl<u8> for EDIDInputParams {
    open spec fn obeys_from_spec() -> bool {
        true
    }

    open spec fn from_spec(v: u8) -> Self {
        EDIDInputParams::decode(v)
    }
}

/// The two variants exclude each other: every byte decodes to exactly one of
/// them, and bit 7 alone decides which.
pub proof fn lemma_exactly_one_variant(v: u8)
    ensures
        (EDIDInputParams::decode(v) is Digital) != (EDIDInputParams::decode(v) is Analog),
        EDIDInputParams::decode(v) is Digital <==> v >= 128,
        EDIDInputParams::decode(v) is Analog <==> v < 128,
{
    assert(((v / 128) % 2 == 1) == (v >= 128)) by (bit_vector);
}

/// No byte decodes to the defensive `CodeFailure` level: the two-bit field
/// has four values and each has a level pair of its own.
pub proof fn lemma_code_failure_unreachable(v: u8)
    ensures
        EDIDAnalogVideoInputParams::decode(v).white_sync_levels != EDIDWhiteSyncLevels::CodeFailure,
        EDIDInputParams::decode(v) matches EDIDInputParams::Analog(a) ==> a.white_sync_levels
            != EDIDWhiteSyncLevels::CodeFailure,
{
}

} // verus!
