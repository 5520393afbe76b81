//! The tags and value types of directory entries.
//!
//! A tag is a 16-bit code. The codes that carry a name are listed here; any
//! other code is kept as it was read. A value type fixes how many bytes one
//! component of an entry's value takes.

use vstd::prelude::*;
use vstd::std_specs::convert::FromSpecImpl;

verus! {

/// The tag of a directory entry.
#[derive(Debug, Copy, Clone, PartialEq, Eq, Structural)]
pub enum IfdEntryTag {
    NewSubfileType,
    ImageWidth,
    ImageLength,
    BitsPerSample,
    Compression,
    PhotometricInterpretation,
    Make,
    Model,
    StripOffsets,
    Orientation,
    SamplesPerPixel,
    RowsPerStrip,
    StripByteCounts,
    XResolution,
    YResolution,
    PlanarConfiguration,
    ResolutionUnit,
    Software,
    DateTime,
    Artist,
    SubIFDS,
    JpgFromRawStart,
    JpgFromRawLength,
    YCbCrPositioning,
    ReferenceBlackNWhite,
    XMLMetaData,
    CFARepeatPatternDim,
    CFAPattern,
    CopyRight,
    ExposureTime,
    FNumber,
    ExifIFDPointer,
    ExposureProgram,
    GPSInfo,
    ISOSpeedRatings,
    SensitivityType,
    RecommendedExposureIndex,
    DateTimeOriginal,
    DateTimeDigitized,
    NikonPictureControlVersion,
    NikonPictureControlName,
    NikonPictureControlComment,
    ExposureBias,
    MaxAperture,
    ExposureMeteringMode,
    LightSource,
    Flash,
    FocalLength,
    TIFFEPStandardID,
    SensingMethod,
    MakerNote,
    UserComment,
    SubSecTime,
    SubSecTimeOriginal,
    SubSecTimeDigitized,
    NikonAFInfo2,
    FileSource,
    NikonCaptureVersion,
    NikonCaptureOffset,
    NikonScanIFD,
    NikonCaptureEditVersion,
    NikonCaptureEditCount,
    NikonCaptureEditApplied,
    NikonCaptureToneCurve,
    NikonCaptureSharpener,
    NikonCaptureColorMode,
    NikonCaptureColorHue,
    NikonCaptureSaturation,
    NikonCaptureNoiseReduction,
    /// A code without a name here, kept as read.
    Unknown(u16),
}

/// The 16-bit code of a tag.
pub open spec fn tag_code(tag: IfdEntryTag) -> int {
    match tag {
        IfdEntryTag::NewSubfileType => 0xFE,
        IfdEntryTag::ImageWidth => 0x100,
        IfdEntryTag::ImageLength => 0x101,
        IfdEntryTag::BitsPerSample => 0x102,
        IfdEntryTag::Compression => 0x103,
        IfdEntryTag::PhotometricInterpretation => 0x106,
        IfdEntryTag::Make => 0x10F,
        IfdEntryTag::Model => 0x110,
        IfdEntryTag::StripOffsets => 0x111,
        IfdEntryTag::Orientation => 0x112,
        IfdEntryTag::SamplesPerPixel => 0x115,
        IfdEntryTag::RowsPerStrip => 0x116,
        IfdEntryTag::StripByteCounts => 0x117,
        IfdEntryTag::XResolution => 0x11A,
        IfdEntryTag::YResolution => 0x11B,
        IfdEntryTag::PlanarConfiguration => 0x11C,
        IfdEntryTag::ResolutionUnit => 0x128,
        IfdEntryTag::Software => 0x131,
        IfdEntryTag::DateTime => 0x132,
        IfdEntryTag::Artist => 0x13B,
        IfdEntryTag::SubIFDS => 0x14A,
        IfdEntryTag::JpgFromRawStart => 0x201,
        IfdEntryTag::JpgFromRawLength => 0x202,
        IfdEntryTag::YCbCrPositioning => 0x213,
        IfdEntryTag::ReferenceBlackNWhite => 0x214,
        IfdEntryTag::XMLMetaData => 0x2BC,
        IfdEntryTag::CFARepeatPatternDim => 0x828D,
        IfdEntryTag::CFAPattern => 0x828E,
        IfdEntryTag::CopyRight => 0x8298,
        IfdEntryTag::ExposureTime => 0x829A,
        IfdEntryTag::FNumber => 0x829D,
        IfdEntryTag::ExifIFDPointer => 0x8769,
        IfdEntryTag::ExposureProgram => 0x8822,
        IfdEntryTag::GPSInfo => 0x8825,
        IfdEntryTag::ISOSpeedRatings => 0x8827,
        IfdEntryTag::SensitivityType => 0x8830,
        IfdEntryTag::RecommendedExposureIndex => 0x8832,
        IfdEntryTag::DateTimeOriginal => 0x9003,
        IfdEntryTag::DateTimeDigitized => 0x9004,
        IfdEntryTag::NikonPictureControlVersion => 0x9010,
        IfdEntryTag::NikonPictureControlName => 0x9011,
        IfdEntryTag::NikonPictureControlComment => 0x9012,
        IfdEntryTag::ExposureBias => 0x9204,
        IfdEntryTag::MaxAperture => 0x9205,
        IfdEntryTag::ExposureMeteringMode => 0x9207,
        IfdEntryTag::LightSource => 0x9208,
        IfdEntryTag::Flash => 0x9209,
        IfdEntryTag::FocalLength => 0x920A,
        IfdEntryTag::TIFFEPStandardID => 0x9216,
        IfdEntryTag::SensingMethod => 0x9217,
        IfdEntryTag::MakerNote => 0x927C,
        IfdEntryTag::UserComment => 0x9286,
        IfdEntryTag::SubSecTime => 0x9290,
        IfdEntryTag::SubSecTimeOriginal => 0x9291,
        IfdEntryTag::SubSecTimeDigitized => 0x9292,
        IfdEntryTag::NikonAFInfo2 => 0xA217,
        IfdEntryTag::FileSource => 0xA300,
        IfdEntryTag::NikonCaptureVersion => 0xA301,
        IfdEntryTag::NikonCaptureOffset => 0xA302,
        IfdEntryTag::NikonScanIFD => 0xA401,
        IfdEntryTag::NikonCaptureEditVersion => 0xA402,
        IfdEntryTag::NikonCaptureEditCount => 0xA403,
        IfdEntryTag::NikonCaptureEditApplied => 0xA405,
        IfdEntryTag::NikonCaptureToneCurve => 0xA406,
        IfdEntryTag::NikonCaptureSharpener => 0xA407,
        IfdEntryTag::NikonCaptureColorMode => 0xA408,
        IfdEntryTag::NikonCaptureColorHue => 0xA409,
        IfdEntryTag::NikonCaptureSaturation => 0xA40A,
        IfdEntryTag::NikonCaptureNoiseReduction => 0xA40C,
        IfdEntryTag::Unknown(value) => value as int,
    }
}

/// The tag that a 16-bit code stands for.
pub open spec fn tag_of_code(code: u16) -> IfdEntryTag {
    match code {
        0xFE => IfdEntryTag::NewSubfileType,
        0x100 => IfdEntryTag::ImageWidth,
        0x101 => IfdEntryTag::ImageLength,
        0x102 => IfdEntryTag::BitsPerSample,
        0x103 => IfdEntryTag::Compression,
        0x106 => IfdEntryTag::PhotometricInterpretation,
        0x10F => IfdEntryTag::Make,
        0x110 => IfdEntryTag::Model,
        0x111 => IfdEntryTag::StripOffsets,
        0x112 => IfdEntryTag::Orientation,
        0x115 => IfdEntryTag::SamplesPerPixel,
        0x116 => IfdEntryTag::RowsPerStrip,
        0x117 => IfdEntryTag::StripByteCounts,
        0x11A => IfdEntryTag::XResolution,
        0x11B => IfdEntryTag::YResolution,
        0x11C => IfdEntryTag::PlanarConfiguration,
        0x128 => IfdEntryTag::ResolutionUnit,
        0x131 => IfdEntryTag::Software,
        0x132 => IfdEntryTag::DateTime,
        0x13B => IfdEntryTag::Artist,
        0x14A => IfdEntryTag::SubIFDS,
        0x201 => IfdEntryTag::JpgFromRawStart,
        0x202 => IfdEntryTag::JpgFromRawLength,
        0x213 => IfdEntryTag::YCbCrPositioning,
        0x214 => IfdEntryTag::ReferenceBlackNWhite,
        0x2BC => IfdEntryTag::XMLMetaData,
        0x828D => IfdEntryTag::CFARepeatPatternDim,
        0x828E => IfdEntryTag::CFAPattern,
        0x8298 => IfdEntryTag::CopyRight,
        0x829A => IfdEntryTag::ExposureTime,
        0x829D => IfdEntryTag::FNumber,
        0x8769 => IfdEntryTag::ExifIFDPointer,
        0x8822 => IfdEntryTag::ExposureProgram,
        0x8825 => IfdEntryTag::GPSInfo,
        0x8827 => IfdEntryTag::ISOSpeedRatings,
        0x8830 => IfdEntryTag::SensitivityType,
        0x8832 => IfdEntryTag::RecommendedExposureIndex,
        0x9003 => IfdEntryTag::DateTimeOriginal,
        0x9004 => IfdEntryTag::DateTimeDigitized,
        0x9010 => IfdEntryTag::NikonPictureControlVersion,
        0x9011 => IfdEntryTag::NikonPictureControlName,
        0x9012 => IfdEntryTag::NikonPictureControlComment,
        0x9204 => IfdEntryTag::ExposureBias,
        0x9205 => IfdEntryTag::MaxAperture,
        0x9207 => IfdEntryTag::ExposureMeteringMode,
        0x9208 => IfdEntryTag::LightSource,
        0x9209 => IfdEntryTag::Flash,
        0x920A => IfdEntryTag::FocalLength,
        0x9216 => IfdEntryTag::TIFFEPStandardID,
        0x9217 => IfdEntryTag::SensingMethod,
        0x927C => IfdEntryTag::MakerNote,
        0x9286 => IfdEntryTag::UserComment,
        0x9290 => IfdEntryTag::SubSecTime,
        0x9291 => IfdEntryTag::SubSecTimeOriginal,
        0x9292 => IfdEntryTag::SubSecTimeDigitized,
        0xA217 => IfdEntryTag::NikonAFInfo2,
        0xA300 => IfdEntryTag::FileSource,
        0xA301 => IfdEntryTag::NikonCaptureVersion,
        0xA302 => IfdEntryTag::NikonCaptureOffset,
        0xA401 => IfdEntryTag::NikonScanIFD,
        0xA402 => IfdEntryTag::NikonCaptureEditVersion,
        0xA403 => IfdEntryTag::NikonCaptureEditCount,
        0xA405 => IfdEntryTag::NikonCaptureEditApplied,
        0xA406 => IfdEntryTag::NikonCaptureToneCurve,
        0xA407 => IfdEntryTag::NikonCaptureSharpener,
        0xA408 => IfdEntryTag::NikonCaptureColorMode,
        0xA409 => IfdEntryTag::NikonCaptureColorHue,
        0xA40A => IfdEntryTag::NikonCaptureSaturation,
        0xA40C => IfdEntryTag::NikonCaptureNoiseReduction,
        _ => IfdEntryTag::Unknown(code),
    }
}

impl FromSpecImpl<u16> for IfdEntryTag {
    open spec fn obeys_from_spec() -> bool {
        true
    }

    open spec fn from_spec(tag_value: u16) -> Self {
        tag_of_code(tag_value)
    }
}

impl From<u16> for IfdEntryTag {
    /// The named tag for a code that has one, `Unknown` with the code otherwise.
    fn from(tag_value: u16) -> (tag: Self)
        ensures
            tag == tag_of_code(tag_value),
    {
        match tag_value {
            0xFE => IfdEntryTag::NewSubfileType,
            0x100 => IfdEntryTag::ImageWidth,
            0x101 => IfdEntryTag::ImageLength,
            0x102 => IfdEntryTag::BitsPerSample,
            0x103 => IfdEntryTag::Compression,
            0x106 => IfdEntryTag::PhotometricInterpretation,
            0x10F => IfdEntryTag::Make,
            0x110 => IfdEntryTag::Model,
            0x111 => IfdEntryTag::StripOffsets,
            0x112 => IfdEntryTag::Orientation,
            0x115 => IfdEntryTag::SamplesPerPixel,
            0x116 => IfdEntryTag::RowsPerStrip,
            0x117 => IfdEntryTag::StripByteCounts,
            0x11A => IfdEntryTag::XResolution,
            0x11B => IfdEntryTag::YResolution,
            0x11C => IfdEntryTag::PlanarConfiguration,
            0x128 => IfdEntryTag::ResolutionUnit,
            0x131 => IfdEntryTag::Software,
            0x132 => IfdEntryTag::DateTime,
            0x13B => IfdEntryTag::Artist,
            0x14A => IfdEntryTag::SubIFDS,
            0x201 => IfdEntryTag::JpgFromRawStart,
            0x202 => IfdEntryTag::JpgFromRawLength,
            0x213 => IfdEntryTag::YCbCrPositioning,
            0x214 => IfdEntryTag::ReferenceBlackNWhite,
            0x2BC => IfdEntryTag::XMLMetaData,
            0x828D => IfdEntryTag::CFARepeatPatternDim,
            0x828E => IfdEntryTag::CFAPattern,
            0x8298 => IfdEntryTag::CopyRight,
            0x829A => IfdEntryTag::ExposureTime,
            0x829D => IfdEntryTag::FNumber,
            0x8769 => IfdEntryTag::ExifIFDPointer,
            0x8822 => IfdEntryTag::ExposureProgram,
            0x8825 => IfdEntryTag::GPSInfo,
            0x8827 => IfdEntryTag::ISOSpeedRatings,
            0x8830 => IfdEntryTag::SensitivityType,
            0x8832 => IfdEntryTag::RecommendedExposureIndex,
            0x9003 => IfdEntryTag::DateTimeOriginal,
            0x9004 => IfdEntryTag::DateTimeDigitized,
            0x9010 => IfdEntryTag::NikonPictureControlVersion,
            0x9011 => IfdEntryTag::NikonPictureControlName,
            0x9012 => IfdEntryTag::NikonPictureControlComment,
            0x9204 => IfdEntryTag::ExposureBias,
            0x9205 => IfdEntryTag::MaxAperture,
            0x9207 => IfdEntryTag::ExposureMeteringMode,
            0x9208 => IfdEntryTag::LightSource,
            0x9209 => IfdEntryTag::Flash,
            0x920A => IfdEntryTag::FocalLength,
            0x9216 => IfdEntryTag::TIFFEPStandardID,
            0x9217 => IfdEntryTag::SensingMethod,
            0x927C => IfdEntryTag::MakerNote,
            0x9286 => IfdEntryTag::UserComment,
            0x9290 => IfdEntryTag::SubSecTime,
            0x9291 => IfdEntryTag::SubSecTimeOriginal,
            0x9292 => IfdEntryTag::SubSecTimeDigitized,
            0xA217 => IfdEntryTag::NikonAFInfo2,
            0xA300 => IfdEntryTag::FileSource,
            0xA301 => IfdEntryTag::NikonCaptureVersion,
            0xA302 => IfdEntryTag::NikonCaptureOffset,
            0xA401 => IfdEntryTag::NikonScanIFD,
            0xA402 => IfdEntryTag::NikonCaptureEditVersion,
            0xA403 => IfdEntryTag::NikonCaptureEditCount,
            0xA405 => IfdEntryTag::NikonCaptureEditApplied,
            0xA406 => IfdEntryTag::NikonCaptureToneCurve,
            0xA407 => IfdEntryTag::NikonCaptureSharpener,
            0xA408 => IfdEntryTag::NikonCaptureColorMode,
            0xA409 => IfdEntryTag::NikonCaptureColorHue,
            0xA40A => IfdEntryTag::NikonCaptureSaturation,
            0xA40C => IfdEntryTag::NikonCaptureNoiseReduction,
            _ => IfdEntryTag::Unknown(tag_value),
        }
    }
}

impl IfdEntryTag {
    /// The code of this tag.
    pub fn usize_value(&self) -> (value: usize)
        ensures
            value as int == tag_code(*self),
            value < 65536,
    {
        match self {
            IfdEntryTag::NewSubfileType => 0xFE,
            IfdEntryTag::ImageWidth => 0x100,
            IfdEntryTag::ImageLength => 0x101,
            IfdEntryTag::BitsPerSample => 0x102,
            IfdEntryTag::Compression => 0x103,
            IfdEntryTag::PhotometricInterpretation => 0x106,
            IfdEntryTag::Make => 0x10F,
            IfdEntryTag::Model => 0x110,
            IfdEntryTag::StripOffsets => 0x111,
            IfdEntryTag::Orientation => 0x112,
            IfdEntryTag::SamplesPerPixel => 0x115,
            IfdEntryTag::RowsPerStrip => 0x116,
            IfdEntryTag::StripByteCounts => 0x117,
            IfdEntryTag::XResolution => 0x11A,
            IfdEntryTag::YResolution => 0x11B,
            IfdEntryTag::PlanarConfiguration => 0x11C,
            IfdEntryTag::ResolutionUnit => 0x128,
            IfdEntryTag::Software => 0x131,
            IfdEntryTag::DateTime => 0x132,
            IfdEntryTag::Artist => 0x13B,
            IfdEntryTag::SubIFDS => 0x14A,
            IfdEntryTag::JpgFromRawStart => 0x201,
            IfdEntryTag::JpgFromRawLength => 0x202,
            IfdEntryTag::YCbCrPositioning => 0x213,
            IfdEntryTag::ReferenceBlackNWhite => 0x214,
            IfdEntryTag::XMLMetaData => 0x2BC,
            IfdEntryTag::CFARepeatPatternDim => 0x828D,
            IfdEntryTag::CFAPattern => 0x828E,
            IfdEntryTag::CopyRight => 0x8298,
            IfdEntryTag::ExposureTime => 0x829A,
            IfdEntryTag::FNumber => 0x829D,
            IfdEntryTag::ExifIFDPointer => 0x8769,
            IfdEntryTag::ExposureProgram => 0x8822,
            IfdEntryTag::GPSInfo => 0x8825,
            IfdEntryTag::ISOSpeedRatings => 0x8827,
            IfdEntryTag::SensitivityType => 0x8830,
            IfdEntryTag::RecommendedExposureIndex => 0x8832,
            IfdEntryTag::DateTimeOriginal => 0x9003,
            IfdEntryTag::DateTimeDigitized => 0x9004,
            IfdEntryTag::NikonPictureControlVersion => 0x9010,
            IfdEntryTag::NikonPictureControlName => 0x9011,
            IfdEntryTag::NikonPictureControlComment => 0x9012,
            IfdEntryTag::ExposureBias => 0x9204,
            IfdEntryTag::MaxAperture => 0x9205,
            IfdEntryTag::ExposureMeteringMode => 0x9207,
            IfdEntryTag::LightSource => 0x9208,
            IfdEntryTag::Flash => 0x9209,
            IfdEntryTag::FocalLength => 0x920A,
            IfdEntryTag::TIFFEPStandardID => 0x9216,
            IfdEntryTag::SensingMethod => 0x9217,
            IfdEntryTag::MakerNote => 0x927C,
            IfdEntryTag::UserComment => 0x9286,
            IfdEntryTag::SubSecTime => 0x9290,
            IfdEntryTag::SubSecTimeOriginal => 0x9291,
            IfdEntryTag::SubSecTimeDigitized => 0x9292,
            IfdEntryTag::NikonAFInfo2 => 0xA217,
            IfdEntryTag::FileSource => 0xA300,
            IfdEntryTag::NikonCaptureVersion => 0xA301,
            IfdEntryTag::NikonCaptureOffset => 0xA302,
            IfdEntryTag::NikonScanIFD => 0xA401,
            IfdEntryTag::NikonCaptureEditVersion => 0xA402,
            IfdEntryTag::NikonCaptureEditCount => 0xA403,
            IfdEntryTag::NikonCaptureEditApplied => 0xA405,
            IfdEntryTag::NikonCaptureToneCurve => 0xA406,
            IfdEntryTag::NikonCaptureSharpener => 0xA407,
            IfdEntryTag::NikonCaptureColorMode => 0xA408,
            IfdEntryTag::NikonCaptureColorHue => 0xA409,
            IfdEntryTag::NikonCaptureSaturation => 0xA40A,
            IfdEntryTag::NikonCaptureNoiseReduction => 0xA40C,
            IfdEntryTag::Unknown(value) => *value as usize,
        }
    }
}

/// Reading a code as a tag and asking the tag for its code gives the code back.
pub proof fn lemma_tag_code_round_trip(code: u16)
    ensures
        tag_code(tag_of_code(code)) == code as int,
{
}

/// A tag that came from a code is the tag of its own code: no named code
/// hides inside `Unknown`.
pub proof fn lemma_tag_of_code_canonical(code: u16, back: u16)
    requires
        back as int == tag_code(tag_of_code(code)),
    ensures
        tag_of_code(back) == tag_of_code(code),
{
}

/// The value type of a directory entry. Each variant carries the number of
/// bytes that one component takes.
#[derive(Debug, Copy, Clone, PartialEq, Eq, Structural)]
pub enum IfdEntryType {
    UnsignedByte(u8),
    AsciiString(u8),
    UnsignedShort(u8),
    UnsignedLong(u8),
    UnsignedRational(u8),
    SignedByte(u8),
    Undefined(u8),
    SignedShort(u8),
    SignedLong(u8),
    SignedRational(u8),
    SingleFloat(u8),
    DoubleFloat(u8),
    /// A type code outside 1..=12; carries the low byte of the code. Its
    /// components take no bytes.
    Unknown(u8),
}

/// The value type that a 16-bit type code stands for.
pub open spec fn type_of_code(code: u16) -> IfdEntryType {
    match code {
        1 => IfdEntryType::UnsignedByte(1),
        2 => IfdEntryType::AsciiString(1),
        3 => IfdEntryType::UnsignedShort(2),
        4 => IfdEntryType::UnsignedLong(4),
        5 => IfdEntryType::UnsignedRational(8),
        6 => IfdEntryType::SignedByte(1),
        7 => IfdEntryType::Undefined(1),
        8 => IfdEntryType::SignedShort(2),
        9 => IfdEntryType::SignedLong(4),
        10 => IfdEntryType::SignedRational(8),
        11 => IfdEntryType::SingleFloat(4),
        12 => IfdEntryType::DoubleFloat(8),
        _ => IfdEntryType::Unknown((code % 256) as u8),
    }
}

/// The number of bytes that one component of a value of this type takes.
pub open spec fn type_width(data_type: IfdEntryType) -> int {
    match data_type {
        IfdEntryType::UnsignedByte(bytes) => bytes as int,
        IfdEntryType::AsciiString(bytes) => bytes as int,
        IfdEntryType::UnsignedShort(bytes) => bytes as int,
        IfdEntryType::UnsignedLong(bytes) => bytes as int,
        IfdEntryType::UnsignedRational(bytes) => bytes as int,
        IfdEntryType::SignedByte(bytes) => bytes as int,
        IfdEntryType::Undefined(bytes) => bytes as int,
        IfdEntryType::SignedShort(bytes) => bytes as int,
        IfdEntryType::SignedLong(bytes) => bytes as int,
        IfdEntryType::SignedRational(bytes) => bytes as int,
        IfdEntryType::SingleFloat(bytes) => bytes as int,
        IfdEntryType::DoubleFloat(bytes) => bytes as int,
        IfdEntryType::Unknown(_) => 0,
    }
}

/// The component width that a type code fixes: 1, 2, 4 or 8 for the codes
/// 1..=12, zero for every other code.
pub open spec fn code_width(code: u16) -> int {
    if code == 1 || code == 2 || code == 6 || code == 7 {
        1
    } else if code == 3 || code == 8 {
        2
    } else if code == 4 || code == 9 || code == 11 {
        4
    } else if code == 5 || code == 10 || code == 12 {
        8
    } else {
        0
    }
}

impl FromSpecImpl<u16> for IfdEntryType {
    open spec fn obeys_from_spec() -> bool {
        true
    }

    open spec fn from_spec(data_type: u16) -> Self {
        type_of_code(data_type)
    }
}

impl From<u16> for IfdEntryType {
    /// The value type for a type code, with its component width.
    fn from(data_type: u16) -> (t: Self)
        ensures
            t == type_of_code(data_type),
            type_width(t) == code_width(data_type),
    {
        match data_type {
            1 => IfdEntryType::UnsignedByte(1),
            2 => IfdEntryType::AsciiString(1),
            3 => IfdEntryType::UnsignedShort(2),
            4 => IfdEntryType::UnsignedLong(4),
            5 => IfdEntryType::UnsignedRational(8),
            6 => IfdEntryType::SignedByte(1),
            7 => IfdEntryType::Undefined(1),
            8 => IfdEntryType::SignedShort(2),
            9 => IfdEntryType::SignedLong(4),
            10 => IfdEntryType::SignedRational(8),
            11 => IfdEntryType::SingleFloat(4),
            12 => IfdEntryType::DoubleFloat(8),
            _ => IfdEntryType::Unknown((data_type % 256) as u8),
        }
    }
}

impl IfdEntryType {
    /// The number of bytes that one component takes.
    pub fn bytes_per_component(&self) -> (bytes: u8)
        ensures
            bytes as int == type_width(*self),
    {
        match self {
            IfdEntryType::UnsignedByte(bytes)
            | IfdEntryType::AsciiString(bytes)
            | IfdEntryType::SignedByte(bytes)
            | IfdEntryType::Undefined(bytes) => *bytes,
            IfdEntryType::UnsignedShort(bytes) | IfdEntryType::SignedShort(bytes) => *bytes,
            IfdEntryType::UnsignedLong(bytes)
            | IfdEntryType::SignedLong(bytes)
            | IfdEntryType::SingleFloat(bytes) => *bytes,
            IfdEntryType::UnsignedRational(bytes)
            | IfdEntryType::SignedRational(bytes)
            | IfdEntryType::DoubleFloat(bytes) => *bytes,
            IfdEntryType::Unknown(_) => 0,
        }
    }
}

/// The value type of every code takes the width that the code fixes.
pub proof fn lemma_type_width_of_code(code: u16)
    ensures
        type_width(type_of_code(code)) == code_width(code),
        0 <= code_width(code) <= 8,
{
}

/// What kind of directory an `Ifd` is.
#[derive(Debug, Clone, Copy, PartialEq, Eq, Structural)]
pub enum IfdType {
    /// A directory behind the Nikon MakerNote signature.
    NikonMakerNote,
    /// Any other directory.
    Standard,
}

/// How to name the entry that a lookup is after: by tag, or by the raw code
/// of a vendor tag that has no name.
#[derive(Debug, Copy, Clone, PartialEq, Eq, Structural)]
pub enum TagParam {
    IfdEntry(IfdEntryTag),
    U8(u8),
}

} // verus!
