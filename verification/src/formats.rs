//! The pixel formats of texture exports.

use vstd::prelude::*;

verus! {

#[derive(Debug, Clone, Copy, PartialEq, Eq, Structural)]
pub enum UtxFormat {
    P8,
    Rgba7,
    Rgb16,
    Dxt1,
    Rgb8,
    Rgba8,
    NoData,
    Dxt3,
    Dxt5,
    L8,
    G16,
    Unknown,
}

/// The format that a stored byte stands for.
pub open spec fn format_of(value: u8) -> UtxFormat {
    if value == 0 {
        UtxFormat::P8
    } else if value == 1 {
        UtxFormat::Rgba7
    } else if value == 2 {
        UtxFormat::Rgb16
    } else if value == 3 {
        UtxFormat::Dxt1
    } else if value == 4 {
        UtxFormat::Rgb8
    } else if value == 5 {
        UtxFormat::Rgba8
    } else if value == 6 {
        UtxFormat::NoData
    } else if value == 7 {
        UtxFormat::Dxt3
    } else if value == 8 {
        UtxFormat::Dxt5
    } else if value == 9 {
        UtxFormat::L8
    } else if value == 10 {
        UtxFormat::G16
    } else {
        UtxFormat::Unknown
    }
}

/// The byte that stands for a format: the one that is read as it.
pub open spec fn format_value(format: UtxFormat) -> Option<u8> {
    match format {
        UtxFormat::P8 => Some(0u8),
        UtxFormat::Rgba7 => Some(1u8),
        UtxFormat::Rgb16 => Some(2u8),
        UtxFormat::Dxt1 => Some(3u8),
        UtxFormat::Rgb8 => Some(4u8),
        UtxFormat::Rgba8 => Some(5u8),
        UtxFormat::NoData => Some(6u8),
        UtxFormat::Dxt3 => Some(7u8),
        UtxFormat::Dxt5 => Some(8u8),
        UtxFormat::L8 => Some(9u8),
        UtxFormat::G16 => Some(10u8),
        UtxFormat::Unknown => None,
    }
}

pub open spec fn compressed(format: UtxFormat) -> bool {
    format == UtxFormat::Dxt1 || format == UtxFormat::Dxt3 || format == UtxFormat::Dxt5
}

pub open spec fn previewable(format: UtxFormat) -> bool {
    format == UtxFormat::Rgba8 || compressed(format)
}

/// The extension of the file that a texture of this format is exported to.
pub open spec fn extension_of(format: UtxFormat) -> Seq<char> {
    if format == UtxFormat::Rgba8 {
        "tga"@
    } else if compressed(format) {
        "dds"@
    } else {
        "bin"@
    }
}

pub open spec fn label_of(format: UtxFormat) -> Seq<char> {
    match format {
        UtxFormat::P8 => "P8"@,
        UtxFormat::Rgba7 => "RGBA7"@,
        UtxFormat::Rgb16 => "RGB16"@,
        UtxFormat::Dxt1 => "DXT1"@,
        UtxFormat::Rgb8 => "RGB8"@,
        UtxFormat::Rgba8 => "RGBA8"@,
        UtxFormat::NoData => "NoData"@,
        UtxFormat::Dxt3 => "DXT3"@,
        UtxFormat::Dxt5 => "DXT5"@,
        UtxFormat::L8 => "L8"@,
        UtxFormat::G16 => "G16"@,
        UtxFormat::Unknown => "Unknown"@,
    }
}

/// A format that has a byte is read back from it, and a byte that is read as a
/// known format is the byte of that format.
pub proof fn format_values_round_trip(format: UtxFormat, value: u8)
    ensures
        format_value(format) matches Some(stored) ==> format_of(stored) == format,
        format_of(value) != UtxFormat::Unknown ==> format_value(format_of(value)) == Some(value),
{
}

impl UtxFormat {
    pub fn from_value(value: u8) -> (r: Self)
        ensures
            r == format_of(value),
    {
        match value {
            0 => UtxFormat::P8,
            1 => UtxFormat::Rgba7,
            2 => UtxFormat::Rgb16,
            3 => UtxFormat::Dxt1,
            4 => UtxFormat::Rgb8,
            5 => UtxFormat::Rgba8,
            6 => UtxFormat::NoData,
            7 => UtxFormat::Dxt3,
            8 => UtxFormat::Dxt5,
            9 => UtxFormat::L8,
            10 => UtxFormat::G16,
            _ => UtxFormat::Unknown,
        }
    }

    pub fn is_dxt(self) -> (r: bool)
        ensures
            r == compressed(self),
    {
        matches!(self, UtxFormat::Dxt1 | UtxFormat::Dxt3 | UtxFormat::Dxt5)
    }

    pub fn is_previewable(self) -> (r: bool)
        ensures
            r == previewable(self),
    {
        self == UtxFormat::Rgba8 || self.is_dxt()
    }

    pub fn value(self) -> (r: Option<u8>)
        ensures
            r == format_value(self),
    {
        match self {
            UtxFormat::P8 => Some(0),
            UtxFormat::Rgba7 => Some(1),
            UtxFormat::Rgb16 => Some(2),
            UtxFormat::Dxt1 => Some(3),
            UtxFormat::Rgb8 => Some(4),
            UtxFormat::Rgba8 => Some(5),
            UtxFormat::NoData => Some(6),
            UtxFormat::Dxt3 => Some(7),
            UtxFormat::Dxt5 => Some(8),
            UtxFormat::L8 => Some(9),
            UtxFormat::G16 => Some(10),
            UtxFormat::Unknown => None,
        }
    }

    pub fn export_extension(self) -> (r: &'static str)
        ensures
            r@ == extension_of(self),
    {
        if self == UtxFormat::Rgba8 {
            "tga"
        } else if self.is_dxt() {
            "dds"
        } else {
            "bin"
        }
    }

    pub fn label(self) -> (r: &'static str)
        ensures
            r@ == label_of(self),
    {
        match self {
            UtxFormat::P8 => "P8",
            UtxFormat::Rgba7 => "RGBA7",
            UtxFormat::Rgb16 => "RGB16",
            UtxFormat::Dxt1 => "DXT1",
            UtxFormat::Rgb8 => "RGB8",
            UtxFormat::Rgba8 => "RGBA8",
            UtxFormat::NoData => "NoData",
            UtxFormat::Dxt3 => "DXT3",
            UtxFormat::Dxt5 => "DXT5",
            UtxFormat::L8 => "L8",
            UtxFormat::G16 => "G16",
            UtxFormat::Unknown => "Unknown",
        }
    }
}

} // verus!
