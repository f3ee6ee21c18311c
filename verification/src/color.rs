//! Colours of the hue ramp that runs from red through yellow, green and cyan
//! to blue at full saturation and half lightness.

use vstd::prelude::*;

verus! {

/// An opaque colour with eight bits per channel.
#[derive(Clone, Copy, Debug, PartialEq, Eq, Structural)]
pub struct Rgb {
    pub r: u8,
    pub g: u8,
    pub b: u8,
}

/// One sixth of the hue circle. The ramp uses the first four sixths; the
/// last one listed here also takes every hue beyond it.
#[derive(Clone, Copy, Debug, PartialEq, Eq, Structural)]
pub enum HueSector {
    /// Hues from red up to yellow: red is full, green rises.
    RedToYellow,
    /// Hues from yellow up to green: green is full, red falls.
    YellowToGreen,
    /// Hues from green up to cyan: green is full, blue rises.
    GreenToCyan,
    /// Hues from cyan on: blue is full, green falls.
    CyanToBlue,
}

/// The colour of a hue in `sector` whose intermediate channel is `x`.
pub open spec fn sector_color_spec(sector: HueSector, x: u8) -> Rgb {
    match sector {
        HueSector::RedToYellow => Rgb { r: 255, g: x, b: 0 },
        HueSector::YellowToGreen => Rgb { r: x, g: 255, b: 0 },
        HueSector::GreenToCyan => Rgb { r: 0, g: 255, b: x },
        HueSector::CyanToBlue => Rgb { r: 0, g: x, b: 255 },
    }
}

/// The sum over the three channels of the absolute difference of `a` and `b`.
pub open spec fn channel_distance(a: Rgb, b: Rgb) -> nat {
    vstd::math::abs(a.r - b.r) + vstd::math::abs(a.g - b.g) + vstd::math::abs(a.b - b.b)
}

/// Assembles the colour of a hue from the sector it lies in and the value of
/// its intermediate channel, already scaled to a byte. The dominant channel
/// is 255 and the remaining one is 0.
pub fn sector_color(sector: HueSector, x: u8) -> (c: Rgb)
    ensures
        c == sector_color_spec(sector, x),
{
    match sector {
        HueSector::RedToYellow => Rgb { r: 255, g: x, b: 0 },
        HueSector::YellowToGreen => Rgb { r: x, g: 255, b: 0 },
        HueSector::GreenToCyan => Rgb { r: 0, g: 255, b: x },
        HueSector::CyanToBlue => Rgb { r: 0, g: x, b: 255 },
    }
}

/// Inside one sector the colour moves exactly as far as the intermediate
/// channel does: a small change of hue is a small change of colour.
pub proof fn lemma_sector_color_is_continuous(sector: HueSector, x: u8, y: u8)
    ensures
        channel_distance(sector_color_spec(sector, x), sector_color_spec(sector, y))
            == vstd::math::abs(x - y),
{
}

} // verus!
