//! Liquid colors as integer RGB-linear channels, and the tolerance test the
//! fill evaluator uses to compare a poured drop against a recipe section.

use vstd::prelude::*;

verus! {

/// Width of the per-channel tolerance band used by the fill evaluator.
pub const COLOR_RANGE: i32 = 20;

/// A liquid color, as three signed integer RGB-linear channel values.
#[derive(Clone, Copy, Debug, PartialEq, Eq, Structural)]
pub struct LiquidColor {
    pub red: i32,
    pub green: i32,
    pub blue: i32,
}

/// Base hue of the first color output (pure red).
pub open spec fn spec_color_red() -> LiquidColor {
    LiquidColor { red: 255, green: 0, blue: 0 }
}

/// Base hue of the second color output (blue).
pub open spec fn spec_color_blue() -> LiquidColor {
    LiquidColor { red: 0, green: 34, blue: 255 }
}

/// Base hue of the third color output (yellow-green).
pub open spec fn spec_color_yellow() -> LiquidColor {
    LiquidColor { red: 234, green: 255, blue: 0 }
}

/// Whether `received` lies within `range` of `expected`, under the
/// evaluator's channel-crossing convention: the received red channel is held
/// against the expected red channel, but the received blue and green
/// channels are held against *themselves*, so those two bounds always hold
/// and only the red channels decide the outcome. The convention is kept
/// exactly as the evaluator applies it.
pub open spec fn spec_color_equal(expected: LiquidColor, received: LiquidColor, range: int) -> bool {
    let red = expected.red as int;
    let blue = received.blue as int;
    let green = received.green as int;
    &&& received.red >= red - range
    &&& received.red <= red + range
    &&& received.blue >= blue - range
    &&& received.blue <= blue + range
    &&& received.green >= green - range
    &&& received.green <= green + range
}

/// Tolerance test between an expected section color and a received drop.
pub fn color_equal(color1: &LiquidColor, color2: &LiquidColor, range: i32) -> (r: bool)
    requires
        range >= 0,
    ensures
        r == spec_color_equal(*color1, *color2, range as int),
{
    let red = color1.red as i64;
    let blue = color2.blue as i64;
    let green = color2.green as i64;
    let range = range as i64;

    color2.red as i64 >= red - range && color2.red as i64 <= red + range
        && color2.blue as i64 >= blue - range && color2.blue as i64 <= blue + range
        && color2.green as i64 >= green - range && color2.green as i64 <= green + range
}

/// The color a channel-wise lightness adjustment produces: every channel is
/// shifted by `light`, saturating at the channel type's bounds.
pub open spec fn spec_lightened(color: LiquidColor, light: i32) -> LiquidColor {
    LiquidColor {
        red: spec_saturated(color.red as int + light as int),
        green: spec_saturated(color.green as int + light as int),
        blue: spec_saturated(color.blue as int + light as int),
    }
}

/// Clamp an unbounded channel value into the representable channel range.
pub open spec fn spec_saturated(v: int) -> i32 {
    if v > i32::MAX as int {
        i32::MAX
    } else if v < i32::MIN as int {
        i32::MIN
    } else {
        v as i32
    }
}

/// Apply a lightness adjustment to a base color.
pub fn lightened(color: &LiquidColor, light: i32) -> (r: LiquidColor)
    ensures
        r == spec_lightened(*color, light),
{
    LiquidColor {
        red: saturated(color.red as i64 + light as i64),
        green: saturated(color.green as i64 + light as i64),
        blue: saturated(color.blue as i64 + light as i64),
    }
}

/// Clamp a widened channel sum back into channel range.
fn saturated(v: i64) -> (r: i32)
    ensures
        r == spec_saturated(v as int),
{
    if v > i32::MAX as i64 {
        i32::MAX
    } else if v < i32::MIN as i64 {
        i32::MIN
    } else {
        v as i32
    }
}

} // verus!
