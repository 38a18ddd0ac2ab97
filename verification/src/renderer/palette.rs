//! The colours of the F1 display.
use crate::renderer::color::{opaque, rgb, Color};
use vstd::prelude::*;

verus! {

/// The colours of a channel.
#[derive(Debug, Clone, Copy, PartialEq, Eq, Structural)]
pub struct ChannelPalette {
    pub emission: Color,
    pub body: Color,
    pub hot: Color,
    pub text_face: Color,
    pub text_glow: Color,
}

/// The colours of the brake.
pub open spec fn brake_colors() -> ChannelPalette {
    ChannelPalette {
        emission: opaque(255, 45, 52),
        body: opaque(255, 67, 72),
        hot: opaque(255, 184, 170),
        text_face: opaque(255, 86, 89),
        text_glow: opaque(255, 48, 56),
    }
}

/// The colours of the brake.
pub fn brake_palette() -> (r: ChannelPalette)
    ensures
        r == brake_colors(),
{
    ChannelPalette {
        emission: rgb(255, 45, 52),
        body: rgb(255, 67, 72),
        hot: rgb(255, 184, 170),
        text_face: rgb(255, 86, 89),
        text_glow: rgb(255, 48, 56),
    }
}

/// The colours of the throttle.
pub open spec fn throttle_colors() -> ChannelPalette {
    ChannelPalette {
        emission: opaque(0, 255, 85),
        body: opaque(30, 255, 106),
        hot: opaque(185, 255, 211),
        text_face: opaque(66, 244, 130),
        text_glow: opaque(0, 238, 99),
    }
}

/// The colours of the throttle.
pub fn throttle_palette() -> (r: ChannelPalette)
    ensures
        r == throttle_colors(),
{
    ChannelPalette {
        emission: rgb(0, 255, 85),
        body: rgb(30, 255, 106),
        hot: rgb(185, 255, 211),
        text_face: rgb(66, 244, 130),
        text_glow: rgb(0, 238, 99),
    }
}

/// The colours of the speed.
pub open spec fn speed_colors() -> ChannelPalette {
    ChannelPalette {
        emission: opaque(0, 166, 255),
        body: opaque(40, 190, 255),
        hot: opaque(194, 241, 255),
        text_face: opaque(95, 190, 242),
        text_glow: opaque(0, 166, 255),
    }
}

/// The colours of the speed.
pub fn speed_palette() -> (r: ChannelPalette)
    ensures
        r == speed_colors(),
{
    ChannelPalette {
        emission: rgb(0, 166, 255),
        body: rgb(40, 190, 255),
        hot: rgb(194, 241, 255),
        text_face: rgb(95, 190, 242),
        text_glow: rgb(0, 166, 255),
    }
}

/// The colours of the lower shift lights.
pub open spec fn rpm_low_colors() -> ChannelPalette {
    ChannelPalette {
        emission: opaque(43, 151, 239),
        body: opaque(67, 170, 241),
        hot: opaque(171, 221, 255),
        text_face: opaque(67, 170, 241),
        text_glow: opaque(43, 151, 239),
    }
}

/// The colours of the lower shift lights.
pub fn rpm_low_palette() -> (r: ChannelPalette)
    ensures
        r == rpm_low_colors(),
{
    ChannelPalette {
        emission: rgb(43, 151, 239),
        body: rgb(67, 170, 241),
        hot: rgb(171, 221, 255),
        text_face: rgb(67, 170, 241),
        text_glow: rgb(43, 151, 239),
    }
}

/// The colours of the upper shift lights.
pub open spec fn rpm_high_colors() -> ChannelPalette {
    ChannelPalette {
        emission: opaque(255, 45, 70),
        body: opaque(255, 66, 87),
        hot: opaque(255, 178, 180),
        text_face: opaque(255, 66, 87),
        text_glow: opaque(255, 45, 70),
    }
}

/// The colours of the upper shift lights.
pub fn rpm_high_palette() -> (r: ChannelPalette)
    ensures
        r == rpm_high_colors(),
{
    ChannelPalette {
        emission: rgb(255, 45, 70),
        body: rgb(255, 66, 87),
        hot: rgb(255, 178, 180),
        text_face: rgb(255, 66, 87),
        text_glow: rgb(255, 45, 70),
    }
}

/// The colour of a confirmed lock.
pub open spec fn lock_cyan() -> Color {
    opaque(56, 223, 255)
}

/// The colour of a confirmed lock.
pub fn lock_cyan_color() -> (r: Color)
    ensures
        r == lock_cyan(),
{
    rgb(56, 223, 255)
}

/// The colour of an approaching lock.
pub open spec fn lock_hot() -> Color {
    opaque(255, 138, 69)
}

/// The colour of an approaching lock.
pub fn lock_hot_color() -> (r: Color)
    ensures
        r == lock_hot(),
{
    rgb(255, 138, 69)
}

/// The colour of the steering display.
pub open spec fn steering_white() -> Color {
    opaque(238, 245, 250)
}

/// The colour of the steering display.
pub fn steering_white_color() -> (r: Color)
    ensures
        r == steering_white(),
{
    rgb(238, 245, 250)
}

/// The colour of the grid.
pub open spec fn grid_gray() -> Color {
    opaque(112, 132, 153)
}

/// The colour of the grid.
pub fn grid_gray_color() -> (r: Color)
    ensures
        r == grid_gray(),
{
    rgb(112, 132, 153)
}

/// The colour of what is not lit.
pub open spec fn idle_gray() -> Color {
    opaque(128, 132, 148)
}

/// The colour of what is not lit.
pub fn idle_gray_color() -> (r: Color)
    ensures
        r == idle_gray(),
{
    rgb(128, 132, 148)
}

/// White.
pub open spec fn white() -> Color {
    opaque(255, 255, 255)
}

/// White.
pub fn white_color() -> (r: Color)
    ensures
        r == white(),
{
    rgb(255, 255, 255)
}

/// The colour of the most important text.
pub open spec fn text_primary() -> Color {
    opaque(244, 247, 250)
}

/// The colour of the most important text.
pub fn text_primary_color() -> (r: Color)
    ensures
        r == text_primary(),
{
    rgb(244, 247, 250)
}

/// The colour of less important text.
pub open spec fn text_secondary() -> Color {
    opaque(166, 178, 193)
}

/// The colour of less important text.
pub fn text_secondary_color() -> (r: Color)
    ensures
        r == text_secondary(),
{
    rgb(166, 178, 193)
}

/// The colour of the ABS sign.
pub open spec fn abs_amber() -> Color {
    opaque(255, 194, 55)
}

/// The colour of the ABS sign.
pub fn abs_amber_color() -> (r: Color)
    ensures
        r == abs_amber(),
{
    rgb(255, 194, 55)
}

} // verus!
