//! Colours with premultiplied alpha.
use crate::arithmetic::{whole, HALF_BITS};
use crate::binary32::{num, number, Binary32};
use vstd::prelude::*;

verus! {

/// Bit pattern of 255.
pub const FULL_CHANNEL_BITS: u32 = 0x437f_0000;

/// A colour whose channels are already multiplied by its alpha.
#[derive(Debug, Clone, Copy, PartialEq, Eq, Structural)]
pub struct Color {
    pub r: u8,
    pub g: u8,
    pub b: u8,
    pub a: u8,
}

/// An opaque colour.
pub open spec fn opaque(r: u8, g: u8, b: u8) -> Color {
    Color { r, g, b, a: 255 }
}

/// An opaque colour.
pub fn rgb(r: u8, g: u8, b: u8) -> (c: Color)
    ensures
        c == opaque(r, g, b),
{
    Color { r, g, b, a: 255 }
}

/// At most the largest channel.
pub open spec fn saturated(n: int) -> u8 {
    if n > 255 {
        255
    } else {
        n as u8
    }
}

/// A channel scaled by a partial alpha and rounded.
pub open spec fn premultiplied_channel(channel: u8, alpha: u8) -> u8 {
    saturated(
        whole(channel as nat).product(whole(alpha as nat).quotient(num(FULL_CHANNEL_BITS))).sum(
            num(HALF_BITS),
        ).whole_part(),
    )
}

/// The colour with separate alpha, premultiplied.
pub open spec fn premultiplied(r: u8, g: u8, b: u8, a: u8) -> Color {
    if a == 0 {
        Color { r: 0, g: 0, b: 0, a: 0 }
    } else if a == 255 {
        opaque(r, g, b)
    } else {
        Color {
            r: premultiplied_channel(r, a),
            g: premultiplied_channel(g, a),
            b: premultiplied_channel(b, a),
            a,
        }
    }
}

/// `egui::Color32::from_rgba_unmultiplied` takes channels with separate alpha.
/// A transparent colour has all channels zero, an opaque one keeps them, and
/// otherwise each channel is multiplied by alpha over 255, increased by one
/// half and cut off to an integer, all in single precision.
#[verifier::external_body]
fn from_rgba_unmultiplied(r: u8, g: u8, b: u8, a: u8) -> (c: Color)
    ensures
        c == premultiplied(r, g, b, a),
{
    let (r, g, b, a) = egui::Color32::from_rgba_unmultiplied(r, g, b, a).to_tuple();
    Color { r, g, b, a }
}

/// The colour with another alpha.
pub fn with_alpha(c: Color, a: u8) -> (r: Color)
    ensures
        r == premultiplied(c.r, c.g, c.b, a),
{
    from_rgba_unmultiplied(c.r, c.g, c.b, a)
}

/// The colour dimmed to an opacity between zero and one.
pub open spec fn dimmed(c: Color, opacity: Binary32) -> Color {
    premultiplied(c.r, c.g, c.b, saturated(whole(c.a as nat).product(opacity.unit()).whole_part()))
}

fn saturate(n: u64) -> (r: u8)
    ensures
        r == saturated(n as int),
{
    if n > 255 {
        255
    } else {
        n as u8
    }
}

/// The colour dimmed to an opacity between zero and one.
pub fn with_opacity(c: Color, opacity: Binary32) -> (r: Color)
    ensures
        r == dimmed(c, opacity),
{
    let alpha = Binary32::from_u64(c.a as u64).times(opacity.clamp_unit()).truncate_to_u64();
    from_rgba_unmultiplied(c.r, c.g, c.b, saturate(alpha))
}

/// A channel a given part of the way to another, rounded.
pub open spec fn mixed_channel(from: u8, to: u8, t: Binary32) -> u8 {
    saturated(
        whole(from as nat).sum(
            whole(to as nat).difference(whole(from as nat)).product(t),
        ).nearest_integer(),
    )
}

fn mix_channel(from: u8, to: u8, t: Binary32) -> (r: u8)
    ensures
        r == mixed_channel(from, to, t),
{
    let start = Binary32::from_u64(from as u64);
    let end = Binary32::from_u64(to as u64);
    saturate(start.plus(end.minus(start).times(t)).round_to_u64())
}

/// The first colour with a part of the second mixed in.
pub open spec fn mixed(a: Color, b: Color, t: Binary32) -> Color {
    let t = t.unit();
    premultiplied(mixed_channel(a.r, b.r, t), mixed_channel(a.g, b.g, t), mixed_channel(a.b, b.b, t), a.a)
}

/// Mixes a part of the second colour into the first.
pub fn mix_color(a: Color, b: Color, t: Binary32) -> (r: Color)
    ensures
        r == mixed(a, b, t),
{
    let t = t.clamp_unit();
    from_rgba_unmultiplied(mix_channel(a.r, b.r, t), mix_channel(a.g, b.g, t), mix_channel(a.b, b.b, t), a.a)
}

/// A channel a given part of the way to white, cut off to an integer.
pub open spec fn heated_channel(channel: u8, mix: Binary32) -> u8 {
    saturated(
        whole(channel as nat).sum(
            num(FULL_CHANNEL_BITS).difference(whole(channel as nat)).product(mix),
        ).whole_part(),
    )
}

fn heat_channel(channel: u8, mix: Binary32) -> (r: u8)
    ensures
        r == heated_channel(channel, mix),
{
    let start = Binary32::from_u64(channel as u64);
    saturate(start.plus(number(FULL_CHANNEL_BITS).minus(start).times(mix)).truncate_to_u64())
}

/// The colour with a part of white mixed in.
pub open spec fn heated(c: Color, white_mix: Binary32) -> Color {
    let mix = white_mix.unit();
    premultiplied(heated_channel(c.r, mix), heated_channel(c.g, mix), heated_channel(c.b, mix), c.a)
}

/// Mixes a part of white into a colour.
pub fn hot_face(c: Color, white_mix: Binary32) -> (r: Color)
    ensures
        r == heated(c, white_mix),
{
    let mix = white_mix.clamp_unit();
    from_rgba_unmultiplied(heat_channel(c.r, mix), heat_channel(c.g, mix), heat_channel(c.b, mix), c.a)
}

} // verus!
