//! Colours as red, green and blue channels.

use crate::fraction::{lemma_product_fits, Fraction};
use vstd::prelude::*;

verus! {

/// A colour with one byte for each of its channels.
#[derive(Clone, Copy, Debug)]
pub struct Color {
    pub r: u8,
    pub g: u8,
    pub b: u8,
}

pub open spec fn spec_white() -> Color {
    Color { r: 255, g: 255, b: 255 }
}

pub open spec fn spec_desaturated_green() -> Color {
    Color { r: 63, g: 127, b: 63 }
}

pub open spec fn spec_darker_green() -> Color {
    Color { r: 0, g: 127, b: 0 }
}

#[verifier::when_used_as_spec(spec_white)]
pub fn white() -> (c: Color)
    ensures
        c == spec_white(),
{
    Color { r: 255, g: 255, b: 255 }
}

#[verifier::when_used_as_spec(spec_desaturated_green)]
pub fn desaturated_green() -> (c: Color)
    ensures
        c == spec_desaturated_green(),
{
    Color { r: 63, g: 127, b: 63 }
}

#[verifier::when_used_as_spec(spec_darker_green)]
pub fn darker_green() -> (c: Color)
    ensures
        c == spec_darker_green(),
{
    Color { r: 0, g: 127, b: 0 }
}

/// One channel darkened by `shade`: the channel times `1 - shade`, rounded
/// down; nothing is left of it once the shade reaches one.
pub open spec fn spec_shade_channel(channel: u8, shade: Fraction) -> int {
    if shade.num >= shade.den {
        0
    } else {
        (channel * (shade.den - shade.num)) / (shade.den as int)
    }
}

/// The colour darkened by `shade`, channel by channel.
pub open spec fn spec_shade_color(base: Color, shade: Fraction) -> Color {
    Color {
        r: spec_shade_channel(base.r, shade) as u8,
        g: spec_shade_channel(base.g, shade) as u8,
        b: spec_shade_channel(base.b, shade) as u8,
    }
}

/// A darkened channel is never brighter than the channel was.
pub proof fn lemma_shade_channel_bound(channel: u8, shade: Fraction)
    ensures
        0 <= spec_shade_channel(channel, shade) <= channel,
{
    if shade.num < shade.den {
        let c = channel as int;
        let k = shade.den - shade.num;
        let d = shade.den as int;
        assert(0 <= c * k <= c * d) by (nonlinear_arith)
            requires
                0 <= c,
                0 <= k <= d,
        ;
        assert(0 <= (c * k) / d <= c) by (nonlinear_arith)
            requires
                0 <= c * k <= c * d,
                d > 0,
        ;
    }
}

/// One channel darkened by `shade`.
pub fn shade_channel(channel: u8, shade: Fraction) -> (c: u8)
    ensures
        c == spec_shade_channel(channel, shade),
{
    if shade.num >= shade.den {
        0
    } else {
        proof {
            lemma_shade_channel_bound(channel, shade);
            lemma_product_fits(channel as u64, (shade.den - shade.num) as u64);
        }
        let left: u128 = (channel as u128) * ((shade.den - shade.num) as u128);
        (left / (shade.den as u128)) as u8
    }
}

/// The colour as it shows under `shade_factor`: each channel times
/// `1 - shade_factor`.
pub fn shade_color(base: Color, shade_factor: Fraction) -> (color: Color)
    ensures
        color == spec_shade_color(base, shade_factor),
{
    Color {
        r: shade_channel(base.r, shade_factor),
        g: shade_channel(base.g, shade_factor),
        b: shade_channel(base.b, shade_factor),
    }
}

} // verus!
