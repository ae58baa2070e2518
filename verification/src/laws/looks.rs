//! Colors and pictures.

use vstd::prelude::*;

use crate::icon_center::glyph;
use crate::image::{logo_of, PixelLayout, PixelsView, PngView};
use crate::resolve::Provenance;
use crate::theme::{alpha, blue, color_of_scope, green, mixed, packed, premultiplied, red, tints};

verus! {

/// A color is told by its four channels, from red down to alpha.
pub proof fn law_channels(r: u8, g: u8, b: u8, a: u8)
    ensures
        red(packed(r as int, g as int, b as int, a as int) as u32) == r,
        green(packed(r as int, g as int, b as int, a as int) as u32) == g,
        blue(packed(r as int, g as int, b as int, a as int) as u32) == b,
        alpha(packed(r as int, g as int, b as int, a as int) as u32) == a,
{
    let c = packed(r as int, g as int, b as int, a as int);
    assert(c / 0x1000000 == r);
    assert(c / 0x10000 == r * 0x100 + g);
    assert(c / 0x100 == r * 0x10000 + g * 0x100 + b);
}

/// A full alpha keeps a channel, none takes it, and in between it is the nearest
/// to its share.
pub proof fn law_mixed(c: u8, a: u8)
    ensures
        mixed(c, 255) == c,
        mixed(c, 0) == 0,
        510 * mixed(c, a) <= 2 * (c * a) + 255,
        510 * mixed(c, a) >= 2 * (c * a) - 255,
{
    let n: int = c * a;
    let m = mixed(c, a);
    assert(m == (n + 127) / 255);
    assert(255 * m <= n + 127 < 255 * m + 255);
}

/// A tint keeps its base color's channels in their places.
pub proof fn law_tint(base: u32, a: u8)
    ensures
        premultiplied(base, a) == mixed(red(base), a) * 0x1000000 + mixed(green(base), a) * 0x10000
            + mixed(blue(base), a) * 0x100 + a,
        premultiplied(base, 255) == base / 0x100 * 0x100 + 255,
{
    law_mixed(red(base), 255);
    law_mixed(green(base), 255);
    law_mixed(blue(base), 255);
}

/// Each scope has its color: the global one red, a profile green, a game blue, and
/// a default grey.
pub proof fn law_scope_colors()
    ensures
        color_of_scope(Provenance::Global) == 0xE15554FF,
        color_of_scope(Provenance::Preset) == 0x6CC551FF,
        color_of_scope(Provenance::Game) == 0x4D9DE0FF,
        color_of_scope(Provenance::Default) == 0x464D57FF,
{
}

proof fn lemma_place(x: int, y: int, c: int, w: int, h: int)
    requires
        0 <= x < w,
        0 <= y < h,
        0 <= c < 4,
    ensures
        ({
            let o = (y * w + x) * 4 + c;
            &&& 0 <= o < w * h * 4
            &&& o % 4 == c
            &&& (o / 4) % w == x
            &&& (o / 4) / w == y
        }),
{
    let i = y * w + x;
    let o = i * 4 + c;
    assert(0 <= i < w * h) by (nonlinear_arith)
        requires
            0 <= x < w,
            0 <= y < h,
            i == y * w + x,
    ;
    assert(o / 4 == i && o % 4 == c);
    vstd::arithmetic::div_mod::lemma_fundamental_div_mod_converse(i, w, y, x);
}

/// Halving a picture halves both its sides, and makes one pixel of four: its alpha
/// is their mean, its color the mean where all four are opaque, and none where
/// none of them shows.
pub proof fn law_halved(p: PixelsView, x: int, y: int, c: int)
    requires
        p.wf(),
        0 <= x < p.width / 2,
        0 <= y < p.height / 2,
        0 <= c < 3,
    ensures
        p.halved().width == p.width / 2,
        p.halved().height == p.height / 2,
        p.halved().at(x, y, 3) == (p.at(2 * x, 2 * y, 3) + p.at(2 * x + 1, 2 * y, 3) + p.at(
            2 * x,
            2 * y + 1,
            3,
        ) + p.at(2 * x + 1, 2 * y + 1, 3)) / 4,
        p.at(2 * x, 2 * y, 3) == 255 && p.at(2 * x + 1, 2 * y, 3) == 255 && p.at(
            2 * x,
            2 * y + 1,
            3,
        ) == 255 && p.at(2 * x + 1, 2 * y + 1, 3) == 255 ==> p.halved().at(x, y, c) == (p.at(
            2 * x,
            2 * y,
            c,
        ) + p.at(2 * x + 1, 2 * y, c) + p.at(2 * x, 2 * y + 1, c) + p.at(
            2 * x + 1,
            2 * y + 1,
            c,
        )) / 4,
        p.at(2 * x, 2 * y, 3) == 0 && p.at(2 * x + 1, 2 * y, 3) == 0 && p.at(2 * x, 2 * y + 1, 3)
            == 0 && p.at(2 * x + 1, 2 * y + 1, 3) == 0 ==> p.halved().at(x, y, c) == 0,
{
    let w = (p.width / 2) as int;
    let h = (p.height / 2) as int;
    lemma_place(x, y, 3, w, h);
    lemma_place(x, y, c, w, h);
    if p.at(2 * x, 2 * y, 3) == 255 && p.at(2 * x + 1, 2 * y, 3) == 255 && p.at(
        2 * x,
        2 * y + 1,
        3,
    ) == 255 && p.at(2 * x + 1, 2 * y + 1, 3) == 255 {
        crate::image::law_opaque_stays_opaque(p, x, y, c);
    }
    assert(p.halved().rgba[(y * w + x) * 4 + 3] == p.half_byte(x, y, 3) as u8);
    assert(p.halved().rgba[(y * w + x) * 4 + c] == p.half_byte(x, y, c) as u8);
}

/// A picture is halved while both its sides are larger than is asked for and even,
/// and then left as it is.
pub proof fn law_shrunk(p: PixelsView, max_dim: nat)
    ensures
        p.width <= max_dim || p.height <= max_dim || p.width % 2 == 1 || p.height % 2 == 1
            ==> p.shrunk(max_dim) == p,
        p.width > max_dim && p.height > max_dim && p.width % 2 == 0 && p.height % 2 == 0
            ==> p.shrunk(max_dim) == p.halved().shrunk(max_dim),
{
}

/// The logo is the picture as it is stored, opaque where it has no alpha of its
/// own, and shrunk; a picture that is not stored in one of the two layouts is
/// none.
pub proof fn law_logo(png: PngView, max_dim: nat, i: int, c: int)
    requires
        0 <= i < png.width * png.height,
        0 <= c < 3,
    ensures
        logo_of(None, max_dim) is None,
        logo_of(Some(png), max_dim) is Some <==> (png.layout == PixelLayout::Rgba && png.data.len()
            == png.width * png.height * 4) || (png.layout == PixelLayout::Rgb && png.data.len()
            == png.width * png.height * 3),
        logo_of(Some(png), max_dim) matches Some(p) ==> p == png.pixels().shrunk(max_dim),
        png.pixels().width == png.width && png.pixels().height == png.height,
        png.layout == PixelLayout::Rgba ==> png.pixels().rgba == png.data,
        png.layout == PixelLayout::Rgb ==> png.pixels().rgba[4 * i + 3] == 255
            && png.pixels().rgba[4 * i + c] == png.data[3 * i + c],
{
    assert(4 * i + 3 < png.width * png.height * 4);
    assert((4 * i + 3) / 4 == i && (4 * i + 3) % 4 == 3);
    assert((4 * i + c) / 4 == i && (4 * i + c) % 4 == c);
}

/// An icon is its first character, and a space where it has none.
pub proof fn law_glyph(icon: Seq<char>)
    ensures
        icon.len() > 0 ==> glyph(icon) == icon[0],
        icon.len() == 0 ==> glyph(icon) == ' ',
{
}

/// What is selected is filled and bordered in two tints of its color, the border
/// the stronger one.
pub proof fn law_selection_tints(base: u32)
    ensures
        alpha(tints(base).0 as u32) == 0x29,
        alpha(tints(base).1 as u32) == 0x6B,
        tints(base).0 == premultiplied(base, 0x29),
        tints(base).1 == premultiplied(base, 0x6B),
{
    crate::theme::law_tints_are_premultiplied(base, 0x29);
    crate::theme::law_tints_are_premultiplied(base, 0x6B);
}

} // verus!
