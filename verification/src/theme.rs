//! The colors of the "Graphite" theme, by role.

use crate::resolve::Provenance;
use vstd::prelude::*;

verus! {

/// The red of a color. A color is written `0xRRGGBBAA`, with premultiplied alpha.
pub open spec fn red(c: u32) -> u8 {
    (c / 0x1000000) as u8
}

/// The green of a color.
pub open spec fn green(c: u32) -> u8 {
    (c / 0x10000 % 0x100) as u8
}

/// The blue of a color.
pub open spec fn blue(c: u32) -> u8 {
    (c / 0x100 % 0x100) as u8
}

/// The alpha of a color.
pub open spec fn alpha(c: u32) -> u8 {
    (c % 0x100) as u8
}

/// The color made of these channels.
pub open spec fn packed(r: int, g: int, b: int, a: int) -> int {
    r * 0x1000000 + g * 0x10000 + b * 0x100 + a
}

/// The channels of a packed color are those that it was made of.
proof fn lemma_unpacked(r: u8, g: u8, b: u8, a: u8)
    ensures
        ({
            let p = packed(r as int, g as int, b as int, a as int);
            let c = p as u32;
            &&& c == p
            &&& red(c) == r
            &&& green(c) == g
            &&& blue(c) == b
            &&& alpha(c) == a
        }),
{
    let c = packed(r as int, g as int, b as int, a as int) as u32;
    assert(c / 0x100 == r * 0x10000 + g * 0x100 + b);
    assert(c / 0x10000 == r * 0x100 + g);
    assert(c / 0x1000000 == r);
}

/// The red, green, blue and alpha of a color.
pub fn channels(c: u32) -> (r: (u8, u8, u8, u8))
    ensures
        r == (red(c), green(c), blue(c), alpha(c)),
        c == packed(r.0 as int, r.1 as int, r.2 as int, r.3 as int),
{
    (
        (c / 0x1000000) as u8,
        (c / 0x10000 % 0x100) as u8,
        (c / 0x100 % 0x100) as u8,
        (c % 0x100) as u8,
    )
}

/// The brand accent: section labels, the primary action, the logo.
pub const ACCENT: u32 = 0x5B8BF0FF;

/// The background of a title bar.
pub const HEAD: u32 = 0x14171AFF;

/// The background of a panel.
pub const PANEL: u32 = 0x1E2125FF;

/// The background of a footer.
pub const PANEL2: u32 = 0x191C1FFF;

/// Hairline borders and dividers.
pub const BORDER: u32 = 0x2C3036FF;

/// Primary text.
pub const TEXT: u32 = 0xE7E9ECFF;

/// Secondary text.
pub const DIM: u32 = 0x969CA6FF;

/// Tertiary text, labels and placeholders.
pub const FAINT: u32 = 0x646A73FF;

/// The background of inputs and code blocks.
pub const FIELD: u32 = 0x15181BFF;

/// The background of a secondary button.
pub const BTN: u32 = 0x262A30FF;

/// The border of a button.
pub const BTNBD: u32 = 0x343941FF;

/// The text of a primary button.
pub const PRIMARY_TEXT: u32 = 0x0E1A18FF;

/// The card of a whole module in the editor; deeper levels are a step lighter.
pub const EDIT_L0: u32 = 0x202428FF;

/// The card of a section or block in the editor.
pub const EDIT_L1: u32 = 0x262A30FF;

/// The card of a field in the editor.
pub const EDIT_L2: u32 = 0x2C3138FF;

/// The row of a builder step in the editor.
pub const EDIT_L3: u32 = 0x333941FF;

/// The fill of what is selected.
pub const SEL: u32 = 0x0F162729;

/// The border of what is selected.
pub const SELBD: u32 = 0x263A656B;

/// The fill of what the pointer is over.
pub const HOV: u32 = 0x0D0D0D0D;

/// `c` of 255 parts, scaled to `a` parts and rounded to the nearest.
pub open spec fn mixed(c: u8, a: u8) -> int {
    (c * a + 127) / 255
}

/// An opaque color at alpha `a`, premultiplied.
pub open spec fn premultiplied(base: u32, a: u8) -> int {
    packed(mixed(red(base), a), mixed(green(base), a), mixed(blue(base), a), a as int)
}

/// A channel never gets brighter by being premultiplied.
proof fn lemma_mixed(c: u8, a: u8)
    ensures
        0 <= mixed(c, a) <= a,
        mixed(c, a) <= c,
{
    assert(c * a <= 255 * a && c * a <= 255 * c && 0 <= c * a) by (nonlinear_arith)
        requires
            c <= 255,
            a <= 255,
    ;
}

/// `c` of 255 parts, scaled to `a` parts and rounded to the nearest.
fn mix(c: u8, a: u8) -> (r: u32)
    ensures
        r == mixed(c, a),
        r <= 255,
{
    proof {
        lemma_mixed(c, a);
    }
    assert(c * a <= 65025) by (nonlinear_arith)
        requires
            c <= 255,
            a <= 255,
    ;
    (c as u32 * a as u32 + 127) / 255
}

/// An opaque color at alpha `a`, premultiplied.
fn premul(base: u32, a: u8) -> (c: u32)
    ensures
        c == premultiplied(base, a),
{
    let (r, g, b, _opaque) = channels(base);
    mix(r, a) * 0x1000000 + mix(g, a) * 0x10000 + mix(b, a) * 0x100 + a as u32
}

/// The fill and the border of what is selected.
pub open spec fn tints(base: u32) -> (int, int) {
    (premultiplied(base, 0x29), premultiplied(base, 0x6B))
}

/// The fill and the border of what is selected, in a color other than the
/// accent: at about 16% and 42%.
pub fn selection_tint(base: u32) -> (r: (u32, u32))
    ensures
        (r.0 as int, r.1 as int) == tints(base),
{
    (premul(base, 0x29), premul(base, 0x6B))
}

/// The global scope; also the color of destructive actions.
pub const COL_GLOBAL: u32 = 0xE15554FF;

/// The scope of a profile.
pub const COL_PROFILE: u32 = 0x6CC551FF;

/// The scope of a game.
pub const COL_GAME: u32 = 0x4D9DE0FF;

/// No scope: the value is the extension's default.
pub const COL_DEFAULT: u32 = 0x464D57FF;

/// The outline of an empty checkbox.
pub const CHECK_OUTLINE: u32 = 0xE1E3E6FF;

/// The pin slot beside the name of a pinned profile.
pub const PIN_ID: u32 = 0x595E66FF;

/// The value comes from a lower scope.
pub const ICON_INHERIT: &'static str = "\u{f432}";

/// The value is set at the current scope.
pub const ICON_EDIT: &'static str = "\u{f044}";

/// The manifest has edits that are not saved.
pub const ICON_DIRTY: &'static str = "\u{25cf}";

/// The color that a value shows in.
pub open spec fn color_of_scope(p: Provenance) -> u32 {
    match p {
        Provenance::Global => COL_GLOBAL,
        Provenance::Preset => COL_PROFILE,
        Provenance::Game => COL_GAME,
        Provenance::Default => COL_DEFAULT,
    }
}

/// The color that a value shows in, by the scope that it comes from.
pub fn scope_color(p: Provenance) -> (c: u32)
    ensures
        c == color_of_scope(p),
{
    match p {
        Provenance::Global => COL_GLOBAL,
        Provenance::Preset => COL_PROFILE,
        Provenance::Game => COL_GAME,
        Provenance::Default => COL_DEFAULT,
    }
}

/// The selection colors are the tint of the accent.
pub proof fn law_selection_is_the_accents_tint()
    ensures
        premultiplied(ACCENT, 0x29) == SEL,
        premultiplied(ACCENT, 0x6B) == SELBD,
{
    assert(red(ACCENT) == 0x5B);
    assert(green(ACCENT) == 0x8B);
    assert(blue(ACCENT) == 0xF0);
    assert(mixed(0x5B, 0x29) == 0x0F && mixed(0x8B, 0x29) == 0x16 && mixed(0xF0, 0x29) == 0x27);
    assert(mixed(0x5B, 0x6B) == 0x26 && mixed(0x8B, 0x6B) == 0x3A && mixed(0xF0, 0x6B) == 0x65);
}

/// A tint is a premultiplied color: no channel exceeds its alpha, and none is
/// brighter than in the base color.
pub proof fn law_tints_are_premultiplied(base: u32, a: u8)
    ensures
        ({
            let c = premultiplied(base, a) as u32;
            &&& c == premultiplied(base, a)
            &&& red(c) <= a && green(c) <= a && blue(c) <= a && alpha(c) == a
            &&& red(c) <= red(base) && green(c) <= green(base) && blue(c) <= blue(base)
        }),
{
    lemma_mixed(red(base), a);
    lemma_mixed(green(base), a);
    lemma_mixed(blue(base), a);
    lemma_unpacked(
        mixed(red(base), a) as u8,
        mixed(green(base), a) as u8,
        mixed(blue(base), a) as u8,
        a,
    );
}

/// Each scope shows in a color of its own.
pub proof fn law_scopes_differ_in_color(p: Provenance, q: Provenance)
    requires
        p != q,
    ensures
        color_of_scope(p) != color_of_scope(q),
{
}

} // verus!
