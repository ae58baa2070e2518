//! Where the ink of an icon glyph lies, measured once per glyph, size and font.
//!
//! The same glyph at the same size can come from different fonts, with the ink
//! at different places, so the font family is part of the key.

use crate::data::Duplicate;
use crate::text::{chars_of, same_text};
use vstd::prelude::*;

verus! {

/// A family of fonts.
#[derive(Debug, PartialEq, Eq, Hash)]
pub enum FontFamily {
    Proportional,
    Monospace,
    Name(String),
}

/// A [`FontFamily`] as contracts speak of it.
pub enum FontFamilyView {
    Proportional,
    Monospace,
    Name(Seq<char>),
}

impl DeepView for FontFamily {
    type V = FontFamilyView;

    open spec fn deep_view(&self) -> FontFamilyView {
        match self {
            FontFamily::Proportional => FontFamilyView::Proportional,
            FontFamily::Monospace => FontFamilyView::Monospace,
            FontFamily::Name(n) => FontFamilyView::Name(n@),
        }
    }
}

impl Duplicate for FontFamily {
    fn duplicate(&self) -> (r: Self) {
        match self {
            FontFamily::Proportional => FontFamily::Proportional,
            FontFamily::Monospace => FontFamily::Monospace,
            FontFamily::Name(n) => FontFamily::Name(n.clone()),
        }
    }
}

impl Clone for FontFamily {
    fn clone(&self) -> (r: Self)
        ensures
            r.deep_view() == self.deep_view(),
    {
        self.duplicate()
    }
}

/// Whether two families are the same.
fn same_family(a: &FontFamily, b: &FontFamily) -> (r: bool)
    ensures
        r == (a.deep_view() == b.deep_view()),
{
    match (a, b) {
        (FontFamily::Proportional, FontFamily::Proportional) => true,
        (FontFamily::Monospace, FontFamily::Monospace) => true,
        (FontFamily::Name(x), FontFamily::Name(y)) => same_text(x.as_str(), y.as_str()),
        _ => false,
    }
}

/// A font at a size.
#[derive(Debug)]
pub struct FontId {
    /// The bits of the size in points.
    pub size_bits: u32,
    pub family: FontFamily,
}

/// What a measurement is kept under: the glyph, the bits of its size, and the
/// family.
pub type IconKey = (char, u32, FontFamily);

/// An [`IconKey`] as contracts speak of it.
pub type IconKeyView = (char, u32, FontFamilyView);

/// What an [`IconKey`] means.
pub open spec fn key_view(k: IconKey) -> IconKeyView {
    (k.0, k.1, k.2.deep_view())
}

/// The glyph of an icon: its first character, and a space where it has none.
pub open spec fn glyph(icon: Seq<char>) -> char {
    if icon.len() > 0 {
        icon[0]
    } else {
        ' '
    }
}

/// The key of an icon in a font.
pub fn icon_key(icon: &str, font: &FontId) -> (k: IconKey)
    ensures
        key_view(k) == (glyph(icon@), font.size_bits, font.family.deep_view()),
{
    let chars = chars_of(icon);
    let c = if chars.len() > 0 {
        chars[0]
    } else {
        ' '
    };
    (c, font.size_bits, font.family.duplicate())
}

/// The centers that were measured, each as the bits of its two coordinates.
#[derive(Debug)]
pub struct IconCenterCache {
    ink_center: Vec<(IconKey, (u32, u32))>,
}

impl IconCenterCache {
    /// The centers that were measured.
    pub closed spec fn centers(self) -> Map<IconKeyView, (u32, u32)> {
        centers_of(self.ink_center@)
    }
}

/// The centers in a list of measurements, none of which is made twice.
spec fn centers_of(list: Seq<(IconKey, (u32, u32))>) -> Map<IconKeyView, (u32, u32)>
    decreases list.len(),
{
    if list.len() == 0 {
        Map::empty()
    } else {
        centers_of(list.drop_last()).insert(key_view(list.last().0), list.last().1)
    }
}

impl Default for IconCenterCache {
    fn default() -> (r: Self)
        ensures
            r.centers() == Map::<IconKeyView, (u32, u32)>::empty(),
    {
        IconCenterCache { ink_center: Vec::new() }
    }
}

impl IconCenterCache {
    /// No measurements.
    pub fn new() -> (r: Self)
        ensures
            r.centers() == Map::<IconKeyView, (u32, u32)>::empty(),
    {
        IconCenterCache { ink_center: Vec::new() }
    }

    /// The center measured under `key`, where one was.
    pub fn center(&self, key: &IconKey) -> (r: Option<(u32, u32)>)
        ensures
            match r {
                Some(c) => self.centers().contains_key(key_view(*key)) && c == self.centers()[
                    key_view(*key)
                ],
                None => !self.centers().contains_key(key_view(*key)),
            },
    {
        let mut i: usize = self.ink_center.len();
        assert(self.ink_center@.take(i as int) =~= self.ink_center@);
        while i > 0
            invariant
                i <= self.ink_center@.len(),
                ({
                    let rest = centers_of(self.ink_center@.take(i as int));
                    let all = self.centers();
                    let k = key_view(*key);
                    &&& all.contains_key(k) <==> rest.contains_key(k)
                    &&& all.contains_key(k) ==> all[k] == rest[k]
                }),
            decreases i,
        {
            let ghost list = self.ink_center@.take(i as int);
            i = i - 1;
            assert(list.drop_last() =~= self.ink_center@.take(i as int));
            let e = &self.ink_center[i];
            assert(list.last() == *e);
            if e.0.0 == key.0 && e.0.1 == key.1 && same_family(&e.0.2, &key.2) {
                return Some(e.1);
            }
        }
        None
    }

    /// Keeps the center measured under `key`.
    pub fn keep(&mut self, key: IconKey, center: (u32, u32))
        ensures
            final(self).centers() == old(self).centers().insert(key_view(key), center),
    {
        let ghost before = self.ink_center@;
        self.ink_center.push((key, center));
        assert(self.ink_center@.drop_last() =~= before);
    }
}

} // verus!
