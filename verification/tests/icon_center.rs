use ritz::icon_center::{icon_key, FontFamily, FontId, IconCenterCache};

fn font(size: f32, family: FontFamily) -> FontId {
    FontId { size_bits: size.to_bits(), family }
}

#[test]
fn key_separates_size_and_family() {
    let a = icon_key("\u{f1f8}", &font(13.0, FontFamily::Proportional));
    let same = icon_key("\u{f1f8}", &font(13.0, FontFamily::Proportional));
    let bigger = icon_key("\u{f1f8}", &font(14.0, FontFamily::Proportional));
    let mono = icon_key("\u{f1f8}", &font(13.0, FontFamily::Monospace));
    let other_glyph = icon_key("\u{f062}", &font(13.0, FontFamily::Proportional));
    assert_eq!(a, same);
    // Size and family both change the ink box, so both must split the key.
    assert_ne!(a, bigger);
    assert_ne!(a, mono);
    assert_ne!(a, other_glyph);
}

#[test]
fn key_uses_leading_char_and_tolerates_empty() {
    let font = font(12.0, FontFamily::Proportional);
    assert_eq!(icon_key("ab", &font).0, 'a');
    // An empty icon string must not panic; it degrades to a space key.
    assert_eq!(icon_key("", &font).0, ' ');
}

#[test]
fn centers_are_kept_by_key() {
    let mut cache = IconCenterCache::new();
    let a = || icon_key("a", &font(12.0, FontFamily::Name("icons".into())));
    let b = icon_key("a", &font(12.0, FontFamily::Name("text".into())));
    assert_eq!(cache.center(&a()), None);
    cache.keep(a(), (1, 2));
    assert_eq!(cache.center(&a()), Some((1, 2)));
    assert_eq!(cache.center(&b), None);
    cache.keep(a(), (3, 4));
    assert_eq!(cache.center(&a()), Some((3, 4)));
}
