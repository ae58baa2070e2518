use ritz::resolve::Provenance;
use ritz::theme::{
    channels, scope_color, selection_tint, ACCENT, COL_DEFAULT, COL_GAME, COL_GLOBAL, COL_PROFILE,
    ICON_DIRTY, SEL, SELBD,
};

#[test]
fn selection_is_the_tint_of_the_accent() {
    assert_eq!(selection_tint(ACCENT), (SEL, SELBD));
    assert_eq!(channels(SEL), (0x0F, 0x16, 0x27, 0x29));
    assert_eq!(channels(SELBD), (0x26, 0x3A, 0x65, 0x6B));
}

#[test]
fn tints_are_premultiplied() {
    let (fill, border) = selection_tint(0xFFFFFFFF);
    assert_eq!(channels(fill), (0x29, 0x29, 0x29, 0x29));
    assert_eq!(channels(border), (0x6B, 0x6B, 0x6B, 0x6B));
    assert_eq!(selection_tint(0x000000FF), (0x29, 0x6B));
}

#[test]
fn scopes_have_colors() {
    assert_eq!(channels(ACCENT), (0x5B, 0x8B, 0xF0, 0xFF));
    assert_eq!(scope_color(Provenance::Global), COL_GLOBAL);
    assert_eq!(scope_color(Provenance::Preset), COL_PROFILE);
    assert_eq!(scope_color(Provenance::Game), COL_GAME);
    assert_eq!(scope_color(Provenance::Default), COL_DEFAULT);
    assert_eq!(channels(COL_GAME), (0x4D, 0x9D, 0xE0, 0xFF));
    assert_eq!(ICON_DIRTY, "●");
}
