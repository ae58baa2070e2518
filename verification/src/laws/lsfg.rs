//! What the frame generation settings come to in their file.

use vstd::prelude::*;

use crate::error::ErrorView;
use crate::lsfg_toml::{
    doc_applied, doc_multiplied, float_text, games_of, law_entry_is_found_again,
    law_other_parts_stay, lemma_keys_differ, ritz_entry, text_applied, text_multiplied, toml_parsed,
    toml_printed, with_entry, with_multiplier, with_settings, LsfgSettingsView, TomlEntries,
    TomlView,
};
use crate::text::trimmed;

verus! {

/// The launcher's entry says what the settings say, each setting under its own
/// key: a flag that is set is the boolean it is set to, a text is that text, and
/// the multiplier is its number. A setting that is not given leaves what the entry
/// held, and no other key of the entry is touched.
pub proof fn law_entry_says_the_settings(entry: TomlEntries, s: LsfgSettingsView, key: Seq<char>)
    ensures
        ({
            let e = with_settings(entry, s);
            &&& e.contains_key("exe"@) && e["exe"@] == TomlView::Text("RitzLauncher"@)
            &&& e.contains_key("multiplier"@) && e["multiplier"@] == TomlView::Integer(
                s.multiplier as i64,
            )
            &&& s.performance_mode matches Some(on) ==> e.contains_key("performance_mode"@)
                && e["performance_mode"@] == TomlView::Boolean(on)
            &&& s.hdr_mode matches Some(on) ==> e.contains_key("hdr_mode"@) && e["hdr_mode"@]
                == TomlView::Boolean(on)
            &&& s.present_mode matches Some(mode) ==> e.contains_key("experimental_present_mode"@)
                && e["experimental_present_mode"@] == TomlView::Text(mode)
            &&& s.flow_scale matches Some(scale) ==> (float_text(scale) matches Some(f)
                ==> e.contains_key("flow_scale"@) && e["flow_scale"@] == TomlView::Scalar(f))
            &&& s.performance_mode is None ==> kept(entry, e, "performance_mode"@)
            &&& s.hdr_mode is None ==> kept(entry, e, "hdr_mode"@)
            &&& s.present_mode is None ==> kept(entry, e, "experimental_present_mode"@)
            &&& s.flow_scale is None || float_text(s.flow_scale->0) is None ==> kept(
                entry,
                e,
                "flow_scale"@,
            )
            &&& key != "exe"@ && key != "multiplier"@ && key != "performance_mode"@ && key
                != "hdr_mode"@ && key != "experimental_present_mode"@ && key != "flow_scale"@
                ==> kept(entry, e, key)
        }),
{
    lemma_keys_differ();
}

/// The two entries hold the same under the key.
pub open spec fn kept(before: TomlEntries, after: TomlEntries, key: Seq<char>) -> bool {
    &&& before.contains_key(key) == after.contains_key(key)
    &&& before.contains_key(key) ==> after[key] == before[key]
}

/// The two flags are told apart: where two settings differ in a flag, so do the
/// entries.
pub proof fn law_flags_are_told_apart(
    entry: TomlEntries,
    s: LsfgSettingsView,
    t: LsfgSettingsView,
)
    requires
        s.performance_mode is Some,
        t.performance_mode is Some,
        s.hdr_mode is Some,
        t.hdr_mode is Some,
        with_settings(entry, s) == with_settings(entry, t),
    ensures
        s.performance_mode == t.performance_mode,
        s.hdr_mode == t.hdr_mode,
{
    law_entry_says_the_settings(entry, s, "exe"@);
    law_entry_says_the_settings(entry, t, "exe"@);
}

/// Setting the multiplier sets that number and touches nothing else.
pub proof fn law_multiplier_alone(entry: TomlEntries, multiplier: u32, key: Seq<char>)
    ensures
        with_multiplier(entry, multiplier).contains_key("multiplier"@),
        with_multiplier(entry, multiplier)["multiplier"@] == TomlView::Integer(multiplier as i64),
        key != "multiplier"@ ==> kept(entry, with_multiplier(entry, multiplier), key),
{
}

/// The launcher's entry is the first game whose `exe` is the launcher's; a document
/// without one gets one behind its games, and a document without a version gets
/// version one.
pub proof fn law_document(doc: TomlEntries, entry: TomlEntries, games: Seq<TomlView>)
    requires
        doc.contains_key("game"@) ==> doc["game"@] == TomlView::Array(games),
        !doc.contains_key("game"@) ==> games.len() == 0,
    ensures
        games_of(doc) == games,
        doc.contains_key("version"@) ==> kept(doc, with_entry(doc, entry), "version"@),
        !doc.contains_key("version"@) ==> with_entry(doc, entry).contains_key("version"@)
            && with_entry(doc, entry)["version"@] == TomlView::Integer(1),
        (forall|i: int|
            0 <= i < games.len() ==> !(#[trigger] games[i] is Table && games[i]->Table_0.contains_key(
                "exe"@,
            ) && games[i]->Table_0["exe"@] == TomlView::Text("RitzLauncher"@))) ==> {
            &&& with_entry(doc, entry)["game"@] == TomlView::Array(
                games.push(TomlView::Table(entry)),
            )
            &&& ritz_entry(doc) == TomlEntries::empty().insert(
                "exe"@,
                TomlView::Text("RitzLauncher"@),
            )
        },
{
    assert("version"@.len() == 7 && "game"@.len() == 4) by {
        reveal_strlit("version");
        reveal_strlit("game");
    }
    crate::lsfg_toml::law_ritz_place(games, 0);
    assert(games_of(doc) =~= games);
    let at = crate::lsfg_toml::ritz_place(games, 0);
    if at < games.len() {
        let g = games[at];
        assert(crate::lsfg_toml::is_ritz(g));
    }
}

/// A document that has the launcher's entry keeps it in its place.
pub proof fn law_entry_keeps_its_place(
    doc: TomlEntries,
    entry: TomlEntries,
    games: Seq<TomlView>,
    at: int,
)
    requires
        doc.contains_key("game"@) && doc["game"@] == TomlView::Array(games),
        0 <= at < games.len(),
        games[at] is Table && games[at]->Table_0.contains_key("exe"@)
            && games[at]->Table_0["exe"@] == TomlView::Text("RitzLauncher"@),
        forall|i: int|
            0 <= i < at ==> !(#[trigger] games[i] is Table && games[i]->Table_0.contains_key(
                "exe"@,
            ) && games[i]->Table_0["exe"@] == TomlView::Text("RitzLauncher"@)),
    ensures
        with_entry(doc, entry)["game"@] == TomlView::Array(
            games.update(at, TomlView::Table(entry)),
        ),
        ritz_entry(doc) == games[at]->Table_0,
{
    crate::lsfg_toml::law_ritz_place(games, 0);
}

/// The entry that the launcher has, or gets, is its own.
proof fn lemma_own_entry(doc: TomlEntries)
    ensures
        ritz_entry(doc).contains_key("exe"@),
        ritz_entry(doc)["exe"@] == TomlView::Text("RitzLauncher"@),
{
    crate::lsfg_toml::law_ritz_place(games_of(doc), 0);
}

/// Applying the settings to a document writes them into the launcher's entry, with
/// what else it held, and leaves all other parts of the document as they are.
pub proof fn law_applied(doc: TomlEntries, s: LsfgSettingsView, key: Seq<char>)
    ensures
        ritz_entry(doc_applied(doc, s)) == with_settings(ritz_entry(doc), s),
        key != "game"@ && key != "version"@ ==> kept(doc, doc_applied(doc, s), key),
{
    let entry = with_settings(ritz_entry(doc), s);
    law_entry_says_the_settings(ritz_entry(doc), s, key);
    law_entry_is_found_again(doc, entry, entry);
    if key != "game"@ {
        law_other_parts_stay(doc, entry, key);
    }
}

/// Setting the multiplier of a document sets it in the launcher's entry, and
/// leaves the rest of that entry and all other parts as they are.
pub proof fn law_multiplied(doc: TomlEntries, multiplier: u32, key: Seq<char>)
    ensures
        ritz_entry(doc_multiplied(doc, multiplier)).contains_key("multiplier"@),
        ritz_entry(doc_multiplied(doc, multiplier))["multiplier"@] == TomlView::Integer(
            multiplier as i64,
        ),
        key != "multiplier"@ ==> kept(
            ritz_entry(doc),
            ritz_entry(doc_multiplied(doc, multiplier)),
            key,
        ),
        key != "game"@ && key != "version"@ ==> kept(doc, doc_multiplied(doc, multiplier), key),
{
    let entry = with_multiplier(ritz_entry(doc), multiplier);
    lemma_own_entry(doc);
    lemma_keys_differ();
    law_entry_is_found_again(doc, entry, entry);
    if key != "game"@ {
        law_other_parts_stay(doc, entry, key);
    }
}

/// A blank file counts as an empty document, one that cannot be read is an error,
/// and every other one is changed and written again.
pub proof fn law_files(existing: Seq<char>, s: LsfgSettingsView, multiplier: u32)
    ensures
        trimmed(existing).len() == 0 ==> text_applied(existing, s) == printed(
            doc_applied(TomlEntries::empty(), s),
        ) && text_multiplied(existing, multiplier) == printed(
            doc_multiplied(TomlEntries::empty(), multiplier),
        ),
        trimmed(existing).len() > 0 ==> (toml_parsed(existing) matches Ok(doc) ==> text_applied(
            existing,
            s,
        ) == printed(doc_applied(doc, s)) && text_multiplied(existing, multiplier) == printed(
            doc_multiplied(doc, multiplier),
        )),
        trimmed(existing).len() > 0 ==> (toml_parsed(existing) matches Err(e) ==> text_applied(
            existing,
            s,
        ) == Err::<Seq<char>, ErrorView>(
            ErrorView::Condition("lsfg conf.toml parse error: "@ + e),
        ) && text_multiplied(existing, multiplier) == Err::<Seq<char>, ErrorView>(
            ErrorView::Condition("lsfg conf.toml parse error: "@ + e),
        )),
{
}

/// A document as it is written.
pub open spec fn printed(doc: TomlEntries) -> std::result::Result<Seq<char>, ErrorView> {
    match toml_printed(doc) {
        Ok(text) => Ok(text),
        Err(e) => Err(ErrorView::Condition("lsfg conf.toml serialize error: "@ + e)),
    }
}

} // verus!
