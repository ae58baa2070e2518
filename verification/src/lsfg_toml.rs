//! The `conf.toml` of lsfg-vk.
//!
//! lsfg-vk picks the settings of a process by the `exe` field of a `[[game]]`
//! entry. Games inherit frame generation from the launcher, so the launcher
//! keeps one entry, under [`RITZ_EXE`], and leaves all others alone.

use crate::error::{outcome, ErrorView, Result, RitzError};
use crate::text::{trim, trimmed};
use vstd::prelude::*;

verus! {

/// The exe name of the launcher's entry.
pub const RITZ_EXE: &'static str = "RitzLauncher";

/// What the launcher's entry is to say.
#[derive(Debug)]
pub struct LsfgSettings {
    pub multiplier: u32,
    /// The flow scale as written; one that is no number is left out.
    pub flow_scale: Option<String>,
    pub performance_mode: Option<bool>,
    pub hdr_mode: Option<bool>,
    /// `experimental_present_mode`; `None` leaves it as it is.
    pub present_mode: Option<String>,
}

/// [`LsfgSettings`] as contracts speak of them.
pub struct LsfgSettingsView {
    pub multiplier: u32,
    pub flow_scale: Option<Seq<char>>,
    pub performance_mode: Option<bool>,
    pub hdr_mode: Option<bool>,
    pub present_mode: Option<Seq<char>>,
}

impl DeepView for LsfgSettings {
    type V = LsfgSettingsView;

    open spec fn deep_view(&self) -> LsfgSettingsView {
        LsfgSettingsView {
            multiplier: self.multiplier,
            flow_scale: self.flow_scale.deep_view(),
            performance_mode: self.performance_mode,
            hdr_mode: self.hdr_mode,
            present_mode: self.present_mode.deep_view(),
        }
    }
}

/// The table of a TOML document or value.
pub type TomlEntries = Map<Seq<char>, TomlView>;

/// A TOML value.
pub enum TomlView {
    Text(Seq<char>),
    Integer(i64),
    Boolean(bool),
    /// A float or a date-time, by its TOML text.
    Scalar(Seq<char>),
    Array(Seq<TomlView>),
    Table(Map<Seq<char>, TomlView>),
}

/// `toml::Value`, a TOML value.
#[verifier::external_type_specification]
#[verifier::external_body]
pub struct ExTomlValue(toml::Value);

/// `toml::map::Map`, whose instance with `String` keys and `toml::Value` values
/// is `toml::Table`.
#[verifier::external_type_specification]
#[verifier::external_body]
#[verifier::reject_recursive_types(K)]
#[verifier::reject_recursive_types(V)]
pub struct ExTomlMap<K, V>(toml::map::Map<K, V>);

/// What a `toml::Value` holds.
pub uninterp spec fn toml_tree(v: toml::Value) -> TomlView;

/// What a `toml::Table` holds.
pub uninterp spec fn table_tree(t: toml::Table) -> Map<Seq<char>, TomlView>;

/// What `str::parse` to a `toml::Table` reads, or the message it fails with.
pub uninterp spec fn toml_parsed(text: Seq<char>) -> std::result::Result<
    TomlEntries,
    Seq<char>,
>;

/// What `toml::to_string_pretty` writes for a table, or the message it fails with.
pub uninterp spec fn toml_printed(t: Map<Seq<char>, TomlView>) -> std::result::Result<
    Seq<char>,
    Seq<char>,
>;

/// The TOML text of the float that `str::parse` reads, where it reads one.
pub uninterp spec fn float_text(text: Seq<char>) -> Option<Seq<char>>;

/// A `toml::Value`, one level taken apart.
pub enum TomlNode {
    Text(String),
    Integer(i64),
    Boolean(bool),
    /// A float or a date-time.
    Scalar(toml::Value),
    Array(Vec<toml::Value>),
    Table(toml::Table),
}

/// What each of some values holds.
pub open spec fn trees(vs: Seq<toml::Value>) -> Seq<TomlView> {
    vs.map_values(|v: toml::Value| toml_tree(v))
}

impl TomlNode {
    /// What the value holds.
    pub open spec fn tree(self) -> TomlView {
        match self {
            TomlNode::Text(s) => TomlView::Text(s@),
            TomlNode::Integer(i) => TomlView::Integer(i),
            TomlNode::Boolean(b) => TomlView::Boolean(b),
            TomlNode::Scalar(v) => toml_tree(v),
            TomlNode::Array(vs) => TomlView::Array(trees(vs@)),
            TomlNode::Table(t) => TomlView::Table(table_tree(t)),
        }
    }
}

/// `toml::Value`'s variants told apart: the node holds what the value held, and
/// only a float or a date-time becomes a [`TomlNode::Scalar`].
#[verifier::external_body]
fn toml_open(v: toml::Value) -> (r: TomlNode)
    ensures
        r.tree() == toml_tree(v),
        r is Scalar <==> toml_tree(v) is Scalar,
{
    match v {
        toml::Value::String(s) => TomlNode::Text(s),
        toml::Value::Integer(i) => TomlNode::Integer(i),
        toml::Value::Boolean(b) => TomlNode::Boolean(b),
        toml::Value::Float(f) => TomlNode::Scalar(toml::Value::Float(f)),
        toml::Value::Datetime(d) => TomlNode::Scalar(toml::Value::Datetime(d)),
        toml::Value::Array(a) => TomlNode::Array(a),
        toml::Value::Table(t) => TomlNode::Table(t),
    }
}

/// `toml::Value`'s constructors: the value holds what the node held.
#[verifier::external_body]
fn toml_close(n: TomlNode) -> (r: toml::Value)
    ensures
        toml_tree(r) == n.tree(),
{
    match n {
        TomlNode::Text(s) => toml::Value::String(s),
        TomlNode::Integer(i) => toml::Value::Integer(i),
        TomlNode::Boolean(b) => toml::Value::Boolean(b),
        TomlNode::Scalar(v) => v,
        TomlNode::Array(a) => toml::Value::Array(a),
        TomlNode::Table(t) => toml::Value::Table(t),
    }
}

/// `str::parse` to a float, as a `toml::Value::Float`: a value where the text is
/// that of a float, and its TOML text then goes by the name [`float_text`].
#[verifier::external_body]
fn toml_float(text: &str) -> (r: Option<toml::Value>)
    ensures
        match r {
            Some(v) => float_text(text@) is Some && toml_tree(v) == TomlView::Scalar(
                float_text(text@)->0,
            ),
            None => float_text(text@) is None,
        },
{
    text.parse().ok().map(toml::Value::Float)
}

/// `toml::Value::get` with a key: the entry of a table under that key, and
/// nothing of any other value.
#[verifier::external_body]
fn toml_get<'a>(v: &'a toml::Value, key: &str) -> (r: Option<&'a toml::Value>)
    ensures
        match r {
            Some(x) => toml_tree(*v) is Table && toml_tree(*v)->Table_0.contains_key(key@)
                && toml_tree(*x) == toml_tree(*v)->Table_0[key@],
            None => !(toml_tree(*v) is Table && toml_tree(*v)->Table_0.contains_key(key@)),
        },
{
    v.get(key)
}

/// `toml::Value::as_str`: the text of a string, and nothing of any other value.
#[verifier::external_body]
fn toml_str(v: &toml::Value) -> (r: Option<&str>)
    ensures
        match r {
            Some(s) => toml_tree(*v) == TomlView::Text(s@),
            None => !(toml_tree(*v) is Text),
        },
{
    v.as_str()
}

/// `toml::map::Map::new`: a table that holds nothing.
#[verifier::external_body]
fn table_new() -> (t: toml::Table)
    ensures
        table_tree(t) == TomlEntries::empty(),
{
    toml::Table::new()
}

/// `toml::map::Map::contains_key`: whether the table has an entry under the key.
#[verifier::external_body]
fn table_has(t: &toml::Table, key: &str) -> (b: bool)
    ensures
        b == table_tree(*t).contains_key(key@),
{
    t.contains_key(key)
}

/// `toml::map::Map::insert`: the entry under the key becomes the value, and all
/// others stay.
#[verifier::external_body]
fn table_insert(t: &mut toml::Table, key: String, v: toml::Value)
    ensures
        table_tree(*final(t)) == table_tree(*old(t)).insert(key@, toml_tree(v)),
{
    t.insert(key, v);
}

/// `toml::map::Map::remove`: the entry under the key is taken out, and all others
/// stay.
#[verifier::external_body]
fn table_remove(t: &mut toml::Table, key: &str) -> (r: Option<toml::Value>)
    ensures
        table_tree(*final(t)) == table_tree(*old(t)).remove(key@),
        match r {
            Some(v) => table_tree(*old(t)).contains_key(key@) && toml_tree(v) == table_tree(
                *old(t),
            )[key@],
            None => !table_tree(*old(t)).contains_key(key@),
        },
{
    t.remove(key)
}

/// `str::parse` to a `toml::Table`; its result goes by the name [`toml_parsed`].
#[verifier::external_body]
fn toml_parse(text: &str) -> (r: std::result::Result<toml::Table, String>)
    ensures
        match r {
            Ok(t) => toml_parsed(text@) matches Ok(m) && m == table_tree(t),
            Err(e) => toml_parsed(text@) matches Err(m) && m == e@,
        },
{
    text.parse::<toml::Table>().map_err(|e| e.to_string())
}

/// `toml::to_string_pretty` on a table; its result goes by the name
/// [`toml_printed`]. Nothing is claimed of what reading the text gives back.
#[verifier::external_body]
fn toml_print(t: &toml::Table) -> (r: std::result::Result<String, String>)
    ensures
        match r {
            Ok(s) => toml_printed(table_tree(*t)) matches Ok(m) && m == s@,
            Err(e) => toml_printed(table_tree(*t)) matches Err(m) && m == e@,
        },
{
    toml::to_string_pretty(t).map_err(|e| e.to_string())
}

/// Whether `g` is the launcher's entry.
pub open spec fn is_ritz(g: TomlView) -> bool {
    &&& g is Table
    &&& g->Table_0.contains_key("exe"@)
    &&& g->Table_0["exe"@] == TomlView::Text(RITZ_EXE@)
}

/// The place of the first entry of the launcher in `games`, from `from` on;
/// behind all games where there is none.
pub open spec fn ritz_place(games: Seq<TomlView>, from: int) -> int
    decreases games.len() - from,
{
    if from < 0 || from >= games.len() {
        games.len() as int
    } else if is_ritz(games[from]) {
        from
    } else {
        ritz_place(games, from + 1)
    }
}

/// The `[[game]]` entries of a document.
pub open spec fn games_of(doc: TomlEntries) -> Seq<TomlView> {
    if doc.contains_key("game"@) && doc["game"@] is Array {
        doc["game"@]->Array_0
    } else {
        seq![]
    }
}

/// The launcher's entry in a document, and a new one where there is none.
pub open spec fn ritz_entry(doc: TomlEntries) -> TomlEntries {
    let games = games_of(doc);
    let at = ritz_place(games, 0);
    if at < games.len() {
        games[at]->Table_0
    } else {
        TomlEntries::empty().insert("exe"@, TomlView::Text(RITZ_EXE@))
    }
}

/// A document with a version.
pub open spec fn versioned(doc: TomlEntries) -> TomlEntries {
    if doc.contains_key("version"@) {
        doc
    } else {
        doc.insert("version"@, TomlView::Integer(1))
    }
}

/// A document with `entry` as the launcher's entry: in the place of the one it
/// has, or behind the other games.
pub open spec fn with_entry(doc: TomlEntries, entry: TomlEntries) -> TomlEntries {
    let games = games_of(doc);
    let at = ritz_place(games, 0);
    versioned(doc).insert(
        "game"@,
        TomlView::Array(
            if at < games.len() {
                games.update(at, TomlView::Table(entry))
            } else {
                games.push(TomlView::Table(entry))
            },
        ),
    )
}

/// An entry with its multiplier set.
pub open spec fn with_multiplier(entry: TomlEntries, multiplier: u32) -> TomlEntries {
    entry.insert("multiplier"@, TomlView::Integer(multiplier as i64))
}

/// An entry with a field set where there is something to set it to.
pub open spec fn with_field(entry: TomlEntries, key: Seq<char>, v: Option<TomlView>) -> TomlEntries {
    match v {
        Some(v) => entry.insert(key, v),
        None => entry,
    }
}

/// A truth value as a TOML value.
pub open spec fn flag_tree(b: Option<bool>) -> Option<TomlView> {
    match b {
        Some(b) => Some(TomlView::Boolean(b)),
        None => None,
    }
}

/// A text as a TOML value.
pub open spec fn text_tree(s: Option<Seq<char>>) -> Option<TomlView> {
    match s {
        Some(s) => Some(TomlView::Text(s)),
        None => None,
    }
}

/// The float that a text is read as, as a TOML value.
pub open spec fn scale_tree(s: Option<Seq<char>>) -> Option<TomlView> {
    match s {
        Some(s) => match float_text(s) {
            Some(f) => Some(TomlView::Scalar(f)),
            None => None,
        },
        None => None,
    }
}

/// An entry with the settings written into it.
pub open spec fn with_settings(entry: TomlEntries, s: LsfgSettingsView) -> TomlEntries {
    let e = with_multiplier(entry.insert("exe"@, TomlView::Text(RITZ_EXE@)), s.multiplier);
    let e = with_field(e, "flow_scale"@, scale_tree(s.flow_scale));
    let e = with_field(e, "performance_mode"@, flag_tree(s.performance_mode));
    let e = with_field(e, "hdr_mode"@, flag_tree(s.hdr_mode));
    with_field(e, "experimental_present_mode"@, text_tree(s.present_mode))
}

/// The document that a text holds; a blank text is an empty document.
pub open spec fn doc_read(text: Seq<char>) -> std::result::Result<TomlEntries, ErrorView> {
    if trimmed(text).len() == 0 {
        Ok(TomlEntries::empty())
    } else {
        match toml_parsed(text) {
            Ok(doc) => Ok(doc),
            Err(e) => Err(ErrorView::Condition("lsfg conf.toml parse error: "@ + e)),
        }
    }
}

/// The text of a document.
pub open spec fn doc_text(doc: TomlEntries) -> std::result::Result<Seq<char>, ErrorView> {
    match toml_printed(doc) {
        Ok(text) => Ok(text),
        Err(e) => Err(ErrorView::Condition("lsfg conf.toml serialize error: "@ + e)),
    }
}

/// The games of a document, with the launcher's entry taken out of its place.
struct Slot {
    games: Vec<toml::Value>,
    at: usize,
    entry: toml::Table,
}

/// Whether `v` is the launcher's entry.
fn is_ritz_entry(v: &toml::Value) -> (b: bool)
    ensures
        b == is_ritz(toml_tree(*v)),
{
    match toml_get(v, "exe") {
        Some(e) => match toml_str(e) {
            Some(s) => crate::text::same_text(s, RITZ_EXE),
            None => false,
        },
        None => false,
    }
}

/// Takes the launcher's entry out of a document, or makes one, and sees to it
/// that the document has a version.
fn ritz_game_entry(doc: &mut toml::Table) -> (slot: Slot)
    ensures
        table_tree(slot.entry) == ritz_entry(table_tree(*old(doc))),
        slot.at == ritz_place(games_of(table_tree(*old(doc))), 0),
        slot.at <= slot.games@.len(),
        forall|entry: TomlView|
            trees(slot.games@).insert(slot.at as int, entry) == (if slot.at < games_of(
                table_tree(*old(doc)),
            ).len() {
                games_of(table_tree(*old(doc))).update(slot.at as int, entry)
            } else {
                games_of(table_tree(*old(doc))).push(entry)
            }),
        table_tree(*final(doc)) == versioned(table_tree(*old(doc))).remove("game"@),
{
    proof {
        reveal_strlit("game");
        reveal_strlit("version");
    }
    assert("game"@.len() != "version"@.len());
    let ghost before = table_tree(*doc);
    if !table_has(doc, "version") {
        let one = toml_close(TomlNode::Integer(1));
        table_insert(doc, "version".to_owned(), one);
    }
    assert(table_tree(*doc) == versioned(before));
    let mut games: Vec<toml::Value> = match table_remove(doc, "game") {
        Some(v) => match toml_open(v) {
            TomlNode::Array(a) => a,
            _ => Vec::new(),
        },
        None => Vec::new(),
    };
    let ghost all = games_of(before);
    assert(trees(games@) =~= all);
    let mut at: usize = 0;
    while at < games.len() && !is_ritz_entry(&games[at])
        invariant
            at <= games@.len(),
            trees(games@) == all,
            ritz_place(all, 0) == ritz_place(all, at as int),
        decreases games@.len() - at,
    {
        assert(toml_tree(games@[at as int]) == all[at as int]);
        at = at + 1;
    }
    if at < games.len() {
        assert(toml_tree(games@[at as int]) == all[at as int]);
        let found = games.remove(at);
        assert(trees(games@) =~= all.remove(at as int));
        assert forall|entry: TomlView| trees(games@).insert(at as int, entry) == all.update(
            at as int,
            entry,
        ) by {
            assert(trees(games@).insert(at as int, entry) =~= all.update(at as int, entry));
        }
        let entry = match toml_open(found) {
            TomlNode::Table(t) => t,
            _ => table_new(),
        };
        Slot { games, at, entry }
    } else {
        assert forall|entry: TomlView| trees(games@).insert(at as int, entry) == all.push(entry) by {
            assert(trees(games@).insert(at as int, entry) =~= all.push(entry));
        }
        let mut entry = table_new();
        let exe = toml_close(TomlNode::Text(RITZ_EXE.to_owned()));
        table_insert(&mut entry, "exe".to_owned(), exe);
        Slot { games, at, entry }
    }
}

/// Puts the launcher's entry back in its place.
fn put_back(doc: &mut toml::Table, slot: Slot)
    requires
        slot.at <= slot.games@.len(),
    ensures
        table_tree(*final(doc)) == table_tree(*old(doc)).insert(
            "game"@,
            TomlView::Array(
                trees(slot.games@).insert(
                    slot.at as int,
                    TomlView::Table(table_tree(slot.entry)),
                ),
            ),
        ),
{
    let Slot { mut games, at, entry } = slot;
    let ghost rest = games@;
    let e = toml_close(TomlNode::Table(entry));
    games.insert(at, e);
    assert(trees(games@) =~= trees(rest).insert(at as int, toml_tree(e)));
    let all = toml_close(TomlNode::Array(games));
    table_insert(doc, "game".to_owned(), all);
}

/// Sets a field of an entry where there is something to set it to.
fn put_field(entry: &mut toml::Table, key: &str, v: Option<toml::Value>)
    ensures
        table_tree(*final(entry)) == with_field(
            table_tree(*old(entry)),
            key@,
            match v {
                Some(v) => Some(toml_tree(v)),
                None => None,
            },
        ),
{
    match v {
        Some(v) => table_insert(entry, key.to_owned(), v),
        None => {},
    }
}

/// A truth value as a TOML value.
fn flag_value(b: Option<bool>) -> (r: Option<toml::Value>)
    ensures
        flag_tree(b) == (match r {
            Some(v) => Some(toml_tree(v)),
            None => None,
        }),
{
    match b {
        Some(b) => Some(toml_close(TomlNode::Boolean(b))),
        None => None,
    }
}

/// A document with the settings in the launcher's entry.
pub open spec fn doc_applied(doc: TomlEntries, s: LsfgSettingsView) -> TomlEntries {
    with_entry(doc, with_settings(ritz_entry(doc), s))
}

/// A document with this multiplier in the launcher's entry.
pub open spec fn doc_multiplied(doc: TomlEntries, multiplier: u32) -> TomlEntries {
    with_entry(doc, with_multiplier(ritz_entry(doc), multiplier))
}

/// A document with the settings written into the launcher's entry.
pub fn apply_to_doc(doc: toml::Table, settings: &LsfgSettings) -> (r: toml::Table)
    ensures
        table_tree(r) == doc_applied(table_tree(doc), settings.deep_view()),
{
    let mut doc = doc;
    let ghost before = table_tree(doc);
    let mut slot = ritz_game_entry(&mut doc);
    let exe = toml_close(TomlNode::Text(RITZ_EXE.to_owned()));
    table_insert(&mut slot.entry, "exe".to_owned(), exe);
    let multiplier = toml_close(TomlNode::Integer(settings.multiplier as i64));
    table_insert(&mut slot.entry, "multiplier".to_owned(), multiplier);
    let scale = match &settings.flow_scale {
        Some(s) => toml_float(s.as_str()),
        None => None,
    };
    put_field(&mut slot.entry, "flow_scale", scale);
    put_field(&mut slot.entry, "performance_mode", flag_value(settings.performance_mode));
    put_field(&mut slot.entry, "hdr_mode", flag_value(settings.hdr_mode));
    let mode = match &settings.present_mode {
        Some(m) => Some(toml_close(TomlNode::Text(m.clone()))),
        None => None,
    };
    put_field(&mut slot.entry, "experimental_present_mode", mode);
    assert(table_tree(slot.entry) == with_settings(ritz_entry(before), settings.deep_view()));
    put_back(&mut doc, slot);
    assert(table_tree(doc) =~= with_entry(
        before,
        with_settings(ritz_entry(before), settings.deep_view()),
    ));
    doc
}

/// A document with the multiplier of the launcher's entry set.
pub fn set_multiplier_in_doc(doc: toml::Table, multiplier: u32) -> (r: toml::Table)
    ensures
        table_tree(r) == doc_multiplied(table_tree(doc), multiplier),
{
    let mut doc = doc;
    let ghost before = table_tree(doc);
    let mut slot = ritz_game_entry(&mut doc);
    let value = toml_close(TomlNode::Integer(multiplier as i64));
    table_insert(&mut slot.entry, "multiplier".to_owned(), value);
    put_back(&mut doc, slot);
    assert(table_tree(doc) =~= with_entry(before, with_multiplier(ritz_entry(before), multiplier)));
    doc
}

/// `prefix` and then `message`, as an error.
fn conf_error(prefix: &str, message: &str) -> (e: RitzError)
    ensures
        e.deep_view() == ErrorView::Condition(prefix@ + message@),
{
    let mut text = prefix.to_owned();
    text.append(message);
    RitzError::Condition(text)
}

/// The document that a text holds; a blank text is an empty document.
fn parse_doc(existing: &str) -> (r: Result<toml::Table>)
    ensures
        doc_read(existing@) == (match r {
            Ok(t) => Ok(table_tree(t)),
            Err(e) => Err(e.deep_view()),
        }),
{
    if trim(existing).as_str().is_empty() {
        return Ok(table_new());
    }
    match toml_parse(existing) {
        Ok(t) => Ok(t),
        Err(e) => Err(conf_error("lsfg conf.toml parse error: ", e.as_str())),
    }
}

/// The text of a document.
fn serialize(doc: &toml::Table) -> (r: Result<String>)
    ensures
        outcome(r) == doc_text(table_tree(*doc)),
{
    match toml_print(doc) {
        Ok(text) => Ok(text),
        Err(e) => Err(conf_error("lsfg conf.toml serialize error: ", e.as_str())),
    }
}

/// A `conf.toml` with the settings in the launcher's entry.
pub open spec fn text_applied(existing: Seq<char>, s: LsfgSettingsView) -> std::result::Result<
    Seq<char>,
    ErrorView,
> {
    match doc_read(existing) {
        Ok(doc) => doc_text(doc_applied(doc, s)),
        Err(e) => Err(e),
    }
}

/// A `conf.toml` with this multiplier in the launcher's entry.
pub open spec fn text_multiplied(existing: Seq<char>, multiplier: u32) -> std::result::Result<
    Seq<char>,
    ErrorView,
> {
    match doc_read(existing) {
        Ok(doc) => doc_text(doc_multiplied(doc, multiplier)),
        Err(e) => Err(e),
    }
}

/// Writes the settings into the launcher's entry of a `conf.toml`.
pub fn apply(existing: &str, settings: &LsfgSettings) -> (r: Result<String>)
    ensures
        outcome(r) == text_applied(existing@, settings.deep_view()),
{
    match parse_doc(existing) {
        Ok(doc) => serialize(&apply_to_doc(doc, settings)),
        Err(e) => Err(e),
    }
}

/// Sets the multiplier of the launcher's entry of a `conf.toml`, and nothing else.
pub fn set_multiplier(existing: &str, multiplier: u32) -> (r: Result<String>)
    ensures
        outcome(r) == text_multiplied(existing@, multiplier),
{
    match parse_doc(existing) {
        Ok(doc) => serialize(&set_multiplier_in_doc(doc, multiplier)),
        Err(e) => Err(e),
    }
}

/// The place of the launcher's entry is that of the first one, and lies behind
/// all games where there is none.
pub proof fn law_ritz_place(games: Seq<TomlView>, from: int)
    requires
        0 <= from <= games.len(),
    ensures
        from <= ritz_place(games, from) <= games.len(),
        ritz_place(games, from) < games.len() ==> is_ritz(games[ritz_place(games, from)]),
        forall|i: int| from <= i < ritz_place(games, from) ==> !is_ritz(#[trigger] games[i]),
    decreases games.len() - from,
{
    if from < games.len() && !is_ritz(games[from]) {
        law_ritz_place(games, from + 1);
    }
}

/// Writing the launcher's entry leaves every other game as it is, in its place,
/// and adds a game only where the launcher had none.
pub proof fn law_other_games_stay(doc: TomlEntries, entry: TomlEntries)
    ensures
        ({
            let before = games_of(doc);
            let after = games_of(with_entry(doc, entry));
            let at = ritz_place(before, 0);
            &&& 0 <= at < after.len()
            &&& after.len() == if at < before.len() {
                before.len()
            } else {
                before.len() + 1
            }
            &&& after[at] == TomlView::Table(entry)
            &&& forall|i: int| 0 <= i < before.len() && i != at ==> after[i] == #[trigger] before[i]
        }),
{
    law_ritz_place(games_of(doc), 0);
}

/// Writing the launcher's entry leaves every other part of the document as it
/// is, but for a version where there was none.
pub proof fn law_other_parts_stay(doc: TomlEntries, entry: TomlEntries, key: Seq<char>)
    requires
        key != "game"@,
    ensures
        key != "version"@ ==> (with_entry(doc, entry).contains_key(key) <==> doc.contains_key(key)),
        doc.contains_key(key) ==> with_entry(doc, entry)[key] == doc[key],
        with_entry(doc, entry).contains_key("version"@),
{
    reveal_strlit("game");
    reveal_strlit("version");
    assert("game"@.len() != "version"@.len());
}

/// The launcher's entry, once written, is the one that is found again; writing it
/// once more puts the new one in its place, and no second one beside it.
pub proof fn law_entry_is_found_again(doc: TomlEntries, entry: TomlEntries, again: TomlEntries)
    requires
        is_ritz(TomlView::Table(entry)),
    ensures
        ritz_entry(with_entry(doc, entry)) == entry,
        with_entry(with_entry(doc, entry), again) == with_entry(doc, again),
{
    let before = games_of(doc);
    let once = with_entry(doc, entry);
    let after = games_of(once);
    let at = ritz_place(before, 0);
    law_other_games_stay(doc, entry);
    law_ritz_place(before, 0);
    law_ritz_place(after, 0);
    let found = ritz_place(after, 0);
    if found < at {
        assert(after[found] == before[found]);
        assert(false);
    }
    if found > at {
        assert(!is_ritz(after[at]));
        assert(false);
    }
    reveal_strlit("game");
    reveal_strlit("version");
    assert("game"@.len() != "version"@.len());
    assert(versioned(once) == once);
    if at < before.len() {
        assert(after.update(at, TomlView::Table(again)) =~= before.update(
            at,
            TomlView::Table(again),
        ));
    } else {
        assert(after.update(at, TomlView::Table(again)) =~= before.push(TomlView::Table(again)));
    }
    assert(with_entry(once, again) =~= with_entry(doc, again));
}

/// The entry of a document with settings in it is the launcher's, and says what
/// the settings say.
pub proof fn law_settings_are_written(entry: TomlEntries, s: LsfgSettingsView)
    ensures
        ({
            let e = with_settings(entry, s);
            &&& is_ritz(TomlView::Table(e))
            &&& e["multiplier"@] == TomlView::Integer(s.multiplier as i64)
            &&& scale_tree(s.flow_scale) matches Some(v) ==> e["flow_scale"@] == v
            &&& flag_tree(s.performance_mode) matches Some(v) ==> e["performance_mode"@] == v
            &&& flag_tree(s.hdr_mode) matches Some(v) ==> e["hdr_mode"@] == v
            &&& text_tree(s.present_mode) matches Some(v) ==> e["experimental_present_mode"@] == v
        }),
{
    lemma_keys_differ();
}

/// No two of the keys of an entry are the same.
pub proof fn lemma_keys_differ()
    ensures
        "exe"@.len() == 3,
        "multiplier"@.len() == 10,
        "flow_scale"@.len() == 10,
        "multiplier"@ != "flow_scale"@,
        "performance_mode"@.len() == 16,
        "hdr_mode"@.len() == 8,
        "experimental_present_mode"@.len() == 25,
{
    reveal_strlit("exe");
    reveal_strlit("multiplier");
    reveal_strlit("flow_scale");
    reveal_strlit("performance_mode");
    reveal_strlit("hdr_mode");
    reveal_strlit("experimental_present_mode");
    assert("multiplier"@[0] != "flow_scale"@[0]);
}

/// Setting the multiplier later comes to the same as writing the settings with
/// that multiplier at once: the other settings are kept.
pub proof fn law_multiplier_patch(doc: TomlEntries, s: LsfgSettingsView, multiplier: u32)
    ensures
        ({
            let once = with_entry(doc, with_settings(ritz_entry(doc), s));
            with_entry(once, with_multiplier(ritz_entry(once), multiplier)) == with_entry(
                doc,
                with_settings(ritz_entry(doc), LsfgSettingsView { multiplier, ..s }),
            )
        }),
{
    let entry = ritz_entry(doc);
    let written = with_settings(entry, s);
    let patched = with_multiplier(written, multiplier);
    law_settings_are_written(entry, s);
    law_entry_is_found_again(doc, written, patched);
    lemma_keys_differ();
    assert(patched =~= with_settings(entry, LsfgSettingsView { multiplier, ..s }));
}

/// Writing the same settings twice comes to the same as writing them once.
pub proof fn law_apply_is_idempotent(doc: TomlEntries, s: LsfgSettingsView)
    ensures
        ({
            let once = with_entry(doc, with_settings(ritz_entry(doc), s));
            with_entry(once, with_settings(ritz_entry(once), s)) == once
        }),
{
    let written = with_settings(ritz_entry(doc), s);
    law_settings_are_written(ritz_entry(doc), s);
    law_entry_is_found_again(doc, written, with_settings(written, s));
    lemma_keys_differ();
    assert(with_settings(written, s) =~= written);
}

/// A `conf.toml` that was written, and that the TOML reader reads back, is one
/// whose launcher's entry says what the settings say.
pub proof fn law_written_settings_are_read_back(
    existing: Seq<char>,
    s: LsfgSettingsView,
    written: Seq<char>,
)
    requires
        doc_read(existing) is Ok,
        ({
            let doc = doc_read(existing)->Ok_0;
            let applied = with_entry(doc, with_settings(ritz_entry(doc), s));
            doc_text(applied) == Ok::<Seq<char>, ErrorView>(written) && doc_read(written) == Ok::<
                TomlEntries,
                ErrorView,
            >(applied)
        }),
    ensures
        ritz_entry(doc_read(written)->Ok_0) == with_settings(
            ritz_entry(doc_read(existing)->Ok_0),
            s,
        ),
{
    let doc = doc_read(existing)->Ok_0;
    law_settings_are_written(ritz_entry(doc), s);
    law_entry_is_found_again(doc, with_settings(ritz_entry(doc), s), TomlEntries::empty());
}

} // verus!
