//! The extension format: what a module declares, and the renaming of its
//! variables.
//!
//! A `Requires` expression is held in a field named `requirement`.

use crate::condition::{
    is_and, is_atom, is_ident_char, is_name_char, is_or, law_reading_keeps_tokens,
    law_spelling_is_read_back, lemma_name_end, lemma_name_end_skip, name_end, parsed, run_end, spelled,
    tokens, tokens_from, with_token, word_token, ExprView, TokView,
};
use crate::data::Duplicate;
use crate::ordered::{has_key, key_index, Entries, OrderedMap};
use crate::template::{
    law_no_renames_no_change, lemma_renamed_step, piece_renamed, piece_text, read_piece, renamed,
    template_renamed, Piece,
};
use crate::text::{begins, chars_of, contains_text, is_white, same_text, starts_with, text_of, trim};
use crate::value::{Number, Json, ValueView};
use vstd::prelude::*;

verus! {

/// What kind of value a field holds.
#[derive(Debug, Clone, Copy, PartialEq, Eq, Structural)]
pub enum FieldType {
    Toggle,
    Selection,
    Integer,
    Float,
    String,
    /// A list of strings, edited as a growing slot list. Resolves to its entries
    /// joined by newlines, so each entry is one line for its consumer.
    MultiString,
}

/// What a builder entry does to its environment variable.
#[derive(Debug, Clone, Copy, PartialEq, Eq, Structural)]
pub enum EnvOp {
    Assign,
    Append,
    Unset,
}

/// `Options` is either a fixed list (selection) or a numeric range
/// (integer, float).
#[derive(Debug)]
pub enum OptionsSpec {
    List(Vec<String>),
    Range { min: Number, max: Number, step: Option<Number> },
}

/// An [`OptionsSpec`] as contracts speak of it.
#[verifier::ext_equal]
pub enum OptionsSpecView {
    List(Seq<Seq<char>>),
    Range { min: Seq<char>, max: Seq<char>, step: Option<Seq<char>> },
}

impl DeepView for OptionsSpec {
    type V = OptionsSpecView;

    open spec fn deep_view(&self) -> OptionsSpecView {
        match self {
            OptionsSpec::List(l) => OptionsSpecView::List(l.deep_view()),
            OptionsSpec::Range { min, max, step } => OptionsSpecView::Range {
                min: min.deep_view(),
                max: max.deep_view(),
                step: step.deep_view(),
            },
        }
    }
}

impl Duplicate for OptionsSpec {
    fn duplicate(&self) -> (r: Self) {
        match self {
            OptionsSpec::List(l) => OptionsSpec::List(l.duplicate()),
            OptionsSpec::Range { min, max, step } => OptionsSpec::Range {
                min: min.duplicate(),
                max: max.duplicate(),
                step: step.duplicate(),
            },
        }
    }
}

impl Clone for OptionsSpec {
    fn clone(&self) -> (r: Self)
        ensures
            r.deep_view() == self.deep_view(),
    {
        self.duplicate()
    }
}

/// One field of a UI section.
#[derive(Debug)]
pub struct UiField {
    pub name: Option<String>,
    pub description: Option<String>,
    pub field_type: FieldType,
    pub variable: String,
    pub default: Option<Json>,
    pub options: Option<OptionsSpec>,
    pub display_options: Option<Vec<String>>,
    /// GUI visibility gate (`Requires`). `global:` references are rejected at
    /// load time.
    pub requirement: Option<String>,
}

/// An [`UiField`] as contracts speak of it.
#[verifier::ext_equal]
pub struct UiFieldView {
    pub name: Option<Seq<char>>,
    pub description: Option<Seq<char>>,
    pub field_type: FieldType,
    pub variable: Seq<char>,
    pub default: Option<ValueView>,
    pub options: Option<OptionsSpecView>,
    pub display_options: Option<Seq<Seq<char>>>,
    pub requirement: Option<Seq<char>>,
}

impl DeepView for UiField {
    type V = UiFieldView;

    open spec fn deep_view(&self) -> UiFieldView {
        UiFieldView {
            name: self.name.deep_view(),
            description: self.description.deep_view(),
            field_type: self.field_type,
            variable: self.variable.deep_view(),
            default: self.default.deep_view(),
            options: self.options.deep_view(),
            display_options: self.display_options.deep_view(),
            requirement: self.requirement.deep_view(),
        }
    }
}

impl Duplicate for UiField {
    fn duplicate(&self) -> (r: Self) {
        UiField {
            name: self.name.duplicate(),
            description: self.description.duplicate(),
            field_type: self.field_type,
            variable: self.variable.duplicate(),
            default: self.default.duplicate(),
            options: self.options.duplicate(),
            display_options: self.display_options.duplicate(),
            requirement: self.requirement.duplicate(),
        }
    }
}

impl Clone for UiField {
    fn clone(&self) -> (r: Self)
        ensures
            r.deep_view() == self.deep_view(),
    {
        self.duplicate()
    }
}

/// One step in building an environment variable.
#[derive(Debug)]
pub struct EnvBuilderEntry {
    pub requirement: Option<String>,
    pub op: EnvOp,
    pub value: Option<String>,
    pub separator: Option<String>,
}

/// An [`EnvBuilderEntry`] as contracts speak of it.
#[verifier::ext_equal]
pub struct EnvBuilderEntryView {
    pub requirement: Option<Seq<char>>,
    pub op: EnvOp,
    pub value: Option<Seq<char>>,
    pub separator: Option<Seq<char>>,
}

impl DeepView for EnvBuilderEntry {
    type V = EnvBuilderEntryView;

    open spec fn deep_view(&self) -> EnvBuilderEntryView {
        EnvBuilderEntryView {
            requirement: self.requirement.deep_view(),
            op: self.op,
            value: self.value.deep_view(),
            separator: self.separator.deep_view(),
        }
    }
}

impl Duplicate for EnvBuilderEntry {
    fn duplicate(&self) -> (r: Self) {
        EnvBuilderEntry {
            requirement: self.requirement.duplicate(),
            op: self.op,
            value: self.value.duplicate(),
            separator: self.separator.duplicate(),
        }
    }
}

impl Clone for EnvBuilderEntry {
    fn clone(&self) -> (r: Self)
        ensures
            r.deep_view() == self.deep_view(),
    {
        self.duplicate()
    }
}

/// An environment variable and how it is built.
#[derive(Debug)]
pub struct EnvVarSpec {
    pub name: String,
    pub requirement: Option<String>,
    pub builder: Vec<EnvBuilderEntry>,
}

/// An [`EnvVarSpec`] as contracts speak of it.
#[verifier::ext_equal]
pub struct EnvVarSpecView {
    pub name: Seq<char>,
    pub requirement: Option<Seq<char>>,
    pub builder: Seq<EnvBuilderEntryView>,
}

impl DeepView for EnvVarSpec {
    type V = EnvVarSpecView;

    open spec fn deep_view(&self) -> EnvVarSpecView {
        EnvVarSpecView {
            name: self.name.deep_view(),
            requirement: self.requirement.deep_view(),
            builder: self.builder.deep_view(),
        }
    }
}

impl Duplicate for EnvVarSpec {
    fn duplicate(&self) -> (r: Self) {
        EnvVarSpec {
            name: self.name.duplicate(),
            requirement: self.requirement.duplicate(),
            builder: self.builder.duplicate(),
        }
    }
}

impl Clone for EnvVarSpec {
    fn clone(&self) -> (r: Self)
        ensures
            r.deep_view() == self.deep_view(),
    {
        self.duplicate()
    }
}

/// One option of a wrapper.
#[derive(Debug)]
pub struct WrapperBuilderEntry {
    pub requirement: Option<String>,
    pub value: String,
}

/// A [`WrapperBuilderEntry`] as contracts speak of it.
#[verifier::ext_equal]
pub struct WrapperBuilderEntryView {
    pub requirement: Option<Seq<char>>,
    pub value: Seq<char>,
}

impl DeepView for WrapperBuilderEntry {
    type V = WrapperBuilderEntryView;

    open spec fn deep_view(&self) -> WrapperBuilderEntryView {
        WrapperBuilderEntryView {
            requirement: self.requirement.deep_view(),
            value: self.value.deep_view(),
        }
    }
}

impl Duplicate for WrapperBuilderEntry {
    fn duplicate(&self) -> (r: Self) {
        WrapperBuilderEntry {
            requirement: self.requirement.duplicate(),
            value: self.value.duplicate(),
        }
    }
}

impl Clone for WrapperBuilderEntry {
    fn clone(&self) -> (r: Self)
        ensures
            r.deep_view() == self.deep_view(),
    {
        self.duplicate()
    }
}

/// A command that is put in front of the game command.
#[derive(Debug)]
pub struct WrapperSpec {
    /// For example `gamescope {OPTIONS} --`; `{OPTIONS}` is filled from `builder`.
    pub command_syntax: String,
    pub requirement: Option<String>,
    /// Lower stands further left in the wrapper chain.
    pub priority: i64,
    pub builder: Vec<WrapperBuilderEntry>,
}

/// A [`WrapperSpec`] as contracts speak of it.
#[verifier::ext_equal]
pub struct WrapperSpecView {
    pub command_syntax: Seq<char>,
    pub requirement: Option<Seq<char>>,
    pub priority: i64,
    pub builder: Seq<WrapperBuilderEntryView>,
}

impl DeepView for WrapperSpec {
    type V = WrapperSpecView;

    open spec fn deep_view(&self) -> WrapperSpecView {
        WrapperSpecView {
            command_syntax: self.command_syntax.deep_view(),
            requirement: self.requirement.deep_view(),
            priority: self.priority,
            builder: self.builder.deep_view(),
        }
    }
}

impl Duplicate for WrapperSpec {
    fn duplicate(&self) -> (r: Self) {
        WrapperSpec {
            command_syntax: self.command_syntax.duplicate(),
            requirement: self.requirement.duplicate(),
            priority: self.priority,
            builder: self.builder.duplicate(),
        }
    }
}

impl Clone for WrapperSpec {
    fn clone(&self) -> (r: Self)
        ensures
            r.deep_view() == self.deep_view(),
    {
        self.duplicate()
    }
}

/// An argument that is put behind the game command.
#[derive(Debug)]
pub struct ArgSpec {
    pub requirement: Option<String>,
    pub value: String,
}

/// An [`ArgSpec`] as contracts speak of it.
#[verifier::ext_equal]
pub struct ArgSpecView {
    pub requirement: Option<Seq<char>>,
    pub value: Seq<char>,
}

impl DeepView for ArgSpec {
    type V = ArgSpecView;

    open spec fn deep_view(&self) -> ArgSpecView {
        ArgSpecView {
            requirement: self.requirement.deep_view(),
            value: self.value.deep_view(),
        }
    }
}

impl Duplicate for ArgSpec {
    fn duplicate(&self) -> (r: Self) {
        ArgSpec {
            requirement: self.requirement.duplicate(),
            value: self.value.duplicate(),
        }
    }
}

impl Clone for ArgSpec {
    fn clone(&self) -> (r: Self)
        ensures
            r.deep_view() == self.deep_view(),
    {
        self.duplicate()
    }
}

/// A lifecycle hook: a bare script path, which runs blocking, or a detailed form
/// that can opt into running in the background.
#[derive(Debug)]
pub enum HookSpec {
    Simple(String),
    Detailed { script: String, background: bool },
}

/// A [`HookSpec`] as contracts speak of it.
#[verifier::ext_equal]
pub enum HookSpecView {
    Simple(Seq<char>),
    Detailed { script: Seq<char>, background: bool },
}

impl DeepView for HookSpec {
    type V = HookSpecView;

    open spec fn deep_view(&self) -> HookSpecView {
        match self {
            HookSpec::Simple(s) => HookSpecView::Simple(s@),
            HookSpec::Detailed { script, background } => HookSpecView::Detailed {
                script: script@,
                background: *background,
            },
        }
    }
}

impl Duplicate for HookSpec {
    fn duplicate(&self) -> (r: Self) {
        match self {
            HookSpec::Simple(s) => HookSpec::Simple(s.clone()),
            HookSpec::Detailed { script, background } => HookSpec::Detailed {
                script: script.clone(),
                background: *background,
            },
        }
    }
}

impl Clone for HookSpec {
    fn clone(&self) -> (r: Self)
        ensures
            r.deep_view() == self.deep_view(),
    {
        self.duplicate()
    }
}

impl HookSpecView {
    /// The script path, relative to the extension directory.
    pub open spec fn script(self) -> Seq<char> {
        match self {
            HookSpecView::Simple(s) => s,
            HookSpecView::Detailed { script, .. } => script,
        }
    }

    /// True where the hook is spawned and not waited on.
    pub open spec fn background(self) -> bool {
        match self {
            HookSpecView::Simple(_) => false,
            HookSpecView::Detailed { background, .. } => background,
        }
    }
}

impl HookSpec {
    /// The script path, relative to the extension directory.
    pub fn script(&self) -> (r: &str)
        ensures
            r@ == self.deep_view().script(),
    {
        match self {
            HookSpec::Simple(s) => s.as_str(),
            HookSpec::Detailed { script, .. } => script.as_str(),
        }
    }

    /// True where the hook is spawned and not waited on.
    pub fn background(&self) -> (r: bool)
        ensures
            r == self.deep_view().background(),
    {
        match self {
            HookSpec::Simple(_) => false,
            HookSpec::Detailed { background, .. } => *background,
        }
    }
}

/// The lifecycle hooks of an extension.
#[derive(Debug)]
pub struct Hooks {
    pub pre_launch: Option<HookSpec>,
    pub post_spawn: Option<HookSpec>,
    pub on_game_ready: Option<HookSpec>,
    pub post_exit: Option<HookSpec>,
}

/// A [`Hooks`] as contracts speak of it.
#[verifier::ext_equal]
pub struct HooksView {
    pub pre_launch: Option<HookSpecView>,
    pub post_spawn: Option<HookSpecView>,
    pub on_game_ready: Option<HookSpecView>,
    pub post_exit: Option<HookSpecView>,
}

impl DeepView for Hooks {
    type V = HooksView;

    open spec fn deep_view(&self) -> HooksView {
        HooksView {
            pre_launch: self.pre_launch.deep_view(),
            post_spawn: self.post_spawn.deep_view(),
            on_game_ready: self.on_game_ready.deep_view(),
            post_exit: self.post_exit.deep_view(),
        }
    }
}

impl Duplicate for Hooks {
    fn duplicate(&self) -> (r: Self) {
        Hooks {
            pre_launch: self.pre_launch.duplicate(),
            post_spawn: self.post_spawn.duplicate(),
            on_game_ready: self.on_game_ready.duplicate(),
            post_exit: self.post_exit.duplicate(),
        }
    }
}

impl Clone for Hooks {
    fn clone(&self) -> (r: Self)
        ensures
            r.deep_view() == self.deep_view(),
    {
        self.duplicate()
    }
}

/// A script whose output is put into a launch block.
#[derive(Debug)]
pub struct ScriptBuilder {
    /// `ENV_VARS`, `WRAPPERS`, `GAME_ENV_VARS` or `GAME_LAUNCH_ARGS`.
    pub block: String,
    pub script: String,
}

/// A [`ScriptBuilder`] as contracts speak of it.
#[verifier::ext_equal]
pub struct ScriptBuilderView {
    pub block: Seq<char>,
    pub script: Seq<char>,
}

impl DeepView for ScriptBuilder {
    type V = ScriptBuilderView;

    open spec fn deep_view(&self) -> ScriptBuilderView {
        ScriptBuilderView {
            block: self.block.deep_view(),
            script: self.script.deep_view(),
        }
    }
}

impl Duplicate for ScriptBuilder {
    fn duplicate(&self) -> (r: Self) {
        ScriptBuilder {
            block: self.block.duplicate(),
            script: self.script.duplicate(),
        }
    }
}

impl Clone for ScriptBuilder {
    fn clone(&self) -> (r: Self)
        ensures
            r.deep_view() == self.deep_view(),
    {
        self.duplicate()
    }
}

/// Who an extension is.
#[derive(Debug)]
pub struct ExtensionMeta {
    pub name: String,
    pub author: String,
    pub version: String,
    pub description: Option<String>,
    /// `Author::Name` of the module this one was forked from. Cosmetic.
    pub forked_from: Option<String>,
}

/// An [`ExtensionMeta`] as contracts speak of it.
#[verifier::ext_equal]
pub struct ExtensionMetaView {
    pub name: Seq<char>,
    pub author: Seq<char>,
    pub version: Seq<char>,
    pub description: Option<Seq<char>>,
    pub forked_from: Option<Seq<char>>,
}

impl DeepView for ExtensionMeta {
    type V = ExtensionMetaView;

    open spec fn deep_view(&self) -> ExtensionMetaView {
        ExtensionMetaView {
            name: self.name.deep_view(),
            author: self.author.deep_view(),
            version: self.version.deep_view(),
            description: self.description.deep_view(),
            forked_from: self.forked_from.deep_view(),
        }
    }
}

impl Duplicate for ExtensionMeta {
    fn duplicate(&self) -> (r: Self) {
        ExtensionMeta {
            name: self.name.duplicate(),
            author: self.author.duplicate(),
            version: self.version.duplicate(),
            description: self.description.duplicate(),
            forked_from: self.forked_from.duplicate(),
        }
    }
}

impl Clone for ExtensionMeta {
    fn clone(&self) -> (r: Self)
        ensures
            r.deep_view() == self.deep_view(),
    {
        self.duplicate()
    }
}

/// A complete extension definition (one manifest).
#[derive(Debug)]
pub struct Extension {
    pub meta: ExtensionMeta,
    /// The Steam AppIds this extension is restricted to; absent is global.
    pub app_ids: Option<Vec<String>>,
    /// The built-in runtime backend, for example `lsfg-vk`.
    pub backend: Option<String>,
    /// The only desktop on which this extension is loaded.
    pub requires_desktop: Option<String>,
    /// UI sections in declared order; each is a list of fields.
    pub ui: OrderedMap<Vec<UiField>>,
    pub env_vars: Vec<EnvVarSpec>,
    pub wrappers: Vec<WrapperSpec>,
    pub game_env_vars: Vec<EnvVarSpec>,
    pub game_launch_args: Vec<ArgSpec>,
    pub hooks: Option<Hooks>,
    pub script_builders: Vec<ScriptBuilder>,
}

/// An [`Extension`] as contracts speak of it.
#[verifier::ext_equal]
pub struct ExtensionView {
    pub meta: ExtensionMetaView,
    pub app_ids: Option<Seq<Seq<char>>>,
    pub backend: Option<Seq<char>>,
    pub requires_desktop: Option<Seq<char>>,
    pub ui: Entries<Seq<UiFieldView>>,
    pub env_vars: Seq<EnvVarSpecView>,
    pub wrappers: Seq<WrapperSpecView>,
    pub game_env_vars: Seq<EnvVarSpecView>,
    pub game_launch_args: Seq<ArgSpecView>,
    pub hooks: Option<HooksView>,
    pub script_builders: Seq<ScriptBuilderView>,
}

impl DeepView for Extension {
    type V = ExtensionView;

    open spec fn deep_view(&self) -> ExtensionView {
        ExtensionView {
            meta: self.meta.deep_view(),
            app_ids: self.app_ids.deep_view(),
            backend: self.backend.deep_view(),
            requires_desktop: self.requires_desktop.deep_view(),
            ui: self.ui.deep_view(),
            env_vars: self.env_vars.deep_view(),
            wrappers: self.wrappers.deep_view(),
            game_env_vars: self.game_env_vars.deep_view(),
            game_launch_args: self.game_launch_args.deep_view(),
            hooks: self.hooks.deep_view(),
            script_builders: self.script_builders.deep_view(),
        }
    }
}

impl Duplicate for Extension {
    fn duplicate(&self) -> (r: Self) {
        Extension {
            meta: self.meta.duplicate(),
            app_ids: self.app_ids.duplicate(),
            backend: self.backend.duplicate(),
            requires_desktop: self.requires_desktop.duplicate(),
            ui: self.ui.duplicate(),
            env_vars: self.env_vars.duplicate(),
            wrappers: self.wrappers.duplicate(),
            game_env_vars: self.game_env_vars.duplicate(),
            game_launch_args: self.game_launch_args.duplicate(),
            hooks: self.hooks.duplicate(),
            script_builders: self.script_builders.duplicate(),
        }
    }
}

impl Clone for Extension {
    fn clone(&self) -> (r: Self)
        ensures
            r.deep_view() == self.deep_view(),
    {
        self.duplicate()
    }
}

// ---- Extensions ------------------------------------------------------------

/// `<Author>::<Name>::<Version>`.
pub open spec fn id_of(meta: ExtensionMetaView) -> Seq<char> {
    meta.author + "::"@ + meta.name + "::"@ + meta.version
}

/// An extension without AppIds applies everywhere, any other to those it lists.
pub open spec fn applicable(app_ids: Option<Seq<Seq<char>>>, appid: Seq<char>) -> bool {
    match app_ids {
        None => true,
        Some(ids) => ids.contains(appid),
    }
}

/// The fields of all sections, in order.
pub open spec fn fields_of(ui: Entries<Seq<UiFieldView>>) -> Seq<UiFieldView>
    decreases ui.len(),
{
    if ui.len() == 0 {
        seq![]
    } else {
        fields_of(ui.drop_last()) + ui.last().1
    }
}

impl Extension {
    /// Stable identity used for variable scoping: `<Author>::<Name>::<Version>`.
    pub fn id(&self) -> (r: String)
        ensures
            r@ == id_of(self.deep_view().meta),
    {
        let mut r = self.meta.author.clone();
        r.append("::");
        r.append(self.meta.name.as_str());
        r.append("::");
        r.append(self.meta.version.as_str());
        r
    }

    /// True where this extension applies to the given appid (global extensions
    /// apply to all).
    pub fn applies_to(&self, appid: &str) -> (b: bool)
        ensures
            b == applicable(self.deep_view().app_ids, appid@),
    {
        match &self.app_ids {
            None => true,
            Some(ids) => contains_text(ids, appid),
        }
    }

    /// All UI fields across all sections, in order.
    pub fn fields(&self) -> (r: Vec<&UiField>)
        ensures
            r.deep_view() == fields_of(self.deep_view().ui),
    {
        let mut out: Vec<&UiField> = Vec::new();
        let n: usize = self.ui.len();
        let mut i: usize = 0;
        let ghost ui = self.ui.deep_view();
        assert(out.deep_view() =~= fields_of(ui.take(0)));
        while i < n
            invariant
                ui == self.ui.deep_view(),
                i <= n == ui.len(),
                out.deep_view() == fields_of(ui.take(i as int)),
            decreases n - i,
        {
            let fields = self.ui.value_at(i);
            let ghost before = out.deep_view();
            let mut j: usize = 0;
            assert(out.deep_view() =~= before + fields.deep_view().take(0));
            while j < fields.len()
                invariant
                    j <= fields@.len(),
                    out.deep_view() == before + fields.deep_view().take(j as int),
                decreases fields@.len() - j,
            {
                let ghost cur = out.deep_view();
                out.push(&fields[j]);
                assert(out.deep_view() =~= cur.push(fields@[j as int].deep_view()));
                j += 1;
                assert(out.deep_view() =~= before + fields.deep_view().take(j as int));
            }
            assert(fields.deep_view().take(fields@.len() as int) =~= fields.deep_view());
            assert(ui.take(i + 1).drop_last() =~= ui.take(i as int));
            i += 1;
        }
        assert(ui.take(n as int) =~= ui);
        out
    }
}

/// True where the variable is published to the global build-phase scope.
pub open spec fn is_global_name(variable: Seq<char>) -> bool {
    begins(variable, "global:"@)
}

impl UiField {
    /// True where this variable is published to the global build-phase scope.
    pub fn is_global(&self) -> (b: bool)
        ensures
            b == is_global_name(self.deep_view().variable),
    {
        starts_with(self.variable.as_str(), "global:")
    }
}

// ---- Renaming variables ----------------------------------------------------

/// The words of conditions that are no variables.
pub open spec fn is_keyword(word: Seq<char>) -> bool {
    word == "AND"@ || word == "OR"@ || word == "NOT"@
}

/// A word of a condition renamed: a variable gets its new name, a keyword stays.
pub open spec fn word_renamed(word: Seq<char>, renames: Entries<Seq<char>>) -> Seq<char> {
    if is_keyword(word) {
        word
    } else {
        renamed(word, renames)
    }
}

/// A condition text with variables renamed: each maximal run of name characters
/// that is a key, and no keyword, becomes its new name, and everything else stays.
pub open spec fn names_renamed(s: Seq<char>, renames: Entries<Seq<char>>) -> Seq<char>
    decreases s.len(),
{
    if s.len() == 0 {
        seq![]
    } else if is_name_char(s[0]) {
        proof {
            lemma_name_end(s, 0);
        }
        word_renamed(s.take(name_end(s, 0)), renames) + names_renamed(
            s.skip(name_end(s, 0)),
            renames,
        )
    } else {
        seq![s[0]] + names_renamed(s.skip(1), renames)
    }
}

/// An optional condition with variables renamed.
pub open spec fn requirement_renamed(
    r: Option<Seq<char>>,
    renames: Entries<Seq<char>>,
) -> Option<Seq<char>> {
    match r {
        Some(s) => Some(names_renamed(s, renames)),
        None => None,
    }
}

/// An optional template with variables renamed.
pub open spec fn value_renamed(
    v: Option<Seq<char>>,
    renames: Entries<Seq<char>>,
) -> Option<Seq<char>> {
    match v {
        Some(s) => Some(template_renamed(s, renames)),
        None => None,
    }
}

/// A field with variables renamed.
pub open spec fn field_renamed(f: UiFieldView, renames: Entries<Seq<char>>) -> UiFieldView {
    UiFieldView {
        variable: renamed(f.variable, renames),
        requirement: requirement_renamed(f.requirement, renames),
        ..f
    }
}

/// UI sections with variables renamed.
pub open spec fn ui_renamed(
    ui: Entries<Seq<UiFieldView>>,
    renames: Entries<Seq<char>>,
) -> Entries<Seq<UiFieldView>> {
    ui.map_values(
        |e: (Seq<char>, Seq<UiFieldView>)|
            (e.0, e.1.map_values(|f: UiFieldView| field_renamed(f, renames))),
    )
}

/// A step of an environment variable with variables renamed.
pub open spec fn entry_renamed(
    e: EnvBuilderEntryView,
    renames: Entries<Seq<char>>,
) -> EnvBuilderEntryView {
    EnvBuilderEntryView {
        requirement: requirement_renamed(e.requirement, renames),
        value: value_renamed(e.value, renames),
        ..e
    }
}

/// An environment variable with variables renamed.
pub open spec fn env_renamed(e: EnvVarSpecView, renames: Entries<Seq<char>>) -> EnvVarSpecView {
    EnvVarSpecView {
        name: template_renamed(e.name, renames),
        requirement: requirement_renamed(e.requirement, renames),
        builder: e.builder.map_values(|b: EnvBuilderEntryView| entry_renamed(b, renames)),
    }
}

/// An option of a wrapper with variables renamed.
pub open spec fn option_renamed(
    e: WrapperBuilderEntryView,
    renames: Entries<Seq<char>>,
) -> WrapperBuilderEntryView {
    WrapperBuilderEntryView {
        requirement: requirement_renamed(e.requirement, renames),
        value: template_renamed(e.value, renames),
    }
}

/// A wrapper with variables renamed.
pub open spec fn wrapper_renamed(
    w: WrapperSpecView,
    renames: Entries<Seq<char>>,
) -> WrapperSpecView {
    WrapperSpecView {
        command_syntax: template_renamed(w.command_syntax, renames),
        requirement: requirement_renamed(w.requirement, renames),
        priority: w.priority,
        builder: w.builder.map_values(|b: WrapperBuilderEntryView| option_renamed(b, renames)),
    }
}

/// An argument with variables renamed.
pub open spec fn arg_renamed(a: ArgSpecView, renames: Entries<Seq<char>>) -> ArgSpecView {
    ArgSpecView {
        requirement: requirement_renamed(a.requirement, renames),
        value: template_renamed(a.value, renames),
    }
}

/// An extension with every reference to a renamed variable rewritten; identity,
/// hooks and script builders stay.
pub open spec fn extension_renamed(
    e: ExtensionView,
    renames: Entries<Seq<char>>,
) -> ExtensionView {
    ExtensionView {
        ui: ui_renamed(e.ui, renames),
        env_vars: e.env_vars.map_values(|x: EnvVarSpecView| env_renamed(x, renames)),
        game_env_vars: e.game_env_vars.map_values(|x: EnvVarSpecView| env_renamed(x, renames)),
        wrappers: e.wrappers.map_values(|x: WrapperSpecView| wrapper_renamed(x, renames)),
        game_launch_args: e.game_launch_args.map_values(|x: ArgSpecView| arg_renamed(x, renames)),
        ..e
    }
}

/// Rewrites every in-module reference to a renamed variable, in place. For each
/// `(old, new)` in `renames`:
///
/// - each field's own variable equal to `old` becomes `new`;
/// - every `{old}` in a template (env-var names, builder values, wrapper syntax,
///   arg values) becomes `{new}`, and `{{`/`}}` escapes stay;
/// - every `old` identifier in a condition becomes `new`.
///
/// Matching is exact: a variable that merely contains the old name, such as
/// `old_thing` or a `global:old` reference, is left untouched.
pub fn apply_var_renames(ext: &mut Extension, renames: &OrderedMap<String>)
    ensures
        final(ext).deep_view() == extension_renamed(old(ext).deep_view(), renames.deep_view()),
{
    if renames.is_empty() {
        proof {
            law_no_renames(ext.deep_view(), renames.deep_view());
        }
        return;
    }
    let ghost before = ext.deep_view();
    let ui = rewrite_ui(&ext.ui, renames);
    ext.ui = ui;
    let env_vars = rewrite_envs(&ext.env_vars, renames);
    ext.env_vars = env_vars;
    let game_env_vars = rewrite_envs(&ext.game_env_vars, renames);
    ext.game_env_vars = game_env_vars;
    let wrappers = rewrite_wrappers(&ext.wrappers, renames);
    ext.wrappers = wrappers;
    let args = rewrite_args(&ext.game_launch_args, renames);
    ext.game_launch_args = args;
}

fn new_name(name: &String, renames: &OrderedMap<String>) -> (r: String)
    ensures
        r@ == renamed(name@, renames.deep_view()),
{
    match renames.get(name.as_str()) {
        Some(new) => new.clone(),
        None => name.clone(),
    }
}

fn rewrite_ui(ui: &OrderedMap<Vec<UiField>>, renames: &OrderedMap<String>) -> (r: OrderedMap<
    Vec<UiField>,
>)
    ensures
        r.deep_view() == ui_renamed(ui.deep_view(), renames.deep_view()),
{
    let mut out: OrderedMap<Vec<UiField>> = OrderedMap::new();
    let n: usize = ui.len();
    let mut i: usize = 0;
    let ghost d = ui.deep_view();
    let ghost all = ui_renamed(d, renames.deep_view());
    while i < n
        invariant
            d == ui.deep_view(),
            all == ui_renamed(d, renames.deep_view()),
            i <= n == d.len(),
            crate::ordered::distinct(d),
            out.deep_view() == all.take(i as int),
        decreases n - i,
    {
        let fields = rewrite_fields(ui.value_at(i), renames);
        proof {
            assert forall|j: int| 0 <= j < i implies (#[trigger] all.take(i as int)[j]).0
                != d[i as int].0 by {
                assert(d[j].0 != d[i as int].0);
            }
        }
        out.insert(ui.key_at(i).clone(), fields);
        assert(all.take(i + 1) =~= all.take(i as int).push(all[i as int]));
        i += 1;
    }
    assert(all.take(n as int) =~= all);
    out
}

fn rewrite_fields(fields: &Vec<UiField>, renames: &OrderedMap<String>) -> (r: Vec<UiField>)
    ensures
        r.deep_view() == fields.deep_view().map_values(
            |f: UiFieldView| field_renamed(f, renames.deep_view()),
        ),
{
    let mut out: Vec<UiField> = Vec::new();
    let mut i: usize = 0;
    while i < fields.len()
        invariant
            i <= fields@.len(),
            out@.len() == i,
            forall|j: int|
                0 <= j < i ==> (#[trigger] out@[j]).deep_view() == field_renamed(
                    fields@[j].deep_view(),
                    renames.deep_view(),
                ),
        decreases fields@.len() - i,
    {
        let mut f = fields[i].clone();
        f.variable = new_name(&f.variable, renames);
        let mut requirement = f.requirement.duplicate();
        rewrite_requires(&mut requirement, renames);
        f.requirement = requirement;
        out.push(f);
        i += 1;
    }
    assert(out.deep_view() =~= fields.deep_view().map_values(
        |f: UiFieldView| field_renamed(f, renames.deep_view()),
    ));
    out
}

fn rewrite_envs(specs: &Vec<EnvVarSpec>, renames: &OrderedMap<String>) -> (r: Vec<EnvVarSpec>)
    ensures
        r.deep_view() == specs.deep_view().map_values(
            |x: EnvVarSpecView| env_renamed(x, renames.deep_view()),
        ),
{
    let mut out: Vec<EnvVarSpec> = Vec::new();
    let mut i: usize = 0;
    while i < specs.len()
        invariant
            i <= specs@.len(),
            out@.len() == i,
            forall|j: int|
                0 <= j < i ==> (#[trigger] out@[j]).deep_view() == env_renamed(
                    specs@[j].deep_view(),
                    renames.deep_view(),
                ),
        decreases specs@.len() - i,
    {
        let mut name = specs[i].name.clone();
        rewrite_template(&mut name, renames);
        let mut requirement = specs[i].requirement.duplicate();
        rewrite_requires(&mut requirement, renames);
        let builder = rewrite_entries(&specs[i].builder, renames);
        out.push(EnvVarSpec { name, requirement, builder });
        i += 1;
    }
    assert(out.deep_view() =~= specs.deep_view().map_values(
        |x: EnvVarSpecView| env_renamed(x, renames.deep_view()),
    ));
    out
}

fn rewrite_entries(entries: &Vec<EnvBuilderEntry>, renames: &OrderedMap<String>) -> (r: Vec<
    EnvBuilderEntry,
>)
    ensures
        r.deep_view() == entries.deep_view().map_values(
            |x: EnvBuilderEntryView| entry_renamed(x, renames.deep_view()),
        ),
{
    let mut out: Vec<EnvBuilderEntry> = Vec::new();
    let mut i: usize = 0;
    while i < entries.len()
        invariant
            i <= entries@.len(),
            out@.len() == i,
            forall|j: int|
                0 <= j < i ==> (#[trigger] out@[j]).deep_view() == entry_renamed(
                    entries@[j].deep_view(),
                    renames.deep_view(),
                ),
        decreases entries@.len() - i,
    {
        let mut e = entries[i].clone();
        let mut requirement = e.requirement.duplicate();
        rewrite_requires(&mut requirement, renames);
        e.requirement = requirement;
        let value = match &e.value {
            Some(v) => {
                let mut v = v.clone();
                rewrite_template(&mut v, renames);
                Some(v)
            },
            None => None,
        };
        e.value = value;
        out.push(e);
        i += 1;
    }
    assert(out.deep_view() =~= entries.deep_view().map_values(
        |x: EnvBuilderEntryView| entry_renamed(x, renames.deep_view()),
    ));
    out
}

fn rewrite_wrappers(wrappers: &Vec<WrapperSpec>, renames: &OrderedMap<String>) -> (r: Vec<
    WrapperSpec,
>)
    ensures
        r.deep_view() == wrappers.deep_view().map_values(
            |x: WrapperSpecView| wrapper_renamed(x, renames.deep_view()),
        ),
{
    let mut out: Vec<WrapperSpec> = Vec::new();
    let mut i: usize = 0;
    while i < wrappers.len()
        invariant
            i <= wrappers@.len(),
            out@.len() == i,
            forall|j: int|
                0 <= j < i ==> (#[trigger] out@[j]).deep_view() == wrapper_renamed(
                    wrappers@[j].deep_view(),
                    renames.deep_view(),
                ),
        decreases wrappers@.len() - i,
    {
        let mut command_syntax = wrappers[i].command_syntax.clone();
        rewrite_template(&mut command_syntax, renames);
        let mut requirement = wrappers[i].requirement.duplicate();
        rewrite_requires(&mut requirement, renames);
        let builder = rewrite_options(&wrappers[i].builder, renames);
        let priority = wrappers[i].priority;
        out.push(WrapperSpec { command_syntax, requirement, priority, builder });
        i += 1;
    }
    assert(out.deep_view() =~= wrappers.deep_view().map_values(
        |x: WrapperSpecView| wrapper_renamed(x, renames.deep_view()),
    ));
    out
}

fn rewrite_options(entries: &Vec<WrapperBuilderEntry>, renames: &OrderedMap<String>) -> (r: Vec<
    WrapperBuilderEntry,
>)
    ensures
        r.deep_view() == entries.deep_view().map_values(
            |x: WrapperBuilderEntryView| option_renamed(x, renames.deep_view()),
        ),
{
    let mut out: Vec<WrapperBuilderEntry> = Vec::new();
    let mut i: usize = 0;
    while i < entries.len()
        invariant
            i <= entries@.len(),
            out@.len() == i,
            forall|j: int|
                0 <= j < i ==> (#[trigger] out@[j]).deep_view() == option_renamed(
                    entries@[j].deep_view(),
                    renames.deep_view(),
                ),
        decreases entries@.len() - i,
    {
        let mut requirement = entries[i].requirement.duplicate();
        rewrite_requires(&mut requirement, renames);
        let mut value = entries[i].value.clone();
        rewrite_template(&mut value, renames);
        out.push(WrapperBuilderEntry { requirement, value });
        i += 1;
    }
    assert(out.deep_view() =~= entries.deep_view().map_values(
        |x: WrapperBuilderEntryView| option_renamed(x, renames.deep_view()),
    ));
    out
}

fn rewrite_args(args: &Vec<ArgSpec>, renames: &OrderedMap<String>) -> (r: Vec<ArgSpec>)
    ensures
        r.deep_view() == args.deep_view().map_values(
            |x: ArgSpecView| arg_renamed(x, renames.deep_view()),
        ),
{
    let mut out: Vec<ArgSpec> = Vec::new();
    let mut i: usize = 0;
    while i < args.len()
        invariant
            i <= args@.len(),
            out@.len() == i,
            forall|j: int|
                0 <= j < i ==> (#[trigger] out@[j]).deep_view() == arg_renamed(
                    args@[j].deep_view(),
                    renames.deep_view(),
                ),
        decreases args@.len() - i,
    {
        let mut requirement = args[i].requirement.duplicate();
        rewrite_requires(&mut requirement, renames);
        let mut value = args[i].value.clone();
        rewrite_template(&mut value, renames);
        out.push(ArgSpec { requirement, value });
        i += 1;
    }
    assert(out.deep_view() =~= args.deep_view().map_values(
        |x: ArgSpecView| arg_renamed(x, renames.deep_view()),
    ));
    out
}

fn rewrite_requires(r: &mut Option<String>, renames: &OrderedMap<String>)
    ensures
        final(r).deep_view() == requirement_renamed(old(r).deep_view(), renames.deep_view()),
{
    let rewritten = match &*r {
        Some(s) => Some(rewrite_identifiers(s.as_str(), renames)),
        None => None,
    };
    *r = rewritten;
}

fn keyword(word: &str) -> (b: bool)
    ensures
        b == is_keyword(word@),
{
    same_text(word, "AND") || same_text(word, "OR") || same_text(word, "NOT")
}

/// Replaces each maximal identifier run that is a key with its new name, and
/// leaves every other character (and `AND`, `OR`, `NOT`) verbatim.
pub fn rewrite_identifiers(s: &str, renames: &OrderedMap<String>) -> (r: String)
    ensures
        r@ == names_renamed(s@, renames.deep_view()),
{
    let chars = chars_of(s);
    let n: usize = chars.len();
    let mut out = String::new();
    let mut i: usize = 0;
    let ghost d = renames.deep_view();
    assert(s@.skip(0) =~= s@);
    assert(out@ + names_renamed(s@, d) =~= names_renamed(s@, d));
    while i < n
        invariant
            d == renames.deep_view(),
            chars@ == s@,
            i <= n == s@.len(),
            out@ + names_renamed(s@.skip(i as int), d) == names_renamed(s@, d),
        decreases n - i,
    {
        let ghost rest = s@.skip(i as int);
        let ghost before = out@;
        if is_ident_char(chars[i]) {
            let end = run_end(&chars, i);
            let word = text_of(&chars, i, end);
            proof {
                lemma_name_end_skip(s@, i as int, 0);
                assert(word@ =~= rest.take(end - i));
                assert(rest.skip(end - i) =~= s@.skip(end as int));
            }
            if keyword(word.as_str()) {
                out.append(word.as_str());
            } else {
                match renames.get(word.as_str()) {
                    Some(new) => out.append(new.as_str()),
                    None => out.append(word.as_str()),
                }
            }
            i = end;
        } else {
            out.push(chars[i]);
            assert(rest.skip(1) =~= s@.skip(i + 1));
            i += 1;
        }
        assert(out@ + names_renamed(s@.skip(i as int), d) =~= before + names_renamed(rest, d));
    }
    assert(out@ + names_renamed(s@.skip(n as int), d) =~= out@);
    out
}

/// Rewrites `{old}` to `{new}` in a template. Escapes and an unterminated `{`
/// pass through, and a slot whose trimmed contents are no key is kept as it is.
pub fn rewrite_template(s: &mut String, renames: &OrderedMap<String>)
    ensures
        final(s)@ == template_renamed(old(s)@, renames.deep_view()),
{
    let chars = chars_of(s.as_str());
    let n: usize = chars.len();
    let mut out = String::new();
    let mut i: usize = 0;
    let ghost t = s@;
    let ghost d = renames.deep_view();
    assert(t.skip(0) =~= t);
    assert(out@ + template_renamed(t, d) =~= template_renamed(t, d));
    while i < n
        invariant
            d == renames.deep_view(),
            chars@ == t,
            i <= n == t.len(),
            out@ + template_renamed(t.skip(i as int), d) == template_renamed(t, d),
        decreases n - i,
    {
        let ghost rest = t.skip(i as int);
        let ghost before = out@;
        let (piece, next) = read_piece(&chars, i);
        match &piece {
            Piece::Char(c) => {
                out.push(*c);
            },
            Piece::Open => {
                out.push('{');
                out.push('{');
            },
            Piece::Close => {
                out.push('}');
                out.push('}');
            },
            Piece::Slot(inner) => {
                out.push('{');
                match renames.get(trim(inner.as_str()).as_str()) {
                    Some(new) => out.append(new.as_str()),
                    None => out.append(inner.as_str()),
                }
                out.push('}');
            },
        }
        proof {
            lemma_renamed_step(rest, d);
            assert(rest.skip(next - i) =~= t.skip(next as int));
            assert(out@ =~= before + piece_text(piece_renamed(piece.deep_view(), d)));
            assert(out@ + template_renamed(t.skip(next as int), d) =~= before + template_renamed(
                rest,
                d,
            ));
        }
        i = next;
    }
    assert(out@ + template_renamed(t.skip(n as int), d) =~= out@);
    *s = out;
}

// ---- Laws ------------------------------------------------------------------

proof fn lemma_names_kept(s: Seq<char>, renames: Entries<Seq<char>>)
    requires
        renames.len() == 0,
    ensures
        names_renamed(s, renames) == s,
    decreases s.len(),
{
    if s.len() > 0 {
        lemma_name_end(s, 0);
        if is_name_char(s[0]) {
            let e = name_end(s, 0);
            lemma_names_kept(s.skip(e), renames);
            assert(s.take(e) + s.skip(e) =~= s);
        } else {
            lemma_names_kept(s.skip(1), renames);
            assert(seq![s[0]] + s.skip(1) =~= s);
        }
    }
}

proof fn lemma_parts_kept(renames: Entries<Seq<char>>)
    requires
        renames.len() == 0,
    ensures
        forall|r: Option<Seq<char>>| #[trigger] requirement_renamed(r, renames) == r,
        forall|t: Seq<char>| #[trigger] template_renamed(t, renames) == t,
        forall|v: Option<Seq<char>>| #[trigger] value_renamed(v, renames) == v,
{
    assert forall|r: Option<Seq<char>>| #[trigger] requirement_renamed(r, renames) == r by {
        if let Some(s) = r {
            lemma_names_kept(s, renames);
        }
    }
    assert forall|t: Seq<char>| #[trigger] template_renamed(t, renames) == t by {
        assert(renames =~= Seq::empty());
        law_no_renames_no_change(t);
    }
}

/// Without renames an extension stays as it is.
pub proof fn law_no_renames(e: ExtensionView, renames: Entries<Seq<char>>)
    requires
        renames.len() == 0,
    ensures
        extension_renamed(e, renames) == e,
{
    lemma_parts_kept(renames);
    let r = extension_renamed(e, renames);
    assert forall|i: int| 0 <= i < e.ui.len() implies r.ui[i] == e.ui[i] by {
        assert(r.ui[i].1 =~= e.ui[i].1);
    }
    assert(r.ui =~= e.ui);
    assert forall|x: EnvVarSpecView| #[trigger] env_renamed(x, renames) == x by {
        assert(env_renamed(x, renames).builder =~= x.builder);
    }
    assert(r.env_vars =~= e.env_vars);
    assert(r.game_env_vars =~= e.game_env_vars);
    assert forall|x: WrapperSpecView| #[trigger] wrapper_renamed(x, renames) == x by {
        assert(wrapper_renamed(x, renames).builder =~= x.builder);
    }
    assert(r.wrappers =~= e.wrappers);
    assert(r.game_launch_args =~= e.game_launch_args);
}

/// A name that conditions can hold: not empty, name characters alone, and no
/// keyword.
pub open spec fn is_variable(name: Seq<char>) -> bool {
    &&& name.len() > 0
    &&& forall|i: int| 0 <= i < name.len() ==> is_name_char(#[trigger] name[i])
    &&& word_token(name) is Ident
}

/// Every new name can stand in a condition.
pub open spec fn variables_only(renames: Entries<Seq<char>>) -> bool {
    forall|i: int| 0 <= i < renames.len() ==> is_variable((#[trigger] renames[i]).1)
}

/// A condition with variables renamed.
pub open spec fn expr_renamed(e: ExprView, renames: Entries<Seq<char>>) -> ExprView
    decreases e,
{
    match e {
        ExprView::Var(name) => ExprView::Var(renamed(name, renames)),
        ExprView::Not(inner) => ExprView::Not(Box::new(expr_renamed(*inner, renames))),
        ExprView::And(a, b) => ExprView::And(
            Box::new(expr_renamed(*a, renames)),
            Box::new(expr_renamed(*b, renames)),
        ),
        ExprView::Or(a, b) => ExprView::Or(
            Box::new(expr_renamed(*a, renames)),
            Box::new(expr_renamed(*b, renames)),
        ),
    }
}

/// A token with its variable renamed.
pub open spec fn token_renamed(t: TokView, renames: Entries<Seq<char>>) -> TokView {
    match t {
        TokView::Ident(name) => TokView::Ident(renamed(name, renames)),
        _ => t,
    }
}

spec fn tokens_renamed(t: Seq<TokView>, renames: Entries<Seq<char>>) -> Seq<TokView> {
    t.map_values(|x: TokView| token_renamed(x, renames))
}

proof fn lemma_word_renamed(word: Seq<char>, renames: Entries<Seq<char>>)
    requires
        variables_only(renames),
    ensures
        word_token(word_renamed(word, renames)) == token_renamed(word_token(word), renames),
        word_renamed(word, renames) == word || is_variable(word_renamed(word, renames)),
{
    if has_key(renames, word) {
        let i = key_index(renames, word);
        assert(0 <= i < renames.len() && renames[i].0 == word);
        assert(is_variable(renames[i].1));
    }
}

proof fn lemma_name_end_whole(w: Seq<char>, rest: Seq<char>, at: int)
    requires
        0 <= at <= w.len(),
        forall|i: int| 0 <= i < w.len() ==> is_name_char(#[trigger] w[i]),
        rest.len() > 0 ==> !is_name_char(rest[0]),
    ensures
        name_end(w + rest, at) == w.len(),
    decreases w.len() - at,
{
    let s = w + rest;
    if at < w.len() {
        assert(s[at] == w[at]);
        lemma_name_end_whole(w, rest, at + 1);
    } else if rest.len() > 0 {
        assert(s[at] == rest[0]);
    }
}

proof fn lemma_tokens_skip(s: Seq<char>, from: int, k: int)
    requires
        0 <= from <= s.len(),
        0 <= k <= s.len() - from,
    ensures
        tokens_from(s.skip(from), k) == tokens_from(s, from + k),
    decreases s.len() - from - k,
{
    let r = s.skip(from);
    if k < r.len() {
        assert(r[k] == s[from + k]);
        lemma_name_end(r, k);
        lemma_name_end_skip(s, from, k);
        if is_white(r[k]) || r[k] == '!' {
            lemma_tokens_skip(s, from, k + 1);
        } else if is_name_char(r[k]) {
            lemma_tokens_skip(s, from, name_end(r, k));
            assert(r.subrange(k, name_end(r, k)) =~= s.subrange(from + k, name_end(s, from + k)));
        }
    }
}

proof fn lemma_first_not_name(s: Seq<char>, renames: Entries<Seq<char>>)
    requires
        s.len() == 0 || !is_name_char(s[0]),
    ensures
        s.len() == 0 ==> names_renamed(s, renames).len() == 0,
        s.len() > 0 ==> names_renamed(s, renames).len() > 0 && names_renamed(s, renames)[0] == s[0],
{
}

proof fn lemma_tokens_renamed(s: Seq<char>, renames: Entries<Seq<char>>)
    requires
        variables_only(renames),
        tokens(s) is Ok,
    ensures
        tokens(names_renamed(s, renames)) == Ok::<Seq<TokView>, char>(
            tokens_renamed(tokens(s)->Ok_0, renames),
        ),
    decreases s.len(),
{
    let t = names_renamed(s, renames);
    let toks = tokens(s)->Ok_0;
    if s.len() == 0 {
        assert(tokens_renamed(toks, renames) =~= seq![]);
    } else if is_name_char(s[0]) {
        lemma_name_end(s, 0);
        let e = name_end(s, 0);
        let word = s.take(e);
        let rest = s.skip(e);
        assert(word =~= s.subrange(0, e));
        lemma_tokens_skip(s, e, 0);
        assert(!is_white(s[0]) && s[0] != '!');
        assert(tokens(s) == with_token(word_token(word), tokens(rest)));
        lemma_tokens_renamed(rest, renames);
        lemma_word_renamed(word, renames);
        let w = word_renamed(word, renames);
        let r = names_renamed(rest, renames);
        assert(t == w + r);
        assert(w.len() > 0 && forall|i: int| 0 <= i < w.len() ==> is_name_char(#[trigger] w[i])) by {
            assert(forall|i: int| 0 <= i < word.len() ==> is_name_char(#[trigger] word[i]));
        }
        if rest.len() > 0 {
            assert(rest[0] == s[e]);
        }
        lemma_first_not_name(rest, renames);
        lemma_name_end_whole(w, r, 0);
        assert(t[0] == w[0]);
        assert(t.subrange(0, w.len() as int) =~= w);
        assert(t.skip(w.len() as int) =~= r);
        lemma_tokens_skip(t, w.len() as int, 0);
        assert(tokens_renamed(toks, renames) =~= seq![token_renamed(word_token(word), renames)]
            + tokens_renamed(tokens(rest)->Ok_0, renames));
    } else {
        let rest = s.skip(1);
        let r = names_renamed(rest, renames);
        lemma_tokens_skip(s, 1, 0);
        lemma_tokens_renamed(rest, renames);
        assert(t[0] == s[0]);
        assert(t.skip(1) =~= r);
        lemma_tokens_skip(t, 1, 0);
        if s[0] == '!' {
            assert(tokens_renamed(toks, renames) =~= seq![TokView::Not] + tokens_renamed(
                tokens(rest)->Ok_0,
                renames,
            ));
        }
    }
}

proof fn lemma_expr_renamed(e: ExprView, renames: Entries<Seq<char>>)
    ensures
        spelled(expr_renamed(e, renames)) == tokens_renamed(spelled(e), renames),
        is_atom(expr_renamed(e, renames)) == is_atom(e),
        is_and(expr_renamed(e, renames)) == is_and(e),
        is_or(expr_renamed(e, renames)) == is_or(e),
    decreases e,
{
    match e {
        ExprView::Var(_) => {},
        ExprView::Not(inner) => lemma_expr_renamed(*inner, renames),
        ExprView::And(a, b) => {
            lemma_expr_renamed(*a, renames);
            lemma_expr_renamed(*b, renames);
        },
        ExprView::Or(a, b) => {
            lemma_expr_renamed(*a, renames);
            lemma_expr_renamed(*b, renames);
        },
    }
    assert(spelled(expr_renamed(e, renames)) =~= tokens_renamed(spelled(e), renames));
}

/// Renaming in the text of a condition renames in the condition: where a text
/// can be read, the rewritten one is read as the same condition over the new
/// names.
pub proof fn law_renamed_condition_is_read(s: Seq<char>, renames: Entries<Seq<char>>)
    requires
        variables_only(renames),
        parsed(s) is Ok,
    ensures
        parsed(names_renamed(s, renames)) == match parsed(s)->Ok_0 {
            Some(e) => Ok::<Option<ExprView>, Seq<char>>(Some(expr_renamed(e, renames))),
            None => Ok(None),
        },
{
    let t = names_renamed(s, renames);
    lemma_tokens_renamed(s, renames);
    let toks = tokens(s)->Ok_0;
    if let Some(e) = parsed(s)->Ok_0 {
        law_reading_keeps_tokens(toks, s);
        lemma_expr_renamed(e, renames);
        law_spelling_is_read_back(expr_renamed(e, renames), t);
    } else {
        assert(tokens_renamed(toks, renames).len() == 0);
    }
}

} // verus!
