//! Extension loading: validation, and the merging of what was found in several
//! directories.
//!
//! Any `.json` file at any depth of an extensions directory is a manifest, with
//! its parent folder holding the scripts it references. Later directories
//! override earlier ones by extension id.

use crate::builder::Outcome;
use crate::condition::{parse, parse_outcome};
use crate::data::Duplicate;
use crate::error::{outcome, ErrorView, Result, RitzError};
use crate::ordered::{put, Entries, OrderedMap};
use crate::schema::{
    fields_of, id_of, ArgSpec, ArgSpecView, EnvBuilderEntry, EnvBuilderEntryView, EnvVarSpec,
    EnvVarSpecView, Extension, ExtensionView, UiField, UiFieldView, WrapperBuilderEntry,
    WrapperBuilderEntryView, WrapperSpec, WrapperSpecView,
};
use crate::sorting::{
    law_sorted, law_text_order_is_total, order, sort, sorted, text_at_most, text_le, total, Ordered,
};
use crate::text::{chars_of, contains_text, join, joined, same_text, trim, trimmed};
use crate::variables::{any_global, ui_check, ui_requires_is_valid};
use vstd::prelude::*;

verus! {

/// A non-fatal problem encountered while loading extensions. These are collected
/// rather than propagated, so one bad manifest never aborts loading the rest.
#[derive(Debug)]
pub enum ExtensionLoadError {
    /// A manifest failed to read, parse, or validate.
    Parse { path: String, reason: String },
    /// Two or more loaded modules share an (Author, Name) config identity, so
    /// they collide in the config namespace.
    Dup { author: String, name: String, paths: Vec<String> },
}

/// An [`ExtensionLoadError`] as contracts speak of it.
#[verifier::ext_equal]
pub enum LoadErrorView {
    Parse { path: Seq<char>, reason: Seq<char> },
    Dup { author: Seq<char>, name: Seq<char>, paths: Seq<Seq<char>> },
}

impl DeepView for ExtensionLoadError {
    type V = LoadErrorView;

    open spec fn deep_view(&self) -> LoadErrorView {
        match self {
            ExtensionLoadError::Parse { path, reason } => LoadErrorView::Parse {
                path: path@,
                reason: reason@,
            },
            ExtensionLoadError::Dup { author, name, paths } => LoadErrorView::Dup {
                author: author@,
                name: name@,
                paths: paths.deep_view(),
            },
        }
    }
}

impl Duplicate for ExtensionLoadError {
    fn duplicate(&self) -> (r: Self) {
        match self {
            ExtensionLoadError::Parse { path, reason } => ExtensionLoadError::Parse {
                path: path.clone(),
                reason: reason.clone(),
            },
            ExtensionLoadError::Dup { author, name, paths } => ExtensionLoadError::Dup {
                author: author.clone(),
                name: name.clone(),
                paths: paths.duplicate(),
            },
        }
    }
}

impl Clone for ExtensionLoadError {
    fn clone(&self) -> (r: Self)
        ensures
            r.deep_view() == self.deep_view(),
    {
        self.duplicate()
    }
}

/// The line shown for a load problem.
pub open spec fn load_message(e: LoadErrorView) -> Seq<char> {
    match e {
        LoadErrorView::Parse { path, reason } => "failed to load "@ + path + ": "@ + reason,
        LoadErrorView::Dup { author, name, paths } => "duplicate module "@ + author + "::"@ + name
            + " loaded from "@ + joined(paths, ", "@),
    }
}

impl ExtensionLoadError {
    /// The line shown for this problem.
    pub fn message(&self) -> (m: String)
        ensures
            m@ == load_message(self.deep_view()),
    {
        match self {
            ExtensionLoadError::Parse { path, reason } => {
                let mut m = "failed to load ".to_owned();
                m.append(path.as_str());
                m.append(": ");
                m.append(reason.as_str());
                m
            },
            ExtensionLoadError::Dup { author, name, paths } => {
                let mut m = "duplicate module ".to_owned();
                m.append(author.as_str());
                m.append("::");
                m.append(name.as_str());
                m.append(" loaded from ");
                m.append(join(paths, ", ").as_str());
                m
            },
        }
    }
}

/// An extension with where it was found.
#[derive(Debug)]
pub struct LoadedExtension {
    pub spec: Extension,
    /// Directory holding the manifest (used to resolve scripts).
    pub dir: String,
    /// The manifest file itself.
    pub manifest: String,
    /// The manifest's folder relative to the extensions directory; empty for a
    /// manifest that stands directly in it.
    pub rel_dir: String,
    /// True where the manifest is named like its folder (e.g.
    /// `scripts/scripts.json`).
    pub is_folder_ext: bool,
}

/// A [`LoadedExtension`] as contracts speak of it.
#[verifier::ext_equal]
pub struct LoadedExtensionView {
    pub spec: ExtensionView,
    pub dir: Seq<char>,
    pub manifest: Seq<char>,
    pub rel_dir: Seq<char>,
    pub is_folder_ext: bool,
}

impl DeepView for LoadedExtension {
    type V = LoadedExtensionView;

    open spec fn deep_view(&self) -> LoadedExtensionView {
        LoadedExtensionView {
            spec: self.spec.deep_view(),
            dir: self.dir.deep_view(),
            manifest: self.manifest.deep_view(),
            rel_dir: self.rel_dir.deep_view(),
            is_folder_ext: self.is_folder_ext,
        }
    }
}

impl Duplicate for LoadedExtension {
    fn duplicate(&self) -> (r: Self) {
        LoadedExtension {
            spec: self.spec.duplicate(),
            dir: self.dir.duplicate(),
            manifest: self.manifest.duplicate(),
            rel_dir: self.rel_dir.duplicate(),
            is_folder_ext: self.is_folder_ext,
        }
    }
}

impl Clone for LoadedExtension {
    fn clone(&self) -> (r: Self)
        ensures
            r.deep_view() == self.deep_view(),
    {
        self.duplicate()
    }
}

// ---- Requirements ----------------------------------------------------------

/// An error as a reason why an extension is invalid.
pub open spec fn invalid<T>(id: Seq<char>, r: Outcome<T>) -> Outcome<()> {
    match r {
        Ok(_) => Ok(()),
        Err(e) => Err(ErrorView::InvalidExtension { id, reason: e.message() }),
    }
}

/// An optional condition can be read and, unless `allow_global`, references no
/// `global:` variable.
pub open spec fn requirement_check(
    id: Seq<char>,
    requirement: Option<Seq<char>>,
    allow_global: bool,
) -> Outcome<()> {
    match requirement {
        None => Ok(()),
        Some(s) => if allow_global {
            invalid(id, parse_outcome(s))
        } else {
            invalid(id, ui_check(s))
        },
    }
}

/// Checks an optional condition.
pub fn check_requires(id: &str, requirement: &Option<String>, allow_global: bool) -> (r: Result<()>)
    ensures
        outcome(r) == requirement_check(id@, requirement.deep_view(), allow_global),
{
    let text = match requirement {
        Some(s) => s.as_str(),
        None => {
            return Ok(());
        },
    };
    let bad = if allow_global {
        match parse(text) {
            Ok(_) => None,
            Err(e) => Some(e.message()),
        }
    } else {
        match ui_requires_is_valid(text) {
            Ok(()) => None,
            Err(e) => Some(e.message()),
        }
    };
    match bad {
        Some(reason) => Err(RitzError::InvalidExtension { id: id.to_owned(), reason }),
        None => Ok(()),
    }
}

/// The first of `requirements` that does not check out decides.
pub open spec fn requirements_check(
    id: Seq<char>,
    requirements: Seq<Option<Seq<char>>>,
) -> Outcome<()>
    decreases requirements.len(),
{
    if requirements.len() == 0 {
        Ok(())
    } else {
        match requirement_check(id, requirements[0], true) {
            Err(e) => Err(e),
            Ok(()) => requirements_check(id, requirements.drop_first()),
        }
    }
}

/// The conditions of environment variables and of their steps, in order.
pub open spec fn env_requirements(specs: Seq<EnvVarSpecView>) -> Seq<Option<Seq<char>>>
    decreases specs.len(),
{
    if specs.len() == 0 {
        seq![]
    } else {
        env_requirements(specs.drop_last()) + seq![specs.last().requirement]
            + specs.last().builder.map_values(|e: EnvBuilderEntryView| e.requirement)
    }
}

/// The conditions of wrappers and of their options, in order.
pub open spec fn wrapper_requirements(wrappers: Seq<WrapperSpecView>) -> Seq<Option<Seq<char>>>
    decreases wrappers.len(),
{
    if wrappers.len() == 0 {
        seq![]
    } else {
        wrapper_requirements(wrappers.drop_last()) + seq![wrappers.last().requirement]
            + wrappers.last().builder.map_values(|e: WrapperBuilderEntryView| e.requirement)
    }
}

/// The conditions of the launch blocks, in order.
pub open spec fn build_requirements(e: ExtensionView) -> Seq<Option<Seq<char>>> {
    env_requirements(e.env_vars) + env_requirements(e.game_env_vars) + wrapper_requirements(
        e.wrappers,
    ) + e.game_launch_args.map_values(|a: ArgSpecView| a.requirement)
}

fn push_env_requirements<'a>(out: &mut Vec<&'a Option<String>>, specs: &'a Vec<EnvVarSpec>)
    ensures
        final(out).deep_view() == old(out).deep_view() + env_requirements(specs.deep_view()),
{
    let ghost start = out.deep_view();
    let ghost d = specs.deep_view();
    let mut i: usize = 0;
    assert(start + env_requirements(d.take(0)) =~= start);
    while i < specs.len()
        invariant
            d == specs.deep_view(),
            i <= specs@.len(),
            out.deep_view() == start + env_requirements(d.take(i as int)),
        decreases specs@.len() - i,
    {
        let builder: &'a Vec<EnvBuilderEntry> = &specs[i].builder;
        let ghost b = builder.deep_view().map_values(|e: EnvBuilderEntryView| e.requirement);
        let ghost before = out.deep_view();
        assert(d.take(i + 1).drop_last() =~= d.take(i as int));
        out.push(&specs[i].requirement);
        let ghost mid = before + seq![specs@[i as int].requirement.deep_view()];
        assert(out.deep_view() =~= mid + b.take(0));
        let mut j: usize = 0;
        while j < builder.len()
            invariant
                b == builder.deep_view().map_values(|e: EnvBuilderEntryView| e.requirement),
                j <= builder@.len(),
                out.deep_view() == mid + b.take(j as int),
            decreases builder@.len() - j,
        {
            let ghost cur = out.deep_view();
            out.push(&builder[j].requirement);
            assert(out.deep_view() =~= cur.push(b[j as int]));
            j += 1;
            assert(out.deep_view() =~= mid + b.take(j as int));
        }
        assert(b.take(b.len() as int) =~= b);
        i += 1;
        assert(out.deep_view() =~= start + env_requirements(d.take(i as int)));
    }
    assert(d.take(d.len() as int) =~= d);
}

fn push_wrapper_requirements<'a>(out: &mut Vec<&'a Option<String>>, wrappers: &'a Vec<WrapperSpec>)
    ensures
        final(out).deep_view() == old(out).deep_view() + wrapper_requirements(
            wrappers.deep_view(),
        ),
{
    let ghost start = out.deep_view();
    let ghost d = wrappers.deep_view();
    let mut i: usize = 0;
    assert(start + wrapper_requirements(d.take(0)) =~= start);
    while i < wrappers.len()
        invariant
            d == wrappers.deep_view(),
            i <= wrappers@.len(),
            out.deep_view() == start + wrapper_requirements(d.take(i as int)),
        decreases wrappers@.len() - i,
    {
        let builder: &'a Vec<WrapperBuilderEntry> = &wrappers[i].builder;
        let ghost b = builder.deep_view().map_values(|e: WrapperBuilderEntryView| e.requirement);
        let ghost before = out.deep_view();
        assert(d.take(i + 1).drop_last() =~= d.take(i as int));
        out.push(&wrappers[i].requirement);
        let ghost mid = before + seq![wrappers@[i as int].requirement.deep_view()];
        assert(out.deep_view() =~= mid + b.take(0));
        let mut j: usize = 0;
        while j < builder.len()
            invariant
                b == builder.deep_view().map_values(|e: WrapperBuilderEntryView| e.requirement),
                j <= builder@.len(),
                out.deep_view() == mid + b.take(j as int),
            decreases builder@.len() - j,
        {
            let ghost cur = out.deep_view();
            out.push(&builder[j].requirement);
            assert(out.deep_view() =~= cur.push(b[j as int]));
            j += 1;
            assert(out.deep_view() =~= mid + b.take(j as int));
        }
        assert(b.take(b.len() as int) =~= b);
        i += 1;
        assert(out.deep_view() =~= start + wrapper_requirements(d.take(i as int)));
    }
    assert(d.take(d.len() as int) =~= d);
}

fn push_arg_requirements<'a>(out: &mut Vec<&'a Option<String>>, args: &'a Vec<ArgSpec>)
    ensures
        final(out).deep_view() == old(out).deep_view() + args.deep_view().map_values(
            |a: ArgSpecView| a.requirement,
        ),
{
    let ghost start = out.deep_view();
    let ghost d = args.deep_view().map_values(|a: ArgSpecView| a.requirement);
    let mut i: usize = 0;
    assert(start + d.take(0) =~= start);
    while i < args.len()
        invariant
            d == args.deep_view().map_values(|a: ArgSpecView| a.requirement),
            i <= args@.len(),
            out.deep_view() == start + d.take(i as int),
        decreases args@.len() - i,
    {
        let ghost cur = out.deep_view();
        out.push(&args[i].requirement);
        assert(out.deep_view() =~= cur.push(d[i as int]));
        i += 1;
        assert(out.deep_view() =~= start + d.take(i as int));
    }
    assert(d.take(d.len() as int) =~= d);
}

// ---- Validation ------------------------------------------------------------

/// The lowercase form of a text, as Unicode gives it.
pub uninterp spec fn lowercased(s: Seq<char>) -> Seq<char>;

/// `str::to_lowercase`: the lowercase form of a text.
#[verifier::external_body]
fn lowercase(s: &str) -> (r: String)
    ensures
        r@ == lowercased(s@),
{
    s.to_lowercase()
}

/// A text in quotes, escaped, as it is shown for debugging.
pub uninterp spec fn debug_quoted(s: Seq<char>) -> Seq<char>;

/// `<str as Debug>::fmt`, through `format!`: the quoted and escaped text.
#[verifier::external_body]
fn debug_quote(s: &str) -> (r: String)
    ensures
        r@ == debug_quoted(s@),
{
    format!("{:?}", s)
}

/// What the name of a section is told apart by: letter case and white space at
/// the ends do not count.
pub open spec fn section_key(section: Seq<char>) -> Seq<char> {
    lowercased(trimmed(section))
}

/// The fields of a section check out: each variable has a name that was not seen
/// before, and each condition is one for the UI. Gives what has been seen
/// behind the section.
pub open spec fn fields_check(
    id: Seq<char>,
    fields: Seq<UiFieldView>,
    seen: Seq<Seq<char>>,
) -> Outcome<Seq<Seq<char>>>
    decreases fields.len(),
{
    if fields.len() == 0 {
        Ok(seen)
    } else {
        let f = fields[0];
        if f.variable.len() == 0 {
            Err(ErrorView::InvalidExtension { id, reason: "UI field has an empty Variable"@ })
        } else if seen.contains(f.variable) {
            Err(
                ErrorView::InvalidExtension {
                    id,
                    reason: "duplicate Variable across UI fields: "@ + f.variable,
                },
            )
        } else {
            match requirement_check(id, f.requirement, false) {
                Err(e) => Err(e),
                Ok(()) => fields_check(id, fields.drop_first(), seen.push(f.variable)),
            }
        }
    }
}

/// The sections check out: `keys` are the sections before, `seen` the variables
/// in them.
pub open spec fn sections_check(
    id: Seq<char>,
    ui: Entries<Seq<UiFieldView>>,
    keys: Seq<Seq<char>>,
    seen: Seq<Seq<char>>,
) -> Outcome<()>
    decreases ui.len(),
{
    if ui.len() == 0 {
        Ok(())
    } else {
        let (section, fields) = ui[0];
        if keys.contains(section_key(section)) {
            Err(
                ErrorView::InvalidExtension {
                    id,
                    reason: "duplicate UI section name: "@ + debug_quoted(section),
                },
            )
        } else {
            match fields_check(id, fields, seen) {
                Err(e) => Err(e),
                Ok(now) => sections_check(
                    id,
                    ui.drop_first(),
                    keys.push(section_key(section)),
                    now,
                ),
            }
        }
    }
}

/// What validating an extension gives: the first problem of the UI, then the
/// first of the launch blocks.
pub open spec fn validated(e: ExtensionView) -> Outcome<()> {
    let id = id_of(e.meta);
    match sections_check(id, e.ui, seq![], seq![]) {
        Err(err) => Err(err),
        Ok(()) => requirements_check(id, build_requirements(e)),
    }
}

fn check_fields(id: &str, fields: &Vec<UiField>, start: Vec<String>) -> (r: Result<Vec<String>>)
    ensures
        outcome(r) == fields_check(id@, fields.deep_view(), start.deep_view()),
{
    let mut seen = start;
    let ghost d = fields.deep_view();
    let ghost goal = fields_check(id@, d, seen.deep_view());
    let mut i: usize = 0;
    assert(d.skip(0) =~= d);
    while i < fields.len()
        invariant
            d == fields.deep_view(),
            goal == fields_check(id@, d, start.deep_view()),
            i <= fields@.len(),
            fields_check(id@, d.skip(i as int), seen.deep_view()) == goal,
        decreases fields@.len() - i,
    {
        let field = &fields[i];
        let ghost rest = d.skip(i as int);
        let ghost before = seen.deep_view();
        assert(rest[0] == field.deep_view());
        assert(rest.drop_first() =~= d.skip(i + 1));
        if chars_of(field.variable.as_str()).len() == 0 {
            return Err(
                RitzError::InvalidExtension {
                    id: id.to_owned(),
                    reason: "UI field has an empty Variable".to_owned(),
                },
            );
        }
        if contains_text(&seen, field.variable.as_str()) {
            let mut reason = "duplicate Variable across UI fields: ".to_owned();
            reason.append(field.variable.as_str());
            return Err(RitzError::InvalidExtension { id: id.to_owned(), reason });
        }
        check_requires(id, &field.requirement, false)?;
        seen.push(field.variable.clone());
        assert(seen.deep_view() =~= before.push(field.variable@));
        i += 1;
    }
    Ok(seen)
}

/// Validates an extension: all conditions can be read; those of the UI do not use
/// `global:`; variables are not empty and unique across the module; and section
/// names don't collide.
///
/// Sections collide case-insensitively and without regard to white space at the
/// ends ("Audio" and "audio "); exact duplicates collapse when a manifest is
/// read.
pub fn validate(ext: &Extension) -> (r: Result<()>)
    ensures
        outcome(r) == validated(ext.deep_view()),
{
    let id = ext.id();
    let ghost d = ext.ui.deep_view();
    let ghost goal = sections_check(id@, d, seq![], seq![]);
    let mut seen_sections: Vec<String> = Vec::new();
    let mut seen_vars: Vec<String> = Vec::new();
    let n: usize = ext.ui.len();
    let mut i: usize = 0;
    assert(d.skip(0) =~= d);
    assert(seen_sections.deep_view() =~= seq![]);
    assert(seen_vars.deep_view() =~= seq![]);
    while i < n
        invariant
            id@ == id_of(ext.deep_view().meta),
            d == ext.ui.deep_view(),
            goal == sections_check(id@, d, seq![], seq![]),
            i <= n == d.len(),
            sections_check(
                id@,
                d.skip(i as int),
                seen_sections.deep_view(),
                seen_vars.deep_view(),
            ) == goal,
        decreases n - i,
    {
        let section = ext.ui.key_at(i);
        let ghost rest = d.skip(i as int);
        let ghost before = seen_sections.deep_view();
        assert(rest[0] == d[i as int]);
        assert(rest.drop_first() =~= d.skip(i + 1));
        let key = lowercase(trim(section.as_str()).as_str());
        if contains_text(&seen_sections, key.as_str()) {
            let mut reason = "duplicate UI section name: ".to_owned();
            reason.append(debug_quote(section.as_str()).as_str());
            return Err(RitzError::InvalidExtension { id, reason });
        }
        let ghost k = key@;
        seen_sections.push(key);
        assert(seen_sections.deep_view() =~= before.push(k));
        seen_vars = check_fields(id.as_str(), ext.ui.value_at(i), seen_vars)?;
        i += 1;
    }
    let mut requirements: Vec<&Option<String>> = Vec::new();
    push_env_requirements(&mut requirements, &ext.env_vars);
    push_env_requirements(&mut requirements, &ext.game_env_vars);
    push_wrapper_requirements(&mut requirements, &ext.wrappers);
    push_arg_requirements(&mut requirements, &ext.game_launch_args);
    let ghost q = requirements.deep_view();
    assert(q =~= build_requirements(ext.deep_view()));
    let mut j: usize = 0;
    assert(q.skip(0) =~= q);
    while j < requirements.len()
        invariant
            id@ == id_of(ext.deep_view().meta),
            sections_check(id@, ext.deep_view().ui, seq![], seq![]) is Ok,
            q == requirements.deep_view(),
            q == build_requirements(ext.deep_view()),
            j <= requirements@.len(),
            requirements_check(id@, q.skip(j as int)) == requirements_check(id@, q),
        decreases requirements@.len() - j,
    {
        let ghost rest = q.skip(j as int);
        assert(rest[0] == requirements@[j as int].deep_view());
        assert(rest.drop_first() =~= q.skip(j + 1));
        check_requires(id.as_str(), requirements[j], true)?;
        j += 1;
    }
    Ok(())
}

// ---- Loading and merging ---------------------------------------------------

/// A manifest is named like its folder.
pub open spec fn names_folder(stem: Option<Seq<char>>, folder: Option<Seq<char>>) -> bool {
    stem == folder
}

/// The extension that a manifest comes to, with where it was found.
pub open spec fn accepted(
    spec: ExtensionView,
    dir: Seq<char>,
    manifest: Seq<char>,
    rel_dir: Seq<char>,
    is_folder_ext: bool,
) -> Outcome<LoadedExtensionView> {
    match validated(spec) {
        Err(e) => Err(e),
        Ok(()) => Ok(LoadedExtensionView { spec, dir, manifest, rel_dir, is_folder_ext }),
    }
}

/// What is loaded, and what problems there are, once a manifest has been noted.
pub open spec fn noted(
    path: Seq<char>,
    loaded: Outcome<LoadedExtensionView>,
    exts: Seq<LoadedExtensionView>,
    errors: Seq<LoadErrorView>,
) -> (Seq<LoadedExtensionView>, Seq<LoadErrorView>) {
    match loaded {
        Ok(e) => (exts.push(e), errors),
        Err(e) => (exts, errors.push(LoadErrorView::Parse { path, reason: e.message() })),
    }
}

/// Takes in a manifest that was read: validates it and notes where it was found.
/// `stem` is the manifest's name without its extension, `folder` the name of its
/// directory.
pub fn accept_manifest(
    spec: Extension,
    dir: String,
    manifest: String,
    rel_dir: String,
    stem: Option<&str>,
    folder: Option<&str>,
) -> (r: Result<LoadedExtension>)
    ensures
        outcome(r) == accepted(
            spec.deep_view(),
            dir@,
            manifest@,
            rel_dir@,
            names_folder(stem.deep_view(), folder.deep_view()),
        ),
{
    validate(&spec)?;
    let is_folder_ext = match (stem, folder) {
        (Some(a), Some(b)) => same_text(a, b),
        (None, None) => true,
        _ => false,
    };
    Ok(LoadedExtension { spec, dir, manifest, rel_dir, is_folder_ext })
}

/// Notes what became of one manifest: an extension, or a problem that does not
/// stop the others.
pub fn note_manifest(
    path: &str,
    loaded: Result<LoadedExtension>,
    exts: &mut Vec<LoadedExtension>,
    errors: &mut Vec<ExtensionLoadError>,
)
    ensures
        (final(exts).deep_view(), final(errors).deep_view()) == noted(
            path@,
            outcome(loaded),
            old(exts).deep_view(),
            old(errors).deep_view(),
        ),
{
    let ghost before_exts = exts.deep_view();
    let ghost before_errors = errors.deep_view();
    match loaded {
        Ok(e) => {
            let ghost v = e.deep_view();
            exts.push(e);
            assert(exts.deep_view() =~= before_exts.push(v));
        },
        Err(e) => {
            let problem = ExtensionLoadError::Parse { path: path.to_owned(), reason: e.message() };
            let ghost v = problem.deep_view();
            errors.push(problem);
            assert(errors.deep_view() =~= before_errors.push(v));
        },
    }
}

/// Extensions by id: a later one takes the place of an earlier one.
pub open spec fn by_id(exts: Seq<LoadedExtensionView>) -> Entries<LoadedExtensionView>
    decreases exts.len(),
{
    if exts.len() == 0 {
        seq![]
    } else {
        put(by_id(exts.drop_last()), id_of(exts.last().spec.meta), exts.last())
    }
}

/// The values of a map, in order.
pub open spec fn values_of<T>(m: Entries<T>) -> Seq<T> {
    m.map_values(|e: (Seq<char>, T)| e.1)
}

/// An extension in the order of the ids.
pub struct ById {
    pub ext: LoadedExtension,
}

impl DeepView for ById {
    type V = LoadedExtensionView;

    open spec fn deep_view(&self) -> LoadedExtensionView {
        self.ext.deep_view()
    }
}

impl Ordered for ById {
    /// By id.
    open spec fn le(a: LoadedExtensionView, b: LoadedExtensionView) -> bool {
        text_le(id_of(a.spec.meta), id_of(b.spec.meta))
    }

    fn at_most(&self, other: &Self) -> (b: bool) {
        text_at_most(self.ext.spec.id().as_str(), other.ext.spec.id().as_str())
    }
}

/// What is loaded of the extensions that were found: of those with one id the
/// last, in the order of the ids.
pub open spec fn merged(found: Seq<LoadedExtensionView>) -> Seq<LoadedExtensionView> {
    sorted(values_of(by_id(found)), order::<ById>())
}

/// Two extensions share their config identity.
pub open spec fn same_module(a: LoadedExtensionView, b: LoadedExtensionView) -> bool {
    a.spec.meta.author == b.spec.meta.author && a.spec.meta.name == b.spec.meta.name
}

/// The manifests of the extensions that share the identity of `e`, in order.
pub open spec fn manifests_of(exts: Seq<LoadedExtensionView>, e: LoadedExtensionView) -> Seq<
    Seq<char>,
>
    decreases exts.len(),
{
    if exts.len() == 0 {
        seq![]
    } else if same_module(exts.last(), e) {
        manifests_of(exts.drop_last(), e).push(exts.last().manifest)
    } else {
        manifests_of(exts.drop_last(), e)
    }
}

/// One problem for each identity that two or more extensions share, in the order
/// in which the identities first occur. `n` is how many extensions have been
/// looked at.
pub open spec fn duplicates(exts: Seq<LoadedExtensionView>, n: int) -> Seq<LoadErrorView>
    decreases n,
{
    if n <= 0 {
        seq![]
    } else {
        let e = exts[n - 1];
        if manifests_of(exts.take(n - 1), e).len() == 0 && manifests_of(exts, e).len() > 1 {
            duplicates(exts, n - 1).push(
                LoadErrorView::Dup {
                    author: e.spec.meta.author,
                    name: e.spec.meta.name,
                    paths: manifests_of(exts, e),
                },
            )
        } else {
            duplicates(exts, n - 1)
        }
    }
}

fn manifests(exts: &Vec<LoadedExtension>, n: usize, e: &LoadedExtension) -> (r: Vec<String>)
    requires
        n <= exts@.len(),
    ensures
        r.deep_view() == manifests_of(exts.deep_view().take(n as int), e.deep_view()),
{
    let mut out: Vec<String> = Vec::new();
    let ghost d = exts.deep_view();
    let mut i: usize = 0;
    assert(out.deep_view() =~= manifests_of(d.take(0), e.deep_view()));
    while i < n
        invariant
            d == exts.deep_view(),
            i <= n <= exts@.len(),
            out.deep_view() == manifests_of(d.take(i as int), e.deep_view()),
        decreases n - i,
    {
        let x = &exts[i];
        assert(d.take(i + 1).drop_last() =~= d.take(i as int));
        assert(d.take(i + 1).last() == x.deep_view());
        if same_text(x.spec.meta.author.as_str(), e.spec.meta.author.as_str()) && same_text(
            x.spec.meta.name.as_str(),
            e.spec.meta.name.as_str(),
        ) {
            let ghost before = out.deep_view();
            out.push(x.manifest.clone());
            assert(out.deep_view() =~= before.push(x.manifest@));
        }
        i += 1;
    }
    out
}

fn find_duplicates(exts: &Vec<LoadedExtension>) -> (r: Vec<ExtensionLoadError>)
    ensures
        r.deep_view() == duplicates(exts.deep_view(), exts@.len() as int),
{
    let mut out: Vec<ExtensionLoadError> = Vec::new();
    let ghost d = exts.deep_view();
    let mut i: usize = 0;
    assert(out.deep_view() =~= duplicates(d, 0));
    while i < exts.len()
        invariant
            d == exts.deep_view(),
            i <= exts@.len(),
            out.deep_view() == duplicates(d, i as int),
        decreases exts@.len() - i,
    {
        let e = &exts[i];
        let earlier = manifests(exts, i, e);
        let paths = manifests(exts, exts.len(), e);
        assert(d.take(d.len() as int) =~= d);
        assert(d[i as int] == e.deep_view());
        if earlier.len() == 0 && paths.len() > 1 {
            let ghost before = out.deep_view();
            let dup = ExtensionLoadError::Dup {
                author: e.spec.meta.author.clone(),
                name: e.spec.meta.name.clone(),
                paths,
            };
            let ghost v = dup.deep_view();
            out.push(dup);
            assert(out.deep_view() =~= before.push(v));
        }
        i += 1;
    }
    out
}

fn sort_by_id(exts: Vec<ById>) -> (r: Vec<LoadedExtension>)
    ensures
        r.deep_view() == sorted(exts.deep_view(), order::<ById>()),
{
    let mut rest = sort(exts);
    let ghost all = rest.deep_view();
    let mut out: Vec<LoadedExtension> = Vec::new();
    assert(out.deep_view() + rest.deep_view() =~= all);
    while rest.len() > 0
        invariant
            out.deep_view() + rest.deep_view() == all,
        decreases rest@.len(),
    {
        let ghost done = out.deep_view();
        let ghost left = rest.deep_view();
        let x = rest.remove(0);
        let ghost v = x.deep_view();
        assert(left[0] == v);
        assert(rest.deep_view() =~= left.skip(1));
        out.push(x.ext);
        assert(out.deep_view() =~= done.push(v));
        assert(out.deep_view() + rest.deep_view() =~= done + left);
    }
    assert(out.deep_view() =~= all);
    out
}

/// Merges the extensions found in all directories: a later one takes the place of
/// an earlier one with its id. Gives the extensions in the order of their ids, and
/// the problems with those of modules that collide in the config namespace (ids
/// differ by version, which the namespace does not hold) behind them.
pub fn load_all(found: &Vec<LoadedExtension>, errors: &Vec<ExtensionLoadError>) -> (r: (
    Vec<LoadedExtension>,
    Vec<ExtensionLoadError>,
))
    ensures
        r.0.deep_view() == merged(found.deep_view()),
        r.1.deep_view() == errors.deep_view() + duplicates(
            merged(found.deep_view()),
            merged(found.deep_view()).len() as int,
        ),
{
    let mut by_key: OrderedMap<LoadedExtension> = OrderedMap::new();
    let ghost d = found.deep_view();
    let mut i: usize = 0;
    assert(by_key.deep_view() =~= by_id(d.take(0)));
    while i < found.len()
        invariant
            d == found.deep_view(),
            i <= found@.len(),
            by_key.deep_view() == by_id(d.take(i as int)),
        decreases found@.len() - i,
    {
        assert(d.take(i + 1).drop_last() =~= d.take(i as int));
        assert(d.take(i + 1).last() == found@[i as int].deep_view());
        by_key.insert(found[i].spec.id(), found[i].duplicate());
        i += 1;
    }
    assert(d.take(d.len() as int) =~= d);
    let n: usize = by_key.len();
    let ghost m = by_key.deep_view();
    let mut kept: Vec<ById> = Vec::new();
    let mut k: usize = 0;
    assert(kept.deep_view() =~= values_of(m).take(0));
    while k < n
        invariant
            m == by_key.deep_view(),
            k <= n == m.len(),
            kept.deep_view() == values_of(m).take(k as int),
        decreases n - k,
    {
        let ghost before = kept.deep_view();
        let e = ById { ext: by_key.value_at(k).duplicate() };
        let ghost v = e.deep_view();
        kept.push(e);
        assert(kept.deep_view() =~= before.push(v));
        k += 1;
        assert(kept.deep_view() =~= values_of(m).take(k as int));
    }
    assert(values_of(m).take(n as int) =~= values_of(m));
    let loaded = sort_by_id(kept);
    let dups = find_duplicates(&loaded);
    let mut problems = errors.duplicate();
    crate::data::extend(&mut problems, &dups);
    (loaded, problems)
}

// ---- Laws ------------------------------------------------------------------

/// A field for the UI: its variable has a name, and its condition can be read
/// and references no `global:` variable.
pub open spec fn good_field(f: UiFieldView) -> bool {
    &&& f.variable.len() > 0
    &&& f.requirement matches Some(s) ==> (match parse_outcome(s) {
        Ok(Some(e)) => !any_global(crate::condition::variables(e)),
        Ok(None) => true,
        Err(_) => false,
    })
}

/// No two fields share a variable.
pub open spec fn distinct_variables(fields: Seq<UiFieldView>) -> bool {
    forall|i: int, j: int|
        0 <= i < j < fields.len() ==> (#[trigger] fields[i]).variable != (
        #[trigger] fields[j]).variable
}

/// No two sections are told apart by letter case or white space alone.
pub open spec fn distinct_sections(ui: Entries<Seq<UiFieldView>>) -> bool {
    forall|i: int, j: int|
        0 <= i < j < ui.len() ==> section_key((#[trigger] ui[i]).0) != section_key(
            (#[trigger] ui[j]).0,
        )
}

/// A condition that can be read, or none.
pub open spec fn readable(requirement: Option<Seq<char>>) -> bool {
    requirement matches Some(s) ==> parse_outcome(s) is Ok
}

spec fn good_fields(fields: Seq<UiFieldView>, seen: Seq<Seq<char>>) -> bool {
    &&& forall|i: int|
        0 <= i < fields.len() ==> good_field(#[trigger] fields[i]) && !seen.contains(
            fields[i].variable,
        )
    &&& distinct_variables(fields)
}

spec fn variables_of(fields: Seq<UiFieldView>) -> Seq<Seq<char>> {
    fields.map_values(|f: UiFieldView| f.variable)
}

proof fn lemma_fields_check(id: Seq<char>, fields: Seq<UiFieldView>, seen: Seq<Seq<char>>)
    ensures
        fields_check(id, fields, seen) is Ok <==> good_fields(fields, seen),
        fields_check(id, fields, seen) matches Ok(now) ==> now == seen + variables_of(fields),
    decreases fields.len(),
{
    if fields.len() == 0 {
        assert(seen + variables_of(fields) =~= seen);
    } else {
        let f = fields[0];
        let rest = fields.drop_first();
        let more = seen.push(f.variable);
        lemma_fields_check(id, rest, more);
        assert(more + variables_of(rest) =~= seen + variables_of(fields));
        assert(forall|i: int| 0 <= i < rest.len() ==> #[trigger] rest[i] == fields[i + 1]);
        if good_fields(fields, seen) {
            assert(good_field(fields[0]));
            assert forall|i: int| 0 <= i < rest.len() implies good_field(#[trigger] rest[i])
                && !more.contains(rest[i].variable) by {
                assert(rest[i] == fields[i + 1]);
                assert(fields[0].variable != fields[i + 1].variable);
                if more.contains(rest[i].variable) {
                    let k = choose|k: int| 0 <= k < more.len() && more[k] == rest[i].variable;
                    assert(k < seen.len());
                    assert(seen[k] == rest[i].variable);
                }
            }
            assert forall|i: int, j: int| 0 <= i < j < rest.len() implies (
            #[trigger] rest[i]).variable != (#[trigger] rest[j]).variable by {
                assert(fields[i + 1].variable != fields[j + 1].variable);
            }
        }
        if fields_check(id, fields, seen) is Ok {
            assert(good_fields(rest, more));
            assert forall|i: int| 0 <= i < fields.len() implies good_field(#[trigger] fields[i])
                && !seen.contains(fields[i].variable) by {
                if i > 0 {
                    assert(rest[i - 1] == fields[i]);
                    if seen.contains(fields[i].variable) {
                        let k = choose|k: int|
                            0 <= k < seen.len() && seen[k] == fields[i].variable;
                        assert(more[k] == fields[i].variable);
                    }
                }
            }
            assert forall|i: int, j: int| 0 <= i < j < fields.len() implies (
            #[trigger] fields[i]).variable != (#[trigger] fields[j]).variable by {
                assert(rest[j - 1] == fields[j]);
                if i == 0 {
                    assert(more[seen.len() as int] == f.variable);
                } else {
                    assert(rest[i - 1] == fields[i]);
                }
            }
        }
    }
}

proof fn lemma_fields_of_first(ui: Entries<Seq<UiFieldView>>)
    requires
        ui.len() > 0,
    ensures
        fields_of(ui) == ui[0].1 + fields_of(ui.drop_first()),
    decreases ui.len(),
{
    if ui.len() == 1 {
        assert(fields_of(ui.drop_last()) =~= seq![]);
        assert(fields_of(ui.drop_first()) =~= seq![]);
        assert(fields_of(ui) =~= ui[0].1 + fields_of(ui.drop_first()));
    } else {
        lemma_fields_of_first(ui.drop_last());
        assert(ui.drop_last().drop_first() =~= ui.drop_first().drop_last());
        assert(fields_of(ui) =~= ui[0].1 + fields_of(ui.drop_first()));
    }
}

proof fn lemma_good_fields_concat(
    a: Seq<UiFieldView>,
    b: Seq<UiFieldView>,
    seen: Seq<Seq<char>>,
)
    ensures
        good_fields(a + b, seen) <==> good_fields(a, seen) && good_fields(
            b,
            seen + variables_of(a),
        ),
{
    let all = a + b;
    let more = seen + variables_of(a);
    assert(forall|i: int| 0 <= i < a.len() ==> #[trigger] all[i] == a[i]);
    assert(forall|i: int| 0 <= i < b.len() ==> #[trigger] b[i] == all[a.len() + i]);
    if good_fields(all, seen) {
        assert forall|i: int| 0 <= i < a.len() implies good_field(#[trigger] a[i])
            && !seen.contains(a[i].variable) by {
            assert(all[i] == a[i]);
        }
        assert forall|i: int, j: int| 0 <= i < j < a.len() implies (#[trigger] a[i]).variable != (
        #[trigger] a[j]).variable by {
            assert(all[i].variable != all[j].variable);
        }
        assert forall|i: int| 0 <= i < b.len() implies good_field(#[trigger] b[i])
            && !more.contains(b[i].variable) by {
            let n = a.len() + i;
            assert(all[n] == b[i]);
            if more.contains(b[i].variable) {
                let k = choose|k: int| 0 <= k < more.len() && more[k] == b[i].variable;
                if k < seen.len() {
                    assert(seen[k] == b[i].variable);
                } else {
                    assert(all[k - seen.len()].variable != all[n].variable);
                }
            }
        }
        assert forall|i: int, j: int| 0 <= i < j < b.len() implies (#[trigger] b[i]).variable != (
        #[trigger] b[j]).variable by {
            assert(all[a.len() + i].variable != all[a.len() + j].variable);
        }
    }
    if good_fields(a, seen) && good_fields(b, more) {
        assert forall|i: int| 0 <= i < all.len() implies good_field(#[trigger] all[i])
            && !seen.contains(all[i].variable) by {
            if i < a.len() {
                assert(all[i] == a[i]);
            } else {
                assert(all[i] == b[i - a.len()]);
                if seen.contains(all[i].variable) {
                    let k = choose|k: int| 0 <= k < seen.len() && seen[k] == all[i].variable;
                    assert(more[k] == all[i].variable);
                }
            }
        }
        assert forall|i: int, j: int| 0 <= i < j < all.len() implies (#[trigger] all[i]).variable
            != (#[trigger] all[j]).variable by {
            if j < a.len() {
                assert(a[i].variable != a[j].variable);
            } else if i < a.len() {
                assert(more[seen.len() + i] == a[i].variable);
                assert(!more.contains(b[j - a.len()].variable));
            } else {
                assert(b[i - a.len()].variable != b[j - a.len()].variable);
            }
        }
    }
}

spec fn good_sections(ui: Entries<Seq<UiFieldView>>, keys: Seq<Seq<char>>) -> bool {
    &&& forall|i: int| 0 <= i < ui.len() ==> !keys.contains(section_key((#[trigger] ui[i]).0))
    &&& distinct_sections(ui)
}

proof fn lemma_sections_check(
    id: Seq<char>,
    ui: Entries<Seq<UiFieldView>>,
    keys: Seq<Seq<char>>,
    seen: Seq<Seq<char>>,
)
    ensures
        sections_check(id, ui, keys, seen) is Ok <==> good_sections(ui, keys) && good_fields(
            fields_of(ui),
            seen,
        ),
    decreases ui.len(),
{
    if ui.len() > 0 {
        let (section, fields) = ui[0];
        let rest = ui.drop_first();
        let k0 = section_key(section);
        let more = keys.push(k0);
        let now = seen + variables_of(fields);
        lemma_fields_check(id, fields, seen);
        lemma_fields_of_first(ui);
        lemma_good_fields_concat(fields, fields_of(rest), seen);
        lemma_sections_check(id, rest, more, now);
        assert(forall|i: int| 0 <= i < rest.len() ==> #[trigger] rest[i] == ui[i + 1]);
        assert(good_sections(ui, keys) <==> !keys.contains(k0) && good_sections(rest, more)) by {
            if good_sections(ui, keys) {
                assert(!keys.contains(section_key(ui[0].0)));
                assert forall|i: int| 0 <= i < rest.len() implies !more.contains(
                    section_key((#[trigger] rest[i]).0),
                ) by {
                    assert(rest[i] == ui[i + 1]);
                    assert(section_key(ui[0].0) != section_key(ui[i + 1].0));
                    let key = section_key(rest[i].0);
                    if more.contains(key) {
                        let k = choose|k: int| 0 <= k < more.len() && more[k] == key;
                        assert(keys[k] == key);
                    }
                }
                assert forall|i: int, j: int| 0 <= i < j < rest.len() implies section_key(
                    (#[trigger] rest[i]).0,
                ) != section_key((#[trigger] rest[j]).0) by {
                    assert(section_key(ui[i + 1].0) != section_key(ui[j + 1].0));
                }
            }
            if !keys.contains(k0) && good_sections(rest, more) {
                assert forall|i: int| 0 <= i < ui.len() implies !keys.contains(
                    section_key((#[trigger] ui[i]).0),
                ) by {
                    if i > 0 {
                        assert(rest[i - 1] == ui[i]);
                        let key = section_key(ui[i].0);
                        if keys.contains(key) {
                            let k = choose|k: int| 0 <= k < keys.len() && keys[k] == key;
                            assert(more[k] == key);
                        }
                    }
                }
                assert forall|i: int, j: int| 0 <= i < j < ui.len() implies section_key(
                    (#[trigger] ui[i]).0,
                ) != section_key((#[trigger] ui[j]).0) by {
                    assert(rest[j - 1] == ui[j]);
                    if i == 0 {
                        assert(more[keys.len() as int] == k0);
                    } else {
                        assert(rest[i - 1] == ui[i]);
                    }
                }
            }
        }
    }
}

proof fn lemma_requirements_check(id: Seq<char>, requirements: Seq<Option<Seq<char>>>)
    ensures
        requirements_check(id, requirements) is Ok <==> forall|i: int|
            0 <= i < requirements.len() ==> readable(#[trigger] requirements[i]),
    decreases requirements.len(),
{
    if requirements.len() > 0 {
        let rest = requirements.drop_first();
        lemma_requirements_check(id, rest);
        assert(forall|i: int| 0 <= i < rest.len() ==> #[trigger] rest[i] == requirements[i + 1]);
        if forall|i: int| 0 <= i < requirements.len() ==> readable(#[trigger] requirements[i]) {
            assert(readable(requirements[0]));
        }
        if requirements_check(id, requirements) is Ok {
            assert forall|i: int| 0 <= i < requirements.len() implies readable(
                #[trigger] requirements[i],
            ) by {
                if i > 0 {
                    assert(rest[i - 1] == requirements[i]);
                }
            }
        }
    }
}

/// What a valid extension is: its sections are told apart, its fields have
/// variables of their own and conditions that stay within the module, and the
/// conditions of its launch blocks can be read.
pub proof fn law_valid_extension(e: ExtensionView)
    ensures
        validated(e) is Ok <==> {
            &&& distinct_sections(e.ui)
            &&& distinct_variables(fields_of(e.ui))
            &&& forall|i: int|
                0 <= i < fields_of(e.ui).len() ==> good_field(#[trigger] fields_of(e.ui)[i])
            &&& forall|i: int|
                0 <= i < build_requirements(e).len() ==> readable(
                    #[trigger] build_requirements(e)[i],
                )
        },
{
    let id = id_of(e.meta);
    lemma_sections_check(id, e.ui, seq![], seq![]);
    lemma_requirements_check(id, build_requirements(e));
    assert(forall|x: Seq<char>| !(#[trigger] Seq::<Seq<char>>::empty().contains(x)));
}

/// Every problem names the extension that it is about.
pub proof fn law_problems_name_the_extension(e: ExtensionView)
    ensures
        validated(e) matches Err(err) ==> (err matches ErrorView::InvalidExtension { id, .. } && id
            == id_of(e.meta)),
{
    let id = id_of(e.meta);
    lemma_sections_error(id, e.ui, seq![], seq![]);
    lemma_requirements_error(id, build_requirements(e));
}

spec fn names<T>(id: Seq<char>, r: Outcome<T>) -> bool {
    r matches Err(err) ==> (err matches ErrorView::InvalidExtension { id: x, .. } && x == id)
}

proof fn lemma_fields_error(id: Seq<char>, fields: Seq<UiFieldView>, seen: Seq<Seq<char>>)
    ensures
        names(id, fields_check(id, fields, seen)),
    decreases fields.len(),
{
    if fields.len() > 0 {
        lemma_fields_error(id, fields.drop_first(), seen.push(fields[0].variable));
    }
}

proof fn lemma_sections_error(
    id: Seq<char>,
    ui: Entries<Seq<UiFieldView>>,
    keys: Seq<Seq<char>>,
    seen: Seq<Seq<char>>,
)
    ensures
        names(id, sections_check(id, ui, keys, seen)),
    decreases ui.len(),
{
    if ui.len() > 0 {
        lemma_fields_error(id, ui[0].1, seen);
        if let Ok(now) = fields_check(id, ui[0].1, seen) {
            lemma_sections_error(id, ui.drop_first(), keys.push(section_key(ui[0].0)), now);
        }
    }
}

proof fn lemma_requirements_error(id: Seq<char>, requirements: Seq<Option<Seq<char>>>)
    ensures
        names(id, requirements_check(id, requirements)),
    decreases requirements.len(),
{
    if requirements.len() > 0 {
        lemma_requirements_error(id, requirements.drop_first());
    }
}

proof fn lemma_by_id(exts: Seq<LoadedExtensionView>)
    ensures
        crate::ordered::distinct(by_id(exts)),
    decreases exts.len(),
{
    if exts.len() > 0 {
        lemma_by_id(exts.drop_last());
        let id = id_of(exts.last().spec.meta);
        crate::ordered::law_put(by_id(exts.drop_last()), id, exts.last(), id);
    }
}

/// Of the extensions with one id, the last one found is loaded.
pub proof fn law_later_extensions_override(exts: Seq<LoadedExtensionView>, i: int)
    requires
        0 <= i < exts.len(),
        forall|j: int|
            i < j < exts.len() ==> id_of((#[trigger] exts[j]).spec.meta) != id_of(exts[i].spec.meta),
    ensures
        crate::ordered::value_of(by_id(exts), id_of(exts[i].spec.meta)) == Some(exts[i]),
        values_of(by_id(exts)).contains(exts[i]),
        merged(exts).contains(exts[i]),
    decreases exts.len(),
{
    let init = exts.drop_last();
    let last = id_of(exts.last().spec.meta);
    let id = id_of(exts[i].spec.meta);
    lemma_by_id(exts);
    lemma_by_id(init);
    crate::ordered::law_put(by_id(init), last, exts.last(), id);
    if i < exts.len() - 1 {
        assert(last != id) by {
            assert(id_of(exts[exts.len() - 1].spec.meta) != id);
        }
        assert forall|j: int| i < j < init.len() implies id_of((#[trigger] init[j]).spec.meta)
            != id_of(init[i].spec.meta) by {
            assert(init[j] == exts[j]);
        }
        law_later_extensions_override(init, i);
        assert(init[i] == exts[i]);
    }
    let m = by_id(exts);
    let k = crate::ordered::key_index(m, id);
    assert(0 <= k < m.len() && m[k].0 == id);
    assert(values_of(m)[k] == exts[i]);
    lemma_id_order();
    law_sorted(values_of(m), order::<ById>());
    broadcast use vstd::seq_lib::group_to_multiset_ensures;

    assert(values_of(m).to_multiset().contains(exts[i]));
    assert(merged(exts).to_multiset().contains(exts[i]));
}

proof fn lemma_id_order()
    ensures
        total(order::<ById>()),
{
    law_text_order_is_total();
    let le = order::<ById>();
    let text = order::<String>();
    assert forall|a: LoadedExtensionView, b: LoadedExtensionView| #[trigger] le(a, b) || le(
        b,
        a,
    ) by {
        assert(text(id_of(a.spec.meta), id_of(b.spec.meta)) || text(
            id_of(b.spec.meta),
            id_of(a.spec.meta),
        ));
    }
    assert forall|a: LoadedExtensionView, b: LoadedExtensionView, c: LoadedExtensionView| #[trigger]
        le(a, b) && #[trigger] le(b, c) implies le(a, c) by {
        assert(text(id_of(a.spec.meta), id_of(b.spec.meta)));
        assert(text(id_of(b.spec.meta), id_of(c.spec.meta)));
        assert(text(id_of(a.spec.meta), id_of(c.spec.meta)));
    }
}

/// Whatever order extensions are found in, they are loaded in the order of their
/// ids, and nothing is loaded that was not found.
pub proof fn law_loaded_in_id_order(found: Seq<LoadedExtensionView>, i: int, j: int)
    requires
        0 <= i <= j < merged(found).len(),
    ensures
        text_le(id_of(merged(found)[i].spec.meta), id_of(merged(found)[j].spec.meta)),
        i < j ==> id_of(merged(found)[i].spec.meta) != id_of(merged(found)[j].spec.meta),
        found.contains(merged(found)[i]),
{
    let vs = values_of(by_id(found));
    let le = order::<ById>();
    lemma_id_order();
    law_sorted(vs, le);
    assert(le(merged(found)[i], merged(found)[j]));
    lemma_by_id(found);
    lemma_by_id_keys(found);
    assert(distinct_ids(vs)) by {
        assert forall|a: int, b: int| 0 <= a < b < vs.len() implies id_of(
            (#[trigger] vs[a]).spec.meta,
        ) != id_of((#[trigger] vs[b]).spec.meta) by {
            assert(by_id(found)[a].0 != by_id(found)[b].0);
        }
    }
    lemma_distinct_ids(vs, merged(found));
    broadcast use vstd::seq_lib::group_to_multiset_ensures;

    let x = merged(found)[i];
    assert(merged(found).contains(x));
    assert(vs.to_multiset().contains(x));
    let k = choose|k: int| 0 <= k < vs.len() && vs[k] == x;
    assert(by_id(found)[k].1 == x);
}

spec fn distinct_ids(s: Seq<LoadedExtensionView>) -> bool {
    forall|a: int, b: int|
        0 <= a < b < s.len() ==> id_of((#[trigger] s[a]).spec.meta) != id_of(
            (#[trigger] s[b]).spec.meta,
        )
}

proof fn lemma_by_id_keys(found: Seq<LoadedExtensionView>)
    ensures
        forall|k: int|
            0 <= k < by_id(found).len() ==> {
                let e = #[trigger] by_id(found)[k];
                e.0 == id_of(e.1.spec.meta) && found.contains(e.1)
            },
    decreases found.len(),
{
    if found.len() > 0 {
        let init = found.drop_last();
        let m0 = by_id(init);
        lemma_by_id_keys(init);
        assert forall|k: int| 0 <= k < by_id(found).len() implies {
            let e = #[trigger] by_id(found)[k];
            e.0 == id_of(e.1.spec.meta) && found.contains(e.1)
        } by {
            let e = by_id(found)[k];
            if k < m0.len() && e == m0[k] {
                let a = choose|a: int| 0 <= a < init.len() && init[a] == e.1;
                assert(found[a] == e.1);
            } else {
                assert(e.1 == found.last());
                assert(found[found.len() - 1] == e.1);
            }
        }
    }
}

proof fn lemma_distinct_ids(s: Seq<LoadedExtensionView>, t: Seq<LoadedExtensionView>)
    requires
        distinct_ids(s),
        s.to_multiset() == t.to_multiset(),
    ensures
        distinct_ids(t),
{
    broadcast use vstd::seq_lib::group_to_multiset_ensures;

    assert(s.no_duplicates()) by {
        assert forall|a: int, b: int| 0 <= a < s.len() && 0 <= b < s.len() && a != b implies s[a]
            != s[b] by {
            if a < b {
                assert(id_of(s[a].spec.meta) != id_of(s[b].spec.meta));
            } else {
                assert(id_of(s[b].spec.meta) != id_of(s[a].spec.meta));
            }
        }
    }
    s.lemma_multiset_has_no_duplicates();
    t.lemma_multiset_has_no_duplicates_conv();
    assert forall|a: int, b: int| 0 <= a < b < t.len() implies id_of((#[trigger] t[a]).spec.meta)
        != id_of((#[trigger] t[b]).spec.meta) by {
        assert(t.contains(t[a]) && t.contains(t[b]));
        assert(s.to_multiset().contains(t[a]) && s.to_multiset().contains(t[b]));
        let x = choose|x: int| 0 <= x < s.len() && s[x] == t[a];
        let y = choose|y: int| 0 <= y < s.len() && s[y] == t[b];
        if x < y {
            assert(id_of(s[x].spec.meta) != id_of(s[y].spec.meta));
        } else if y < x {
            assert(id_of(s[y].spec.meta) != id_of(s[x].spec.meta));
        }
    }
}

proof fn lemma_manifests(
    exts: Seq<LoadedExtensionView>,
    e: LoadedExtensionView,
    i: int,
)
    requires
        0 <= i < exts.len(),
        same_module(exts[i], e),
    ensures
        manifests_of(exts, e).len() > 0,
        forall|j: int|
            i < j < exts.len() && same_module(#[trigger] exts[j], e) ==> manifests_of(exts, e).len()
                > 1,
    decreases exts.len(),
{
    let init = exts.drop_last();
    if i < exts.len() - 1 {
        assert(init[i] == exts[i]);
        lemma_manifests(init, e, i);
        assert forall|j: int| i < j < exts.len() && same_module(#[trigger] exts[j], e) implies
            manifests_of(exts, e).len() > 1 by {
            if j < exts.len() - 1 {
                assert(init[j] == exts[j]);
            }
        }
    }
}

proof fn lemma_same_manifests(
    exts: Seq<LoadedExtensionView>,
    a: LoadedExtensionView,
    b: LoadedExtensionView,
)
    requires
        same_module(a, b),
    ensures
        manifests_of(exts, a) == manifests_of(exts, b),
    decreases exts.len(),
{
    if exts.len() > 0 {
        lemma_same_manifests(exts.drop_last(), a, b);
    }
}

proof fn lemma_first_reported(exts: Seq<LoadedExtensionView>, e: LoadedExtensionView, n: int)
    requires
        0 <= n <= exts.len(),
        manifests_of(exts, e).len() > 1,
        manifests_of(exts.take(n), e).len() > 0,
    ensures
        duplicates(exts, n).contains(
            LoadErrorView::Dup {
                author: e.spec.meta.author,
                name: e.spec.meta.name,
                paths: manifests_of(exts, e),
            },
        ),
    decreases n,
{
    if n == 0 {
        assert(exts.take(0).len() == 0);
    } else {
        let dup = LoadErrorView::Dup {
            author: e.spec.meta.author,
            name: e.spec.meta.name,
            paths: manifests_of(exts, e),
        };
        let x = exts[n - 1];
        assert(exts.take(n).drop_last() =~= exts.take(n - 1));
        let d0 = duplicates(exts, n - 1);
        let d = duplicates(exts, n);
        if manifests_of(exts.take(n - 1), e).len() > 0 {
            lemma_first_reported(exts, e, n - 1);
            let k = choose|k: int| 0 <= k < d0.len() && d0[k] == dup;
            assert(d[k] == dup);
        } else {
            assert(same_module(x, e));
            lemma_same_manifests(exts, x, e);
            lemma_same_manifests(exts.take(n - 1), x, e);
            assert(d[d0.len() as int] == dup);
        }
    }
}

/// Whenever two loaded extensions share their config identity, that is reported,
/// with the manifests of all that share it.
pub proof fn law_collisions_are_reported(exts: Seq<LoadedExtensionView>, i: int, j: int)
    requires
        0 <= i < j < exts.len(),
        same_module(exts[i], exts[j]),
    ensures
        duplicates(exts, exts.len() as int).contains(
            LoadErrorView::Dup {
                author: exts[i].spec.meta.author,
                name: exts[i].spec.meta.name,
                paths: manifests_of(exts, exts[i]),
            },
        ),
        manifests_of(exts, exts[i]).len() > 1,
{
    lemma_manifests(exts, exts[i], i);
    assert(same_module(exts[j], exts[i]));
    assert(exts.take(exts.len() as int) =~= exts);
    lemma_first_reported(exts, exts[i], exts.len() as int);
}

proof fn lemma_reported_from(exts: Seq<LoadedExtensionView>, n: int, k: int)
    requires
        0 <= n <= exts.len(),
        0 <= k < duplicates(exts, n).len(),
    ensures
        exists|m: int|
            0 <= m < n && duplicates(exts, n)[k] == (LoadErrorView::Dup {
                author: (#[trigger] exts[m]).spec.meta.author,
                name: exts[m].spec.meta.name,
                paths: manifests_of(exts, exts[m]),
            }),
    decreases n,
{
    if n > 0 {
        if k < duplicates(exts, n - 1).len() {
            lemma_reported_from(exts, n - 1, k);
            let m = choose|m: int|
                0 <= m < n - 1 && duplicates(exts, n - 1)[k] == (LoadErrorView::Dup {
                    author: (#[trigger] exts[m]).spec.meta.author,
                    name: exts[m].spec.meta.name,
                    paths: manifests_of(exts, exts[m]),
                });
            assert(duplicates(exts, n)[k] == duplicates(exts, n - 1)[k]);
            assert(0 <= m < n);
        } else {
            assert(exts[n - 1].spec.meta.author == exts[n - 1].spec.meta.author);
        }
    }
}

/// Each module is reported once.
pub proof fn law_reported_once(exts: Seq<LoadedExtensionView>, n: int, i: int, j: int)
    requires
        0 <= n <= exts.len(),
        0 <= i < j < duplicates(exts, n).len(),
    ensures
        duplicates(exts, n)[i]->Dup_author != duplicates(exts, n)[j]->Dup_author || duplicates(
            exts,
            n,
        )[i]->Dup_name != duplicates(exts, n)[j]->Dup_name,
    decreases n,
{
    if n > 0 {
        let before = duplicates(exts, n - 1);
        if j < before.len() {
            law_reported_once(exts, n - 1, i, j);
        } else {
            let e = exts[n - 1];
            lemma_reported_from(exts, n - 1, i);
            let m = choose|m: int|
                0 <= m < n - 1 && before[i] == (LoadErrorView::Dup {
                    author: (#[trigger] exts[m]).spec.meta.author,
                    name: exts[m].spec.meta.name,
                    paths: manifests_of(exts, exts[m]),
                });
            if same_module(exts[m], e) {
                assert(exts.take(n - 1)[m] == exts[m]);
                lemma_manifests(exts.take(n - 1), e, m);
            }
        }
    }
}

} // verus!
