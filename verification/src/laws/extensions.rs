//! What a valid extension is, what is loaded of those that are found, and what
//! renaming its variables does to it.

use vstd::prelude::*;

use crate::condition::{parse_outcome, variables};
use crate::error::ErrorView;
use crate::extension::{
    accepted, build_requirements, duplicates, env_requirements, good_field, law_valid_extension,
    load_message, lowercased, manifests_of, names_folder, noted, readable, validated,
    wrapper_requirements, LoadErrorView, LoadedExtensionView,
};
use crate::ordered::Entries;
use crate::schema::{
    extension_renamed, fields_of, id_of, names_renamed, ArgSpecView, EnvBuilderEntryView,
    EnvVarSpecView, ExtensionMetaView, ExtensionView, UiFieldView, WrapperBuilderEntryView,
    WrapperSpecView,
};
use crate::template::{renamed, template_renamed};
use crate::text::{begins, joined, trimmed};

verus! {

// ---- Validation ------------------------------------------------------------

/// There is no condition, or it can be read.
pub open spec fn can_be_read(requirement: Option<Seq<char>>) -> bool {
    requirement is None || parse_outcome(requirement->0) is Ok
}

/// Every condition on an environment variable, and on its entries, can be read.
pub open spec fn env_can_be_read(specs: Seq<EnvVarSpecView>) -> bool {
    forall|k: int|
        0 <= k < specs.len() ==> can_be_read((#[trigger] specs[k]).requirement) && (forall|i: int|
            0 <= i < specs[k].builder.len() ==> can_be_read(
                (#[trigger] specs[k].builder[i]).requirement,
            ))
}

/// Every condition on a wrapper, and on its options, can be read.
pub open spec fn wrappers_can_be_read(wrappers: Seq<WrapperSpecView>) -> bool {
    forall|k: int|
        0 <= k < wrappers.len() ==> can_be_read((#[trigger] wrappers[k]).requirement) && (forall|
            i: int,
        |
            0 <= i < wrappers[k].builder.len() ==> can_be_read(
                (#[trigger] wrappers[k].builder[i]).requirement,
            ))
}

/// The condition of a field is about the extension's own variables alone.
pub open spec fn own_condition(requirement: Option<Seq<char>>) -> bool {
    requirement matches Some(s) ==> (match parse_outcome(s) {
        Err(_) => false,
        Ok(None) => true,
        Ok(Some(e)) => forall|i: int|
            0 <= i < variables(e).len() ==> !begins(#[trigger] variables(e)[i], "global:"@),
    })
}

spec fn all_readable(requirements: Seq<Option<Seq<char>>>) -> bool {
    forall|i: int| 0 <= i < requirements.len() ==> readable(#[trigger] requirements[i])
}

proof fn lemma_readable_parts(a: Seq<Option<Seq<char>>>, b: Seq<Option<Seq<char>>>)
    ensures
        all_readable(a + b) <==> all_readable(a) && all_readable(b),
{
    let all = a + b;
    if all_readable(all) {
        assert forall|i: int| 0 <= i < a.len() implies readable(#[trigger] a[i]) by {
            assert(readable(all[i]));
        }
        assert forall|i: int| 0 <= i < b.len() implies readable(#[trigger] b[i]) by {
            assert(readable(all[i + a.len()]));
        }
    }
    if all_readable(a) && all_readable(b) {
        assert forall|i: int| 0 <= i < all.len() implies readable(#[trigger] all[i]) by {
            if i < a.len() {
                assert(readable(a[i]));
            } else {
                assert(readable(b[i - a.len()]));
            }
        }
    }
}

proof fn lemma_env_readable(specs: Seq<EnvVarSpecView>)
    ensures
        all_readable(env_requirements(specs)) <==> env_can_be_read(specs),
    decreases specs.len(),
{
    if specs.len() > 0 {
        let init = specs.drop_last();
        let s = specs.last();
        let own = seq![s.requirement];
        let entries = s.builder.map_values(|e: EnvBuilderEntryView| e.requirement);
        lemma_env_readable(init);
        lemma_readable_parts(env_requirements(init), own);
        lemma_readable_parts(env_requirements(init) + own, entries);
        assert(own[0] == s.requirement);
        assert(specs[specs.len() - 1] == s);
        if env_can_be_read(specs) {
            assert forall|k: int| 0 <= k < init.len() implies can_be_read(
                (#[trigger] init[k]).requirement,
            ) && (forall|i: int|
                0 <= i < init[k].builder.len() ==> can_be_read(
                    (#[trigger] init[k].builder[i]).requirement,
                )) by {
                assert(init[k] == specs[k]);
            }
            assert forall|i: int| 0 <= i < entries.len() implies readable(#[trigger] entries[i]) by {
                assert(can_be_read(specs[specs.len() - 1].builder[i].requirement));
            }
        }
        if all_readable(env_requirements(specs)) {
            assert forall|k: int| 0 <= k < specs.len() implies can_be_read(
                (#[trigger] specs[k]).requirement,
            ) && (forall|i: int|
                0 <= i < specs[k].builder.len() ==> can_be_read(
                    (#[trigger] specs[k].builder[i]).requirement,
                )) by {
                if k < init.len() {
                    assert(init[k] == specs[k]);
                } else {
                    assert(readable(own[0]));
                    assert forall|i: int| 0 <= i < s.builder.len() implies can_be_read(
                        (#[trigger] specs[k].builder[i]).requirement,
                    ) by {
                        assert(readable(entries[i]));
                    }
                }
            }
        }
    }
}

proof fn lemma_wrappers_readable(wrappers: Seq<WrapperSpecView>)
    ensures
        all_readable(wrapper_requirements(wrappers)) <==> wrappers_can_be_read(wrappers),
    decreases wrappers.len(),
{
    if wrappers.len() > 0 {
        let init = wrappers.drop_last();
        let s = wrappers.last();
        let own = seq![s.requirement];
        let entries = s.builder.map_values(|e: WrapperBuilderEntryView| e.requirement);
        lemma_wrappers_readable(init);
        lemma_readable_parts(wrapper_requirements(init), own);
        lemma_readable_parts(wrapper_requirements(init) + own, entries);
        assert(own[0] == s.requirement);
        assert(wrappers[wrappers.len() - 1] == s);
        if wrappers_can_be_read(wrappers) {
            assert forall|k: int| 0 <= k < init.len() implies can_be_read(
                (#[trigger] init[k]).requirement,
            ) && (forall|i: int|
                0 <= i < init[k].builder.len() ==> can_be_read(
                    (#[trigger] init[k].builder[i]).requirement,
                )) by {
                assert(init[k] == wrappers[k]);
            }
            assert forall|i: int| 0 <= i < entries.len() implies readable(#[trigger] entries[i]) by {
                assert(can_be_read(wrappers[wrappers.len() - 1].builder[i].requirement));
            }
        }
        if all_readable(wrapper_requirements(wrappers)) {
            assert forall|k: int| 0 <= k < wrappers.len() implies can_be_read(
                (#[trigger] wrappers[k]).requirement,
            ) && (forall|i: int|
                0 <= i < wrappers[k].builder.len() ==> can_be_read(
                    (#[trigger] wrappers[k].builder[i]).requirement,
                )) by {
                if k < init.len() {
                    assert(init[k] == wrappers[k]);
                } else {
                    assert(readable(own[0]));
                    assert forall|i: int| 0 <= i < s.builder.len() implies can_be_read(
                        (#[trigger] wrappers[k].builder[i]).requirement,
                    ) by {
                        assert(readable(entries[i]));
                    }
                }
            }
        }
    }
}

/// An extension is valid exactly where: no two of its sections have one name (case
/// and outer white space aside); its fields have variables, no two the same, and
/// conditions on its own variables alone; and every condition on a variable, an
/// entry, a wrapper, an option and an argument can be read.
pub proof fn law_what_is_valid(e: ExtensionView)
    ensures
        validated(e) is Ok <==> {
            &&& forall|i: int, j: int|
                0 <= i < j < e.ui.len() ==> lowercased(trimmed((#[trigger] e.ui[i]).0))
                    != lowercased(trimmed((#[trigger] e.ui[j]).0))
            &&& forall|i: int, j: int|
                0 <= i < j < fields_of(e.ui).len() ==> (#[trigger] fields_of(e.ui)[i]).variable
                    != (#[trigger] fields_of(e.ui)[j]).variable
            &&& forall|i: int|
                0 <= i < fields_of(e.ui).len() ==> (#[trigger] fields_of(e.ui)[i]).variable.len() > 0
                    && own_condition(fields_of(e.ui)[i].requirement)
            &&& env_can_be_read(e.env_vars)
            &&& env_can_be_read(e.game_env_vars)
            &&& wrappers_can_be_read(e.wrappers)
            &&& forall|i: int|
                0 <= i < e.game_launch_args.len() ==> can_be_read(
                    (#[trigger] e.game_launch_args[i]).requirement,
                )
        },
{
    law_valid_extension(e);
    let args = e.game_launch_args.map_values(|a: ArgSpecView| a.requirement);
    let a = env_requirements(e.env_vars);
    let b = env_requirements(e.game_env_vars);
    let c = wrapper_requirements(e.wrappers);
    lemma_env_readable(e.env_vars);
    lemma_env_readable(e.game_env_vars);
    lemma_wrappers_readable(e.wrappers);
    lemma_readable_parts(a, b);
    lemma_readable_parts(a + b, c);
    lemma_readable_parts(a + b + c, args);
    assert(build_requirements(e) == a + b + c + args);
    assert(all_readable(args) <==> forall|i: int|
        0 <= i < e.game_launch_args.len() ==> can_be_read(
            (#[trigger] e.game_launch_args[i]).requirement,
        )) by {
        if all_readable(args) {
            assert forall|i: int| 0 <= i < e.game_launch_args.len() implies can_be_read(
                (#[trigger] e.game_launch_args[i]).requirement,
            ) by {
                assert(readable(args[i]));
            }
        }
    }
    assert forall|i: int| 0 <= i < fields_of(e.ui).len() implies (good_field(
        #[trigger] fields_of(e.ui)[i],
    ) <==> fields_of(e.ui)[i].variable.len() > 0 && own_condition(fields_of(e.ui)[i].requirement)) by {
        lemma_own_condition(fields_of(e.ui)[i].requirement);
    }
}

proof fn lemma_own_condition(requirement: Option<Seq<char>>)
    ensures
        own_condition(requirement) <==> (requirement matches Some(s) ==> (match parse_outcome(s) {
            Ok(Some(e)) => !crate::variables::any_global(variables(e)),
            Ok(None) => true,
            Err(_) => false,
        })),
{
}

/// A field without a variable, and one with another's, are told by the reason.
pub proof fn law_reasons(
    e: ExtensionView,
    section: Seq<char>,
    f: UiFieldView,
    g: UiFieldView,
)
    requires
        e.ui == seq![(section, seq![f, g])],
    ensures
        f.variable.len() == 0 ==> validated(e) == Err::<(), ErrorView>(
            ErrorView::InvalidExtension {
                id: id_of(e.meta),
                reason: "UI field has an empty Variable"@,
            },
        ),
        f.variable.len() > 0 && f.requirement is None && g.variable == f.variable ==> validated(e)
            == Err::<(), ErrorView>(
            ErrorView::InvalidExtension {
                id: id_of(e.meta),
                reason: "duplicate Variable across UI fields: "@ + f.variable,
            },
        ),
{
    let fields = seq![f, g];
    let id = id_of(e.meta);
    assert(e.ui[0] == (section, fields));
    assert(fields[0] == f);
    assert(fields.drop_first() =~= seq![g]);
    assert(seq![g][0] == g);
    let seen = Seq::<Seq<char>>::empty();
    assert(!seen.contains(f.variable));
    assert(seen.push(f.variable)[0] == f.variable);
    assert(seen.push(f.variable).contains(f.variable));
    reveal_with_fuel(crate::extension::fields_check, 3);
}

// ---- Loading ---------------------------------------------------------------

/// A manifest that is valid is loaded as it is, with where it was found; one that
/// is not is refused for that reason.
pub proof fn law_accepted(
    spec: ExtensionView,
    dir: Seq<char>,
    manifest: Seq<char>,
    rel_dir: Seq<char>,
    is_folder_ext: bool,
)
    ensures
        validated(spec) matches Err(e) ==> accepted(spec, dir, manifest, rel_dir, is_folder_ext)
            == Err::<LoadedExtensionView, ErrorView>(e),
        validated(spec) is Ok ==> (accepted(spec, dir, manifest, rel_dir, is_folder_ext) matches Ok(
            e,
        ) && e.spec == spec && e.dir == dir && e.manifest == manifest && e.rel_dir == rel_dir
            && e.is_folder_ext == is_folder_ext),
{
}

/// An extension lies in a folder of its own where its manifest is named like the
/// folder.
pub proof fn law_folder_extensions(stem: Seq<char>, folder: Seq<char>)
    ensures
        names_folder(Some(stem), Some(folder)) <==> stem == folder,
{
}

/// What is loaded is added to what is loaded already, and a problem to the
/// problems, with the file that it is about; neither touches the other.
pub proof fn law_noted(
    path: Seq<char>,
    e: LoadedExtensionView,
    error: ErrorView,
    exts: Seq<LoadedExtensionView>,
    errors: Seq<LoadErrorView>,
)
    ensures
        noted(path, Ok(e), exts, errors) == (exts.push(e), errors),
        noted(path, Err(error), exts, errors) == (
            exts,
            errors.push(LoadErrorView::Parse { path, reason: error.message() }),
        ),
{
}

/// The manifests of a module are those of all extensions of its author and name,
/// in order.
pub proof fn law_manifests(exts: Seq<LoadedExtensionView>, e: LoadedExtensionView)
    ensures
        manifests_of(exts, e) == exts.filter(
            |x: LoadedExtensionView|
                x.spec.meta.author == e.spec.meta.author && x.spec.meta.name == e.spec.meta.name,
        ).map_values(|x: LoadedExtensionView| x.manifest),
    decreases exts.len(),
{
    reveal(Seq::filter);
    let p = |x: LoadedExtensionView|
        x.spec.meta.author == e.spec.meta.author && x.spec.meta.name == e.spec.meta.name;
    let f = |x: LoadedExtensionView| x.manifest;
    if exts.len() > 0 {
        let init = exts.drop_last();
        law_manifests(init, e);
        if p(exts.last()) {
            assert(init.filter(p).push(exts.last()).map_values(f) =~= init.filter(p).map_values(
                f,
            ).push(f(exts.last())));
        }
        assert(manifests_of(exts, e) =~= exts.filter(p).map_values(f));
    } else {
        assert(manifests_of(exts, e) =~= exts.filter(p).map_values(f));
    }
}

/// A module is reported as a duplicate only where more than one extension has its
/// author and name, with the manifests of all of them.
pub proof fn law_only_duplicates_are_reported(exts: Seq<LoadedExtensionView>, n: int, k: int)
    requires
        0 <= n <= exts.len(),
        0 <= k < duplicates(exts, n).len(),
    ensures
        duplicates(exts, n)[k] matches LoadErrorView::Dup { author, name, paths } && paths.len() > 1
            && exists|i: int|
            0 <= i < exts.len() && (#[trigger] exts[i]).spec.meta.author == author
                && exts[i].spec.meta.name == name && paths == manifests_of(exts, exts[i]),
    decreases n,
{
    if n > 0 {
        let e = exts[n - 1];
        if k < duplicates(exts, n - 1).len() {
            law_only_duplicates_are_reported(exts, n - 1, k);
        } else {
            assert(exts[n - 1] == e);
        }
    }
}

/// A file that cannot be loaded is named with the reason, and a module that is
/// there twice with all its places.
pub proof fn law_load_messages(
    a: Seq<char>,
    b: Seq<char>,
    paths: Seq<Seq<char>>,
)
    ensures
        load_message(LoadErrorView::Parse { path: a, reason: b }) == "failed to load "@ + a + ": "@
            + b,
        load_message(LoadErrorView::Dup { author: a, name: b, paths }) == "duplicate module "@ + a
            + "::"@ + b + " loaded from "@ + joined(paths, ", "@),
{
}

/// An extension is known by its author, its name and its version.
pub proof fn law_ids(meta: ExtensionMetaView)
    ensures
        id_of(meta) == meta.author + "::"@ + meta.name + "::"@ + meta.version,
{
}

// ---- Renaming --------------------------------------------------------------

/// A condition with the names in it renamed.
pub open spec fn condition_renamed(
    requirement: Option<Seq<char>>,
    renames: Entries<Seq<char>>,
) -> Option<Seq<char>> {
    if requirement is Some {
        Some(names_renamed(requirement->0, renames))
    } else {
        None
    }
}

/// The declaration is the same, with the variables renamed in its name, in its
/// condition, and in the conditions and values of its entries.
pub open spec fn is_env_renamed(
    a: EnvVarSpecView,
    b: EnvVarSpecView,
    renames: Entries<Seq<char>>,
) -> bool {
    &&& b.name == template_renamed(a.name, renames)
    &&& b.requirement == condition_renamed(a.requirement, renames)
    &&& b.builder.len() == a.builder.len()
    &&& forall|i: int|
        0 <= i < a.builder.len() ==> {
            let (x, y) = (a.builder[i], #[trigger] b.builder[i]);
            &&& y.requirement == condition_renamed(x.requirement, renames)
            &&& y.op == x.op
            &&& y.separator == x.separator
            &&& x.value is None ==> y.value is None
            &&& x.value matches Some(t) ==> y.value == Some(template_renamed(t, renames))
        }
}

/// The wrapper is the same, with the variables renamed in its command line, in its
/// condition, and in its options.
pub open spec fn is_wrapper_renamed(
    a: WrapperSpecView,
    b: WrapperSpecView,
    renames: Entries<Seq<char>>,
) -> bool {
    &&& b.command_syntax == template_renamed(a.command_syntax, renames)
    &&& b.requirement == condition_renamed(a.requirement, renames)
    &&& b.priority == a.priority
    &&& b.builder.len() == a.builder.len()
    &&& forall|i: int|
        0 <= i < a.builder.len() ==> (#[trigger] b.builder[i]).requirement == condition_renamed(
            a.builder[i].requirement,
            renames,
        ) && b.builder[i].value == template_renamed(a.builder[i].value, renames)
}

/// Renaming its variables renames them everywhere in an extension: in its fields
/// and their conditions, and in the conditions and texts of its variables,
/// wrappers and arguments. Nothing else of it changes.
pub proof fn law_renamed_everywhere(e: ExtensionView, renames: Entries<Seq<char>>, i: int, j: int)
    ensures
        ({
            let r = extension_renamed(e, renames);
            &&& r.meta == e.meta
            &&& r.app_ids == e.app_ids
            &&& r.backend == e.backend
            &&& r.requires_desktop == e.requires_desktop
            &&& r.hooks == e.hooks
            &&& r.script_builders == e.script_builders
            &&& r.env_vars.len() == e.env_vars.len()
            &&& 0 <= i < e.env_vars.len() ==> is_env_renamed(e.env_vars[i], r.env_vars[i], renames)
            &&& r.game_env_vars.len() == e.game_env_vars.len()
            &&& 0 <= i < e.game_env_vars.len() ==> is_env_renamed(
                e.game_env_vars[i],
                r.game_env_vars[i],
                renames,
            )
            &&& r.wrappers.len() == e.wrappers.len()
            &&& 0 <= i < e.wrappers.len() ==> is_wrapper_renamed(
                e.wrappers[i],
                r.wrappers[i],
                renames,
            )
            &&& r.game_launch_args.len() == e.game_launch_args.len()
            &&& 0 <= i < e.game_launch_args.len() ==> r.game_launch_args[i].requirement
                == condition_renamed(e.game_launch_args[i].requirement, renames)
                && r.game_launch_args[i].value == template_renamed(
                e.game_launch_args[i].value,
                renames,
            )
            &&& r.ui.len() == e.ui.len()
            &&& 0 <= i < e.ui.len() ==> r.ui[i].0 == e.ui[i].0 && r.ui[i].1.len()
                == e.ui[i].1.len()
            &&& 0 <= i < e.ui.len() && 0 <= j < e.ui[i].1.len() ==> {
                let (x, y) = (e.ui[i].1[j], r.ui[i].1[j]);
                &&& y.variable == renamed(x.variable, renames)
                &&& y.requirement == condition_renamed(x.requirement, renames)
                &&& y.name == x.name && y.description == x.description && y.field_type
                    == x.field_type && y.default == x.default && y.options == x.options
                    && y.display_options == x.display_options
            }
        }),
{
}

/// A variable gets the name that it is renamed to, and keeps its own where it is
/// not renamed.
pub proof fn law_renamed(renames: Entries<Seq<char>>, i: int, name: Seq<char>)
    requires
        crate::ordered::distinct(renames),
    ensures
        0 <= i < renames.len() ==> renamed(renames[i].0, renames) == renames[i].1,
        (forall|k: int| 0 <= k < renames.len() ==> (#[trigger] renames[k]).0 != name) ==> renamed(
            name,
            renames,
        ) == name,
{
    if 0 <= i < renames.len() {
        crate::ordered::lemma_found(renames, i);
    }
}

} // verus!
