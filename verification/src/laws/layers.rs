//! Where the values of a game's settings come from.

use vstd::prelude::*;

use crate::builder::{built, InputView};
use crate::config::{stored, GameConfigView, GeneralConfigView, PresetView};
use crate::context::{
    applying, effective, game_or_new, game_resolved, launch_inputs, on_desktop, preset_choice,
    specs_of, walk_below, walk_from, AppContextView, ResolvedGameView, StepView,
};
use crate::extension::LoadedExtensionView;
use crate::resolve::{
    field_from, law_fields_are_seen, none_from, LayersView, Provenance, ResolutionView,
};
use crate::schema::{fields_of, id_of, ExtensionView, FieldType, UiFieldView};
use crate::steam::{ascii_lowered, SteamCommandView};
use crate::text::{joined, split_at_char};
use crate::value::ValueView;

verus! {

/// The extension is for every game, or this game is among its own.
pub open spec fn is_for_game(e: LoadedExtensionView, appid: Seq<char>) -> bool {
    e.spec.app_ids is None || e.spec.app_ids->0.contains(appid)
}

/// The extensions that apply are those for every game and those for this one, in
/// their order.
pub proof fn law_applying(exts: Seq<LoadedExtensionView>, appid: Seq<char>)
    ensures
        applying(exts, appid) == exts.filter(|e: LoadedExtensionView| is_for_game(e, appid)),
    decreases exts.len(),
{
    reveal(Seq::filter);
    if exts.len() > 0 {
        law_applying(exts.drop_last(), appid);
    }
}

proof fn lemma_applying_place(exts: Seq<LoadedExtensionView>, appid: Seq<char>, i: int)
    requires
        0 <= i < exts.len(),
        is_for_game(exts[i], appid),
    ensures
        ({
            let all = applying(exts, appid);
            let n = applying(exts.take(i), appid).len() as int;
            &&& 0 <= n < all.len()
            &&& all[n] == exts[i]
            &&& forall|k: int|
                n < k < all.len() ==> exists|m: int|
                    i < m < exts.len() && #[trigger] exts[m] == #[trigger] all[k] && is_for_game(
                        exts[m],
                        appid,
                    )
        }),
    decreases exts.len(),
{
    let all = applying(exts, appid);
    let n = applying(exts.take(i), appid).len() as int;
    let init = exts.drop_last();
    let before = applying(init, appid);
    if i == exts.len() - 1 {
        assert(exts.take(i) =~= init);
    } else {
        assert(init.take(i) =~= exts.take(i));
        lemma_applying_place(init, appid, i);
        assert forall|k: int| n < k < all.len() implies exists|m: int|
            i < m < exts.len() && #[trigger] exts[m] == #[trigger] all[k] && is_for_game(
                exts[m],
                appid,
            ) by {
            if k < before.len() {
                let m = choose|m: int|
                    i < m < init.len() && #[trigger] init[m] == #[trigger] before[k]
                        && is_for_game(init[m], appid);
                assert(exts[m] == all[k]);
            } else {
                assert(exts[exts.len() - 1] == all[k]);
            }
        }
    }
}

/// A field of an extension that applies is read from the game's own settings where
/// they hold it, else from its profile (with what the profile inherits), else from
/// the global settings, else it is the default of the extension; and it says which
/// of these it came from. Extensions of one id and fields of one name are the
/// exception: there the last one counts.
pub proof fn law_fields_come_from_the_layers(
    ctx: AppContextView,
    game: GameConfigView,
    appid: Seq<char>,
    preset: Option<PresetView>,
    chain: Seq<PresetView>,
    global: PresetView,
    i: int,
    j: int,
)
    requires
        0 <= i < ctx.extensions.len(),
        is_for_game(ctx.extensions[i], appid),
        0 <= j < fields_of(ctx.extensions[i].spec.ui).len(),
        forall|k: int|
            i < k < ctx.extensions.len() && is_for_game(#[trigger] ctx.extensions[k], appid)
                ==> id_of(ctx.extensions[k].spec.meta) != id_of(ctx.extensions[i].spec.meta),
        none_from(
            fields_of(ctx.extensions[i].spec.ui),
            j + 1,
            fields_of(ctx.extensions[i].spec.ui)[j].variable,
        ),
    ensures
        ({
            let e = ctx.extensions[i].spec;
            let f = fields_of(e.ui)[j];
            let own = stored(
                game.config.modules.authors,
                e.meta.author,
                e.meta.name,
                f.variable,
            );
            let profile = match preset {
                Some(p) => stored(
                    effective(p, chain).modules,
                    e.meta.author,
                    e.meta.name,
                    f.variable,
                ),
                None => None,
            };
            let shared = stored(global.modules, e.meta.author, e.meta.name, f.variable);
            game_resolved(ctx, game, appid, preset, chain, global).field(
                id_of(e.meta),
                f.variable,
            ) matches Some(r) && (if own is Some {
                r.raw == own && r.provenance == Provenance::Game
            } else if profile is Some {
                r.raw == profile && r.provenance == Provenance::Preset
            } else if shared is Some {
                r.raw == shared && r.provenance == Provenance::Global
            } else {
                r.raw == f.default && r.provenance == Provenance::Default
            }) && r == field_from(f.field_type, r.raw, r.provenance)
        }),
{
    let exts = ctx.extensions;
    let all = applying(exts, appid);
    let specs = specs_of(all);
    let n = applying(exts.take(i), appid).len() as int;
    lemma_applying_place(exts, appid, i);
    assert(specs[n] == exts[i].spec);
    assert forall|k: int| n < k < specs.len() implies id_of((#[trigger] specs[k]).meta) != id_of(
        specs[n].meta,
    ) by {
        assert(specs[k] == all[k].spec);
        let m = choose|m: int|
            i < m < exts.len() && #[trigger] exts[m] == #[trigger] all[k] && is_for_game(
                exts[m],
                appid,
            );
        assert(is_for_game(ctx.extensions[m], appid));
    }
    let layers = LayersView {
        game: Some(game),
        preset: match preset {
            Some(p) => Some(effective(p, chain)),
            None => None,
        },
        global: Some(global),
    };
    law_fields_are_seen(specs, layers, n, j);
}

/// A profile without a parent is what it says.
pub proof fn law_profile_alone(p: PresetView, chain: Seq<PresetView>)
    requires
        p.parent is None,
    ensures
        effective(p, chain).modules == p.modules,
{
}

/// What is resolved is for this game: its appid, its settings, its profile, and
/// the extensions that apply to it.
pub proof fn law_game_is_kept(
    ctx: AppContextView,
    game: GameConfigView,
    appid: Seq<char>,
    preset: Option<PresetView>,
    chain: Seq<PresetView>,
    global: PresetView,
)
    ensures
        ({
            let r = game_resolved(ctx, game, appid, preset, chain, global);
            &&& r.appid == appid
            &&& r.game_config == game
            &&& r.preset == preset
            &&& r.specs == ctx.extensions.filter(
                |e: LoadedExtensionView| is_for_game(e, appid),
            ).map_values(|e: LoadedExtensionView| e.spec)
        }),
{
    law_applying(ctx.extensions, appid);
}

/// A field that is a switch is on where the value is `true` and off everywhere
/// else; any other field is off where there is no value or a stored nothing, and
/// on otherwise, with the text of its value.
pub proof fn law_values_of_fields(
    field_type: FieldType,
    raw: Option<ValueView>,
    p: Provenance,
    text: Seq<char>,
)
    ensures
        ({
            let r = field_from(field_type, raw, p);
            &&& r.raw == raw && r.provenance == p
            &&& field_type == FieldType::Toggle && raw == Some(ValueView::Bool(true)) ==> r.enabled
                && r.var.truthy && r.var.value == "true"@
            &&& field_type == FieldType::Toggle && raw != Some(ValueView::Bool(true))
                ==> !r.enabled && !r.var.truthy && r.var.value == "false"@
            &&& field_type != FieldType::Toggle && (raw is None || raw == Some(ValueView::Null))
                ==> !r.enabled && !r.var.truthy && r.var.value.len() == 0
            &&& field_type != FieldType::Toggle && field_type != FieldType::MultiString && raw
                == Some(ValueView::String(text)) ==> r.enabled && r.var.truthy == (text.len() > 0)
                && r.var.value == text
            &&& field_type != FieldType::Toggle && field_type != FieldType::MultiString && raw
                == Some(ValueView::Number(text)) && text.len() > 0 ==> r.enabled && r.var.truthy
                && r.var.value == text
            &&& field_type != FieldType::Toggle && field_type != FieldType::MultiString && raw
                == Some(ValueView::Bool(true)) ==> r.enabled && r.var.truthy && r.var.value
                == "true"@
            &&& field_type != FieldType::Toggle && field_type != FieldType::MultiString && raw
                == Some(ValueView::Bool(false)) ==> r.enabled && r.var.truthy && r.var.value
                == "false"@
            &&& field_type == FieldType::MultiString && !(raw matches Some(ValueView::Array(_)))
                ==> !r.enabled && !r.var.truthy && r.var.value.len() == 0
        }),
{
    reveal_strlit("true");
    reveal_strlit("false");
    assert("true"@.len() == 4 && "false"@.len() == 5);
    if text.len() == 0 {
        assert(text =~= seq![]);
    }
}

/// The texts in a list that are not empty.
pub open spec fn texts_of(list: Seq<ValueView>) -> Seq<Seq<char>> {
    list.filter(|v: ValueView| v matches ValueView::String(s) && s.len() > 0).map_values(
        |v: ValueView| v->String_0,
    )
}

proof fn lemma_texts(list: Seq<ValueView>)
    ensures
        crate::resolve::texts_in(list) == texts_of(list),
        forall|i: int| 0 <= i < texts_of(list).len() ==> (#[trigger] texts_of(list)[i]).len() > 0,
    decreases list.len(),
{
    reveal(Seq::filter);
    let p = |v: ValueView| v matches ValueView::String(s) && s.len() > 0;
    let f = |v: ValueView| v->String_0;
    if list.len() > 0 {
        lemma_texts(list.drop_last());
        let before = list.drop_last().filter(p);
        if p(list.last()) {
            assert(before.push(list.last()).map_values(f) =~= before.map_values(f).push(
                f(list.last()),
            ));
            assert(texts_of(list) =~= texts_of(list.drop_last()).push(f(list.last())));
        } else {
            assert(texts_of(list) =~= texts_of(list.drop_last()));
        }
        assert(crate::resolve::texts_in(list) =~= texts_of(list));
    } else {
        assert(texts_of(list) =~= seq![]);
    }
}

/// A list is on where it holds a text that is not empty, and its value is these
/// texts, one on each line.
pub proof fn law_values_of_lists(list: Seq<ValueView>, p: Provenance)
    ensures
        ({
            let r = field_from(FieldType::MultiString, Some(ValueView::Array(list)), p);
            &&& r.enabled == (texts_of(list).len() > 0)
            &&& r.var.truthy == (texts_of(list).len() > 0)
            &&& r.var.value == joined(texts_of(list), "\n"@)
        }),
{
    lemma_texts(list);
    let texts = texts_of(list);
    reveal_strlit("\n");
    if texts.len() > 0 {
        assert(texts[0].len() > 0);
        if texts.len() > 1 {
            assert("\n"@.len() == 1);
        }
        assert(joined(texts, "\n"@).len() > 0);
    } else {
        assert(joined(texts, "\n"@) =~= seq![]);
    }
}

/// The fields of an extension are those of its groups, in order.
pub proof fn law_fields_of_groups(
    ui: crate::ordered::Entries<Seq<UiFieldView>>,
    group: (Seq<char>, Seq<UiFieldView>),
)
    ensures
        fields_of(seq![]) == Seq::<UiFieldView>::empty(),
        fields_of(ui.push(group)) == fields_of(ui) + group.1,
{
    assert(ui.push(group).drop_last() =~= ui);
}

/// The game's own profile wins over the default one.
pub proof fn law_own_profile_wins(game: GameConfigView, general: GeneralConfigView)
    ensures
        game.config.modules.preset is Some ==> preset_choice(game, general)
            == game.config.modules.preset,
        game.config.modules.preset is None ==> preset_choice(game, general)
            == general.default_preset,
{
}

/// A game that is saved is taken as it is; one that is not starts empty, under the
/// appid that Steam gave (`unknown` without one) and the name that Steam gave (the
/// appid without one).
pub proof fn law_new_game(
    saved: GameConfigView,
    steam: SteamCommandView,
    author: Seq<char>,
    ext: Seq<char>,
    var: Seq<char>,
)
    ensures
        game_or_new(Some(saved), steam) == saved,
        ({
            let g = game_or_new(None, steam);
            let appid = if steam.appid is Some {
                steam.appid->0
            } else {
                "unknown"@
            };
            &&& g.game.appid == appid
            &&& g.game.name == if steam.game_name is Some {
                steam.game_name->0
            } else {
                appid
            }
            &&& g.config.modules.preset is None
            &&& g.config.general.splash_timeout_secs is None
            &&& stored(g.config.modules.authors, author, ext, var) is None
        }),
{
}

/// Each extension that applies goes into the launch with its own variables, in
/// order.
pub proof fn law_launch_inputs(specs: Seq<ExtensionView>, r: ResolutionView, i: int)
    requires
        0 <= i < specs.len(),
    ensures
        launch_inputs(specs, r).len() == specs.len(),
        launch_inputs(specs, r)[i].spec == specs[i],
        launch_inputs(specs, r)[i].vars == r.store_for(id_of(specs[i].meta)),
{
}

/// On a desktop stand the extensions that ask for none and those that ask for one
/// of its names, without regard to case, in their order; without a desktop, only
/// the former.
pub proof fn law_on_desktop(exts: Seq<LoadedExtensionView>, desktops: Seq<char>)
    ensures
        on_desktop(exts, None) == exts.filter(
            |e: LoadedExtensionView| e.spec.requires_desktop is None,
        ),
        on_desktop(exts, Some(desktops)) == exts.filter(
            |e: LoadedExtensionView| names_desktop(e, desktops),
        ),
    decreases exts.len(),
{
    reveal(Seq::filter);
    if exts.len() > 0 {
        law_on_desktop(exts.drop_last(), desktops);
        let e = exts.last();
        if let Some(wanted) = e.spec.requires_desktop {
            let names = split_at_char(desktops, ':');
            if names_desktop(e, desktops) {
                let i = choose|i: int|
                    0 <= i < names.len() && #[trigger] ascii_lowered(names[i])
                        == ascii_lowered(wanted);
                assert(ascii_lowered(names[i]) == ascii_lowered(wanted));
            }
        }
    }
}

/// The extension asks for no desktop, or for one of these.
pub open spec fn names_desktop(e: LoadedExtensionView, desktops: Seq<char>) -> bool {
    match e.spec.requires_desktop {
        None => true,
        Some(wanted) => exists|i: int|
            0 <= i < split_at_char(desktops, ':').len()
                && #[trigger] ascii_lowered(
                split_at_char(desktops, ':')[i],
            ) == ascii_lowered(wanted),
    }
}

/// A game is launched with the extensions that apply to it, each with its own
/// variables, and by the command that Steam gave, which is kept as it is.
pub proof fn law_launch_of_a_game(game: ResolvedGameView, raw: Seq<Seq<char>>)
    ensures
        game.launch(raw) == built(
            game.specs.map_values(
                |s: ExtensionView|
                    InputView { spec: s, vars: game.resolution.store_for(id_of(s.meta)) },
            ),
            raw,
        ),
        game.launch(raw) matches Ok(l) ==> l.game_command == raw,
{
    let inputs = launch_inputs(game.specs, game.resolution);
    assert(inputs =~= game.specs.map_values(
        |s: ExtensionView| InputView { spec: s, vars: game.resolution.store_for(id_of(s.meta)) },
    ));
}

/// What a field of a resolved game is, and whether it is on, is asked by the id of
/// its extension and its name; what there is not is off and has no value.
pub proof fn law_asking_for_fields(game: ResolvedGameView, id: Seq<char>, var: Seq<char>)
    ensures
        crate::ordered::value_of(game.resolution.exts, id) is None ==> game.field(id, var) is None,
        crate::ordered::value_of(game.resolution.exts, id) matches Some(e) ==> game.field(id, var)
            == crate::ordered::value_of(e.fields, var),
        game.field(id, var) matches Some(f) ==> game.truthy(id, var) == f.var.truthy && game.value(
            id,
            var,
        ) == Some(f.var.value),
        game.field(id, var) is None ==> !game.truthy(id, var) && game.value(id, var) is None,
{
}

/// A walk up the profiles begins with the one that it is asked for; one that is to
/// keep a profile from being its own ancestor has that one behind it already.
pub proof fn law_walks_begin(a: Seq<char>, b: Seq<char>)
    ensures
        walk_from(a).step() == StepView::Load(a),
        walk_below(a, a).step() == StepView::Cycle,
        a != b ==> walk_below(a, b).step() == StepView::Load(b),
{
    assert(seq![a][0] == a);
    assert(walk_below(a, a).seen.contains(a));
}

} // verus!
