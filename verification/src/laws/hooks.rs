//! When the scripts of an extension run, and what a builder's output does.

use vstd::prelude::*;

use crate::builder::{command_words, EnvActionView, LaunchCommandView};
use crate::context::ResolvedGameView;
use crate::extension::LoadedExtensionView;
use crate::hooks::{
    builder_input, fields_or_none, hook_run, hook_runs, injected, members, object_of, output_set,
    output_tokens, script_env, HookRunView, Stage,
};
use crate::ordered::{distinct, law_put, value_of, Entries};
use crate::paths::path_joined;
use crate::schema::{id_of, HookSpecView};
use crate::text::{lines_of, trimmed};
use crate::value::{json_quoted, ValueView};

verus! {

/// The run is that of this script of the extension: its own folder, its own
/// variables, in the background where and only where the script says so.
pub open spec fn runs_script(
    run: HookRunView,
    game: ResolvedGameView,
    e: LoadedExtensionView,
    hook: HookSpecView,
) -> bool {
    &&& run.name == e.spec.meta.name
    &&& run.dir == e.dir
    &&& run.env == script_env(game, id_of(e.spec.meta))
    &&& match hook {
        HookSpecView::Simple(script) => run.script == script && run.path == path_joined(
            e.dir,
            script,
        ) && !run.background,
        HookSpecView::Detailed { script, background } => run.script == script && run.path
            == path_joined(e.dir, script) && run.background == background,
    }
}

/// The scripts of one stage, one for each extension that has one for it.
pub open spec fn run_for(
    runs: Seq<HookRunView>,
    game: ResolvedGameView,
    e: LoadedExtensionView,
    hook: Option<HookSpecView>,
) -> bool {
    match hook {
        Some(hook) => runs.len() == 1 && runs_script(runs[0], game, e, hook),
        None => runs.len() == 0,
    }
}

/// Each stage runs the script that the extension has for it: before the launch
/// `pre_launch`, behind the spawn `post_spawn`, when the game is ready
/// `on_game_ready`, and behind the exit `post_exit`; no script, no run.
pub proof fn law_stages_run_their_scripts(game: ResolvedGameView, e: LoadedExtensionView)
    ensures
        e.spec.hooks matches Some(h) ==> {
            &&& run_for(hook_runs(Stage::PreLaunch, game, seq![e]), game, e, h.pre_launch)
            &&& run_for(hook_runs(Stage::PostSpawn, game, seq![e]), game, e, h.post_spawn)
            &&& run_for(hook_runs(Stage::OnGameReady, game, seq![e]), game, e, h.on_game_ready)
            &&& run_for(hook_runs(Stage::PostExit, game, seq![e]), game, e, h.post_exit)
        },
        e.spec.hooks is None ==> {
            &&& hook_runs(Stage::PreLaunch, game, seq![e]).len() == 0
            &&& hook_runs(Stage::PostSpawn, game, seq![e]).len() == 0
            &&& hook_runs(Stage::OnGameReady, game, seq![e]).len() == 0
            &&& hook_runs(Stage::PostExit, game, seq![e]).len() == 0
        },
{
    let one = seq![e];
    assert(one.drop_last() =~= seq![]);
    assert(one.last() == e);
    reveal_with_fuel(hook_runs, 2);
}

/// Scripts run in the order of their extensions, and none for the others' sake.
pub proof fn law_scripts_run_in_order(
    stage: Stage,
    game: ResolvedGameView,
    a: Seq<LoadedExtensionView>,
    b: Seq<LoadedExtensionView>,
)
    ensures
        hook_runs(stage, game, a + b) == hook_runs(stage, game, a) + hook_runs(stage, game, b),
        hook_runs(stage, game, seq![]) == Seq::<HookRunView>::empty(),
    decreases b.len(),
{
    if b.len() == 0 {
        assert(a + b =~= a);
        assert(hook_runs(stage, game, a) + hook_runs(stage, game, b) =~= hook_runs(
            stage,
            game,
            a,
        ));
    } else {
        law_scripts_run_in_order(stage, game, a, b.drop_last());
        assert((a + b).drop_last() =~= a + b.drop_last());
        assert((a + b).last() == b.last());
        if let Some(run) = hook_run(stage, game, b.last()) {
            let before = hook_runs(stage, game, a);
            let after = hook_runs(stage, game, b.drop_last());
            assert((before + after).push(run) =~= before + after.push(run));
        }
    }
}

/// The output of a builder goes into the block that the builder is for, as one
/// setting on each line for the two environments, and as words for the wrappers
/// and the arguments; a block of another name is not known.
pub proof fn law_output_goes_to_its_block(l: LaunchCommandView, block: Seq<char>, output: Seq<char>)
    ensures
        injected(l, "ENV_VARS"@, output) == Some(
            LaunchCommandView { env_vars: output_set(l.env_vars, lines_of(output)), ..l },
        ),
        injected(l, "GAME_ENV_VARS"@, output) == Some(
            LaunchCommandView {
                game_env_vars: output_set(l.game_env_vars, lines_of(output)),
                ..l
            },
        ),
        injected(l, "GAME_LAUNCH_ARGS"@, output) == Some(
            LaunchCommandView { game_args: output_tokens(l.game_args, lines_of(output)), ..l },
        ),
        injected(l, "WRAPPERS"@, output) == Some(
            LaunchCommandView { wrappers: output_tokens(l.wrappers, lines_of(output)), ..l },
        ),
        block != "ENV_VARS"@ && block != "GAME_ENV_VARS"@ && block != "GAME_LAUNCH_ARGS"@ && block
            != "WRAPPERS"@ ==> injected(l, block, output) is None,
{
    reveal_strlit("ENV_VARS");
    reveal_strlit("GAME_ENV_VARS");
    reveal_strlit("GAME_LAUNCH_ARGS");
    reveal_strlit("WRAPPERS");
    assert("ENV_VARS"@.len() == 8 && "GAME_ENV_VARS"@.len() == 13 && "GAME_LAUNCH_ARGS"@.len() == 16
        && "WRAPPERS"@.len() == 8);
    assert("ENV_VARS"@[0] == 'E' && "WRAPPERS"@[0] == 'W');
}

proof fn lemma_output_distinct(env: Entries<EnvActionView>, lines: Seq<Seq<char>>)
    requires
        distinct(env),
    ensures
        distinct(output_set(env, lines)),
    decreases lines.len(),
{
    if lines.len() > 0 {
        lemma_output_distinct(env, lines.drop_last());
        if let Some((name, value)) = crate::text::split_first(trimmed(lines.last()), '=') {
            law_put(
                output_set(env, lines.drop_last()),
                name,
                EnvActionView::Assign(value),
                name,
            );
        }
    }
}

/// A line `name=value` of the output sets that variable, the white space round it
/// aside, and leaves the others; a line without `=` sets none.
pub proof fn law_output_sets(
    env: Entries<EnvActionView>,
    lines: Seq<Seq<char>>,
    line: Seq<char>,
    name: Seq<char>,
    value: Seq<char>,
    other: Seq<char>,
)
    requires
        distinct(env),
        !name.contains('='),
    ensures
        output_set(env, seq![]) == env,
        trimmed(line) == name + seq!['='] + value ==> {
            let more = output_set(env, lines.push(line));
            &&& value_of(more, name) == Some(EnvActionView::Assign(value))
            &&& other != name ==> value_of(more, other) == value_of(output_set(env, lines), other)
        },
        !trimmed(line).contains('=') ==> output_set(env, lines.push(line)) == output_set(
            env,
            lines,
        ),
{
    assert(lines.push(line).drop_last() =~= lines);
    crate::laws::text::law_split_first(name, '=', value);
    if !trimmed(line).contains('=') {
        crate::laws::text::law_split_first(trimmed(line), '=', seq![]);
    }
    lemma_output_distinct(env, lines);
    law_put(output_set(env, lines), name, EnvActionView::Assign(value), other);
}

/// The words of each line of the output stand behind those of the lines before it;
/// a blank line adds none.
pub proof fn law_output_words(tokens: Seq<Seq<char>>, lines: Seq<Seq<char>>, line: Seq<char>)
    ensures
        output_tokens(tokens, seq![]) == tokens,
        trimmed(line).len() == 0 ==> output_tokens(tokens, lines.push(line)) == output_tokens(
            tokens,
            lines,
        ),
        trimmed(line).len() > 0 ==> output_tokens(tokens, lines.push(line)) == output_tokens(
            tokens,
            lines,
        ) + command_words(trimmed(line)),
{
    assert(lines.push(line).drop_last() =~= lines);
    let before = output_tokens(tokens, lines);
    assert(before + Seq::<Seq<char>>::empty() =~= before);
}

/// A builder is given its extension's variables: an object with the value of each
/// field as a text under its name.
pub proof fn law_builder_input(game: ResolvedGameView, ext_id: Seq<char>, i: int)
    requires
        0 <= i < fields_or_none(game, ext_id).len(),
    ensures
        members(fields_or_none(game, ext_id)).len() == fields_or_none(game, ext_id).len(),
        members(fields_or_none(game, ext_id))[i] == (
            fields_or_none(game, ext_id)[i].0,
            fields_or_none(game, ext_id)[i].1.var.value,
        ),
        object_of(members(fields_or_none(game, ext_id)))->Object_0[i] == (
            fields_or_none(game, ext_id)[i].0,
            ValueView::String(fields_or_none(game, ext_id)[i].1.var.value),
        ),
{
}

/// What a builder gets of one field is the object with that field alone.
pub proof fn law_builder_input_of_one(game: ResolvedGameView, ext_id: Seq<char>)
    requires
        fields_or_none(game, ext_id).len() == 1,
    ensures
        ({
            let (name, field) = fields_or_none(game, ext_id)[0];
            builder_input(game, ext_id) == "{"@ + (json_quoted(name) + ":"@ + json_quoted(
                field.var.value,
            )) + "}"@
        }),
{
    let (name, field) = fields_or_none(game, ext_id)[0];
    let ms = members(fields_or_none(game, ext_id));
    let le = crate::sorting::order::<crate::hooks::Member>();
    assert(ms =~= seq![(name, field.var.value)]);
    assert(ms.drop_last() =~= seq![]);
    reveal_with_fuel(crate::sorting::sorted, 2);
    assert(crate::sorting::sorted(ms, le) =~= ms);
    let o = seq![(name, ValueView::String(field.var.value))];
    assert(object_of(ms)->Object_0 =~= o);
    assert(o.drop_last() =~= seq![]);
    let text = json_quoted(name) + ":"@ + json_quoted(field.var.value);
    reveal_with_fuel(crate::value::json_members, 2);
    reveal_with_fuel(crate::value::json_text, 2);
    assert(crate::value::json_members(o) =~= seq![text]);
}

} // verus!
