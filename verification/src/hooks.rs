//! Extension scripts: lifecycle hooks and script builders.
//!
//! Hooks and scripts run in the extension's directory with the resolved
//! variables exported as `RITZ_VAR_<name>`, and `RITZ_APPID`. Script builders
//! also receive the variables as JSON on stdin, and print contributions to a
//! launch block.

use crate::builder::{
    command_words, split_command, EnvAction, EnvActionView, LaunchCommand, LaunchCommandView,
};
use crate::context::{ResolvedGame, ResolvedGameView};
use crate::data::extend;
use crate::extension::{LoadedExtension, LoadedExtensionView};
use crate::ordered::{distinct, law_put, lemma_found, put, value_of, Entries, OrderedMap};
use crate::paths::{path_join, path_joined};
use crate::resolve::ResolvedFieldView;
use crate::schema::{id_of, HookSpec, HookSpecView, Hooks, HooksView};
use crate::sorting::{order, sort, sorted, text_at_most, text_le, Ordered};
use crate::text::{chars_of, lines, lines_of, same_text, split_first, split_once, trim, trimmed};
use crate::value::{json_text, to_json, Json, ValueView};
use vstd::prelude::*;

verus! {

/// A point in a game's life at which hooks run.
#[derive(Debug, Clone, Copy, PartialEq, Eq, Structural)]
pub enum Stage {
    PreLaunch,
    PostSpawn,
    OnGameReady,
    PostExit,
}

/// The hook of a stage.
pub open spec fn hook_at(hooks: HooksView, stage: Stage) -> Option<HookSpecView> {
    match stage {
        Stage::PreLaunch => hooks.pre_launch,
        Stage::PostSpawn => hooks.post_spawn,
        Stage::OnGameReady => hooks.on_game_ready,
        Stage::PostExit => hooks.post_exit,
    }
}

/// The hook of a stage.
pub fn script_for(hooks: &Hooks, stage: Stage) -> (r: Option<&HookSpec>)
    ensures
        r.deep_view() == hook_at(hooks.deep_view(), stage),
{
    let hook = match stage {
        Stage::PreLaunch => &hooks.pre_launch,
        Stage::PostSpawn => &hooks.post_spawn,
        Stage::OnGameReady => &hooks.on_game_ready,
        Stage::PostExit => &hooks.post_exit,
    };
    match hook {
        Some(h) => Some(h),
        None => None,
    }
}

// ---- The environment of a script -------------------------------------------

/// Fields as `RITZ_VAR_<name>`, behind `env`.
pub open spec fn fields_exported(
    env: Entries<Seq<char>>,
    fields: Entries<ResolvedFieldView>,
) -> Entries<Seq<char>>
    decreases fields.len(),
{
    if fields.len() == 0 {
        env
    } else {
        put(
            fields_exported(env, fields.drop_last()),
            "RITZ_VAR_"@ + fields.last().0,
            fields.last().1.var.value,
        )
    }
}

/// The fields of an extension; none where it is not resolved.
pub open spec fn fields_or_none(game: ResolvedGameView, ext_id: Seq<char>) -> Entries<
    ResolvedFieldView,
> {
    match value_of(game.resolution.exts, ext_id) {
        Some(e) => e.fields,
        None => seq![],
    }
}

/// The environment of an extension's scripts.
pub open spec fn script_env(game: ResolvedGameView, ext_id: Seq<char>) -> Entries<Seq<char>> {
    fields_exported(seq![("RITZ_APPID"@, game.appid)], fields_or_none(game, ext_id))
}

/// Resolved variables for one extension as `RITZ_VAR_<name>` env pairs.
pub fn var_env(game: &ResolvedGame, ext_id: &str) -> (r: OrderedMap<String>)
    ensures
        r.deep_view() == script_env(game.deep_view(), ext_id@),
{
    let mut env: OrderedMap<String> = OrderedMap::new();
    env.insert("RITZ_APPID".to_owned(), game.appid.clone());
    let ghost start = seq![("RITZ_APPID"@, game.appid@)];
    assert(env.deep_view() =~= start);
    match game.resolution.exts.get(ext_id) {
        Some(ext) => {
            let ghost d = ext.fields.deep_view();
            let n: usize = ext.fields.len();
            let mut i: usize = 0;
            assert(fields_exported(start, d.take(0)) == start);
            while i < n
                invariant
                    d == ext.fields.deep_view(),
                    i <= n == d.len(),
                    env.deep_view() == fields_exported(start, d.take(i as int)),
                decreases n - i,
            {
                assert(d.take(i + 1).drop_last() =~= d.take(i as int));
                let field = ext.fields.value_at(i);
                let mut name = "RITZ_VAR_".to_owned();
                name.append(ext.fields.key_at(i).as_str());
                env.insert(name, field.var.value.clone());
                i += 1;
            }
            assert(d.take(n as int) =~= d);
        },
        None => {},
    }
    env
}

// ---- Hooks -----------------------------------------------------------------

/// A hook to run.
#[derive(Debug)]
pub struct HookRun {
    /// The name of the extension, for messages.
    pub name: String,
    /// The directory to run in.
    pub dir: String,
    /// The script as the extension names it, for messages.
    pub script: String,
    /// The script to run.
    pub path: String,
    /// Spawned and not waited on.
    pub background: bool,
    pub env: OrderedMap<String>,
}

/// A [`HookRun`] as contracts speak of it.
#[verifier::ext_equal]
pub struct HookRunView {
    pub name: Seq<char>,
    pub dir: Seq<char>,
    pub script: Seq<char>,
    pub path: Seq<char>,
    pub background: bool,
    pub env: Entries<Seq<char>>,
}

impl DeepView for HookRun {
    type V = HookRunView;

    open spec fn deep_view(&self) -> HookRunView {
        HookRunView {
            name: self.name@,
            dir: self.dir@,
            script: self.script@,
            path: self.path@,
            background: self.background,
            env: self.env.deep_view(),
        }
    }
}

/// The hook that an extension runs at a stage, if it has one.
pub open spec fn hook_run(stage: Stage, game: ResolvedGameView, e: LoadedExtensionView) -> Option<
    HookRunView,
> {
    match e.spec.hooks {
        None => None,
        Some(hooks) => match hook_at(hooks, stage) {
            None => None,
            Some(hook) => Some(
                HookRunView {
                    name: e.spec.meta.name,
                    dir: e.dir,
                    script: hook.script(),
                    path: path_joined(e.dir, hook.script()),
                    background: hook.background(),
                    env: script_env(game, id_of(e.spec.meta)),
                },
            ),
        },
    }
}

/// The hooks that run at a stage, in the order of the extensions.
pub open spec fn hook_runs(
    stage: Stage,
    game: ResolvedGameView,
    exts: Seq<LoadedExtensionView>,
) -> Seq<HookRunView>
    decreases exts.len(),
{
    if exts.len() == 0 {
        seq![]
    } else {
        match hook_run(stage, game, exts.last()) {
            Some(run) => hook_runs(stage, game, exts.drop_last()).push(run),
            None => hook_runs(stage, game, exts.drop_last()),
        }
    }
}

/// The hooks that run at a stage across all applicable extensions.
pub fn plan_stage(stage: Stage, game: &ResolvedGame, exts: &Vec<&LoadedExtension>) -> (r: Vec<
    HookRun,
>)
    ensures
        r.deep_view() == hook_runs(stage, game.deep_view(), exts.deep_view()),
{
    let mut out: Vec<HookRun> = Vec::new();
    let ghost d = exts.deep_view();
    let ghost g = game.deep_view();
    let mut i: usize = 0;
    assert(out.deep_view() =~= hook_runs(stage, g, d.take(0)));
    while i < exts.len()
        invariant
            d == exts.deep_view(),
            g == game.deep_view(),
            i <= exts@.len(),
            out.deep_view() == hook_runs(stage, g, d.take(i as int)),
        decreases exts@.len() - i,
    {
        let ext: &LoadedExtension = exts[i];
        assert(d.take(i + 1).drop_last() =~= d.take(i as int));
        assert(d.take(i + 1).last() == ext.deep_view());
        i += 1;
        let hooks = match &ext.spec.hooks {
            Some(h) => h,
            None => {
                continue ;
            },
        };
        let hook = match script_for(hooks, stage) {
            Some(h) => h,
            None => {
                continue ;
            },
        };
        let ghost before = out.deep_view();
        let run = HookRun {
            name: ext.spec.meta.name.clone(),
            dir: ext.dir.clone(),
            script: hook.script().to_owned(),
            path: path_join(ext.dir.as_str(), hook.script()),
            background: hook.background(),
            env: var_env(game, ext.spec.id().as_str()),
        };
        let ghost v = run.deep_view();
        out.push(run);
        assert(out.deep_view() =~= before.push(v));
    }
    assert(d.take(d.len() as int) =~= d);
    out
}

// ---- Script builders -------------------------------------------------------

/// A variable and its value.
pub struct Member {
    pub name: String,
    pub value: String,
}

impl DeepView for Member {
    type V = (Seq<char>, Seq<char>);

    open spec fn deep_view(&self) -> (Seq<char>, Seq<char>) {
        (self.name@, self.value@)
    }
}

impl Ordered for Member {
    /// By name.
    open spec fn le(a: (Seq<char>, Seq<char>), b: (Seq<char>, Seq<char>)) -> bool {
        text_le(a.0, b.0)
    }

    fn at_most(&self, other: &Self) -> (b: bool) {
        text_at_most(self.name.as_str(), other.name.as_str())
    }
}

/// The variables of fields with their values, in order.
pub open spec fn members(fields: Entries<ResolvedFieldView>) -> Seq<(Seq<char>, Seq<char>)> {
    fields.map_values(|e: (Seq<char>, ResolvedFieldView)| (e.0, e.1.var.value))
}

/// Members as a JSON object of strings.
pub open spec fn object_of(ms: Seq<(Seq<char>, Seq<char>)>) -> ValueView {
    ValueView::Object(
        ms.map_values(|m: (Seq<char>, Seq<char>)| (m.0, ValueView::String(m.1))),
    )
}

/// What a script builder reads on stdin: the extension's variables as a JSON
/// object, by name.
pub open spec fn builder_input(game: ResolvedGameView, ext_id: Seq<char>) -> Seq<char> {
    json_text(object_of(sorted(members(fields_or_none(game, ext_id)), order::<Member>())))
}

/// What a script builder reads on stdin: the extension's variables as a JSON
/// object, by name.
pub fn script_input(game: &ResolvedGame, ext_id: &str) -> (r: String)
    ensures
        r@ == builder_input(game.deep_view(), ext_id@),
{
    let mut list: Vec<Member> = Vec::new();
    let ghost fields = fields_or_none(game.deep_view(), ext_id@);
    let ghost all = members(fields);
    assert(list.deep_view() =~= all.take(0));
    match game.resolution.exts.get(ext_id) {
        Some(ext) => {
            let n: usize = ext.fields.len();
            let mut i: usize = 0;
            while i < n
                invariant
                    fields == ext.fields.deep_view(),
                    all == members(fields),
                    i <= n == fields.len(),
                    list.deep_view() == all.take(i as int),
                decreases n - i,
            {
                let ghost before = list.deep_view();
                let m = Member {
                    name: ext.fields.key_at(i).clone(),
                    value: ext.fields.value_at(i).var.value.clone(),
                };
                assert(m.deep_view() == all[i as int]);
                list.push(m);
                assert(list.deep_view() =~= before.push(all[i as int]));
                i += 1;
                assert(list.deep_view() =~= all.take(i as int));
            }
        },
        None => {},
    }
    assert(list.deep_view() =~= all);
    let ms = sort(list);
    let ghost s = ms.deep_view();
    let ghost obj = object_of(s)->Object_0;
    let mut entries: Vec<(String, Json)> = Vec::new();
    let mut j: usize = 0;
    while j < ms.len()
        invariant
            s == ms.deep_view(),
            obj == object_of(s)->Object_0,
            j <= ms@.len(),
            entries@.len() == j,
            forall|k: int|
                0 <= k < j ==> (#[trigger] entries@[k]).0@ == obj[k].0 && entries@[k].1.deep_view()
                    == obj[k].1,
        decreases ms@.len() - j,
    {
        assert(s[j as int] == ms@[j as int].deep_view());
        entries.push((ms[j].name.clone(), Json::String(ms[j].value.clone())));
        j += 1;
    }
    let object = Json::Object(entries);
    assert(object.deep_view()->Object_0 =~= obj);
    to_json(&object)
}

/// A line `name=value` set in `env`, white space at its ends aside. Lines without
/// `=` are skipped.
pub open spec fn output_line_set(
    env: Entries<EnvActionView>,
    line: Seq<char>,
) -> Entries<EnvActionView> {
    match split_first(trimmed(line), '=') {
        Some((name, value)) => put(env, name, EnvActionView::Assign(value)),
        None => env,
    }
}

/// The lines of an output set in `env`, one after the other.
pub open spec fn output_set(
    env: Entries<EnvActionView>,
    output: Seq<Seq<char>>,
) -> Entries<EnvActionView>
    decreases output.len(),
{
    if output.len() == 0 {
        env
    } else {
        output_line_set(output_set(env, output.drop_last()), output.last())
    }
}

/// The tokens of a line; none where it is blank.
pub open spec fn line_tokens(line: Seq<char>) -> Seq<Seq<char>> {
    if trimmed(line).len() == 0 {
        seq![]
    } else {
        command_words(trimmed(line))
    }
}

/// The tokens of the lines of an output, behind `tokens`.
pub open spec fn output_tokens(tokens: Seq<Seq<char>>, output: Seq<Seq<char>>) -> Seq<Seq<char>>
    decreases output.len(),
{
    if output.len() == 0 {
        tokens
    } else {
        output_tokens(tokens, output.drop_last()) + line_tokens(output.last())
    }
}

/// A launch command with a script builder's output in the named block, or `None`
/// where there is no such block.
pub open spec fn injected(l: LaunchCommandView, block: Seq<char>, output: Seq<char>) -> Option<
    LaunchCommandView,
> {
    let out = lines_of(output);
    if block == "ENV_VARS"@ {
        Some(LaunchCommandView { env_vars: output_set(l.env_vars, out), ..l })
    } else if block == "GAME_ENV_VARS"@ {
        Some(LaunchCommandView { game_env_vars: output_set(l.game_env_vars, out), ..l })
    } else if block == "GAME_LAUNCH_ARGS"@ {
        Some(LaunchCommandView { game_args: output_tokens(l.game_args, out), ..l })
    } else if block == "WRAPPERS"@ {
        Some(LaunchCommandView { wrappers: output_tokens(l.wrappers, out), ..l })
    } else {
        None
    }
}

/// The tokens of a line; none where it is blank.
pub fn split_tokens(line: &str) -> (r: Vec<String>)
    ensures
        r.deep_view() == line_tokens(line@),
{
    let text = trim(line);
    if chars_of(text.as_str()).len() == 0 {
        let out: Vec<String> = Vec::new();
        assert(out.deep_view() =~= seq![]);
        return out;
    }
    split_command(text.as_str())
}

fn set_lines(env: &mut OrderedMap<EnvAction>, output: &Vec<String>)
    ensures
        final(env).deep_view() == output_set(old(env).deep_view(), output.deep_view()),
{
    let ghost start = env.deep_view();
    let ghost d = output.deep_view();
    let mut i: usize = 0;
    assert(output_set(start, d.take(0)) == start);
    while i < output.len()
        invariant
            d == output.deep_view(),
            i <= output@.len(),
            env.deep_view() == output_set(start, d.take(i as int)),
        decreases output@.len() - i,
    {
        assert(d.take(i + 1).drop_last() =~= d.take(i as int));
        assert(d.take(i + 1).last() == output@[i as int]@);
        match split_once(trim(output[i].as_str()).as_str(), '=') {
            Some((k, v)) => env.insert(k, EnvAction::Assign(v)),
            None => {},
        }
        i += 1;
    }
    assert(d.take(d.len() as int) =~= d);
}

fn push_lines(tokens: &mut Vec<String>, output: &Vec<String>)
    ensures
        final(tokens).deep_view() == output_tokens(old(tokens).deep_view(), output.deep_view()),
{
    let ghost start = tokens.deep_view();
    let ghost d = output.deep_view();
    let mut i: usize = 0;
    assert(output_tokens(start, d.take(0)) == start);
    while i < output.len()
        invariant
            d == output.deep_view(),
            i <= output@.len(),
            tokens.deep_view() == output_tokens(start, d.take(i as int)),
        decreases output@.len() - i,
    {
        assert(d.take(i + 1).drop_last() =~= d.take(i as int));
        assert(d.take(i + 1).last() == output@[i as int]@);
        let more = split_tokens(output[i].as_str());
        extend(tokens, &more);
        i += 1;
    }
    assert(d.take(d.len() as int) =~= d);
}

/// Injects a script builder's output into the named launch block. Returns false,
/// and changes nothing, where there is no such block.
pub fn inject(launch: &mut LaunchCommand, block: &str, output: &str) -> (known: bool)
    ensures
        match injected(old(launch).deep_view(), block@, output@) {
            Some(l) => known && final(launch).deep_view() == l,
            None => !known && final(launch).deep_view() == old(launch).deep_view(),
        },
{
    let out = lines(output);
    if same_text(block, "ENV_VARS") {
        set_lines(&mut launch.env_vars, &out);
    } else if same_text(block, "GAME_ENV_VARS") {
        set_lines(&mut launch.game_env_vars, &out);
    } else if same_text(block, "GAME_LAUNCH_ARGS") {
        push_lines(&mut launch.game_args, &out);
    } else if same_text(block, "WRAPPERS") {
        push_lines(&mut launch.wrappers, &out);
    } else {
        return false;
    }
    true
}

// ---- Laws ------------------------------------------------------------------

proof fn lemma_exported_names(a: Seq<char>, b: Seq<char>)
    ensures
        "RITZ_VAR_"@ + a == "RITZ_VAR_"@ + b ==> a == b,
        "RITZ_VAR_"@ + a != "RITZ_APPID"@,
{
    reveal_strlit("RITZ_VAR_");
    reveal_strlit("RITZ_APPID");
    let p = "RITZ_VAR_"@;
    assert((p + a).skip(p.len() as int) =~= a);
    assert((p + b).skip(p.len() as int) =~= b);
    assert((p + a)[5] == 'V');
}

proof fn lemma_exported(start: Entries<Seq<char>>, fields: Entries<ResolvedFieldView>, i: int)
    requires
        distinct(start),
        distinct(fields),
    ensures
        distinct(fields_exported(start, fields)),
        value_of(fields_exported(start, fields), "RITZ_APPID"@) == value_of(start, "RITZ_APPID"@),
        0 <= i < fields.len() ==> value_of(
            fields_exported(start, fields),
            "RITZ_VAR_"@ + fields[i].0,
        ) == Some(fields[i].1.var.value),
    decreases fields.len(),
{
    if fields.len() > 0 {
        let init = fields.drop_last();
        let last = fields.last();
        assert forall|a: int, b: int| 0 <= a < b < init.len() implies (#[trigger] init[a]).0 != (
        #[trigger] init[b]).0 by {
            assert(fields[a].0 != fields[b].0);
        }
        lemma_exported(start, init, i);
        let before = fields_exported(start, init);
        let name = "RITZ_VAR_"@ + last.0;
        lemma_exported_names(last.0, last.0);
        law_put(before, name, last.1.var.value, "RITZ_APPID"@);
        if 0 <= i < fields.len() {
            lemma_exported_names(fields[i].0, last.0);
            law_put(before, name, last.1.var.value, "RITZ_VAR_"@ + fields[i].0);
            if i < init.len() {
                assert(fields[i].0 != fields[fields.len() - 1].0);
            }
        }
    }
}

/// A script sees each variable of its extension as it is resolved (an empty value
/// as the empty text), and the id of the game.
pub proof fn law_scripts_see_the_variables(game: ResolvedGameView, ext_id: Seq<char>, i: int)
    requires
        distinct(fields_or_none(game, ext_id)),
    ensures
        value_of(script_env(game, ext_id), "RITZ_APPID"@) == Some(game.appid),
        0 <= i < fields_or_none(game, ext_id).len() ==> value_of(
            script_env(game, ext_id),
            "RITZ_VAR_"@ + fields_or_none(game, ext_id)[i].0,
        ) == Some(fields_or_none(game, ext_id)[i].1.var.value),
{
    let start = seq![("RITZ_APPID"@, game.appid)];
    lemma_found(start, 0);
    lemma_exported(start, fields_or_none(game, ext_id), i);
}

/// A script builder never touches the game command, and changes one block at
/// most.
pub proof fn law_injecting_keeps_the_command(
    l: LaunchCommandView,
    block: Seq<char>,
    output: Seq<char>,
)
    ensures
        injected(l, block, output) matches Some(m) ==> {
            &&& m.game_command == l.game_command
            &&& block != "ENV_VARS"@ ==> m.env_vars == l.env_vars
            &&& block != "GAME_ENV_VARS"@ ==> m.game_env_vars == l.game_env_vars
            &&& block != "GAME_LAUNCH_ARGS"@ ==> m.game_args == l.game_args
            &&& block != "WRAPPERS"@ ==> m.wrappers == l.wrappers
        },
{
}

/// What a script builder adds to arguments or wrappers stands behind what is
/// there.
pub proof fn law_tokens_are_appended(tokens: Seq<Seq<char>>, output: Seq<Seq<char>>)
    ensures
        crate::text::begins(output_tokens(tokens, output), tokens),
    decreases output.len(),
{
    let n = tokens.len() as int;
    if output.len() > 0 {
        law_tokens_are_appended(tokens, output.drop_last());
        let init = output_tokens(tokens, output.drop_last());
        assert(output_tokens(tokens, output).take(n) =~= init.take(n));
    } else {
        assert(tokens.take(n) =~= tokens);
    }
}

} // verus!
