//! What the launch command is made of.

use vstd::prelude::*;

use crate::builder::{
    any_unset, backends_applied, built, env_block, env_words, inputs_args, is_plain, lines_kept,
    lines_set, list_set, merged, prefix_words, quoted, shim_words, wrapper_block, Blocks,
    EnvActionView, EnvScope, InputView, LaunchCommandView,
};
use crate::error::ErrorView;
use crate::laws::text::{law_split, law_split_first};
use crate::ordered::{distinct, law_put, value_of, Entries};
use crate::schema::ExtensionView;
use crate::text::{joined, replaced, split_at_char};

verus! {

/// The input handled by this backend.
pub open spec fn handled_by(x: InputView, backend: Option<Seq<char>>) -> InputView {
    InputView { spec: ExtensionView { backend, ..x.spec }, ..x }
}

/// No input hands its values to the command by a list.
pub open spec fn no_lists(inputs: Seq<InputView>) -> bool {
    forall|k: int|
        0 <= k < inputs.len() ==> (#[trigger] inputs[k]).spec.backend != Some("custom-env"@)
            && inputs[k].spec.backend != Some("custom-game-env"@) && inputs[k].spec.backend != Some(
            "custom-args"@,
        )
}

proof fn lemma_no_lists(b: Blocks, inputs: Seq<InputView>)
    requires
        no_lists(inputs),
    ensures
        backends_applied(b, inputs) == b,
    decreases inputs.len(),
{
    if inputs.len() > 0 {
        let init = inputs.drop_last();
        assert forall|k: int| 0 <= k < init.len() implies (#[trigger] init[k]).spec.backend != Some(
            "custom-env"@,
        ) && init[k].spec.backend != Some("custom-game-env"@) && init[k].spec.backend != Some(
            "custom-args"@,
        ) by {
            assert(init[k] == inputs[k]);
        }
        lemma_no_lists(b, init);
        assert(inputs.last() == inputs[inputs.len() - 1]);
    }
}

/// Without lists the command is made of its five parts, each in its own place: the
/// chain environment, the wrappers, the game environment, the game's own command
/// and the launch arguments. Where one of them fails, the first that fails is the
/// error.
pub proof fn law_parts_of_a_launch(inputs: Seq<InputView>, game_command: Seq<Seq<char>>)
    requires
        no_lists(inputs),
    ensures
        ({
            let chain = env_block(inputs, EnvScope::Chain);
            let wrappers = wrapper_block(inputs);
            let game = env_block(inputs, EnvScope::Game);
            let args = inputs_args(inputs, seq![]);
            built(inputs, game_command) == if chain is Err {
                Err(chain->Err_0)
            } else if wrappers is Err {
                Err(wrappers->Err_0)
            } else if game is Err {
                Err(game->Err_0)
            } else if args is Err {
                Err(args->Err_0)
            } else {
                Ok(
                    LaunchCommandView {
                        env_vars: chain->Ok_0,
                        wrappers: wrappers->Ok_0,
                        game_env_vars: game->Ok_0,
                        game_command,
                        game_args: args->Ok_0,
                    },
                )
            }
        }),
{
    if let Ok(env) = env_block(inputs, EnvScope::Chain) {
        if let Ok(game_env) = env_block(inputs, EnvScope::Game) {
            if let Ok(args) = inputs_args(inputs, seq![]) {
                lemma_no_lists(Blocks { env, game_env, args }, inputs);
            }
        }
    }
}

/// An extension whose backend is a list adds what the list says to its own part of
/// the command, behind what its declarations come to, and leaves the others alone:
/// `custom-env` its variable `env` to the chain environment, `custom-game-env` its
/// variable `game_env` to the game environment, and `custom-args` the lines of its
/// variable `args` to the launch arguments. Every other backend adds nothing.
pub proof fn law_lists_are_added(
    first: Seq<InputView>,
    x: InputView,
    backend: Seq<char>,
    game_command: Seq<Seq<char>>,
)
    ensures
        ({
            let without = built(first.push(handled_by(x, None)), game_command);
            let with = built(first.push(handled_by(x, Some(backend))), game_command);
            match without {
                Err(e) => with == Err::<LaunchCommandView, ErrorView>(e),
                Ok(l) => with == Ok::<LaunchCommandView, ErrorView>(
                    if backend == "custom-env"@ {
                        LaunchCommandView {
                            env_vars: list_set(l.env_vars, x.vars.value("env"@)),
                            ..l
                        }
                    } else if backend == "custom-game-env"@ {
                        LaunchCommandView {
                            game_env_vars: list_set(l.game_env_vars, x.vars.value("game_env"@)),
                            ..l
                        }
                    } else if backend == "custom-args"@ {
                        LaunchCommandView {
                            game_args: lines_kept(
                                l.game_args,
                                split_at_char(x.vars.value("args"@), '\n'),
                            ),
                            ..l
                        }
                    } else {
                        l
                    },
                ),
            }
        }),
{
    let a = first.push(handled_by(x, None));
    let y = handled_by(x, Some(backend));
    let b = first.push(y);
    let k = first.len() as int;
    assert(b =~= a.update(k, y));
    crate::laws::environment::lemma_inputs_same(a, k, y, EnvScope::Chain, seq![]);
    crate::laws::environment::lemma_inputs_same(a, k, y, EnvScope::Game, seq![]);
    crate::laws::wrappers::lemma_from_same(a, k, y, 0, seq![]);
    crate::laws::arguments::lemma_inputs_same(a, k, y, seq![]);
    assert(a.drop_last() =~= first);
    assert(b.drop_last() =~= first);
}

/// A line `name=value` of a list sets that variable and leaves the others; a line
/// without a name or without `=` sets none. Later lines win over earlier ones.
pub proof fn law_list_lines(
    env: Entries<EnvActionView>,
    list: Seq<char>,
    name: Seq<char>,
    value: Seq<char>,
    other: Seq<char>,
)
    requires
        distinct(env),
        !name.contains('=') && !name.contains('\n'),
        !value.contains('\n'),
    ensures
        list_set(env, seq![]) == env,
        ({
            let more = list_set(env, list + seq!['\n'] + (name + seq!['='] + value));
            let before = list_set(env, list);
            if name.len() > 0 {
                &&& value_of(more, name) == Some(EnvActionView::Assign(value))
                &&& other != name ==> value_of(more, other) == value_of(before, other)
            } else {
                more == before
            }
        }),
        list_set(env, list + seq!['\n'] + name) == list_set(env, list),
        name.len() > 0 ==> value_of(list_set(env, name + seq!['='] + value), name) == Some(
            EnvActionView::Assign(value),
        ),
{
    let line = name + seq!['='] + value;
    assert(!line.contains('\n')) by {
        if line.contains('\n') {
            let i = choose|i: int| 0 <= i < line.len() && line[i] == '\n';
            if i < name.len() {
                assert(name[i] == '\n');
                assert(name.contains('\n'));
            } else if i > name.len() {
                assert(value[i - name.len() - 1] == '\n');
                assert(value.contains('\n'));
            }
        }
    }
    law_split(seq![], '\n', seq![]);
    assert(!Seq::<char>::empty().contains('\n'));
    assert(!Seq::<char>::empty().contains('='));
    law_split_first(seq![], '=', seq![]);
    reveal_with_fuel(lines_set, 2);
    assert(seq![Seq::<char>::empty()].drop_last() =~= seq![]);
    law_split(list, '\n', line);
    law_split(line, '\n', seq![]);
    law_split(list, '\n', name);
    law_split(name, '\n', seq![]);
    let lines = split_at_char(list, '\n');
    assert((lines + seq![line]).drop_last() =~= lines);
    assert((lines + seq![line]).last() == line);
    assert((lines + seq![name]).drop_last() =~= lines);
    assert((lines + seq![name]).last() == name);
    law_split_first(name, '=', value);
    lemma_lines_distinct(env, lines);
    law_put(list_set(env, list), name, EnvActionView::Assign(value), other);
    law_put(env, name, EnvActionView::Assign(value), other);
    assert(seq![line].drop_last() =~= seq![]);
}

proof fn lemma_lines_distinct(env: Entries<EnvActionView>, lines: Seq<Seq<char>>)
    requires
        distinct(env),
    ensures
        distinct(lines_set(env, lines)),
    decreases lines.len(),
{
    if lines.len() > 0 {
        lemma_lines_distinct(env, lines.drop_last());
        if let Some((name, value)) = crate::text::split_first(lines.last(), '=') {
            law_put(
                lines_set(env, lines.drop_last()),
                name,
                EnvActionView::Assign(value),
                name,
            );
        }
    }
}

/// Each line of a list of arguments that is not empty is one argument, as it is
/// written, behind those before it.
pub proof fn law_argument_lines(args: Seq<Seq<char>>, list: Seq<char>, line: Seq<char>)
    requires
        !line.contains('\n'),
    ensures
        lines_kept(args, split_at_char(seq![], '\n')) == args,
        line.len() > 0 ==> lines_kept(args, split_at_char(line, '\n')) == args.push(line),
        lines_kept(args, split_at_char(list + seq!['\n'] + line, '\n')) == if line.len() == 0 {
            lines_kept(args, split_at_char(list, '\n'))
        } else {
            lines_kept(args, split_at_char(list, '\n')).push(line)
        },
{
    reveal_with_fuel(lines_kept, 2);
    law_split(seq![], '\n', seq![]);
    assert(!Seq::<char>::empty().contains('\n'));
    assert(seq![Seq::<char>::empty()].drop_last() =~= seq![]);
    law_split(line, '\n', seq![]);
    assert(seq![line].drop_last() =~= seq![]);
    law_split(list, '\n', line);
    let lines = split_at_char(list, '\n');
    assert((lines + seq![line]).drop_last() =~= lines);
    assert((lines + seq![line]).last() == line);
}

/// A variable that is set is written `name=value`, one that is unset `-u name`, in
/// the order of the environment; the words of the shim stand behind `env`, and so
/// do those of the shown prefix where a variable is unset.
pub proof fn law_environment_words(
    env: Entries<EnvActionView>,
    name: Seq<char>,
    value: Seq<char>,
)
    ensures
        env_words(seq![], false) == Seq::<Seq<char>>::empty(),
        env_words(env.push((name, EnvActionView::Assign(value))), false) == env_words(
            env,
            false,
        ).push(name + "="@ + value),
        env_words(env.push((name, EnvActionView::Unset)), false) == env_words(env, false) + seq![
            "-u"@,
            name,
        ],
        shim_words(env, false) == seq!["env"@] + env_words(env, false),
        (forall|i: int| 0 <= i < env.len() ==> (#[trigger] env[i]).1 is Assign) ==> prefix_words(
            env,
        ) == env_words(env, true),
        prefix_words(env.push((name, EnvActionView::Unset))) == seq!["env"@] + env_words(
            env.push((name, EnvActionView::Unset)),
            true,
        ),
{
    let a = env.push((name, EnvActionView::Assign(value)));
    let b = env.push((name, EnvActionView::Unset));
    assert(a.drop_last() =~= env);
    assert(b.drop_last() =~= env);
    assert(env_words(a, false) =~= env_words(env, false).push(name + "="@ + value));
    assert(b[env.len() as int].1 is Unset);
    assert(any_unset(b));
}

/// Without a wrapper the game runs on its own words, in the environment of the
/// chain with the game's own variables over it; the arguments stand last.
pub proof fn law_unwrapped_game(l: LaunchCommandView, name: Seq<char>)
    requires
        l.wrappers.len() == 0,
        distinct(l.env_vars),
        distinct(l.game_env_vars),
    ensures
        l.argv() == l.game_command + l.game_args,
        value_of(l.child_env(), name) == match value_of(l.game_env_vars, name) {
            Some(a) => Some(a),
            None => value_of(l.env_vars, name),
        },
        l.game_command.len() > 0 ==> (l.plan() matches Some(p) && p.program == l.game_command[0]
            && p.args == l.game_command.drop_first() + l.game_args && p.env == l.child_env()),
        l.game_command.len() == 0 ==> l.plan() is None,
{
    crate::builder::law_merged(l.env_vars, l.game_env_vars, name);
    assert(l.argv() =~= l.game_command + l.game_args);
    if l.game_command.len() > 0 {
        assert(l.argv().drop_first() =~= l.game_command.drop_first() + l.game_args);
    }
}

/// With a wrapper the first wrapper runs, in the environment of the chain; behind
/// the wrappers stand the game's own variables, if it has any, its command and its
/// arguments.
pub proof fn law_wrapped_game(l: LaunchCommandView)
    requires
        l.wrappers.len() > 0,
        l.game_command.len() > 0,
    ensures
        l.plan() matches Some(p) && p.program == l.wrappers[0] && p.env == l.env_vars && seq![
            p.program,
        ] + p.args == l.argv(),
        l.game_env_vars.len() == 0 ==> l.argv() == l.wrappers + l.game_command + l.game_args,
        l.game_env_vars.len() > 0 ==> l.argv() == l.wrappers + seq!["env"@] + env_words(
            l.game_env_vars,
            false,
        ) + l.game_command + l.game_args,
{
    assert(seq![l.argv()[0]] + l.argv().drop_first() =~= l.argv());
    if l.game_env_vars.len() == 0 {
        assert(l.argv() =~= l.wrappers + l.game_command + l.game_args);
    } else {
        assert(l.argv() =~= l.wrappers + seq!["env"@] + env_words(l.game_env_vars, false)
            + l.game_command + l.game_args);
    }
}

/// The command is shown on one line: first the environment, then the wrappers,
/// then the game's own environment behind `env`, then the game's command and its
/// arguments, each word quoted where it needs to be.
pub proof fn law_shown_line(l: LaunchCommandView)
    ensures
        l.line() == joined(l.shown(), " "@),
        l.wrappers.len() == 0 ==> l.shown() == prefix_words(
            merged(l.env_vars, l.game_env_vars),
        ) + l.game_command.map_values(|w: Seq<char>| quoted(w)) + l.game_args.map_values(
            |w: Seq<char>| quoted(w),
        ),
        l.wrappers.len() > 0 && l.game_env_vars.len() == 0 ==> l.shown() == prefix_words(l.env_vars)
            + l.wrappers.map_values(|w: Seq<char>| quoted(w)) + l.game_command.map_values(
            |w: Seq<char>| quoted(w),
        ) + l.game_args.map_values(|w: Seq<char>| quoted(w)),
        l.wrappers.len() > 0 && l.game_env_vars.len() > 0 ==> l.shown() == prefix_words(l.env_vars)
            + l.wrappers.map_values(|w: Seq<char>| quoted(w)) + seq!["env"@] + env_words(
            l.game_env_vars,
            true,
        ) + l.game_command.map_values(|w: Seq<char>| quoted(w)) + l.game_args.map_values(
            |w: Seq<char>| quoted(w),
        ),
{
    let q = |w: Seq<char>| quoted(w);
    if l.wrappers.len() > 0 && l.game_env_vars.len() == 0 {
        assert(l.shown() =~= prefix_words(l.env_vars) + l.wrappers.map_values(q)
            + l.game_command.map_values(q) + l.game_args.map_values(q));
    } else if l.wrappers.len() > 0 {
        assert(l.shown() =~= prefix_words(l.env_vars) + l.wrappers.map_values(q) + seq!["env"@]
            + env_words(l.game_env_vars, true) + l.game_command.map_values(q)
            + l.game_args.map_values(q));
    }
}

/// Harmless are letters, digits and ten signs, none of which a shell reads as its
/// own.
pub proof fn law_plain_signs(c: char)
    ensures
        is_plain(c) <==> ('a' <= c <= 'z') || ('A' <= c <= 'Z') || ('0' <= c <= '9') || c == '-' || c
            == '_' || c == '=' || c == '/' || c == '.' || c == ',' || c == ':' || c == '+' || c
            == '@' || c == '%',
{
}

/// A word of letters, digits and harmless signs is shown as it is, and every other
/// one in quotes; a quote in it is written outside of them.
pub proof fn law_quoted_words(s: Seq<char>)
    ensures
        s.len() == 0 ==> quoted(s) == "''"@,
        s.len() > 0 && (forall|i: int| 0 <= i < s.len() ==> is_plain(#[trigger] s[i])) ==> quoted(s)
            == s,
        s.len() > 0 && (exists|i: int| 0 <= i < s.len() && !is_plain(#[trigger] s[i])) ==> quoted(s)
            == "'"@ + replaced(s, "'"@, "'\\''"@) + "'"@,
{
}

} // verus!
