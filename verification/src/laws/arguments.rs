//! What the launch arguments of the extensions come to.

use vstd::prelude::*;

use crate::builder::{args_added, command_words, inputs_args, met, words_or, InputView};
use crate::error::ErrorView;
use crate::schema::{ArgSpecView, ExtensionView};
use crate::variables::VarStoreView;

verus! {

/// The input with these arguments.
pub open spec fn passing(x: InputView, args: Seq<ArgSpecView>) -> InputView {
    InputView { spec: ExtensionView { game_launch_args: args, ..x.spec }, ..x }
}

proof fn lemma_args_push(
    args: Seq<ArgSpecView>,
    a: ArgSpecView,
    vars: VarStoreView,
    acc: Seq<Seq<char>>,
)
    ensures
        args_added(args.push(a), vars, acc) == match args_added(args, vars, acc) {
            Err(e) => Err(e),
            Ok(words) => match met(a.requirement, vars) {
                Err(e) => Err(e),
                Ok(false) => Ok(words),
                Ok(true) => Ok(words + command_words(vars.interpolated(a.value))),
            },
        },
    decreases args.len(),
{
    let all = args.push(a);
    if args.len() == 0 {
        assert(all[0] == a);
        assert(all.drop_first() =~= seq![]);
        reveal_with_fuel(args_added, 2);
    } else {
        assert(all[0] == args[0]);
        assert(all.drop_first() =~= args.drop_first().push(a));
        lemma_args_push(args.drop_first(), a, vars, acc);
        let next = acc + command_words(vars.interpolated(args[0].value));
        lemma_args_push(args.drop_first(), a, vars, next);
    }
}

proof fn lemma_args_remove(
    args: Seq<ArgSpecView>,
    j: int,
    vars: VarStoreView,
    acc: Seq<Seq<char>>,
)
    requires
        0 <= j < args.len(),
        met(args[j].requirement, vars) == Ok::<bool, ErrorView>(false),
    ensures
        args_added(args.remove(j), vars, acc) == args_added(args, vars, acc),
    decreases args.len(),
{
    let less = args.remove(j);
    if j == 0 {
        assert(less =~= args.drop_first());
    } else {
        assert(less[0] == args[0]);
        assert(less.drop_first() =~= args.drop_first().remove(j - 1));
        lemma_args_remove(args.drop_first(), j - 1, vars, acc);
        let next = acc + command_words(vars.interpolated(args[0].value));
        lemma_args_remove(args.drop_first(), j - 1, vars, next);
    }
}

proof fn lemma_inputs_push(first: Seq<InputView>, y: InputView, acc: Seq<Seq<char>>)
    ensures
        inputs_args(first.push(y), acc) == match inputs_args(first, acc) {
            Err(e) => Err(e),
            Ok(words) => args_added(y.spec.game_launch_args, y.vars, words),
        },
    decreases first.len(),
{
    let all = first.push(y);
    if first.len() == 0 {
        assert(all[0] == y);
        assert(all.drop_first() =~= seq![]);
        reveal_with_fuel(inputs_args, 2);
    } else {
        assert(all[0] == first[0]);
        assert(all.drop_first() =~= first.drop_first().push(y));
        if let Ok(words) = args_added(first[0].spec.game_launch_args, first[0].vars, acc) {
            lemma_inputs_push(first.drop_first(), y, words);
        }
    }
}

pub proof fn lemma_inputs_same(inputs: Seq<InputView>, k: int, y: InputView, acc: Seq<Seq<char>>)
    requires
        0 <= k < inputs.len(),
        forall|m: Seq<Seq<char>>|
            #[trigger] args_added(y.spec.game_launch_args, y.vars, m) == args_added(
                inputs[k].spec.game_launch_args,
                inputs[k].vars,
                m,
            ),
    ensures
        inputs_args(inputs.update(k, y), acc) == inputs_args(inputs, acc),
    decreases inputs.len(),
{
    let other = inputs.update(k, y);
    if k == 0 {
        assert(other.drop_first() =~= inputs.drop_first());
        assert(args_added(y.spec.game_launch_args, y.vars, acc) == args_added(
            inputs[0].spec.game_launch_args,
            inputs[0].vars,
            acc,
        ));
    } else {
        assert(other[0] == inputs[0]);
        assert(other.drop_first() =~= inputs.drop_first().update(k - 1, y));
        if let Ok(words) = args_added(inputs[0].spec.game_launch_args, inputs[0].vars, acc) {
            lemma_inputs_same(inputs.drop_first(), k - 1, y, words);
        }
    }
}

// ---- Laws ------------------------------------------------------------------

/// Without extensions, and from an extension without arguments, nothing comes.
pub proof fn law_nothing_passed(first: Seq<InputView>, x: InputView)
    ensures
        inputs_args(seq![], seq![]) == Ok::<Seq<Seq<char>>, ErrorView>(seq![]),
        inputs_args(first.push(passing(x, seq![])), seq![]) == inputs_args(first, seq![]),
{
    lemma_inputs_push(first, passing(x, seq![]), seq![]);
}

/// An argument whose condition is false is as good as not written.
pub proof fn law_false_argument_is_nothing(inputs: Seq<InputView>, k: int, j: int)
    requires
        0 <= k < inputs.len(),
        0 <= j < inputs[k].spec.game_launch_args.len(),
        met(inputs[k].spec.game_launch_args[j].requirement, inputs[k].vars) == Ok::<
            bool,
            ErrorView,
        >(false),
    ensures
        inputs_args(
            inputs.update(k, passing(inputs[k], inputs[k].spec.game_launch_args.remove(j))),
            seq![],
        ) == inputs_args(inputs, seq![]),
{
    let args = inputs[k].spec.game_launch_args;
    let y = passing(inputs[k], args.remove(j));
    assert forall|m: Seq<Seq<char>>|
        #[trigger] args_added(y.spec.game_launch_args, y.vars, m) == args_added(
            args,
            inputs[k].vars,
            m,
        ) by {
        lemma_args_remove(args, j, inputs[k].vars, m);
    }
    lemma_inputs_same(inputs, k, y, seq![]);
}

/// The words of an argument that holds, with the variables filled in, stand behind
/// those of all that are declared before it, and a condition that cannot be read
/// fails the block.
pub proof fn law_later_argument_stands_last(
    first: Seq<InputView>,
    x: InputView,
    args: Seq<ArgSpecView>,
    a: ArgSpecView,
)
    ensures
        ({
            let without = inputs_args(first.push(passing(x, args)), seq![]);
            let with = inputs_args(first.push(passing(x, args.push(a))), seq![]);
            match without {
                Err(e) => with == Err::<Seq<Seq<char>>, ErrorView>(e),
                Ok(words) => match met(a.requirement, x.vars) {
                    Err(e) => with == Err::<Seq<Seq<char>>, ErrorView>(e),
                    Ok(false) => with == Ok::<Seq<Seq<char>>, ErrorView>(words),
                    Ok(true) => with == Ok::<Seq<Seq<char>>, ErrorView>(
                        words + command_words(x.vars.interpolated(a.value)),
                    ),
                },
            }
        }),
{
    lemma_inputs_push(first, passing(x, args), seq![]);
    lemma_inputs_push(first, passing(x, args.push(a)), seq![]);
    if let Ok(words) = inputs_args(first, seq![]) {
        lemma_args_push(args, a, x.vars, words);
    }
}

/// A line is split as a shell splits it, and at its white space where a shell
/// cannot read it.
pub proof fn law_words_of_a_line(split: Seq<Seq<char>>, line: Seq<char>)
    ensures
        words_or(Some(split), line) == split,
        words_or(None, line) == crate::text::words(line),
        command_words(line) == (match crate::builder::shell_words(line) {
            Some(split) => split,
            None => crate::text::words(line),
        }),
{
}

} // verus!
