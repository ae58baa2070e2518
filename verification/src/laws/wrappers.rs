//! What the wrappers of the extensions come to.

use vstd::prelude::*;

use crate::builder::{
    all_tokens, command_words, lines_added, lines_from, met, options_added, wrapper_block,
    wrapper_text, InputView, WrapperLine, WrapperLineView,
};
use crate::error::ErrorView;
use crate::schema::{ExtensionView, WrapperBuilderEntryView, WrapperSpecView};
use crate::sorting::{inserted, order, sorted};
use crate::text::{joined, replaced};
use crate::variables::VarStoreView;

verus! {

/// The input with these wrappers.
pub open spec fn wrapping(x: InputView, wrappers: Seq<WrapperSpecView>) -> InputView {
    InputView { spec: ExtensionView { wrappers, ..x.spec }, ..x }
}

/// The wrapper with these options.
pub open spec fn with_options(
    w: WrapperSpecView,
    options: Seq<WrapperBuilderEntryView>,
) -> WrapperSpecView {
    WrapperSpecView { builder: options, ..w }
}

/// The command line of a wrapper all of whose options hold: the options, a space
/// between them, in the place of `{OPTIONS}`, and the variables filled in.
pub open spec fn full_text(w: WrapperSpecView, vars: VarStoreView) -> Seq<char> {
    vars.interpolated(
        replaced(
            w.command_syntax,
            "{OPTIONS}"@,
            joined(
                w.builder.map_values(|o: WrapperBuilderEntryView| vars.interpolated(o.value)),
                " "@,
            ),
        ),
    )
}

/// The condition of every option holds.
pub open spec fn all_hold(options: Seq<WrapperBuilderEntryView>, vars: VarStoreView) -> bool {
    forall|i: int|
        0 <= i < options.len() ==> met((#[trigger] options[i]).requirement, vars) == Ok::<
            bool,
            ErrorView,
        >(true)
}

// ---- Step by step ----------------------------------------------------------

proof fn lemma_options_remove(
    options: Seq<WrapperBuilderEntryView>,
    i: int,
    vars: VarStoreView,
    acc: Seq<Seq<char>>,
)
    requires
        0 <= i < options.len(),
        met(options[i].requirement, vars) == Ok::<bool, ErrorView>(false),
    ensures
        options_added(options.remove(i), vars, acc) == options_added(options, vars, acc),
    decreases options.len(),
{
    let less = options.remove(i);
    if i == 0 {
        assert(less =~= options.drop_first());
    } else {
        assert(less[0] == options[0]);
        assert(less.drop_first() =~= options.drop_first().remove(i - 1));
        lemma_options_remove(options.drop_first(), i - 1, vars, acc);
        let next = acc.push(vars.interpolated(options[0].value));
        lemma_options_remove(options.drop_first(), i - 1, vars, next);
    }
}

proof fn lemma_options_hold(
    options: Seq<WrapperBuilderEntryView>,
    vars: VarStoreView,
    acc: Seq<Seq<char>>,
)
    requires
        all_hold(options, vars),
    ensures
        options_added(options, vars, acc) == Ok::<Seq<Seq<char>>, ErrorView>(
            acc + options.map_values(|o: WrapperBuilderEntryView| vars.interpolated(o.value)),
        ),
    decreases options.len(),
{
    let f = |o: WrapperBuilderEntryView| vars.interpolated(o.value);
    if options.len() == 0 {
        assert(acc + options.map_values(f) =~= acc);
    } else {
        let rest = options.drop_first();
        assert(met(options[0].requirement, vars) == Ok::<bool, ErrorView>(true));
        assert forall|i: int| 0 <= i < rest.len() implies met(
            (#[trigger] rest[i]).requirement,
            vars,
        ) == Ok::<bool, ErrorView>(true) by {
            assert(rest[i] == options[i + 1]);
        }
        lemma_options_hold(rest, vars, acc.push(f(options[0])));
        assert(acc.push(f(options[0])) + rest.map_values(f) =~= acc + options.map_values(f));
    }
}

/// How the lines of one input are added, seen from the last wrapper.
proof fn lemma_lines_push(
    wrappers: Seq<WrapperSpecView>,
    w: WrapperSpecView,
    vars: VarStoreView,
    index: usize,
    acc: Seq<WrapperLineView>,
)
    ensures
        lines_added(wrappers.push(w), vars, index, acc) == match lines_added(
            wrappers,
            vars,
            index,
            acc,
        ) {
            Err(e) => Err(e),
            Ok(lines) => lines_added(seq![w], vars, index, lines),
        },
    decreases wrappers.len(),
{
    let all = wrappers.push(w);
    if wrappers.len() == 0 {
        assert(all =~= seq![w]);
    } else {
        let v = wrappers[0];
        assert(all[0] == v);
        assert(all.drop_first() =~= wrappers.drop_first().push(w));
        lemma_lines_push(wrappers.drop_first(), w, vars, index, acc);
        if let Ok(options) = options_added(v.builder, vars, seq![]) {
            let line = WrapperLineView {
                priority: v.priority,
                index,
                tokens: command_words(wrapper_text(v, options, vars)),
            };
            lemma_lines_push(wrappers.drop_first(), w, vars, index, acc.push(line));
        }
    }
}

proof fn lemma_lines_remove(
    wrappers: Seq<WrapperSpecView>,
    j: int,
    vars: VarStoreView,
    index: usize,
    acc: Seq<WrapperLineView>,
)
    requires
        0 <= j < wrappers.len(),
        met(wrappers[j].requirement, vars) == Ok::<bool, ErrorView>(false),
    ensures
        lines_added(wrappers.remove(j), vars, index, acc) == lines_added(
            wrappers,
            vars,
            index,
            acc,
        ),
    decreases wrappers.len(),
{
    let less = wrappers.remove(j);
    if j == 0 {
        assert(less =~= wrappers.drop_first());
    } else {
        let v = wrappers[0];
        assert(less[0] == v);
        assert(less.drop_first() =~= wrappers.drop_first().remove(j - 1));
        lemma_lines_remove(wrappers.drop_first(), j - 1, vars, index, acc);
        if let Ok(options) = options_added(v.builder, vars, seq![]) {
            let line = WrapperLineView {
                priority: v.priority,
                index,
                tokens: command_words(wrapper_text(v, options, vars)),
            };
            lemma_lines_remove(wrappers.drop_first(), j - 1, vars, index, acc.push(line));
        }
    }
}

/// Where a wrapper is replaced by one that differs in its options alone, and these
/// come to the same, nothing changes.
proof fn lemma_lines_same(
    wrappers: Seq<WrapperSpecView>,
    j: int,
    options: Seq<WrapperBuilderEntryView>,
    vars: VarStoreView,
    index: usize,
    acc: Seq<WrapperLineView>,
)
    requires
        0 <= j < wrappers.len(),
        options_added(options, vars, seq![]) == options_added(wrappers[j].builder, vars, seq![]),
    ensures
        lines_added(
            wrappers.update(j, with_options(wrappers[j], options)),
            vars,
            index,
            acc,
        ) == lines_added(wrappers, vars, index, acc),
    decreases wrappers.len(),
{
    let u = with_options(wrappers[j], options);
    let other = wrappers.update(j, u);
    if j == 0 {
        assert(other.drop_first() =~= wrappers.drop_first());
    } else {
        let v = wrappers[0];
        assert(other[0] == v);
        assert(other.drop_first() =~= wrappers.drop_first().update(j - 1, u));
        lemma_lines_same(wrappers.drop_first(), j - 1, options, vars, index, acc);
        if let Ok(os) = options_added(v.builder, vars, seq![]) {
            let line = WrapperLineView {
                priority: v.priority,
                index,
                tokens: command_words(wrapper_text(v, os, vars)),
            };
            lemma_lines_same(wrappers.drop_first(), j - 1, options, vars, index, acc.push(line));
        }
    }
}

/// Where one input is replaced by one that adds the same lines, nothing changes.
pub proof fn lemma_from_same(
    inputs: Seq<InputView>,
    k: int,
    y: InputView,
    at: int,
    acc: Seq<WrapperLineView>,
)
    requires
        0 <= k < inputs.len(),
        0 <= at <= inputs.len(),
        forall|m: Seq<WrapperLineView>|
            #[trigger] lines_added(y.spec.wrappers, y.vars, k as usize, m) == lines_added(
                inputs[k].spec.wrappers,
                inputs[k].vars,
                k as usize,
                m,
            ),
    ensures
        lines_from(inputs.update(k, y), at, acc) == lines_from(inputs, at, acc),
    decreases inputs.len() - at,
{
    let other = inputs.update(k, y);
    if at < inputs.len() {
        assert(lines_added(other[at].spec.wrappers, other[at].vars, at as usize, acc)
            == lines_added(inputs[at].spec.wrappers, inputs[at].vars, at as usize, acc));
        if let Ok(lines) = lines_added(
            inputs[at].spec.wrappers,
            inputs[at].vars,
            at as usize,
            acc,
        ) {
            lemma_from_same(inputs, k, y, at + 1, lines);
        }
    }
}

/// The lines of all inputs are those of the last behind those of the others.
proof fn lemma_from_push(
    inputs: Seq<InputView>,
    y: InputView,
    at: int,
    acc: Seq<WrapperLineView>,
)
    requires
        0 <= at <= inputs.len(),
    ensures
        lines_from(inputs.push(y), at, acc) == match lines_from(inputs, at, acc) {
            Err(e) => Err(e),
            Ok(lines) => lines_added(y.spec.wrappers, y.vars, inputs.len() as usize, lines),
        },
    decreases inputs.len() - at,
{
    let all = inputs.push(y);
    if at < inputs.len() {
        assert(all[at] == inputs[at]);
        if let Ok(lines) = lines_added(
            inputs[at].spec.wrappers,
            inputs[at].vars,
            at as usize,
            acc,
        ) {
            lemma_from_push(inputs, y, at + 1, lines);
        }
    } else {
        assert(all[at] == y);
        reveal_with_fuel(lines_from, 2);
    }
}

/// Every priority that the wrappers give satisfies `p`.
pub open spec fn priorities(inputs: Seq<InputView>, p: spec_fn(i64) -> bool) -> bool {
    forall|k: int, j: int|
        0 <= k < inputs.len() && 0 <= j < inputs[k].spec.wrappers.len() ==> p(
            (#[trigger] inputs[k].spec.wrappers[j]).priority,
        )
}

spec fn within(lines: Seq<WrapperLineView>, p: spec_fn(i64) -> bool, last: usize) -> bool {
    forall|i: int|
        0 <= i < lines.len() ==> p((#[trigger] lines[i]).priority) && lines[i].index <= last
}

proof fn lemma_lines_within(
    wrappers: Seq<WrapperSpecView>,
    vars: VarStoreView,
    index: usize,
    acc: Seq<WrapperLineView>,
    p: spec_fn(i64) -> bool,
    last: usize,
)
    requires
        within(acc, p, last),
        index <= last,
        forall|j: int| 0 <= j < wrappers.len() ==> p((#[trigger] wrappers[j]).priority),
    ensures
        lines_added(wrappers, vars, index, acc) matches Ok(lines) ==> within(lines, p, last),
    decreases wrappers.len(),
{
    if wrappers.len() > 0 {
        let v = wrappers[0];
        let rest = wrappers.drop_first();
        assert forall|j: int| 0 <= j < rest.len() implies p((#[trigger] rest[j]).priority) by {
            assert(rest[j] == wrappers[j + 1]);
        }
        lemma_lines_within(rest, vars, index, acc, p, last);
        if let Ok(os) = options_added(v.builder, vars, seq![]) {
            let line = WrapperLineView {
                priority: v.priority,
                index,
                tokens: command_words(wrapper_text(v, os, vars)),
            };
            lemma_lines_within(rest, vars, index, acc.push(line), p, last);
        }
    }
}

proof fn lemma_from_within(
    inputs: Seq<InputView>,
    at: int,
    acc: Seq<WrapperLineView>,
    p: spec_fn(i64) -> bool,
)
    requires
        0 <= at <= inputs.len(),
        0 < inputs.len() <= usize::MAX,
        priorities(inputs, p),
        within(acc, p, (inputs.len() - 1) as usize),
    ensures
        lines_from(inputs, at, acc) matches Ok(lines) ==> within(
            lines,
            p,
            (inputs.len() - 1) as usize,
        ),
    decreases inputs.len() - at,
{
    if at < inputs.len() {
        let last = (inputs.len() - 1) as usize;
        let ws = inputs[at].spec.wrappers;
        assert forall|j: int| 0 <= j < ws.len() implies p((#[trigger] ws[j]).priority) by {
            assert(ws[j] == inputs[at].spec.wrappers[j]);
        }
        lemma_lines_within(ws, inputs[at].vars, at as usize, acc, p, last);
        if let Ok(lines) = lines_added(ws, inputs[at].vars, at as usize, acc) {
            lemma_from_within(inputs, at + 1, lines, p);
        }
    }
}

proof fn lemma_inserted_within(
    s: Seq<WrapperLineView>,
    x: WrapperLineView,
    p: spec_fn(i64) -> bool,
    last: usize,
)
    requires
        within(s, p, last),
        p(x.priority),
        x.index <= last,
    ensures
        within(inserted(s, x, order::<WrapperLine>()), p, last),
    decreases s.len(),
{
    if s.len() > 0 {
        lemma_inserted_within(s.drop_last(), x, p, last);
    }
}

proof fn lemma_sorted_within(s: Seq<WrapperLineView>, p: spec_fn(i64) -> bool, last: usize)
    requires
        within(s, p, last),
    ensures
        within(sorted(s, order::<WrapperLine>()), p, last),
    decreases s.len(),
{
    if s.len() > 0 {
        assert(s.last() == s[s.len() - 1]);
        lemma_sorted_within(s.drop_last(), p, last);
        lemma_inserted_within(
            sorted(s.drop_last(), order::<WrapperLine>()),
            s.last(),
            p,
            last,
        );
    }
}

proof fn lemma_tokens_push(lines: Seq<WrapperLineView>, x: WrapperLineView)
    ensures
        all_tokens(lines.push(x)) == all_tokens(lines) + x.tokens,
{
    assert(lines.push(x).drop_last() =~= lines);
}

proof fn lemma_tokens_front(x: WrapperLineView, lines: Seq<WrapperLineView>)
    ensures
        all_tokens(seq![x] + lines) == x.tokens + all_tokens(lines),
    decreases lines.len(),
{
    let all = seq![x] + lines;
    if lines.len() == 0 {
        assert(all =~= Seq::empty().push(x));
        lemma_tokens_push(Seq::empty(), x);
        assert(all_tokens(lines) =~= seq![]);
        assert(Seq::<Seq<char>>::empty() + x.tokens =~= x.tokens);
        assert(x.tokens + all_tokens(lines) =~= x.tokens);
    } else {
        assert(all.drop_last() =~= seq![x] + lines.drop_last());
        lemma_tokens_front(x, lines.drop_last());
        assert(x.tokens + all_tokens(lines.drop_last()) + lines.last().tokens =~= x.tokens + (
        all_tokens(lines.drop_last()) + lines.last().tokens));
    }
}

proof fn lemma_inserted_front(s: Seq<WrapperLineView>, x: WrapperLineView, last: usize)
    requires
        within(s, |q: i64| q > x.priority, last),
    ensures
        inserted(s, x, order::<WrapperLine>()) == seq![x] + s,
    decreases s.len(),
{
    let le = order::<WrapperLine>();
    if s.len() == 0 {
        assert(s.push(x) =~= seq![x] + s);
    } else {
        let end = s[s.len() - 1];
        assert(end.priority > x.priority);
        assert(!le(end, x));
        assert(s.last() == end);
        lemma_inserted_front(s.drop_last(), x, last);
        assert((seq![x] + s.drop_last()).push(end) =~= seq![x] + s);
    }
}

// ---- Laws ------------------------------------------------------------------

/// Without extensions, and from an extension without wrappers, nothing comes.
pub proof fn law_nothing_wraps(first: Seq<InputView>, x: InputView)
    ensures
        wrapper_block(seq![]) == Ok::<Seq<Seq<char>>, ErrorView>(seq![]),
        wrapper_block(first.push(wrapping(x, seq![]))) == wrapper_block(first),
{
    lemma_from_push(first, wrapping(x, seq![]), 0, seq![]);
}

/// A wrapper whose condition is false is as good as not written.
pub proof fn law_false_wrapper_is_nothing(inputs: Seq<InputView>, k: int, j: int)
    requires
        0 <= k < inputs.len(),
        0 <= j < inputs[k].spec.wrappers.len(),
        met(inputs[k].spec.wrappers[j].requirement, inputs[k].vars) == Ok::<bool, ErrorView>(
            false,
        ),
    ensures
        wrapper_block(
            inputs.update(k, wrapping(inputs[k], inputs[k].spec.wrappers.remove(j))),
        ) == wrapper_block(inputs),
{
    let ws = inputs[k].spec.wrappers;
    let y = wrapping(inputs[k], ws.remove(j));
    assert forall|m: Seq<WrapperLineView>|
        #[trigger] lines_added(y.spec.wrappers, y.vars, k as usize, m) == lines_added(
            ws,
            inputs[k].vars,
            k as usize,
            m,
        ) by {
        lemma_lines_remove(ws, j, inputs[k].vars, k as usize, m);
    }
    lemma_from_same(inputs, k, y, 0, seq![]);
}

/// An option whose condition is false is as good as not written.
pub proof fn law_false_option_is_nothing(inputs: Seq<InputView>, k: int, j: int, i: int)
    requires
        0 <= k < inputs.len(),
        0 <= j < inputs[k].spec.wrappers.len(),
        0 <= i < inputs[k].spec.wrappers[j].builder.len(),
        met(inputs[k].spec.wrappers[j].builder[i].requirement, inputs[k].vars) == Ok::<
            bool,
            ErrorView,
        >(false),
    ensures
        ({
            let ws = inputs[k].spec.wrappers;
            let w = with_options(ws[j], ws[j].builder.remove(i));
            wrapper_block(inputs.update(k, wrapping(inputs[k], ws.update(j, w))))
                == wrapper_block(inputs)
        }),
{
    let ws = inputs[k].spec.wrappers;
    let vars = inputs[k].vars;
    let w = with_options(ws[j], ws[j].builder.remove(i));
    let y = wrapping(inputs[k], ws.update(j, w));
    lemma_options_remove(ws[j].builder, i, vars, seq![]);
    assert forall|m: Seq<WrapperLineView>|
        #[trigger] lines_added(y.spec.wrappers, y.vars, k as usize, m) == lines_added(
            ws,
            vars,
            k as usize,
            m,
        ) by {
        lemma_lines_same(ws, j, ws[j].builder.remove(i), vars, k as usize, m);
    }
    lemma_from_same(inputs, k, y, 0, seq![]);
}

/// What one more wrapper that holds adds to the lines.
proof fn lemma_wrapper_added(
    first: Seq<InputView>,
    x: InputView,
    wrappers: Seq<WrapperSpecView>,
    w: WrapperSpecView,
)
    requires
        met(w.requirement, x.vars) == Ok::<bool, ErrorView>(true),
        all_hold(w.builder, x.vars),
    ensures
        lines_from(first.push(wrapping(x, wrappers.push(w))), 0, seq![]) == match lines_from(
            first.push(wrapping(x, wrappers)),
            0,
            seq![],
        ) {
            Err(e) => Err(e),
            Ok(lines) => Ok(
                lines.push(
                    WrapperLineView {
                        priority: w.priority,
                        index: first.len() as usize,
                        tokens: command_words(full_text(w, x.vars)),
                    },
                ),
            ),
        },
{
    let index = first.len() as usize;
    lemma_from_push(first, wrapping(x, wrappers), 0, seq![]);
    lemma_from_push(first, wrapping(x, wrappers.push(w)), 0, seq![]);
    lemma_options_hold(w.builder, x.vars, seq![]);
    let texts = w.builder.map_values(
        |o: WrapperBuilderEntryView| x.vars.interpolated(o.value),
    );
    assert(Seq::<Seq<char>>::empty() + texts =~= texts);
    if let Ok(before) = lines_from(first, 0, seq![]) {
        lemma_lines_push(wrappers, w, x.vars, index, before);
        assert(seq![w].drop_first() =~= seq![]);
        reveal_with_fuel(lines_added, 2);
    }
}

/// A wrapper that holds, of a priority that no other exceeds, stands behind all
/// that are declared before it: the words of its command line, with its options
/// and the variables filled in.
pub proof fn law_later_wrapper_stands_last(
    first: Seq<InputView>,
    x: InputView,
    wrappers: Seq<WrapperSpecView>,
    w: WrapperSpecView,
)
    requires
        first.len() < usize::MAX,
        met(w.requirement, x.vars) == Ok::<bool, ErrorView>(true),
        all_hold(w.builder, x.vars),
        priorities(first.push(wrapping(x, wrappers)), |p: i64| p <= w.priority),
    ensures
        wrapper_block(first.push(wrapping(x, wrappers.push(w)))) == match wrapper_block(
            first.push(wrapping(x, wrappers)),
        ) {
            Err(e) => Err(e),
            Ok(tokens) => Ok(tokens + command_words(full_text(w, x.vars))),
        },
{
    let inputs = first.push(wrapping(x, wrappers));
    let p = |p: i64| p <= w.priority;
    lemma_wrapper_added(first, x, wrappers, w);
    lemma_from_within(inputs, 0, seq![], p);
    if let Ok(lines) = lines_from(inputs, 0, seq![]) {
        let last = (inputs.len() - 1) as usize;
        let le = order::<WrapperLine>();
        let s = sorted(lines, le);
        let line = WrapperLineView {
            priority: w.priority,
            index: first.len() as usize,
            tokens: command_words(full_text(w, x.vars)),
        };
        lemma_sorted_within(lines, p, last);
        assert(lines.push(line).drop_last() =~= lines);
        if s.len() > 0 {
            assert(s.last() == s[s.len() - 1]);
        }
        assert(sorted(lines.push(line), le) == s.push(line));
        lemma_tokens_push(s, line);
    }
}

/// A wrapper that holds, of a priority lower than all others, stands before them.
pub proof fn law_lower_priority_stands_first(
    first: Seq<InputView>,
    x: InputView,
    wrappers: Seq<WrapperSpecView>,
    w: WrapperSpecView,
)
    requires
        first.len() < usize::MAX,
        met(w.requirement, x.vars) == Ok::<bool, ErrorView>(true),
        all_hold(w.builder, x.vars),
        priorities(first.push(wrapping(x, wrappers)), |p: i64| p > w.priority),
    ensures
        wrapper_block(first.push(wrapping(x, wrappers.push(w)))) == match wrapper_block(
            first.push(wrapping(x, wrappers)),
        ) {
            Err(e) => Err(e),
            Ok(tokens) => Ok(command_words(full_text(w, x.vars)) + tokens),
        },
{
    let inputs = first.push(wrapping(x, wrappers));
    let p = |p: i64| p > w.priority;
    lemma_wrapper_added(first, x, wrappers, w);
    lemma_from_within(inputs, 0, seq![], p);
    if let Ok(lines) = lines_from(inputs, 0, seq![]) {
        let last = (inputs.len() - 1) as usize;
        let le = order::<WrapperLine>();
        let s = sorted(lines, le);
        let line = WrapperLineView {
            priority: w.priority,
            index: first.len() as usize,
            tokens: command_words(full_text(w, x.vars)),
        };
        lemma_sorted_within(lines, p, last);
        assert(lines.push(line).drop_last() =~= lines);
        assert(within(s, |q: i64| q > line.priority, last));
        lemma_inserted_front(s, line, last);
        lemma_tokens_front(line, s);
    }
}

/// A condition that cannot be read fails the block, on a wrapper as on an option.
pub proof fn law_broken_condition_fails(
    first: Seq<InputView>,
    x: InputView,
    wrappers: Seq<WrapperSpecView>,
    w: WrapperSpecView,
    o: WrapperBuilderEntryView,
)
    requires
        wrapper_block(first.push(wrapping(x, wrappers))) is Ok,
    ensures
        met(w.requirement, x.vars) matches Err(e) ==> wrapper_block(
            first.push(wrapping(x, wrappers.push(w))),
        ) == Err::<Seq<Seq<char>>, ErrorView>(e),
        met(w.requirement, x.vars) == Ok::<bool, ErrorView>(true) && all_hold(w.builder, x.vars)
            ==> (met(o.requirement, x.vars) matches Err(e) ==> wrapper_block(
            first.push(
                wrapping(x, wrappers.push(with_options(w, seq![o] + w.builder))),
            ),
        ) == Err::<Seq<Seq<char>>, ErrorView>(e)),
{
    let index = first.len() as usize;
    let v = with_options(w, seq![o] + w.builder);
    lemma_from_push(first, wrapping(x, wrappers), 0, seq![]);
    lemma_from_push(first, wrapping(x, wrappers.push(w)), 0, seq![]);
    lemma_from_push(first, wrapping(x, wrappers.push(v)), 0, seq![]);
    assert(v.builder[0] == o);
    if let Ok(before) = lines_from(first, 0, seq![]) {
        lemma_lines_push(wrappers, w, x.vars, index, before);
        lemma_lines_push(wrappers, v, x.vars, index, before);
    }
}

} // verus!
