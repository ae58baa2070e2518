//! What the declared environment variables of the extensions come to.

use vstd::prelude::*;

use crate::builder::{
    accum_of, action_of, env_block, env_step, inputs_applied, met, settled, specs_applied, specs_of,
    steps_applied, template_of_step, AccumView, EnvActionView, EnvScope, InputView,
};
use crate::error::ErrorView;
use crate::ordered::{distinct, has_key, key_index, law_put, lemma_found, put, value_of, Entries};
use crate::schema::{EnvBuilderEntryView, EnvOp, EnvVarSpecView, ExtensionView};
use crate::variables::VarStoreView;

verus! {

/// The input with these declarations in the block that the scope is for.
pub open spec fn declaring(x: InputView, scope: EnvScope, specs: Seq<EnvVarSpecView>) -> InputView {
    match scope {
        EnvScope::Chain => InputView { spec: ExtensionView { env_vars: specs, ..x.spec }, ..x },
        EnvScope::Game => InputView { spec: ExtensionView { game_env_vars: specs, ..x.spec }, ..x },
    }
}

/// The declarations in the block that the scope is for.
pub open spec fn declared(x: InputView, scope: EnvScope) -> Seq<EnvVarSpecView> {
    match scope {
        EnvScope::Chain => x.spec.env_vars,
        EnvScope::Game => x.spec.game_env_vars,
    }
}

/// The declaration with these entries.
pub open spec fn built_by(s: EnvVarSpecView, entries: Seq<EnvBuilderEntryView>) -> EnvVarSpecView {
    EnvVarSpecView { builder: entries, ..s }
}

// ---- Step by step ----------------------------------------------------------

proof fn lemma_steps_push(
    entries: Seq<EnvBuilderEntryView>,
    e: EnvBuilderEntryView,
    vars: VarStoreView,
    a: AccumView,
)
    ensures
        steps_applied(entries.push(e), vars, a) == match steps_applied(entries, vars, a) {
            Err(x) => Err(x),
            Ok(b) => match met(e.requirement, vars) {
                Err(x) => Err(x),
                Ok(false) => Ok(b),
                Ok(true) => Ok(env_step(b, e, vars.interpolated(template_of_step(e)))),
            },
        },
    decreases entries.len(),
{
    let all = entries.push(e);
    if entries.len() == 0 {
        assert(all.drop_first() =~= seq![]);
        assert(all[0] == e);
        reveal_with_fuel(steps_applied, 2);
    } else {
        assert(all[0] == entries[0]);
        assert(all.drop_first() =~= entries.drop_first().push(e));
        let rest = entries.drop_first();
        let next = env_step(a, entries[0], vars.interpolated(template_of_step(entries[0])));
        lemma_steps_push(rest, e, vars, a);
        lemma_steps_push(rest, e, vars, next);
    }
}

proof fn lemma_steps_remove(
    entries: Seq<EnvBuilderEntryView>,
    i: int,
    vars: VarStoreView,
    a: AccumView,
)
    requires
        0 <= i < entries.len(),
        met(entries[i].requirement, vars) == Ok::<bool, ErrorView>(false),
    ensures
        steps_applied(entries.remove(i), vars, a) == steps_applied(entries, vars, a),
    decreases entries.len(),
{
    let less = entries.remove(i);
    if i == 0 {
        assert(less =~= entries.drop_first());
    } else {
        assert(less[0] == entries[0]);
        assert(less.drop_first() =~= entries.drop_first().remove(i - 1));
        let next = env_step(a, entries[0], vars.interpolated(template_of_step(entries[0])));
        lemma_steps_remove(entries.drop_first(), i - 1, vars, a);
        lemma_steps_remove(entries.drop_first(), i - 1, vars, next);
    }
}

proof fn lemma_specs_join(
    a: Seq<EnvVarSpecView>,
    b: Seq<EnvVarSpecView>,
    vars: VarStoreView,
    accums: Entries<AccumView>,
)
    ensures
        specs_applied(a + b, vars, accums) == match specs_applied(a, vars, accums) {
            Err(x) => Err(x),
            Ok(m) => specs_applied(b, vars, m),
        },
    decreases a.len(),
{
    if a.len() == 0 {
        assert(a + b =~= b);
    } else {
        let s = a[0];
        let name = vars.interpolated(s.name);
        assert((a + b)[0] == s);
        assert((a + b).drop_first() =~= a.drop_first() + b);
        lemma_specs_join(a.drop_first(), b, vars, accums);
        if let Ok(m) = steps_applied(s.builder, vars, accum_of(accums, name)) {
            lemma_specs_join(a.drop_first(), b, vars, put(accums, name, m));
        }
    }
}

proof fn lemma_inputs_join(
    a: Seq<InputView>,
    b: Seq<InputView>,
    scope: EnvScope,
    accums: Entries<AccumView>,
)
    ensures
        inputs_applied(a + b, scope, accums) == match inputs_applied(a, scope, accums) {
            Err(x) => Err(x),
            Ok(m) => inputs_applied(b, scope, m),
        },
    decreases a.len(),
{
    if a.len() == 0 {
        assert(a + b =~= b);
    } else {
        assert((a + b)[0] == a[0]);
        assert((a + b).drop_first() =~= a.drop_first() + b);
        if let Ok(m) = specs_applied(specs_of(a[0].spec, scope), a[0].vars, accums) {
            lemma_inputs_join(a.drop_first(), b, scope, m);
        }
    }
}

proof fn lemma_specs_distinct(
    specs: Seq<EnvVarSpecView>,
    vars: VarStoreView,
    accums: Entries<AccumView>,
)
    requires
        distinct(accums),
    ensures
        specs_applied(specs, vars, accums) matches Ok(m) ==> distinct(m),
    decreases specs.len(),
{
    if specs.len() > 0 {
        let s = specs[0];
        let name = vars.interpolated(s.name);
        lemma_specs_distinct(specs.drop_first(), vars, accums);
        if let Ok(a) = steps_applied(s.builder, vars, accum_of(accums, name)) {
            law_put(accums, name, a, name);
            lemma_specs_distinct(specs.drop_first(), vars, put(accums, name, a));
        }
    }
}

proof fn lemma_inputs_distinct(
    inputs: Seq<InputView>,
    scope: EnvScope,
    accums: Entries<AccumView>,
)
    requires
        distinct(accums),
    ensures
        inputs_applied(inputs, scope, accums) matches Ok(m) ==> distinct(m),
    decreases inputs.len(),
{
    if inputs.len() > 0 {
        lemma_specs_distinct(specs_of(inputs[0].spec, scope), inputs[0].vars, accums);
        if let Ok(m) = specs_applied(specs_of(inputs[0].spec, scope), inputs[0].vars, accums) {
            lemma_inputs_distinct(inputs.drop_first(), scope, m);
        }
    }
}

/// What a variable is settled to.
spec fn outcome_of(accums: Entries<AccumView>, name: Seq<char>) -> Option<EnvActionView> {
    match value_of(accums, name) {
        Some(a) => if a.applied {
            Some(action_of(a))
        } else {
            None
        },
        None => None,
    }
}

proof fn lemma_settled_has(accums: Entries<AccumView>, name: Seq<char>)
    ensures
        has_key(settled(accums), name) ==> has_key(accums, name),
    decreases accums.len(),
{
    if accums.len() > 0 && has_key(settled(accums), name) {
        let init = accums.drop_last();
        let s = settled(accums);
        let at = key_index(s, name);
        assert(0 <= at < s.len() && s[at].0 == name);
        lemma_settled_has(init, name);
        if at < settled(init).len() {
            assert(settled(init)[at].0 == name);
            let k = key_index(init, name);
            assert(0 <= k < init.len() && init[k].0 == name);
            assert(accums[k].0 == name);
        } else {
            assert(accums[accums.len() - 1].0 == name);
        }
    }
}

proof fn lemma_settled_distinct(accums: Entries<AccumView>)
    requires
        distinct(accums),
    ensures
        distinct(settled(accums)),
    decreases accums.len(),
{
    if accums.len() > 0 {
        let init = accums.drop_last();
        let n = accums.len() - 1;
        assert forall|i: int, j: int| 0 <= i < j < init.len() implies (#[trigger] init[i]).0
            != (#[trigger] init[j]).0 by {
            assert(accums[i].0 != accums[j].0);
        }
        lemma_settled_distinct(init);
        let s = settled(accums);
        let before = settled(init);
        assert forall|i: int, j: int| 0 <= i < j < s.len() implies (#[trigger] s[i]).0
            != (#[trigger] s[j]).0 by {
            if j < before.len() {
                assert(before[i].0 != before[j].0);
            } else {
                assert(before[i] == s[i]);
                lemma_settled_has(init, s[i].0);
                assert(has_key(before, s[i].0));
                let k = key_index(init, s[i].0);
                assert(0 <= k < init.len() && init[k].0 == s[i].0);
                assert(accums[k].0 != accums[n].0);
            }
        }
    }
}

proof fn lemma_settled(accums: Entries<AccumView>, name: Seq<char>)
    requires
        distinct(accums),
    ensures
        value_of(settled(accums), name) == outcome_of(accums, name),
    decreases accums.len(),
{
    if accums.len() == 0 {
    } else {
        let init = accums.drop_last();
        let n = accums.len() - 1;
        assert forall|i: int, j: int| 0 <= i < j < init.len() implies (#[trigger] init[i]).0
            != (#[trigger] init[j]).0 by {
            assert(accums[i].0 != accums[j].0);
        }
        lemma_settled(init, name);
        lemma_settled_distinct(accums);
        lemma_settled_distinct(init);
        let s = settled(accums);
        let before = settled(init);
        lemma_found(accums, n);
        if accums[n].0 == name {
            lemma_settled_has(init, name);
            if has_key(init, name) {
                let k = key_index(init, name);
                assert(0 <= k < init.len() && init[k].0 == name);
                assert(accums[k].0 != accums[n].0);
            }
            if accums[n].1.applied {
                lemma_found(s, before.len() as int);
            }
        } else {
            if has_key(accums, name) {
                let k = key_index(accums, name);
                assert(0 <= k < accums.len() && accums[k].0 == name);
                assert(init[k] == accums[k]);
                lemma_found(accums, k);
                lemma_found(init, k);
            } else if has_key(init, name) {
                let k = key_index(init, name);
                assert(0 <= k < init.len() && init[k].0 == name);
                assert(accums[k].0 == name);
            }
            if has_key(before, name) {
                let k = key_index(before, name);
                assert(0 <= k < before.len() && before[k].0 == name);
                assert(s[k] == before[k]);
                lemma_found(before, k);
                lemma_found(s, k);
            } else if has_key(s, name) {
                let k = key_index(s, name);
                assert(0 <= k < s.len() && s[k].0 == name);
                assert(before[k].0 == name);
            }
        }
    }
}

/// Where one input is replaced by one that does the same, nothing changes.
pub proof fn lemma_inputs_same(
    inputs: Seq<InputView>,
    k: int,
    y: InputView,
    scope: EnvScope,
    accums: Entries<AccumView>,
)
    requires
        0 <= k < inputs.len(),
        forall|m: Entries<AccumView>|
            specs_applied(specs_of(inputs[k].spec, scope), inputs[k].vars, m)
                == #[trigger] specs_applied(specs_of(y.spec, scope), y.vars, m),
    ensures
        inputs_applied(inputs.update(k, y), scope, accums) == inputs_applied(inputs, scope, accums),
    decreases inputs.len(),
{
    let other = inputs.update(k, y);
    if k == 0 {
        assert(other.drop_first() =~= inputs.drop_first());
        assert(specs_applied(specs_of(y.spec, scope), y.vars, accums) == specs_applied(
            specs_of(inputs[0].spec, scope),
            inputs[0].vars,
            accums,
        ));
    } else {
        assert(other[0] == inputs[0]);
        assert(other.drop_first() =~= inputs.drop_first().update(k - 1, y));
        if let Ok(m) = specs_applied(specs_of(inputs[0].spec, scope), inputs[0].vars, accums) {
            lemma_inputs_same(inputs.drop_first(), k - 1, y, scope, m);
        }
    }
}

/// Where one declaration is replaced by one that does the same, nothing changes.
proof fn lemma_specs_same(
    specs: Seq<EnvVarSpecView>,
    j: int,
    t: EnvVarSpecView,
    vars: VarStoreView,
    accums: Entries<AccumView>,
)
    requires
        0 <= j < specs.len(),
        t.name == specs[j].name,
        t.requirement == specs[j].requirement,
        forall|a: AccumView|
            steps_applied(specs[j].builder, vars, a) == #[trigger] steps_applied(
                t.builder,
                vars,
                a,
            ),
    ensures
        specs_applied(specs.update(j, t), vars, accums) == specs_applied(specs, vars, accums),
    decreases specs.len(),
{
    let other = specs.update(j, t);
    let name = vars.interpolated(specs[0].name);
    if j == 0 {
        assert(other.drop_first() =~= specs.drop_first());
        assert(steps_applied(t.builder, vars, accum_of(accums, name)) == steps_applied(
            specs[0].builder,
            vars,
            accum_of(accums, name),
        ));
    } else {
        assert(other[0] == specs[0]);
        assert(other.drop_first() =~= specs.drop_first().update(j - 1, t));
        lemma_specs_same(specs.drop_first(), j - 1, t, vars, accums);
        if let Ok(a) = steps_applied(specs[0].builder, vars, accum_of(accums, name)) {
            lemma_specs_same(specs.drop_first(), j - 1, t, vars, put(accums, name, a));
        }
    }
}

/// Leaving out a declaration that does nothing changes nothing.
proof fn lemma_specs_remove(
    specs: Seq<EnvVarSpecView>,
    j: int,
    vars: VarStoreView,
    accums: Entries<AccumView>,
)
    requires
        0 <= j < specs.len(),
        met(specs[j].requirement, vars) == Ok::<bool, ErrorView>(false) || (met(
            specs[j].requirement,
            vars,
        ) == Ok::<bool, ErrorView>(true) && vars.interpolated(specs[j].name).len() == 0),
    ensures
        specs_applied(specs.remove(j), vars, accums) == specs_applied(specs, vars, accums),
    decreases specs.len(),
{
    let less = specs.remove(j);
    let name = vars.interpolated(specs[0].name);
    if j == 0 {
        assert(less =~= specs.drop_first());
    } else {
        assert(less[0] == specs[0]);
        assert(less.drop_first() =~= specs.drop_first().remove(j - 1));
        lemma_specs_remove(specs.drop_first(), j - 1, vars, accums);
        if let Ok(a) = steps_applied(specs[0].builder, vars, accum_of(accums, name)) {
            lemma_specs_remove(specs.drop_first(), j - 1, vars, put(accums, name, a));
        }
    }
}

/// A variable that is unset or untouched holds no text.
spec fn sane(a: AccumView) -> bool {
    a.unset || !a.applied ==> a.value.len() == 0
}

spec fn all_sane(m: Entries<AccumView>) -> bool {
    forall|i: int| 0 <= i < m.len() ==> sane((#[trigger] m[i]).1)
}

proof fn lemma_steps_sane(entries: Seq<EnvBuilderEntryView>, vars: VarStoreView, a: AccumView)
    requires
        sane(a),
    ensures
        steps_applied(entries, vars, a) matches Ok(b) ==> sane(b),
    decreases entries.len(),
{
    if entries.len() > 0 {
        let next = env_step(a, entries[0], vars.interpolated(template_of_step(entries[0])));
        lemma_steps_sane(entries.drop_first(), vars, a);
        lemma_steps_sane(entries.drop_first(), vars, next);
    }
}

proof fn lemma_accum_sane(m: Entries<AccumView>, name: Seq<char>)
    requires
        all_sane(m),
    ensures
        sane(accum_of(m, name)),
{
    if has_key(m, name) {
        let i = key_index(m, name);
        assert(0 <= i < m.len() && m[i].0 == name);
    }
}

proof fn lemma_specs_sane(
    specs: Seq<EnvVarSpecView>,
    vars: VarStoreView,
    accums: Entries<AccumView>,
)
    requires
        all_sane(accums),
    ensures
        specs_applied(specs, vars, accums) matches Ok(m) ==> all_sane(m),
    decreases specs.len(),
{
    if specs.len() > 0 {
        let s = specs[0];
        let name = vars.interpolated(s.name);
        lemma_specs_sane(specs.drop_first(), vars, accums);
        lemma_accum_sane(accums, name);
        lemma_steps_sane(s.builder, vars, accum_of(accums, name));
        if let Ok(a) = steps_applied(s.builder, vars, accum_of(accums, name)) {
            let after = put(accums, name, a);
            assert forall|i: int| 0 <= i < after.len() implies sane((#[trigger] after[i]).1) by {
                if after[i].1 != a {
                    assert(after[i] == accums[i]);
                }
            }
            lemma_specs_sane(specs.drop_first(), vars, after);
        }
    }
}

proof fn lemma_inputs_sane(inputs: Seq<InputView>, scope: EnvScope, accums: Entries<AccumView>)
    requires
        all_sane(accums),
    ensures
        inputs_applied(inputs, scope, accums) matches Ok(m) ==> all_sane(m),
    decreases inputs.len(),
{
    if inputs.len() > 0 {
        lemma_specs_sane(specs_of(inputs[0].spec, scope), inputs[0].vars, accums);
        if let Ok(m) = specs_applied(specs_of(inputs[0].spec, scope), inputs[0].vars, accums) {
            lemma_inputs_sane(inputs.drop_first(), scope, m);
        }
    }
}

/// What the inputs come to is what the last declaration of the last of them makes
/// of all before it.
proof fn lemma_last_variable(
    first: Seq<InputView>,
    x: InputView,
    scope: EnvScope,
    specs: Seq<EnvVarSpecView>,
    s: EnvVarSpecView,
)
    requires
        met(s.requirement, x.vars) == Ok::<bool, ErrorView>(true),
        x.vars.interpolated(s.name).len() > 0,
    ensures
        ({
            let name = x.vars.interpolated(s.name);
            inputs_applied(first.push(declaring(x, scope, specs.push(s))), scope, seq![])
                == match inputs_applied(first.push(declaring(x, scope, specs)), scope, seq![]) {
                Err(error) => Err(error),
                Ok(m) => match steps_applied(s.builder, x.vars, accum_of(m, name)) {
                    Err(error) => Err(error),
                    Ok(a) => Ok(put(m, name, a)),
                },
            }
        }),
{
    let y = declaring(x, scope, specs.push(s));
    let z = declaring(x, scope, specs);
    assert(first.push(y) =~= first + seq![y]);
    assert(first.push(z) =~= first + seq![z]);
    lemma_inputs_join(first, seq![y], scope, seq![]);
    lemma_inputs_join(first, seq![z], scope, seq![]);
    assert(seq![y].drop_first() =~= seq![]);
    assert(seq![z].drop_first() =~= seq![]);
    assert(specs.push(s) =~= specs + seq![s]);
    assert(seq![s].drop_first() =~= seq![]);
    reveal_with_fuel(inputs_applied, 2);
    reveal_with_fuel(specs_applied, 2);
    if let Ok(m) = inputs_applied(first, scope, seq![]) {
        lemma_specs_join(specs, seq![s], x.vars, m);
    }
}

// ---- Laws ------------------------------------------------------------------

/// An entry whose condition is false is as good as not written.
pub proof fn law_false_entry_is_nothing(
    inputs: Seq<InputView>,
    scope: EnvScope,
    k: int,
    j: int,
    i: int,
)
    requires
        0 <= k < inputs.len(),
        0 <= j < declared(inputs[k], scope).len(),
        0 <= i < declared(inputs[k], scope)[j].builder.len(),
        met(declared(inputs[k], scope)[j].builder[i].requirement, inputs[k].vars) == Ok::<
            bool,
            ErrorView,
        >(false),
    ensures
        ({
            let specs = declared(inputs[k], scope);
            let s = built_by(specs[j], specs[j].builder.remove(i));
            env_block(inputs.update(k, declaring(inputs[k], scope, specs.update(j, s))), scope)
                == env_block(inputs, scope)
        }),
{
    let x = inputs[k];
    let specs = declared(x, scope);
    let s = built_by(specs[j], specs[j].builder.remove(i));
    let y = declaring(x, scope, specs.update(j, s));
    assert forall|a: AccumView|
        steps_applied(specs[j].builder, x.vars, a) == #[trigger] steps_applied(
            s.builder,
            x.vars,
            a,
        ) by {
        lemma_steps_remove(specs[j].builder, i, x.vars, a);
    }
    assert forall|m: Entries<AccumView>|
        specs_applied(specs_of(x.spec, scope), x.vars, m) == #[trigger] specs_applied(
            specs_of(y.spec, scope),
            y.vars,
            m,
        ) by {
        lemma_specs_same(specs, j, s, x.vars, m);
    }
    lemma_inputs_same(inputs, k, y, scope, seq![]);
}

/// A declaration whose condition is false, or whose name comes to nothing, is as
/// good as not written.
pub proof fn law_false_variable_is_nothing(
    inputs: Seq<InputView>,
    scope: EnvScope,
    k: int,
    j: int,
)
    requires
        0 <= k < inputs.len(),
        0 <= j < declared(inputs[k], scope).len(),
        ({
            let s = declared(inputs[k], scope)[j];
            let holds = met(s.requirement, inputs[k].vars);
            ||| holds == Ok::<bool, ErrorView>(false)
            ||| holds is Ok && inputs[k].vars.interpolated(s.name).len() == 0
        }),
    ensures
        env_block(
            inputs.update(k, declaring(inputs[k], scope, declared(inputs[k], scope).remove(j))),
            scope,
        ) == env_block(inputs, scope),
{
    let x = inputs[k];
    let specs = declared(x, scope);
    let y = declaring(x, scope, specs.remove(j));
    assert forall|m: Entries<AccumView>|
        specs_applied(specs_of(x.spec, scope), x.vars, m) == #[trigger] specs_applied(
            specs_of(y.spec, scope),
            y.vars,
            m,
        ) by {
        lemma_specs_remove(specs, j, x.vars, m);
    }
    lemma_inputs_same(inputs, k, y, scope, seq![]);
}

/// An entry whose condition is true has the last word on its variable and on no
/// other: `Assign` sets it, `Unset` unsets it, and `Append` adds to the text that
/// it held without the entry, behind the separator (a comma where none is given),
/// or sets it where it held none.
pub proof fn law_last_entry_decides(
    first: Seq<InputView>,
    x: InputView,
    scope: EnvScope,
    specs: Seq<EnvVarSpecView>,
    s: EnvVarSpecView,
    e: EnvBuilderEntryView,
    other: Seq<char>,
)
    requires
        met(s.requirement, x.vars) == Ok::<bool, ErrorView>(true),
        met(e.requirement, x.vars) == Ok::<bool, ErrorView>(true),
        x.vars.interpolated(s.name).len() > 0,
    ensures
        ({
            let without = env_block(first.push(declaring(x, scope, specs.push(s))), scope);
            let with = env_block(
                first.push(
                    declaring(x, scope, specs.push(built_by(s, s.builder.push(e)))),
                ),
                scope,
            );
            let name = x.vars.interpolated(s.name);
            let text = x.vars.interpolated(
                match e.value {
                    Some(t) => t,
                    None => seq![],
                },
            );
            let between = match e.separator {
                Some(t) => t,
                None => ","@,
            };
            match without {
                Err(error) => with == Err::<Entries<EnvActionView>, ErrorView>(error),
                Ok(before) => {
                    &&& with is Ok
                    &&& value_of(with->Ok_0, name) == Some(
                        match e.op {
                            EnvOp::Assign => EnvActionView::Assign(text),
                            EnvOp::Unset => EnvActionView::Unset,
                            EnvOp::Append => match value_of(before, name) {
                                Some(EnvActionView::Assign(held)) => if held.len() > 0 {
                                    EnvActionView::Assign(held + between + text)
                                } else {
                                    EnvActionView::Assign(text)
                                },
                                _ => EnvActionView::Assign(text),
                            },
                        },
                    )
                    &&& other != name ==> value_of(with->Ok_0, other) == value_of(before, other)
                },
            }
        }),
{
    let name = x.vars.interpolated(s.name);
    let t = built_by(s, s.builder.push(e));
    let none = Seq::<(Seq<char>, AccumView)>::empty();
    lemma_last_variable(first, x, scope, specs, s);
    lemma_last_variable(first, x, scope, specs, t);
    let inputs = first.push(declaring(x, scope, specs));
    lemma_inputs_distinct(inputs, scope, none);
    lemma_inputs_sane(inputs, scope, none);
    if let Ok(m) = inputs_applied(inputs, scope, none) {
        lemma_steps_push(s.builder, e, x.vars, accum_of(m, name));
        lemma_accum_sane(m, name);
        lemma_steps_sane(s.builder, x.vars, accum_of(m, name));
        if let Ok(a) = steps_applied(s.builder, x.vars, accum_of(m, name)) {
            let text = x.vars.interpolated(template_of_step(e));
            let b = env_step(a, e, text);
            law_put(m, name, a, other);
            law_put(m, name, b, other);
            lemma_settled(put(m, name, a), name);
            lemma_settled(put(m, name, b), name);
            lemma_settled(put(m, name, a), other);
            lemma_settled(put(m, name, b), other);
        }
    }
}

/// Without extensions the block is empty.
pub proof fn law_nothing_declared(scope: EnvScope)
    ensures
        env_block(seq![], scope) == Ok::<Entries<EnvActionView>, ErrorView>(seq![]),
{
}

/// A declaration without entries, and an extension without declarations, leave
/// every variable as it is.
pub proof fn law_empty_declarations(
    first: Seq<InputView>,
    x: InputView,
    scope: EnvScope,
    specs: Seq<EnvVarSpecView>,
    s: EnvVarSpecView,
    name: Seq<char>,
)
    requires
        met(s.requirement, x.vars) == Ok::<bool, ErrorView>(true),
        s.builder.len() == 0,
    ensures
        env_block(first.push(declaring(x, scope, seq![])), scope) == env_block(first, scope),
        ({
            let without = env_block(first.push(declaring(x, scope, specs)), scope);
            let with = env_block(first.push(declaring(x, scope, specs.push(s))), scope);
            match without {
                Err(error) => with == Err::<Entries<EnvActionView>, ErrorView>(error),
                Ok(before) => with is Ok && value_of(with->Ok_0, name) == value_of(before, name),
            }
        }),
{
    let none = Seq::<(Seq<char>, AccumView)>::empty();
    let y = declaring(x, scope, seq![]);
    assert(first.push(y) =~= first + seq![y]);
    lemma_inputs_join(first, seq![y], scope, none);
    assert(seq![y].drop_first() =~= seq![]);
    reveal_with_fuel(inputs_applied, 2);
    let own = x.vars.interpolated(s.name);
    let inputs = first.push(declaring(x, scope, specs));
    if own.len() > 0 {
        lemma_last_variable(first, x, scope, specs, s);
        lemma_inputs_distinct(inputs, scope, none);
        if let Ok(m) = inputs_applied(inputs, scope, none) {
            law_put(m, own, accum_of(m, own), name);
            lemma_settled(m, name);
            lemma_settled(put(m, own, accum_of(m, own)), name);
        }
    } else {
        let inputs = first.push(declaring(x, scope, specs.push(s)));
        let k = first.len() as int;
        law_false_variable_is_nothing(inputs, scope, k, specs.len() as int);
        assert(specs.push(s).remove(specs.len() as int) =~= specs);
        assert(declaring(inputs[k], scope, specs) == declaring(x, scope, specs));
        assert(inputs.update(k, declaring(x, scope, specs)) =~= first.push(
            declaring(x, scope, specs),
        ));
    }
}

/// A condition that cannot be read fails the block, on an entry as on a
/// declaration.
pub proof fn law_broken_condition_fails(
    first: Seq<InputView>,
    x: InputView,
    scope: EnvScope,
    specs: Seq<EnvVarSpecView>,
    s: EnvVarSpecView,
    e: EnvBuilderEntryView,
)
    requires
        env_block(first.push(declaring(x, scope, specs)), scope) is Ok,
    ensures
        met(s.requirement, x.vars) matches Err(error) ==> env_block(
            first.push(declaring(x, scope, specs.push(s))),
            scope,
        ) == Err::<Entries<EnvActionView>, ErrorView>(error),
        met(s.requirement, x.vars) == Ok::<bool, ErrorView>(true) && x.vars.interpolated(
            s.name,
        ).len() > 0 && env_block(first.push(declaring(x, scope, specs.push(s))), scope) is Ok ==> (
        met(e.requirement, x.vars) matches Err(error) ==> env_block(
            first.push(declaring(x, scope, specs.push(built_by(s, s.builder.push(e))))),
            scope,
        ) == Err::<Entries<EnvActionView>, ErrorView>(error)),
{
    let none = Seq::<(Seq<char>, AccumView)>::empty();
    let y = declaring(x, scope, specs.push(s));
    let z = declaring(x, scope, specs);
    assert(first.push(y) =~= first + seq![y]);
    assert(first.push(z) =~= first + seq![z]);
    lemma_inputs_join(first, seq![y], scope, none);
    lemma_inputs_join(first, seq![z], scope, none);
    assert(seq![y].drop_first() =~= seq![]);
    assert(seq![z].drop_first() =~= seq![]);
    assert(specs.push(s) =~= specs + seq![s]);
    reveal_with_fuel(inputs_applied, 2);
    if let Ok(m) = inputs_applied(first, scope, none) {
        lemma_specs_join(specs, seq![s], x.vars, m);
    }
    if met(s.requirement, x.vars) == Ok::<bool, ErrorView>(true) && x.vars.interpolated(
        s.name,
    ).len() > 0 {
        let t = built_by(s, s.builder.push(e));
        lemma_last_variable(first, x, scope, specs, s);
        lemma_last_variable(first, x, scope, specs, t);
        if let Ok(m) = inputs_applied(first.push(z), scope, none) {
            lemma_steps_push(s.builder, e, x.vars, accum_of(m, x.vars.interpolated(s.name)));
        }
    }
}

/// The entry holds, its declaration holds, and it is for this variable.
pub open spec fn is_for(
    inputs: Seq<InputView>,
    scope: EnvScope,
    k: int,
    j: int,
    i: int,
    name: Seq<char>,
) -> bool {
    &&& 0 <= k < inputs.len()
    &&& 0 <= j < declared(inputs[k], scope).len()
    &&& 0 <= i < declared(inputs[k], scope)[j].builder.len()
    &&& inputs[k].vars.interpolated(declared(inputs[k], scope)[j].name) == name
    &&& met(declared(inputs[k], scope)[j].requirement, inputs[k].vars) == Ok::<bool, ErrorView>(
        true,
    )
    &&& met(declared(inputs[k], scope)[j].builder[i].requirement, inputs[k].vars) == Ok::<
        bool,
        ErrorView,
    >(true)
}

spec fn is_touched(m: Entries<AccumView>, name: Seq<char>) -> bool {
    value_of(m, name) matches Some(a) && a.applied
}

proof fn lemma_steps_touch(entries: Seq<EnvBuilderEntryView>, vars: VarStoreView, a: AccumView)
    ensures
        steps_applied(entries, vars, a) matches Ok(b) && b.applied && !a.applied ==> exists|i: int|
            0 <= i < entries.len() && met((#[trigger] entries[i]).requirement, vars) == Ok::<
                bool,
                ErrorView,
            >(true),
    decreases entries.len(),
{
    if entries.len() > 0 {
        if met(entries[0].requirement, vars) == Ok::<bool, ErrorView>(false) {
            let rest = entries.drop_first();
            lemma_steps_touch(rest, vars, a);
            if steps_applied(entries, vars, a) matches Ok(b) && b.applied && !a.applied {
                let i = choose|i: int|
                    0 <= i < rest.len() && met((#[trigger] rest[i]).requirement, vars) == Ok::<
                        bool,
                        ErrorView,
                    >(true);
                assert(entries[i + 1] == rest[i]);
            }
        }
    }
}

proof fn lemma_specs_touch(
    x: InputView,
    scope: EnvScope,
    from: int,
    accums: Entries<AccumView>,
    name: Seq<char>,
)
    requires
        0 <= from <= declared(x, scope).len(),
        distinct(accums),
    ensures
        specs_applied(declared(x, scope).skip(from), x.vars, accums) matches Ok(m) && is_touched(
            m,
            name,
        ) && !is_touched(accums, name) ==> exists|j: int, i: int|
            is_for(seq![x], scope, 0, j, i, name),
    decreases declared(x, scope).len() - from,
{
    let all = declared(x, scope);
    let specs = all.skip(from);
    if from < all.len() {
        let s = specs[0];
        let own = x.vars.interpolated(s.name);
        assert(specs.drop_first() =~= all.skip(from + 1));
        lemma_specs_touch(x, scope, from + 1, accums, name);
        if met(s.requirement, x.vars) == Ok::<bool, ErrorView>(true) && own.len() > 0 {
            let start = accum_of(accums, own);
            lemma_steps_touch(s.builder, x.vars, start);
            if let Ok(a) = steps_applied(s.builder, x.vars, start) {
                law_put(accums, own, a, name);
                lemma_specs_touch(x, scope, from + 1, put(accums, own, a), name);
                if name == own && a.applied && !start.applied {
                    let i = choose|i: int|
                        0 <= i < s.builder.len() && met(
                            (#[trigger] s.builder[i]).requirement,
                            x.vars,
                        ) == Ok::<bool, ErrorView>(true);
                    assert(all[from] == s);
                    assert(is_for(seq![x], scope, 0, from, i, name));
                }
            }
        }
    }
}

proof fn lemma_inputs_touch(
    inputs: Seq<InputView>,
    scope: EnvScope,
    accums: Entries<AccumView>,
    name: Seq<char>,
)
    requires
        distinct(accums),
    ensures
        inputs_applied(inputs, scope, accums) matches Ok(m) && is_touched(m, name) && !is_touched(
            accums,
            name,
        ) ==> exists|k: int, j: int, i: int| is_for(inputs, scope, k, j, i, name),
    decreases inputs.len(),
{
    if inputs.len() > 0 {
        let x = inputs[0];
        let rest = inputs.drop_first();
        assert(declared(x, scope).skip(0) =~= declared(x, scope));
        lemma_specs_touch(x, scope, 0, accums, name);
        lemma_specs_distinct(specs_of(x.spec, scope), x.vars, accums);
        if let Ok(next) = specs_applied(specs_of(x.spec, scope), x.vars, accums) {
            lemma_inputs_touch(rest, scope, next, name);
            if inputs_applied(inputs, scope, accums) matches Ok(m) && is_touched(m, name)
                && !is_touched(accums, name) {
                if is_touched(next, name) {
                    let (j, i) = choose|j: int, i: int| is_for(seq![x], scope, 0, j, i, name);
                    assert(is_for(inputs, scope, 0, j, i, name));
                } else {
                    let (k, j, i) = choose|k: int, j: int, i: int|
                        is_for(rest, scope, k, j, i, name);
                    assert(inputs[k + 1] == rest[k]);
                    assert(is_for(inputs, scope, k + 1, j, i, name));
                }
            }
        }
    }
}

/// A variable stands in the block only where an entry for it holds.
pub proof fn law_variables_come_from_entries(
    inputs: Seq<InputView>,
    scope: EnvScope,
    name: Seq<char>,
)
    ensures
        env_block(inputs, scope) matches Ok(env) && has_key(env, name) ==> exists|
            k: int,
            j: int,
            i: int,
        | is_for(inputs, scope, k, j, i, name),
{
    let none = Seq::<(Seq<char>, AccumView)>::empty();
    lemma_inputs_touch(inputs, scope, none, name);
    lemma_inputs_distinct(inputs, scope, none);
    if let Ok(m) = inputs_applied(inputs, scope, none) {
        lemma_settled(m, name);
    }
}

} // verus!
