//! When a condition holds, and how a text is filled in.

use vstd::prelude::*;

use crate::builder::met;
use crate::condition::{
    condition_of, holds, is_and, is_atom, is_name_char, law_or_binds_loosest,
    law_reading_keeps_tokens, law_spelling_is_read_back, name_end, parse_outcome, parsed,
    requirement_met, spelled, tokens, tokens_from, variables, variables_in, word_token, ExprView,
    TokView,
};
use crate::error::ErrorView;
use crate::ordered::value_of;
use crate::schema::FieldType;
use crate::template::{filled, lemma_filled_step};
use crate::text::{begins, is_white, next_char, trimmed};
use crate::variables::{field_value, ui_check, ResolvedVarView, VarStoreView};

verus! {

// ---- Conditions ------------------------------------------------------------

proof fn lemma_name_end_before(a: Seq<char>, rest: Seq<char>, from: int)
    requires
        0 <= from <= a.len(),
        rest.len() > 0,
        !is_name_char(rest[0]),
    ensures
        name_end(a + rest, from) == name_end(a, from),
        from <= name_end(a, from) <= a.len(),
    decreases a.len() - from,
{
    let s = a + rest;
    if from < a.len() {
        assert(s[from] == a[from]);
        if is_name_char(a[from]) {
            lemma_name_end_before(a, rest, from + 1);
        }
    } else {
        assert(s[from] == rest[0]);
    }
}

proof fn lemma_name_end_behind(a: Seq<char>, b: Seq<char>, from: int)
    requires
        0 <= from <= b.len(),
    ensures
        name_end(a + b, a.len() + from) == a.len() + name_end(b, from),
        from <= name_end(b, from) <= b.len(),
    decreases b.len() - from,
{
    let s = a + b;
    if from < b.len() {
        assert(s[a.len() + from] == b[from]);
        if is_name_char(b[from]) {
            lemma_name_end_behind(a, b, from + 1);
        }
    }
}

proof fn lemma_tokens_behind(a: Seq<char>, b: Seq<char>, from: int)
    requires
        0 <= from <= b.len(),
    ensures
        tokens_from(a + b, a.len() + from) == tokens_from(b, from),
    decreases b.len() - from,
{
    let s = a + b;
    if from < b.len() {
        assert(s[a.len() + from] == b[from]);
        lemma_name_end_behind(a, b, from);
        if is_white(b[from]) || b[from] == '!' {
            lemma_tokens_behind(a, b, from + 1);
        } else if is_name_char(b[from]) {
            let end = name_end(b, from);
            crate::condition::lemma_name_end(b, from);
            lemma_tokens_behind(a, b, end);
            assert(s.subrange(a.len() + from, a.len() + end) =~= b.subrange(from, end));
        }
    }
}

proof fn lemma_tokens_joined(a: Seq<char>, w: char, b: Seq<char>, from: int)
    requires
        0 <= from <= a.len(),
        is_white(w),
    ensures
        tokens_from(a + seq![w] + b, from) == match tokens_from(a, from) {
            Err(c) => Err(c),
            Ok(ta) => match tokens(b) {
                Err(c) => Err(c),
                Ok(tb) => Ok(ta + tb),
            },
        },
    decreases a.len() - from,
{
    let s = a + seq![w] + b;
    let rest = seq![w] + b;
    assert(s =~= a + rest);
    assert(rest[0] == w);
    assert(!is_name_char(w));
    if from < a.len() {
        assert(s[from] == a[from]);
        lemma_name_end_before(a, rest, from);
        if is_white(a[from]) || a[from] == '!' {
            lemma_tokens_joined(a, w, b, from + 1);
            if let Ok(ta) = tokens_from(a, from + 1) {
                if let Ok(tb) = tokens(b) {
                    assert(seq![TokView::Not] + (ta + tb) =~= seq![TokView::Not] + ta + tb);
                }
            }
        } else if is_name_char(a[from]) {
            let end = name_end(a, from);
            crate::condition::lemma_name_end(a, from);
            lemma_tokens_joined(a, w, b, end);
            assert(s.subrange(from, end) =~= a.subrange(from, end));
            let t = word_token(a.subrange(from, end));
            if let Ok(ta) = tokens_from(a, end) {
                if let Ok(tb) = tokens(b) {
                    assert(seq![t] + (ta + tb) =~= seq![t] + ta + tb);
                }
            }
        }
    } else {
        assert(s[from] == w);
        assert(a + seq![w] + b =~= (a + seq![w]) + b);
        lemma_tokens_behind(a + seq![w], b, 0);
        if let Ok(tb) = tokens(b) {
            assert(Seq::<TokView>::empty() + tb =~= tb);
        }
    }
}

/// White space keeps two texts apart: the tokens of both, one behind the other.
pub proof fn law_tokens_are_kept_apart(a: Seq<char>, w: char, b: Seq<char>)
    requires
        is_white(w),
        tokens(a) is Ok,
        tokens(b) is Ok,
    ensures
        tokens(a + seq![w] + b) == Ok::<Seq<TokView>, char>(tokens(a)->Ok_0 + tokens(b)->Ok_0),
{
    lemma_tokens_joined(a, w, b, 0);
}

/// A word made of letters, digits, underscores and colons.
pub open spec fn is_word(s: Seq<char>) -> bool {
    s.len() > 0 && forall|i: int|
        0 <= i < s.len() ==> {
            let c = #[trigger] s[i];
            ('a' <= c <= 'z') || ('A' <= c <= 'Z') || ('0' <= c <= '9') || c == '_' || c == ':'
        }
}

proof fn lemma_word_end(s: Seq<char>, from: int)
    requires
        is_word(s),
        0 <= from <= s.len(),
    ensures
        name_end(s, from) == s.len(),
    decreases s.len() - from,
{
    if from < s.len() {
        assert(is_name_char(s[from]));
        lemma_word_end(s, from + 1);
    }
}

proof fn lemma_word_tokens(s: Seq<char>)
    requires
        is_word(s),
    ensures
        tokens(s) == Ok::<Seq<TokView>, char>(seq![word_token(s)]),
        tokens(seq!['!'] + s) == Ok::<Seq<TokView>, char>(seq![TokView::Not, word_token(s)]),
{
    lemma_word_end(s, 0);
    assert(is_name_char(s[0]));
    assert(!is_white(s[0]) && s[0] != '!');
    assert(s.subrange(0, s.len() as int) =~= s);
    let one = seq![word_token(s)];
    assert(one + Seq::<TokView>::empty() =~= one);
    assert(tokens_from(s, s.len() as int) == Ok::<Seq<TokView>, char>(seq![]));
    assert(tokens(s) == Ok::<Seq<TokView>, char>(one));
    let t = seq!['!'] + s;
    lemma_tokens_behind(seq!['!'], s, 0);
    assert(t[0] == '!');
    assert(seq![TokView::Not] + one =~= seq![TokView::Not, word_token(s)]);
}

/// A name is met where its variable is true; with an exclamation mark or `NOT`
/// before it, where it is not. Without a condition everything is met.
pub proof fn law_names(s: Seq<char>, truth: spec_fn(Seq<char>) -> bool)
    requires
        is_word(s),
        s != "AND"@ && s != "OR"@ && s != "NOT"@,
    ensures
        requirement_met(None, truth) == Ok::<bool, ErrorView>(true),
        requirement_met(Some(s), truth) == Ok::<bool, ErrorView>(truth(s)),
        requirement_met(Some(seq!['!'] + s), truth) == Ok::<bool, ErrorView>(!truth(s)),
        requirement_met(Some("NOT"@ + seq![' '] + s), truth) == Ok::<bool, ErrorView>(!truth(s)),
{
    let v = ExprView::Var(s);
    let n = ExprView::Not(Box::new(v));
    reveal_strlit("NOT");
    reveal_with_fuel(is_atom, 2);
    reveal_with_fuel(spelled, 2);
    reveal_with_fuel(holds, 2);
    lemma_word_tokens(s);
    assert(is_word("NOT"@));
    lemma_word_tokens("NOT"@);
    let apart = "NOT"@ + seq![' '] + s;
    law_tokens_are_kept_apart("NOT"@, ' ', s);
    let name = TokView::Ident(s);
    assert(word_token("NOT"@) == TokView::Not) by {
        reveal_strlit("AND");
        reveal_strlit("OR");
        assert("AND"@[0] == 'A' && "OR"@.len() == 2 && "NOT"@[0] == 'N' && "NOT"@.len() == 3);
    }
    assert(seq![TokView::Not] + seq![name] =~= seq![TokView::Not, name]);
    assert(spelled(v) =~= seq![name]);
    assert(spelled(n) =~= seq![TokView::Not, name]);
    law_spelling_is_read_back(v, s);
    law_spelling_is_read_back(n, seq!['!'] + s);
    law_spelling_is_read_back(n, apart);
}

/// The condition that a text is read as.
pub open spec fn read_as(s: Seq<char>, e: ExprView) -> bool {
    parsed(s) == Ok::<Option<ExprView>, Seq<char>>(Some(e))
}

proof fn lemma_word_between(a: Seq<char>, word: Seq<char>, b: Seq<char>)
    requires
        is_word(word),
        tokens(a) is Ok,
        tokens(b) is Ok,
    ensures
        tokens(a + seq![' '] + word + seq![' '] + b) == Ok::<Seq<TokView>, char>(
            tokens(a)->Ok_0 + seq![word_token(word)] + tokens(b)->Ok_0,
        ),
{
    lemma_word_tokens(word);
    law_tokens_are_kept_apart(a, ' ', word);
    law_tokens_are_kept_apart(a + seq![' '] + word, ' ', b);
}

proof fn lemma_condition_of_any(t: Seq<TokView>, s: Seq<char>, r: Seq<char>)
    ensures
        condition_of(t, s) matches Ok(e) ==> condition_of(t, r) == Ok::<
            Option<ExprView>,
            Seq<char>,
        >(e),
{
}

/// Two conditions joined by `OR` are met where one of them is.
pub proof fn law_or(
    a: Seq<char>,
    b: Seq<char>,
    x: ExprView,
    y: ExprView,
    truth: spec_fn(Seq<char>) -> bool,
)
    requires
        read_as(a, x),
        read_as(b, y),
    ensures
        requirement_met(Some(a + seq![' '] + "OR"@ + seq![' '] + b), truth) == Ok::<bool, ErrorView>(
            requirement_met(Some(a), truth)->Ok_0 || requirement_met(Some(b), truth)->Ok_0,
        ),
{
    let s = a + seq![' '] + "OR"@ + seq![' '] + b;
    let ta = tokens(a)->Ok_0;
    let tb = tokens(b)->Ok_0;
    reveal_strlit("OR");
    assert(is_word("OR"@));
    lemma_word_between(a, "OR"@, b);
    assert(word_token("OR"@) == TokView::Or) by {
        reveal_strlit("AND");
        assert("AND"@.len() == 3 && "OR"@.len() == 2);
    }
    lemma_condition_of_any(ta, a, s);
    lemma_condition_of_any(tb, b, s);
    law_or_binds_loosest(ta, tb, s, truth);
}

/// Two conditions joined by `AND`, neither of which joins others by `OR`, are met
/// where both are.
pub proof fn law_and(
    a: Seq<char>,
    b: Seq<char>,
    x: ExprView,
    y: ExprView,
    truth: spec_fn(Seq<char>) -> bool,
)
    requires
        read_as(a, x),
        read_as(b, y),
        is_and(x),
        is_atom(y),
    ensures
        requirement_met(Some(a + seq![' '] + "AND"@ + seq![' '] + b), truth) == Ok::<
            bool,
            ErrorView,
        >(requirement_met(Some(a), truth)->Ok_0 && requirement_met(Some(b), truth)->Ok_0),
{
    let s = a + seq![' '] + "AND"@ + seq![' '] + b;
    let ta = tokens(a)->Ok_0;
    let tb = tokens(b)->Ok_0;
    let both = ExprView::And(Box::new(x), Box::new(y));
    reveal_strlit("AND");
    assert(is_word("AND"@));
    lemma_word_between(a, "AND"@, b);
    law_reading_keeps_tokens(ta, a);
    law_reading_keeps_tokens(tb, b);
    assert(spelled(both) == ta + seq![TokView::And] + tb);
    law_spelling_is_read_back(both, s);
}

/// A condition reads the variables of its extension, and under a `global:` name
/// those that all share; a variable that there is not is false, and its value
/// empty.
pub proof fn law_variables(vars: VarStoreView, name: Seq<char>)
    ensures
        met(None, vars) == Ok::<bool, ErrorView>(true),
        is_word(name) && name != "AND"@ && name != "OR"@ && name != "NOT"@ ==> met(
            Some(name),
            vars,
        ) == Ok::<bool, ErrorView>(vars.truthy(name)),
        vars.lookup("global:"@ + name) == value_of(vars.global, name),
        !crate::text::begins(name, "global:"@) ==> vars.lookup(name) == value_of(vars.local, name),
        vars.lookup(name) matches Some(v) ==> vars.truthy(name) == v.truthy && vars.value(name)
            == v.value,
        vars.lookup(name) is None ==> !vars.truthy(name) && vars.value(name).len() == 0,
{
    crate::laws::text::law_prefix("global:"@, name);
    if is_word(name) && name != "AND"@ && name != "OR"@ && name != "NOT"@ {
        law_names(name, vars.truth());
    }
}

/// The variables of a condition are those that it names; no condition, and one that
/// cannot be read, has none.
pub proof fn law_variables_in(s: Seq<char>, e: ExprView)
    ensures
        variables_in(None) == Seq::<Seq<char>>::empty(),
        read_as(s, e) ==> variables_in(Some(s)) == variables(e),
        parsed(s) is Err ==> variables_in(Some(s)) == Seq::<Seq<char>>::empty(),
{
}

proof fn lemma_tokens_bad(a: Seq<char>, c: char, b: Seq<char>, from: int)
    requires
        0 <= from <= a.len(),
        !is_white(c) && !is_name_char(c) && c != '!',
        tokens_from(a, from) is Ok,
    ensures
        tokens_from(a + seq![c] + b, from) == Err::<Seq<TokView>, char>(c),
    decreases a.len() - from,
{
    let s = a + seq![c] + b;
    let rest = seq![c] + b;
    assert(s =~= a + rest);
    assert(rest[0] == c);
    if from < a.len() {
        assert(s[from] == a[from]);
        lemma_name_end_before(a, rest, from);
        if is_white(a[from]) || a[from] == '!' {
            lemma_tokens_bad(a, c, b, from + 1);
        } else if is_name_char(a[from]) {
            crate::condition::lemma_name_end(a, from);
            lemma_tokens_bad(a, c, b, name_end(a, from));
        }
    } else {
        assert(s[from] == c);
    }
}

/// The first character that no condition is made of is told, with the condition.
pub proof fn law_bad_characters(a: Seq<char>, c: char, b: Seq<char>)
    requires
        tokens(a) is Ok,
        !is_white(c) && c != '!' && c != '_' && c != ':',
        !('a' <= c <= 'z') && !('A' <= c <= 'Z') && !('0' <= c <= '9'),
    ensures
        parse_outcome(a + seq![c] + b) == Err::<Option<ExprView>, ErrorView>(
            ErrorView::Condition(
                "unexpected character `"@ + seq![c] + "` in condition `"@ + (a + seq![c] + b)
                    + "`"@,
            ),
        ),
{
    lemma_tokens_bad(a, c, b, 0);
}

/// A condition that ends too soon, one that begins with what stands between
/// conditions, and one with a name too many are refused, each with its reason.
pub proof fn law_refused_conditions(x: Seq<char>, y: Seq<char>, t: Seq<TokView>, s: Seq<char>)
    ensures
        condition_of(seq![], s) == Ok::<Option<ExprView>, Seq<char>>(None),
        condition_of(seq![TokView::Not], s) == Err::<Option<ExprView>, Seq<char>>(
            "unexpected end of condition"@,
        ),
        condition_of(seq![TokView::Ident(x), TokView::And], s) == Err::<
            Option<ExprView>,
            Seq<char>,
        >("unexpected end of condition"@),
        condition_of(seq![TokView::Ident(x), TokView::Or], s) == Err::<
            Option<ExprView>,
            Seq<char>,
        >("unexpected end of condition"@),
        condition_of(seq![TokView::And] + t, s) == Err::<Option<ExprView>, Seq<char>>(
            "expected variable, found `And`"@,
        ),
        condition_of(seq![TokView::Or] + t, s) == Err::<Option<ExprView>, Seq<char>>(
            "expected variable, found `Or`"@,
        ),
        condition_of(seq![TokView::Ident(x), TokView::Ident(y)] + t, s) == Err::<
            Option<ExprView>,
            Seq<char>,
        >("trailing tokens in condition `"@ + s + "`"@),
{
    reveal_with_fuel(crate::condition::read_atom, 2);
    reveal_with_fuel(crate::condition::read_and_rest, 2);
    reveal_with_fuel(crate::condition::read_or_rest, 2);
    assert((seq![TokView::And] + t)[0] == TokView::And);
    assert((seq![TokView::Or] + t)[0] == TokView::Or);
    let two = seq![TokView::Ident(x), TokView::Ident(y)] + t;
    assert(two[0] == TokView::Ident(x));
    assert(two[1] == TokView::Ident(y));
}

/// The condition of a field may name the extension's own variables; the first that
/// all share is told.
pub proof fn law_field_conditions(s: Seq<char>, e: ExprView, i: int)
    requires
        read_as(s, e),
        0 <= i <= variables(e).len(),
        forall|j: int| 0 <= j < i ==> !begins(#[trigger] variables(e)[j], "global:"@),
    ensures
        i == variables(e).len() ==> ui_check(s) == Ok::<(), ErrorView>(()),
        i < variables(e).len() && begins(variables(e)[i], "global:"@) ==> ui_check(s) == Err::<
            (),
            ErrorView,
        >(
            ErrorView::Condition(
                "`global:` reference `"@ + variables(e)[i] + "` is not allowed in a UI Requires"@,
            ),
        ),
{
    let names = variables(e);
    if i < names.len() && begins(names[i], "global:"@) {
        assert(crate::variables::first_global(names, i));
        let k = choose|k: int| crate::variables::first_global(names, k);
        assert(crate::variables::first_global(names, k));
        if k < i {
            assert(!begins(names[k], "global:"@));
        } else if k > i {
            assert(!begins(names[i], "global:"@));
        }
    }
}

// ---- Variables -------------------------------------------------------------

/// A switch is on where it says `true`, or where it says nothing and is enabled;
/// any other field has its text where it is enabled and not empty, and is off
/// otherwise.
pub proof fn law_field_value(field_type: FieldType, enabled: bool, text: Seq<char>)
    ensures
        field_value(FieldType::Toggle, enabled, Some("true"@)) == (ResolvedVarView {
            truthy: true,
            value: "true"@,
        }),
        text != "true"@ ==> field_value(FieldType::Toggle, enabled, Some(text)) == (
        ResolvedVarView { truthy: false, value: "false"@ }),
        field_value(FieldType::Toggle, true, None) == (ResolvedVarView {
            truthy: true,
            value: "true"@,
        }),
        field_value(FieldType::Toggle, false, None) == (ResolvedVarView {
            truthy: false,
            value: "false"@,
        }),
        field_type != FieldType::Toggle && text.len() > 0 ==> field_value(
            field_type,
            true,
            Some(text),
        ) == (ResolvedVarView { truthy: true, value: text }),
        field_type != FieldType::Toggle ==> field_value(field_type, false, Some(text)) == (
        ResolvedVarView { truthy: false, value: seq![] }),
        field_type != FieldType::Toggle ==> field_value(field_type, enabled, Some(seq![])) == (
        ResolvedVarView { truthy: false, value: seq![] }),
        field_type != FieldType::Toggle ==> field_value(field_type, enabled, None) == (
        ResolvedVarView { truthy: false, value: seq![] }),
{
}

// ---- Texts -----------------------------------------------------------------

proof fn lemma_filled_plain(a: Seq<char>, b: Seq<char>, value: spec_fn(Seq<char>) -> Seq<char>)
    requires
        forall|i: int| 0 <= i < a.len() ==> a[i] != '{' && a[i] != '}',
    ensures
        filled(a + b, value) == a + filled(b, value),
    decreases a.len(),
{
    let s = a + b;
    if a.len() == 0 {
        assert(s =~= b);
        assert(a + filled(b, value) =~= filled(b, value));
    } else {
        assert(s[0] == a[0]);
        assert(a[0] != '{' && a[0] != '}');
        lemma_filled_step(s, value);
        assert(s.skip(1) =~= a.skip(1) + b);
        lemma_filled_plain(a.skip(1), b, value);
        assert(seq![a[0]] + (a.skip(1) + filled(b, value)) =~= a + filled(b, value));
    }
}

/// A name in braces is filled in with the value of that variable, the white space
/// round the name aside, wherever it stands in the text.
pub proof fn law_slots_are_filled(
    a: Seq<char>,
    name: Seq<char>,
    b: Seq<char>,
    value: spec_fn(Seq<char>) -> Seq<char>,
)
    requires
        forall|i: int| 0 <= i < a.len() ==> a[i] != '{' && a[i] != '}',
        forall|i: int| 0 <= i < name.len() ==> name[i] != '{' && name[i] != '}',
    ensures
        filled(a + (seq!['{'] + name + seq!['}'] + b), value) == a + value(trimmed(name)) + filled(
            b,
            value,
        ),
{
    let s = seq!['{'] + name + seq!['}'] + b;
    lemma_filled_plain(a, s, value);
    let n = name.len() as int;
    crate::text::lemma_next_char(s, '}', 1);
    let at = next_char(s, '}', 1);
    assert(s[n + 1] == '}');
    if at < n + 1 {
        assert(s[at] == name[at - 1]);
    }
    assert(at == n + 1);
    assert(s.subrange(1, at) =~= name);
    assert(s.skip(at + 1) =~= b);
    assert(s[0] == '{');
    if n > 0 {
        assert(s[1] == name[0]);
    }
    lemma_filled_step(s, value);
    assert(a + (value(trimmed(name)) + filled(b, value)) =~= a + value(trimmed(name)) + filled(
        b,
        value,
    ));
}

/// What an extension writes is filled in with its own variables.
pub proof fn law_interpolated(vars: VarStoreView, a: Seq<char>, name: Seq<char>, b: Seq<char>)
    requires
        forall|i: int| 0 <= i < a.len() ==> a[i] != '{' && a[i] != '}',
        forall|i: int| 0 <= i < name.len() ==> name[i] != '{' && name[i] != '}',
    ensures
        vars.interpolated(a) == a,
        vars.interpolated(a + (seq!['{'] + name + seq!['}'] + b)) == a + vars.value(trimmed(name))
            + vars.interpolated(b),
{
    let value = |n: Seq<char>| vars.value(n);
    law_slots_are_filled(a, name, b, value);
    crate::template::law_plain_text_is_kept(a, value);
}

} // verus!
