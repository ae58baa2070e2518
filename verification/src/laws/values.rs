//! How values are written.

use vstd::prelude::*;

use crate::number::{number_of, read_unsigned};
use crate::text::joined;
use crate::value::{
    bool_text, json_items, json_members, json_quoted, json_text, plain_text, ValueView,
};

verus! {

proof fn lemma_items(a: Seq<ValueView>)
    ensures
        json_items(a) == a.map_values(|v: ValueView| json_text(v)),
    decreases a.len(),
{
    let f = |v: ValueView| json_text(v);
    if a.len() > 0 {
        lemma_items(a.drop_last());
        assert(a.map_values(f) =~= a.drop_last().map_values(f).push(f(a.last())));
    } else {
        assert(a.map_values(f) =~= seq![]);
    }
}

proof fn lemma_members(o: Seq<(Seq<char>, ValueView)>)
    ensures
        json_members(o) == o.map_values(
            |m: (Seq<char>, ValueView)| json_quoted(m.0) + ":"@ + json_text(m.1),
        ),
    decreases o.len(),
{
    let f = |m: (Seq<char>, ValueView)| json_quoted(m.0) + ":"@ + json_text(m.1);
    if o.len() > 0 {
        lemma_members(o.drop_last());
        assert(o.map_values(f) =~= o.drop_last().map_values(f).push(f(o.last())));
    } else {
        assert(o.map_values(f) =~= seq![]);
    }
}

/// A value is written as JSON writes it: the two truths and nothing by their
/// names, a number as its text, a text in quotes, a list in brackets and an object
/// in braces, their parts in order and a comma between them.
pub proof fn law_json_text(
    n: Seq<char>,
    s: Seq<char>,
    a: Seq<ValueView>,
    o: Seq<(Seq<char>, ValueView)>,
)
    ensures
        json_text(ValueView::Null) == "null"@,
        json_text(ValueView::Bool(true)) == "true"@,
        json_text(ValueView::Bool(false)) == "false"@,
        json_text(ValueView::Number(n)) == n,
        json_text(ValueView::String(s)) == json_quoted(s),
        json_text(ValueView::Array(a)) == "["@ + joined(
            a.map_values(|v: ValueView| json_text(v)),
            ","@,
        ) + "]"@,
        json_text(ValueView::Object(o)) == "{"@ + joined(
            o.map_values(|m: (Seq<char>, ValueView)| json_quoted(m.0) + ":"@ + json_text(m.1)),
            ","@,
        ) + "}"@,
{
    lemma_items(a);
    lemma_members(o);
}

/// As a plain text a text is itself, nothing is empty, and every other value is
/// written as in JSON.
pub proof fn law_plain_text(v: ValueView, s: Seq<char>)
    ensures
        plain_text(ValueView::String(s)) == s,
        plain_text(ValueView::Null).len() == 0,
        !(v is String) && !(v is Null) ==> plain_text(v) == json_text(v),
        bool_text(true) == "true"@,
        bool_text(false) == "false"@,
{
}

/// A number is the one that its decimal digits spell: one digit is its value, and
/// each further one adds to ten times those before it.
pub proof fn law_numbers(digits: Seq<char>, d: char)
    requires
        '0' <= d <= '9',
    ensures
        number_of(seq![d]) == d as int - '0' as int,
        number_of(digits.push(d)) == 10 * number_of(digits) + (d as int - '0' as int),
{
    reveal_with_fuel(number_of, 2);
    assert(seq![d].drop_last() =~= seq![]);
    assert(digits.push(d).drop_last() =~= digits);
}

/// A text is read as a number where it is made of digits, with a plus before them
/// or not, and the number is not too large; else it is none.
pub proof fn law_read_numbers(digits: Seq<char>, max: int, c: char)
    requires
        digits.len() > 0,
        forall|i: int| 0 <= i < digits.len() ==> '0' <= #[trigger] digits[i] <= '9',
    ensures
        number_of(digits) <= max ==> read_unsigned(digits, max) == Some(number_of(digits)),
        number_of(digits) <= max ==> read_unsigned(seq!['+'] + digits, max) == Some(
            number_of(digits),
        ),
        number_of(digits) > max ==> read_unsigned(digits, max) is None,
        !('0' <= c <= '9') ==> read_unsigned(digits.push(c), max) is None,
        read_unsigned(seq![], max) is None,
{
    assert((seq!['+'] + digits).skip(1) =~= digits);
    assert(digits[0] != '+');
    let bad = digits.push(c);
    assert(bad[0] == digits[0]);
    assert(bad[digits.len() as int] == c);
}

} // verus!
