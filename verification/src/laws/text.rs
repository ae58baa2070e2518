//! How texts are taken apart and put together.

use vstd::prelude::*;

use crate::text::{
    after_prefix, begins, chomped, is_white, joined, lemma_next_char, lemma_pieces, lines_of,
    next_char, next_class, replaced, split_at_char, split_first, stands_at, trim_end, trim_start,
    trimmed, words, words_from,
};

verus! {

/// Where `c` first stands behind `a`.
proof fn lemma_next_behind(a: Seq<char>, c: char, b: Seq<char>)
    requires
        !a.contains(c),
    ensures
        next_char(a + seq![c] + b, c, 0) == a.len(),
{
    let s = a + seq![c] + b;
    lemma_next_char(s, c, 0);
    let at = next_char(s, c, 0);
    assert(s[a.len() as int] == c);
    if at < a.len() {
        assert(s[at] == a[at]);
        assert(a.contains(c));
    }
}

proof fn lemma_next_none(s: Seq<char>, c: char)
    requires
        !s.contains(c),
    ensures
        next_char(s, c, 0) == s.len(),
{
    lemma_next_char(s, c, 0);
    let at = next_char(s, c, 0);
    if at < s.len() {
        assert(s[at] == c);
        assert(s.contains(c));
    }
}

/// Text without the separator is one piece, and two texts with the separator
/// between them are the pieces of both.
pub proof fn law_split(a: Seq<char>, sep: char, b: Seq<char>)
    ensures
        !a.contains(sep) ==> split_at_char(a, sep) == seq![a],
        split_at_char(a + seq![sep] + b, sep) == split_at_char(a, sep) + split_at_char(b, sep),
    decreases a.len(),
{
    let s = a + seq![sep] + b;
    if !a.contains(sep) {
        lemma_next_none(a, sep);
        lemma_next_behind(a, sep, b);
        assert(s.take(a.len() as int) =~= a);
        assert(s.skip(a.len() as int + 1) =~= b);
        assert(split_at_char(a, sep) =~= seq![a]);
    } else {
        lemma_next_char(a, sep, 0);
        let at = next_char(a, sep, 0);
        if at == a.len() {
            let i = choose|i: int| 0 <= i < a.len() && a[i] == sep;
            assert(a[i] != sep);
        }
        let head = a.take(at);
        let rest = a.skip(at + 1);
        assert(!head.contains(sep)) by {
            if head.contains(sep) {
                let i = choose|i: int| 0 <= i < head.len() && head[i] == sep;
                assert(a[i] != sep);
            }
        }
        law_split(rest, sep, b);
        assert(s =~= head + seq![sep] + (rest + seq![sep] + b));
        lemma_next_behind(head, sep, rest + seq![sep] + b);
        assert(s.take(at) =~= head);
        assert(s.skip(at + 1) =~= rest + seq![sep] + b);
        assert(seq![head] + (split_at_char(rest, sep) + split_at_char(b, sep)) =~= seq![head]
            + split_at_char(rest, sep) + split_at_char(b, sep));
    }
}

/// A text is split at the first separator; the text behind it may hold more.
pub proof fn law_split_first(a: Seq<char>, sep: char, b: Seq<char>)
    requires
        !a.contains(sep),
    ensures
        split_first(a + seq![sep] + b, sep) == Some((a, b)),
        split_first(a, sep) is None,
{
    let s = a + seq![sep] + b;
    lemma_next_none(a, sep);
    lemma_next_behind(a, sep, b);
    assert(s.take(a.len() as int) =~= a);
    assert(s.skip(a.len() as int + 1) =~= b);
}

/// All characters are white space.
pub open spec fn blank(s: Seq<char>) -> bool {
    forall|i: int| 0 <= i < s.len() ==> is_white(#[trigger] s[i])
}

proof fn lemma_trim_start(a: Seq<char>, s: Seq<char>)
    requires
        blank(a),
    ensures
        trim_start(a + s) == trim_start(s),
    decreases a.len(),
{
    if a.len() == 0 {
        assert(a + s =~= s);
    } else {
        assert(is_white(a[0]));
        assert((a + s)[0] == a[0]);
        assert((a + s).drop_first() =~= a.drop_first() + s);
        assert forall|i: int| 0 <= i < a.drop_first().len() implies is_white(
            #[trigger] a.drop_first()[i],
        ) by {
            assert(is_white(a[i + 1]));
        }
        lemma_trim_start(a.drop_first(), s);
    }
}

proof fn lemma_trim_end(s: Seq<char>, b: Seq<char>)
    requires
        blank(b),
    ensures
        trim_end(s + b) == trim_end(s),
    decreases b.len(),
{
    if b.len() == 0 {
        assert(s + b =~= s);
    } else {
        assert(is_white(b[b.len() - 1]));
        assert((s + b).last() == b[b.len() - 1]);
        assert((s + b).drop_last() =~= s + b.drop_last());
        assert forall|i: int| 0 <= i < b.drop_last().len() implies is_white(
            #[trigger] b.drop_last()[i],
        ) by {
            assert(is_white(b[i]));
        }
        lemma_trim_end(s, b.drop_last());
    }
}

/// Trimming takes the white space off both ends and nothing else.
pub proof fn law_trimmed(a: Seq<char>, s: Seq<char>, b: Seq<char>)
    requires
        blank(a),
        blank(b),
    ensures
        s.len() > 0 && !is_white(s[0]) && !is_white(s.last()) ==> trimmed(a + s + b) == s,
        trimmed(a) == Seq::<char>::empty(),
{
    lemma_trim_start(a, s + b);
    assert(a + s + b =~= a + (s + b));
    if s.len() > 0 && !is_white(s[0]) && !is_white(s.last()) {
        assert((s + b)[0] == s[0]);
        lemma_trim_end(s, b);
    }
    lemma_trim_start(a, seq![]);
    assert(a + Seq::<char>::empty() =~= a);
}

/// Texts are joined in order, the separator between each and the next.
pub proof fn law_joined(parts: Seq<Seq<char>>, sep: Seq<char>, last: Seq<char>)
    ensures
        joined(seq![], sep) == Seq::<char>::empty(),
        joined(seq![last], sep) == last,
        parts.len() > 0 ==> joined(parts.push(last), sep) == joined(parts, sep) + sep + last,
{
    if parts.len() > 0 {
        assert(parts.push(last).drop_last() =~= parts);
    }
}

/// Every occurrence of the pattern is replaced, from the left, and nothing else is
/// touched.
pub proof fn law_replaced(a: Seq<char>, pat: Seq<char>, b: Seq<char>, with: Seq<char>)
    requires
        pat.len() > 0,
        forall|j: int| 0 <= j < a.len() ==> !stands_at(a + pat + b, pat, j),
    ensures
        replaced(a + pat + b, pat, with) == a + with + replaced(b, pat, with),
    decreases a.len(),
{
    let s = a + pat + b;
    if a.len() == 0 {
        assert(s.take(pat.len() as int) =~= pat);
        assert(s.skip(pat.len() as int) =~= b);
        assert(a + with + replaced(b, pat, with) =~= with + replaced(b, pat, with));
    } else {
        assert(!stands_at(s, pat, 0));
        assert(s.take(pat.len() as int) =~= s.subrange(0, pat.len() as int));
        let rest = a.drop_first();
        let t = rest + pat + b;
        assert(s.drop_first() =~= t);
        assert forall|j: int| 0 <= j < rest.len() implies !stands_at(t, pat, j) by {
            assert(!stands_at(s, pat, j + 1));
            assert(s.subrange(j + 1, j + 1 + pat.len()) =~= t.subrange(j, j + pat.len()));
        }
        law_replaced(rest, pat, b, with);
        assert(s[0] == a[0]);
        assert(seq![a[0]] + (rest + with + replaced(b, pat, with)) =~= a + with + replaced(
            b,
            pat,
            with,
        ));
    }
}

/// Text without the pattern is left as it is.
pub proof fn law_nothing_replaced(s: Seq<char>, pat: Seq<char>, with: Seq<char>)
    requires
        forall|j: int| !stands_at(s, pat, j),
    ensures
        replaced(s, pat, with) == s,
    decreases s.len(),
{
    if s.len() > 0 && pat.len() > 0 {
        assert(!stands_at(s, pat, 0));
        if pat.len() <= s.len() {
            assert(s.take(pat.len() as int) =~= s.subrange(0, pat.len() as int));
        }
        let rest = s.drop_first();
        assert forall|j: int| !stands_at(rest, pat, j) by {
            assert(!stands_at(s, pat, j + 1));
            if 0 <= j && j + pat.len() <= rest.len() {
                assert(s.subrange(j + 1, j + 1 + pat.len()) =~= rest.subrange(j, j + pat.len()));
            }
        }
        law_nothing_replaced(rest, pat, with);
        assert(seq![s[0]] + rest =~= s);
    }
}

/// A prefix comes off where it is there, and only there.
pub proof fn law_prefix(p: Seq<char>, s: Seq<char>)
    ensures
        after_prefix(p + s, p) == Some(s),
        after_prefix(s, p) matches Some(rest) ==> s == p + rest,
{
    assert((p + s).take(p.len() as int) =~= p);
    assert((p + s).skip(p.len() as int) =~= s);
    if begins(s, p) {
        assert(s =~= s.take(p.len() as int) + s.skip(p.len() as int));
    }
}

/// Each line ends with a line feed, before which one carriage return goes too; the
/// last needs none, and none is empty for want of text behind the last line feed.
pub proof fn law_lines(line: Seq<char>, rest: Seq<char>)
    requires
        !line.contains('\n'),
    ensures
        lines_of(seq![]) == Seq::<Seq<char>>::empty(),
        line.len() > 0 ==> lines_of(line) == seq![line],
        lines_of(line + seq!['\r', '\n'] + rest) == seq![line] + lines_of(rest),
        line.len() == 0 || line.last() != '\r' ==> lines_of(line + seq!['\n'] + rest) == seq![line]
            + lines_of(rest),
{
    let f = |l: Seq<char>| chomped(l);
    law_split(seq![], '\n', seq![]);
    law_split(line, '\n', rest);
    lemma_pieces(rest, '\n');
    assert(!Seq::<char>::empty().contains('\n'));
    assert(seq![Seq::<char>::empty()].drop_last() =~= seq![]);
    assert(lines_of(seq![]) =~= seq![]);
    assert(seq![line].drop_last() =~= seq![]);
    if line.len() > 0 {
        assert(lines_of(line) =~= seq![line]);
    }
    let parts = split_at_char(rest, '\n');
    let all = seq![line] + parts;
    assert(all.drop_last() =~= seq![line] + parts.drop_last());
    assert(all.last() == parts.last());
    assert(all.drop_last().map_values(f) =~= seq![chomped(line)] + parts.drop_last().map_values(f));
    assert(lines_of(line + seq!['\n'] + rest) =~= seq![chomped(line)] + lines_of(rest));
    let long = line.push('\r');
    assert(!long.contains('\n')) by {
        if long.contains('\n') {
            let i = choose|i: int| 0 <= i < long.len() && long[i] == '\n';
            assert(line[i] == '\n');
            assert(line.contains('\n'));
        }
    }
    law_split(long, '\n', rest);
    assert(line + seq!['\r', '\n'] + rest =~= long + seq!['\n'] + rest);
    assert(long.drop_last() =~= line);
    let more = seq![long] + parts;
    assert(more.drop_last() =~= seq![long] + parts.drop_last());
    assert(more.drop_last().map_values(f) =~= seq![line] + parts.drop_last().map_values(f));
    assert(lines_of(long + seq!['\n'] + rest) =~= seq![line] + lines_of(rest));
}

proof fn lemma_class(s: Seq<char>, want: bool, from: int)
    requires
        0 <= from <= s.len(),
    ensures
        from <= next_class(s, want, from) <= s.len(),
        forall|j: int| from <= j < next_class(s, want, from) ==> is_white(s[j]) != want,
        next_class(s, want, from) < s.len() ==> is_white(s[next_class(s, want, from)]) == want,
    decreases s.len() - from,
{
    if from < s.len() && is_white(s[from]) != want {
        lemma_class(s, want, from + 1);
    }
}

proof fn lemma_class_is(s: Seq<char>, want: bool, from: int, at: int)
    requires
        0 <= from <= at <= s.len(),
        forall|j: int| from <= j < at ==> is_white(s[j]) != want,
        at == s.len() || is_white(s[at]) == want,
    ensures
        next_class(s, want, from) == at,
{
    lemma_class(s, want, from);
    let n = next_class(s, want, from);
    if n < at {
        assert(is_white(s[n]) == want);
    }
}

proof fn lemma_words_behind(a: Seq<char>, s: Seq<char>, from: int)
    requires
        0 <= from <= s.len(),
    ensures
        words_from(a + s, a.len() + from) == words_from(s, from),
    decreases s.len() - from,
{
    let t = a + s;
    let n = a.len() as int;
    lemma_class(s, false, from);
    let x = next_class(s, false, from);
    lemma_class(s, true, x);
    let y = next_class(s, true, x);
    assert forall|j: int| n + from <= j < n + x implies is_white(t[j]) != false by {
        assert(t[j] == s[j - n]);
    }
    lemma_class_is(t, false, n + from, n + x);
    assert forall|j: int| n + x <= j < n + y implies is_white(t[j]) != true by {
        assert(t[j] == s[j - n]);
    }
    lemma_class_is(t, true, n + x, n + y);
    if x < y {
        assert(t.subrange(n + x, n + y) =~= s.subrange(x, y));
        lemma_words_behind(a, s, y);
    }
}

/// A text that is all white space has no words; white space before a word is left
/// out, and the word ends at the next white space.
pub proof fn law_words(space: Seq<char>, word: Seq<char>, rest: Seq<char>)
    requires
        blank(space),
        word.len() > 0,
        forall|i: int| 0 <= i < word.len() ==> !is_white(#[trigger] word[i]),
        rest.len() == 0 || is_white(rest[0]),
    ensures
        words(space) == Seq::<Seq<char>>::empty(),
        words(space + word + rest) == seq![word] + words(rest),
{
    let n = space.len() as int;
    let m = word.len() as int;
    assert forall|j: int| 0 <= j < n implies is_white(space[j]) != false by {
        assert(is_white(space[j]));
    }
    lemma_class_is(space, false, 0, n);
    lemma_class_is(space, true, n, n);
    let s = space + word + rest;
    assert forall|j: int| 0 <= j < n implies is_white(s[j]) != false by {
        assert(s[j] == space[j]);
        assert(is_white(space[j]));
    }
    assert(s[n] == word[0]);
    assert(!is_white(word[0]));
    lemma_class_is(s, false, 0, n);
    assert forall|j: int| n <= j < n + m implies is_white(s[j]) != true by {
        assert(s[j] == word[j - n]);
        assert(!is_white(word[j - n]));
    }
    if rest.len() > 0 {
        assert(s[n + m] == rest[0]);
    }
    lemma_class_is(s, true, n, n + m);
    assert(s.subrange(n, n + m) =~= word);
    assert(s =~= (space + word) + rest);
    lemma_words_behind(space + word, rest, 0);
}

/// White space is what Unicode calls white space; of ASCII the space and the five
/// control characters from the tab to the carriage return.
pub proof fn law_white(c: char)
    ensures
        (c as u32) < 0x80 ==> (is_white(c) <==> c == ' ' || c == '\t' || c == '\n' || c as u32
            == 0x0b || c as u32 == 0x0c || c == '\r'),
{
}

} // verus!
