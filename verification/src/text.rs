//! Text: the character classes, searches, splits and joins that the rest of the
//! crate is written with. A string is spoken of as its sequence of characters.

use vstd::prelude::*;

verus! {

/// `String::push`: appends one character.
pub assume_specification[ std::string::String::push ](s: &mut std::string::String, c: char)
    ensures
        final(s)@ == old(s)@.push(c),
;

// ---- Characters ------------------------------------------------------------

/// The Unicode `White_Space` characters.
pub open spec fn is_white(c: char) -> bool {
    ||| 0x09 <= c as u32 <= 0x0d
    ||| c as u32 == 0x20
    ||| c as u32 == 0x85
    ||| c as u32 == 0xa0
    ||| c as u32 == 0x1680
    ||| 0x2000 <= c as u32 <= 0x200a
    ||| c as u32 == 0x2028
    ||| c as u32 == 0x2029
    ||| c as u32 == 0x202f
    ||| c as u32 == 0x205f
    ||| c as u32 == 0x3000
}

/// True for a `White_Space` character.
pub fn white(c: char) -> (b: bool)
    ensures
        b == is_white(c),
{
    let u = c as u32;
    (0x09 <= u && u <= 0x0d) || u == 0x20 || u == 0x85 || u == 0xa0 || u == 0x1680 || (0x2000 <= u
        && u <= 0x200a) || u == 0x2028 || u == 0x2029 || u == 0x202f || u == 0x205f || u == 0x3000
}

/// An ASCII letter or digit.
pub open spec fn is_alnum(c: char) -> bool {
    ||| 'a' <= c <= 'z'
    ||| 'A' <= c <= 'Z'
    ||| '0' <= c <= '9'
}

/// True for an ASCII letter or digit.
pub fn alnum(c: char) -> (b: bool)
    ensures
        b == is_alnum(c),
{
    ('a' <= c && c <= 'z') || ('A' <= c && c <= 'Z') || ('0' <= c && c <= '9')
}

/// An ASCII digit.
pub open spec fn is_digit(c: char) -> bool {
    '0' <= c <= '9'
}

// ---- Characters of a string ------------------------------------------------

/// The characters of a string.
pub fn chars_of(s: &str) -> (v: Vec<char>)
    ensures
        v@ == s@,
{
    let mut v: Vec<char> = Vec::new();
    for c in it: s.chars()
        invariant
            v@ == it.seq().take(it.index() as int),
            it.seq() == s@,
    {
        v.push(c);
    }
    assert(s@.take(s@.len() as int) =~= s@);
    v
}

/// The string made of the characters from `from` to before `to`.
pub fn text_of(chars: &Vec<char>, from: usize, to: usize) -> (s: String)
    requires
        from <= to <= chars@.len(),
    ensures
        s@ == chars@.subrange(from as int, to as int),
{
    let mut s = String::new();
    let mut i: usize = from;
    while i < to
        invariant
            from <= i <= to <= chars@.len(),
            s@ == chars@.subrange(from as int, i as int),
        decreases to - i,
    {
        s.push(chars[i]);
        i += 1;
        assert(s@ =~= chars@.subrange(from as int, i as int));
    }
    s
}

/// True where the two strings hold the same characters.
pub fn same_text(a: &str, b: &str) -> (r: bool)
    ensures
        r == (a@ == b@),
{
    a.to_owned() == b.to_owned()
}

/// True where `text` is one of `list`.
pub fn contains_text(list: &Vec<String>, text: &str) -> (b: bool)
    ensures
        b == list.deep_view().contains(text@),
{
    let mut i: usize = 0;
    while i < list.len()
        invariant
            i <= list@.len(),
            forall|j: int| 0 <= j < i ==> list.deep_view()[j] != text@,
        decreases list@.len() - i,
    {
        if same_text(list[i].as_str(), text) {
            assert(list.deep_view()[i as int] == text@);
            return true;
        }
        i += 1;
    }
    false
}

/// True where `s` begins with `p`.
pub open spec fn begins<T>(s: Seq<T>, p: Seq<T>) -> bool {
    p.len() <= s.len() && s.take(p.len() as int) == p
}

/// True where `pat` stands in `s` at `at`.
pub open spec fn stands_at(s: Seq<char>, pat: Seq<char>, at: int) -> bool {
    0 <= at && at + pat.len() <= s.len() && s.subrange(at, at + pat.len()) == pat
}

/// True where `pat` stands in `chars` at `at`.
pub fn matches_at(chars: &Vec<char>, pat: &Vec<char>, at: usize) -> (b: bool)
    requires
        at <= chars@.len(),
    ensures
        b == stands_at(chars@, pat@, at as int),
{
    if pat.len() > chars.len() - at {
        return false;
    }
    let n: usize = chars.len();
    let mut i: usize = 0;
    while i < pat.len()
        invariant
            i <= pat@.len(),
            at + pat@.len() <= n == chars@.len(),
            forall|j: int| 0 <= j < i ==> chars@[at + j] == pat@[j],
        decreases pat@.len() - i,
    {
        if chars[at + i] != pat[i] {
            assert(chars@.subrange(at as int, at + pat@.len())[i as int] != pat@[i as int]);
            return false;
        }
        i += 1;
    }
    assert(chars@.subrange(at as int, at + pat@.len()) =~= pat@);
    true
}

/// True where `s` begins with `prefix`.
pub fn starts_with(s: &str, prefix: &str) -> (b: bool)
    ensures
        b == begins(s@, prefix@),
{
    let b = matches_at(&chars_of(s), &chars_of(prefix), 0);
    proof {
        if prefix@.len() <= s@.len() {
            assert(s@.subrange(0, prefix@.len() as int) =~= s@.take(prefix@.len() as int));
        }
    }
    b
}

/// What follows `prefix`, where `s` begins with it.
pub open spec fn after_prefix(s: Seq<char>, p: Seq<char>) -> Option<Seq<char>> {
    if begins(s, p) {
        Some(s.skip(p.len() as int))
    } else {
        None
    }
}

/// What follows `prefix`, where `s` begins with it.
pub fn strip_prefix(s: &str, prefix: &str) -> (r: Option<String>)
    ensures
        r.deep_view() == after_prefix(s@, prefix@),
{
    if !starts_with(s, prefix) {
        return None;
    }
    let chars = chars_of(s);
    let rest = text_of(&chars, chars_of(prefix).len(), chars.len());
    assert(rest@ =~= s@.skip(prefix@.len() as int));
    Some(rest)
}

// ---- Searching -------------------------------------------------------------

/// `at` is the first place at which `pat` stands in `s`.
pub open spec fn first_place(s: Seq<char>, pat: Seq<char>, at: int) -> bool {
    &&& stands_at(s, pat, at)
    &&& forall|j: int| 0 <= j < at ==> !stands_at(s, pat, j)
}

/// `pat` stands somewhere in `s`.
pub open spec fn holds_text(s: Seq<char>, pat: Seq<char>) -> bool {
    exists|j: int| stands_at(s, pat, j)
}

/// The first place at which `pat` stands in `chars`.
pub fn find(chars: &Vec<char>, pat: &Vec<char>) -> (r: Option<usize>)
    ensures
        match r {
            Some(at) => first_place(chars@, pat@, at as int),
            None => !holds_text(chars@, pat@),
        },
{
    let n: usize = chars.len();
    let mut i: usize = 0;
    while i < n
        invariant
            i <= n == chars@.len(),
            forall|j: int| 0 <= j < i ==> !stands_at(chars@, pat@, j),
        decreases n - i,
    {
        if matches_at(chars, pat, i) {
            return Some(i);
        }
        i += 1;
    }
    if matches_at(chars, pat, n) {
        return Some(n);
    }
    None
}

/// The first position at or behind `from` that holds `c`, or the length.
pub open spec fn next_char(s: Seq<char>, c: char, from: int) -> int
    decreases s.len() - from,
{
    if from >= s.len() {
        s.len() as int
    } else if s[from] == c {
        from
    } else {
        next_char(s, c, from + 1)
    }
}

/// `next_char` is where `c` first stands at or behind `from`.
pub proof fn lemma_next_char(s: Seq<char>, c: char, from: int)
    requires
        0 <= from <= s.len(),
    ensures
        from <= next_char(s, c, from) <= s.len(),
        forall|j: int| from <= j < next_char(s, c, from) ==> s[j] != c,
        next_char(s, c, from) < s.len() ==> s[next_char(s, c, from)] == c,
    decreases s.len() - from,
{
    if from < s.len() && s[from] != c {
        lemma_next_char(s, c, from + 1);
    }
}

/// The first position at or behind `from` that holds `c`, or the length.
pub fn seek(chars: &Vec<char>, c: char, from: usize) -> (r: usize)
    requires
        from <= chars@.len(),
    ensures
        r == next_char(chars@, c, from as int),
        from <= r <= chars@.len(),
        forall|j: int| from <= j < r ==> chars@[j] != c,
        r < chars@.len() ==> chars@[r as int] == c,
{
    let mut i: usize = from;
    while i < chars.len() && chars[i] != c
        invariant
            from <= i <= chars@.len(),
            next_char(chars@, c, from as int) == next_char(chars@, c, i as int),
        decreases chars@.len() - i,
    {
        i += 1;
    }
    proof {
        lemma_next_char(chars@, c, from as int);
    }
    i
}

// ---- Trimming --------------------------------------------------------------

/// `s` without leading white space.
pub open spec fn trim_start(s: Seq<char>) -> Seq<char>
    decreases s.len(),
{
    if s.len() > 0 && is_white(s[0]) {
        trim_start(s.drop_first())
    } else {
        s
    }
}

/// `s` without trailing white space.
pub open spec fn trim_end(s: Seq<char>) -> Seq<char>
    decreases s.len(),
{
    if s.len() > 0 && is_white(s.last()) {
        trim_end(s.drop_last())
    } else {
        s
    }
}

/// `s` without leading and trailing white space.
pub open spec fn trimmed(s: Seq<char>) -> Seq<char> {
    trim_end(trim_start(s))
}

/// The characters from `from` to before `to`, without white space at either end.
pub fn trim_range(chars: &Vec<char>, from: usize, to: usize) -> (s: String)
    requires
        from <= to <= chars@.len(),
    ensures
        s@ == trimmed(chars@.subrange(from as int, to as int)),
{
    let mut a: usize = from;
    while a < to && white(chars[a])
        invariant
            from <= a <= to <= chars@.len(),
            trim_start(chars@.subrange(from as int, to as int)) == trim_start(
                chars@.subrange(a as int, to as int),
            ),
        decreases to - a,
    {
        assert(chars@.subrange(a as int, to as int).drop_first() =~= chars@.subrange(
            a + 1,
            to as int,
        ));
        a += 1;
    }
    let mut b: usize = to;
    while b > a && white(chars[b - 1])
        invariant
            a <= b <= to <= chars@.len(),
            trim_end(chars@.subrange(a as int, to as int)) == trim_end(
                chars@.subrange(a as int, b as int),
            ),
        decreases b - a,
    {
        assert(chars@.subrange(a as int, b as int).drop_last() =~= chars@.subrange(
            a as int,
            b - 1,
        ));
        b -= 1;
    }
    text_of(chars, a, b)
}

/// `s` without white space at either end.
pub fn trim(s: &str) -> (r: String)
    ensures
        r@ == trimmed(s@),
{
    let chars = chars_of(s);
    assert(chars@.subrange(0, chars@.len() as int) =~= s@);
    trim_range(&chars, 0, chars.len())
}

// ---- Splitting and joining -------------------------------------------------

/// The pieces of `s` between occurrences of `sep`; there is always one more
/// piece than there are occurrences.
pub open spec fn split_at_char(s: Seq<char>, sep: char) -> Seq<Seq<char>>
    decreases s.len(),
{
    let i = next_char(s, sep, 0);
    if 0 <= i < s.len() {
        seq![s.take(i)] + split_at_char(s.skip(i + 1), sep)
    } else {
        seq![s]
    }
}

/// No piece holds the separator.
pub proof fn lemma_pieces(s: Seq<char>, sep: char)
    ensures
        split_at_char(s, sep).len() > 0,
        forall|i: int|
            0 <= i < split_at_char(s, sep).len() ==> !(#[trigger] split_at_char(s, sep)[i]).contains(
                sep,
            ),
    decreases s.len(),
{
    let at = next_char(s, sep, 0);
    lemma_next_char(s, sep, 0);
    if at < s.len() {
        let rest = s.skip(at + 1);
        lemma_pieces(rest, sep);
        assert forall|i: int| 0 <= i < split_at_char(s, sep).len() implies !(
        #[trigger] split_at_char(s, sep)[i]).contains(sep) by {
            if i == 0 {
                if s.take(at).contains(sep) {
                    let j = choose|j: int| 0 <= j < at && s.take(at)[j] == sep;
                    assert(s[j] == sep);
                }
            } else {
                assert(split_at_char(s, sep)[i] == split_at_char(rest, sep)[i - 1]);
            }
        }
    } else if s.contains(sep) {
        let j = choose|j: int| 0 <= j < s.len() && s[j] == sep;
        assert(s[j] == sep);
    }
}

/// Searching a suffix is searching from where it begins.
pub proof fn lemma_next_char_skip(s: Seq<char>, c: char, from: int, k: int)
    requires
        0 <= from <= s.len(),
        0 <= k <= s.len() - from,
    ensures
        next_char(s.skip(from), c, k) == next_char(s, c, from + k) - from,
    decreases s.len() - from - k,
{
    if k < s.len() - from && s.skip(from)[k] != c {
        lemma_next_char_skip(s, c, from, k + 1);
    }
}

/// The pieces of `s` between occurrences of `sep`.
pub fn split_char(s: &str, sep: char) -> (r: Vec<String>)
    ensures
        r.deep_view() == split_at_char(s@, sep),
{
    let chars = chars_of(s);
    let n: usize = chars.len();
    let mut out: Vec<String> = Vec::new();
    let mut from: usize = 0;
    let mut i: usize = seek(&chars, sep, 0);
    assert(s@.skip(0) =~= s@);
    assert(out.deep_view() + split_at_char(s@, sep) =~= split_at_char(s@, sep));
    while i < n
        invariant
            chars@ == s@,
            from <= i <= n == s@.len(),
            i == next_char(s@, sep, from as int),
            out.deep_view() + split_at_char(s@.skip(from as int), sep) == split_at_char(s@, sep),
        decreases n - i,
    {
        let ghost rest = s@.skip(from as int);
        let ghost before = out.deep_view();
        let piece = text_of(&chars, from, i);
        proof {
            lemma_next_char_skip(s@, sep, from as int, 0);
            assert(piece@ =~= rest.take(i - from));
            assert(rest.skip(i - from + 1) =~= s@.skip(i + 1));
        }
        out.push(piece);
        assert(out.deep_view() =~= before.push(piece@));
        assert(out.deep_view() + split_at_char(s@.skip(i + 1), sep) =~= before + split_at_char(
            rest,
            sep,
        ));
        from = i + 1;
        i = seek(&chars, sep, from);
    }
    let ghost before = out.deep_view();
    let piece = text_of(&chars, from, n);
    proof {
        lemma_next_char_skip(s@, sep, from as int, 0);
        assert(piece@ =~= s@.skip(from as int));
    }
    out.push(piece);
    assert(out.deep_view() =~= before + seq![piece@]);
    out
}

/// The parts of `s` before and behind the first `sep`.
pub open spec fn split_first(s: Seq<char>, sep: char) -> Option<(Seq<char>, Seq<char>)> {
    let i = next_char(s, sep, 0);
    if 0 <= i < s.len() {
        Some((s.take(i), s.skip(i + 1)))
    } else {
        None
    }
}

/// The parts of `s` before and behind the first `sep`.
pub fn split_once(s: &str, sep: char) -> (r: Option<(String, String)>)
    ensures
        r.deep_view() == split_first(s@, sep),
{
    let chars = chars_of(s);
    let i = seek(&chars, sep, 0);
    if i < chars.len() {
        let a = text_of(&chars, 0, i);
        let b = text_of(&chars, i + 1, chars.len());
        assert(a@ =~= s@.take(i as int));
        assert(b@ =~= s@.skip(i + 1));
        Some((a, b))
    } else {
        None
    }
}

/// The first position at or behind `from` that holds white space (`white`) or
/// something else (`!white`), or the length.
pub open spec fn next_class(s: Seq<char>, white: bool, from: int) -> int
    decreases s.len() - from,
{
    if from >= s.len() {
        s.len() as int
    } else if is_white(s[from]) == white {
        from
    } else {
        next_class(s, white, from + 1)
    }
}

proof fn lemma_next_class(s: Seq<char>, white: bool, from: int)
    requires
        0 <= from <= s.len(),
    ensures
        from <= next_class(s, white, from) <= s.len(),
        next_class(s, white, from) < s.len() ==> is_white(s[next_class(s, white, from)]) == white,
    decreases s.len() - from,
{
    if from < s.len() && is_white(s[from]) != white {
        lemma_next_class(s, white, from + 1);
    }
}

/// The words of `s` from `from` on: its maximal runs of characters that are not
/// white space.
pub open spec fn words_from(s: Seq<char>, from: int) -> Seq<Seq<char>>
    decreases s.len() - from,
{
    let a = next_class(s, false, from);
    let b = next_class(s, true, a);
    if 0 <= from <= a < b <= s.len() {
        seq![s.subrange(a, b)] + words_from(s, b)
    } else {
        seq![]
    }
}

/// The words of `s`.
pub open spec fn words(s: Seq<char>) -> Seq<Seq<char>> {
    words_from(s, 0)
}

fn seek_class(chars: &Vec<char>, want: bool, from: usize) -> (r: usize)
    requires
        from <= chars@.len(),
    ensures
        r == next_class(chars@, want, from as int),
        from <= r <= chars@.len(),
        r < chars@.len() ==> is_white(chars@[r as int]) == want,
{
    let mut i: usize = from;
    while i < chars.len() && white(chars[i]) != want
        invariant
            from <= i <= chars@.len(),
            next_class(chars@, want, from as int) == next_class(chars@, want, i as int),
        decreases chars@.len() - i,
    {
        i += 1;
    }
    proof {
        lemma_next_class(chars@, want, from as int);
    }
    i
}

/// The words of `s`: its maximal runs of characters that are not white space.
pub fn split_words(s: &str) -> (r: Vec<String>)
    ensures
        r.deep_view() == words(s@),
{
    let chars = chars_of(s);
    let n: usize = chars.len();
    let mut out: Vec<String> = Vec::new();
    let mut from: usize = 0;
    let mut a: usize = seek_class(&chars, false, 0);
    assert(out.deep_view() + words_from(s@, 0) =~= words(s@));
    while a < n
        invariant
            chars@ == s@,
            from <= a <= n == s@.len(),
            a == next_class(s@, false, from as int),
            a < n ==> !is_white(s@[a as int]),
            out.deep_view() + words_from(s@, from as int) == words(s@),
        decreases n - a,
    {
        let b = seek_class(&chars, true, a);
        let ghost before = out.deep_view();
        let word = text_of(&chars, a, b);
        out.push(word);
        assert(out.deep_view() =~= before.push(word@));
        assert(out.deep_view() + words_from(s@, b as int) =~= before + words_from(s@, from as int));
        from = b;
        a = seek_class(&chars, false, b);
    }
    assert(out.deep_view() =~= words(s@));
    out
}

/// A line without the carriage return at its end.
pub open spec fn chomped(line: Seq<char>) -> Seq<char> {
    if line.len() > 0 && line.last() == '\r' {
        line.drop_last()
    } else {
        line
    }
}

/// The lines of `s`, which end in a newline, or in a carriage return and a
/// newline; what follows the last newline is a line where it is not empty.
pub open spec fn lines_of(s: Seq<char>) -> Seq<Seq<char>> {
    let parts = split_at_char(s, '\n');
    let ended = parts.drop_last().map_values(|l: Seq<char>| chomped(l));
    if parts.last().len() == 0 {
        ended
    } else {
        ended.push(parts.last())
    }
}

/// The lines of `s`.
pub fn lines(s: &str) -> (r: Vec<String>)
    ensures
        r.deep_view() == lines_of(s@),
{
    let parts = split_char(s, '\n');
    let ghost d = parts.deep_view();
    let ghost ended = d.drop_last().map_values(|l: Seq<char>| chomped(l));
    proof {
        lemma_pieces(s@, '\n');
    }
    let n: usize = parts.len();
    let mut out: Vec<String> = Vec::new();
    let mut i: usize = 0;
    assert(out.deep_view() =~= ended.take(0));
    while i < n - 1
        invariant
            d == parts.deep_view(),
            ended == d.drop_last().map_values(|l: Seq<char>| chomped(l)),
            0 < n == parts@.len(),
            i <= n - 1,
            out.deep_view() == ended.take(i as int),
        decreases n - 1 - i,
    {
        let ghost before = out.deep_view();
        let chars = chars_of(parts[i].as_str());
        let m: usize = chars.len();
        let line = if m > 0 && chars[m - 1] == '\r' {
            text_of(&chars, 0, m - 1)
        } else {
            parts[i].clone()
        };
        assert(line@ =~= chomped(d[i as int]));
        assert(ended[i as int] == chomped(d[i as int]));
        out.push(line);
        assert(out.deep_view() =~= before.push(ended[i as int]));
        i += 1;
        assert(out.deep_view() =~= ended.take(i as int));
    }
    assert(ended.take(ended.len() as int) =~= ended);
    let last = &parts[n - 1];
    assert(last@ == d.last());
    if chars_of(last.as_str()).len() > 0 {
        out.push(last.clone());
        assert(out.deep_view() =~= ended.push(last@));
    }
    out
}

/// `parts` in order, `sep` between neighbours.
pub open spec fn joined(parts: Seq<Seq<char>>, sep: Seq<char>) -> Seq<char>
    decreases parts.len(),
{
    if parts.len() == 0 {
        seq![]
    } else if parts.len() == 1 {
        parts[0]
    } else {
        joined(parts.drop_last(), sep) + sep + parts.last()
    }
}

/// `parts` in order, `sep` between neighbours.
pub fn join(parts: &Vec<String>, sep: &str) -> (r: String)
    ensures
        r@ == joined(parts.deep_view(), sep@),
{
    let mut r = String::new();
    let mut i: usize = 0;
    let ghost d = parts.deep_view();
    assert(r@ =~= joined(d.take(0), sep@));
    while i < parts.len()
        invariant
            i <= parts@.len(),
            d == parts.deep_view(),
            r@ == joined(d.take(i as int), sep@),
        decreases parts@.len() - i,
    {
        assert(d.take(i + 1).drop_last() =~= d.take(i as int));
        assert(d.take(i + 1).last() == parts@[i as int]@);
        if i > 0 {
            r.append(sep);
        }
        r.append(parts[i].as_str());
        assert(r@ =~= joined(d.take(i + 1), sep@));
        i += 1;
    }
    assert(d.take(d.len() as int) =~= d);
    r
}

// ---- Replacing -------------------------------------------------------------

/// `s` with each occurrence of `pat`, found from left to right, turned into
/// `with`.
pub open spec fn replaced(s: Seq<char>, pat: Seq<char>, with: Seq<char>) -> Seq<char>
    decreases s.len(),
{
    if s.len() == 0 || pat.len() == 0 {
        s
    } else if begins(s, pat) {
        with + replaced(s.skip(pat.len() as int), pat, with)
    } else {
        seq![s[0]] + replaced(s.drop_first(), pat, with)
    }
}

/// `s` with each occurrence of `pat`, found from left to right, turned into
/// `with`.
pub fn replace(s: &str, pat: &str, with: &str) -> (r: String)
    requires
        pat@.len() > 0,
    ensures
        r@ == replaced(s@, pat@, with@),
{
    let chars = chars_of(s);
    let p = chars_of(pat);
    let n: usize = chars.len();
    let mut r = String::new();
    let mut i: usize = 0;
    assert(s@.skip(0) =~= s@);
    assert(r@ + replaced(s@, pat@, with@) =~= replaced(s@, pat@, with@));
    while i < n
        invariant
            chars@ == s@,
            p@ == pat@,
            p@.len() > 0,
            i <= n == s@.len(),
            r@ + replaced(s@.skip(i as int), pat@, with@) == replaced(s@, pat@, with@),
        decreases n - i,
    {
        let ghost rest = s@.skip(i as int);
        let ghost before = r@;
        let hit = matches_at(&chars, &p, i);
        proof {
            if pat@.len() <= rest.len() {
                assert(s@.subrange(i as int, i + pat@.len()) =~= rest.take(pat@.len() as int));
            }
        }
        if hit {
            r.append(with);
            i += p.len();
            assert(rest.skip(pat@.len() as int) =~= s@.skip(i as int));
            assert(r@ + replaced(s@.skip(i as int), pat@, with@) =~= before + replaced(
                rest,
                pat@,
                with@,
            ));
        } else {
            r.push(chars[i]);
            i += 1;
            assert(rest.drop_first() =~= s@.skip(i as int));
            assert(r@ + replaced(s@.skip(i as int), pat@, with@) =~= before + replaced(
                rest,
                pat@,
                with@,
            ));
        }
    }
    assert(r@ =~= r@ + replaced(s@.skip(n as int), pat@, with@));
    r
}

} // verus!
