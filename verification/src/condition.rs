//! The `Requires` boolean expression grammar.
//!
//! Variable names joined by `AND` / `OR`, with `!` (or `NOT`) for negation.
//! Precedence: `! > AND > OR`. No parentheses.
//!
//! ```text
//! expr  := and ( "OR" and )*
//! and   := atom ( "AND" atom )*
//! atom  := "!" atom | IDENT
//! ```
//!
//! An empty or white-space-only expression is always true.

use crate::error::{outcome, ErrorView, Result, RitzError};
use crate::text::{alnum, chars_of, is_alnum, is_white, same_text, text_of, white};
use vstd::prelude::*;

verus! {

/// A condition.
#[derive(Debug, PartialEq, Eq)]
pub enum Expr {
    Var(String),
    Not(Box<Expr>),
    And(Box<Expr>, Box<Expr>),
    Or(Box<Expr>, Box<Expr>),
}

/// An [`Expr`] as contracts speak of it.
pub enum ExprView {
    Var(Seq<char>),
    Not(Box<ExprView>),
    And(Box<ExprView>, Box<ExprView>),
    Or(Box<ExprView>, Box<ExprView>),
}

/// What an [`Expr`] means.
pub open spec fn expr_view(e: Expr) -> ExprView
    decreases e,
{
    match e {
        Expr::Var(name) => ExprView::Var(name@),
        Expr::Not(inner) => ExprView::Not(Box::new(expr_view(*inner))),
        Expr::And(a, b) => ExprView::And(Box::new(expr_view(*a)), Box::new(expr_view(*b))),
        Expr::Or(a, b) => ExprView::Or(Box::new(expr_view(*a)), Box::new(expr_view(*b))),
    }
}

impl DeepView for Expr {
    type V = ExprView;

    open spec fn deep_view(&self) -> ExprView {
        expr_view(*self)
    }
}

/// The truth of a condition where `truth` gives the truth of each variable.
pub open spec fn holds(e: ExprView, truth: spec_fn(Seq<char>) -> bool) -> bool
    decreases e,
{
    match e {
        ExprView::Var(name) => truth(name),
        ExprView::Not(inner) => !holds(*inner, truth),
        ExprView::And(a, b) => holds(*a, truth) && holds(*b, truth),
        ExprView::Or(a, b) => holds(*a, truth) || holds(*b, truth),
    }
}

/// The variables of a condition, left to right.
pub open spec fn variables(e: ExprView) -> Seq<Seq<char>>
    decreases e,
{
    match e {
        ExprView::Var(name) => seq![name],
        ExprView::Not(inner) => variables(*inner),
        ExprView::And(a, b) => variables(*a) + variables(*b),
        ExprView::Or(a, b) => variables(*a) + variables(*b),
    }
}

/// `lookup` answers every name as `truth` does.
pub open spec fn answers<F: Fn(&str) -> bool>(
    lookup: F,
    truth: spec_fn(Seq<char>) -> bool,
) -> bool {
    forall|name: &str, b: bool| #[trigger]
        call_ensures(lookup, (name,), b) ==> b == truth(name@)
}

/// `lookup` can be asked for each of `names`.
pub open spec fn can_ask<F: Fn(&str) -> bool>(lookup: F, names: Seq<Seq<char>>) -> bool {
    forall|name: &str|
        names.contains(name@) ==> #[trigger] call_requires(lookup, (name,))
}

/// `lookup` answers each of `names` as `truth` does.
pub open spec fn answers_for<F: Fn(&str) -> bool>(
    lookup: F,
    names: Seq<Seq<char>>,
    truth: spec_fn(Seq<char>) -> bool,
) -> bool {
    forall|name: &str, b: bool|
        names.contains(name@) && #[trigger] call_ensures(lookup, (name,), b) ==> b == truth(name@)
}

proof fn lemma_fewer_names<F: Fn(&str) -> bool>(lookup: F, a: Seq<Seq<char>>, b: Seq<Seq<char>>)
    ensures
        can_ask(lookup, a + b) ==> can_ask(lookup, a) && can_ask(lookup, b),
        forall|truth: spec_fn(Seq<char>) -> bool| #[trigger]
            answers_for(lookup, a + b, truth) ==> answers_for(lookup, a, truth) && answers_for(
                lookup,
                b,
                truth,
            ),
{
    assert forall|name: Seq<char>| a.contains(name) || b.contains(name) implies #[trigger] (a
        + b).contains(name) by {
        if a.contains(name) {
            let i = choose|i: int| 0 <= i < a.len() && a[i] == name;
            assert((a + b)[i] == name);
        } else {
            let i = choose|i: int| 0 <= i < b.len() && b[i] == name;
            assert((a + b)[a.len() + i] == name);
        }
    }
}

impl Expr {
    /// Evaluate against a truthiness lookup for variable names. The lookup is asked
    /// for the variables of the condition, and for no others.
    pub fn eval<F: Fn(&str) -> bool>(&self, lookup: &F) -> (b: bool)
        requires
            can_ask(*lookup, variables(self.deep_view())),
        ensures
            forall|truth: spec_fn(Seq<char>) -> bool| #[trigger]
                answers_for(*lookup, variables(self.deep_view()), truth) ==> b == holds(
                    self.deep_view(),
                    truth,
                ),
        decreases self,
    {
        match self {
            Expr::Var(name) => {
                let asked = name.as_str();
                let ghost names = variables(self.deep_view());
                assert(names[0] == asked@);
                assert(names.contains(asked@));
                let found = lookup(asked);
                assert forall|truth: spec_fn(Seq<char>) -> bool| #[trigger]
                    answers_for(*lookup, names, truth) implies found == holds(
                    self.deep_view(),
                    truth,
                ) by {
                    assert(call_ensures(*lookup, (asked,), found));
                }
                found
            },
            Expr::Not(inner) => {
                let met = !inner.eval(lookup);
                assert forall|truth: spec_fn(Seq<char>) -> bool| #[trigger]
                    answers_for(*lookup, variables(self.deep_view()), truth) implies met == holds(
                    self.deep_view(),
                    truth,
                ) by {
                    assert(answers_for(*lookup, variables(expr_view(**inner)), truth));
                }
                met
            },
            Expr::And(a, b) => {
                let ghost va = a.deep_view();
                let ghost vb = b.deep_view();
                proof {
                    lemma_fewer_names(*lookup, variables(va), variables(vb));
                }
                assert(variables(self.deep_view()) == variables(va) + variables(vb));
                let first = a.eval(lookup);
                let met = first && b.eval(lookup);
                assert forall|truth: spec_fn(Seq<char>) -> bool| #[trigger]
                    answers_for(*lookup, variables(self.deep_view()), truth) implies met == holds(
                    self.deep_view(),
                    truth,
                ) by {
                    assert(answers_for(*lookup, variables(va), truth));
                    assert(first == holds(va, truth));
                    assert(answers_for(*lookup, variables(vb), truth));
                }
                met
            },
            Expr::Or(a, b) => {
                let ghost va = a.deep_view();
                let ghost vb = b.deep_view();
                proof {
                    lemma_fewer_names(*lookup, variables(va), variables(vb));
                }
                assert(variables(self.deep_view()) == variables(va) + variables(vb));
                let first = a.eval(lookup);
                let met = first || b.eval(lookup);
                assert forall|truth: spec_fn(Seq<char>) -> bool| #[trigger]
                    answers_for(*lookup, variables(self.deep_view()), truth) implies met == holds(
                    self.deep_view(),
                    truth,
                ) by {
                    assert(answers_for(*lookup, variables(va), truth));
                    assert(first == holds(va, truth));
                    assert(answers_for(*lookup, variables(vb), truth));
                }
                met
            },
        }
    }

    /// All variable names referenced, left to right.
    pub fn referenced_vars(&self) -> (r: Vec<String>)
        ensures
            r.deep_view() == variables(self.deep_view()),
    {
        let mut out: Vec<String> = Vec::new();
        self.collect(&mut out);
        assert(Seq::<Seq<char>>::empty() + variables(self.deep_view()) =~= variables(
            self.deep_view(),
        ));
        out
    }

    fn collect(&self, out: &mut Vec<String>)
        ensures
            final(out).deep_view() == old(out).deep_view() + variables(self.deep_view()),
        decreases self,
    {
        let ghost before = out.deep_view();
        match self {
            Expr::Var(name) => {
                out.push(name.clone());
                assert(out.deep_view() =~= before + seq![name@]);
            },
            Expr::Not(inner) => inner.collect(out),
            Expr::And(a, b) => {
                a.collect(out);
                b.collect(out);
                assert(out.deep_view() =~= before + variables(self.deep_view()));
            },
            Expr::Or(a, b) => {
                a.collect(out);
                b.collect(out);
                assert(out.deep_view() =~= before + variables(self.deep_view()));
            },
        }
    }
}

// ---- Tokens ----------------------------------------------------------------

enum Tok {
    And,
    Or,
    Not,
    Ident(String),
}

/// A token of a condition.
pub enum TokView {
    And,
    Or,
    Not,
    Ident(Seq<char>),
}

impl DeepView for Tok {
    type V = TokView;

    closed spec fn deep_view(&self) -> TokView {
        match self {
            Tok::And => TokView::And,
            Tok::Or => TokView::Or,
            Tok::Not => TokView::Not,
            Tok::Ident(name) => TokView::Ident(name@),
        }
    }
}

/// A character of a variable name: `:` is for `global:` references.
pub open spec fn is_name_char(c: char) -> bool {
    is_alnum(c) || c == '_' || c == ':'
}

/// True for a character of a variable name.
pub fn is_ident_char(c: char) -> (b: bool)
    ensures
        b == is_name_char(c),
{
    alnum(c) || c == '_' || c == ':'
}

/// The end of the run of name characters that begins at `from`.
pub open spec fn name_end(s: Seq<char>, from: int) -> int
    decreases s.len() - from,
{
    if 0 <= from < s.len() && is_name_char(s[from]) {
        name_end(s, from + 1)
    } else {
        from
    }
}

/// A run of name characters is not shorter than nothing and ends within `s`.
pub proof fn lemma_name_end(s: Seq<char>, from: int)
    requires
        0 <= from <= s.len(),
    ensures
        from <= name_end(s, from) <= s.len(),
        from < s.len() && is_name_char(s[from]) ==> from < name_end(s, from),
        forall|j: int| from <= j < name_end(s, from) ==> is_name_char(s[j]),
        name_end(s, from) < s.len() ==> !is_name_char(s[name_end(s, from)]),
    decreases s.len() - from,
{
    if from < s.len() && is_name_char(s[from]) {
        lemma_name_end(s, from + 1);
    }
}

/// A run of name characters in a suffix is the run from where it begins.
pub proof fn lemma_name_end_skip(s: Seq<char>, from: int, k: int)
    requires
        0 <= from <= s.len(),
        0 <= k <= s.len() - from,
    ensures
        name_end(s.skip(from), k) == name_end(s, from + k) - from,
    decreases s.len() - from - k,
{
    if k < s.len() - from && is_name_char(s.skip(from)[k]) {
        lemma_name_end_skip(s, from, k + 1);
    }
}

/// The end of the run of name characters that begins at `from`.
pub fn run_end(chars: &Vec<char>, from: usize) -> (r: usize)
    requires
        from <= chars@.len(),
    ensures
        r == name_end(chars@, from as int),
        from <= r <= chars@.len(),
        from < chars@.len() && is_name_char(chars@[from as int]) ==> from < r,
{
    let mut i: usize = from;
    while i < chars.len() && is_ident_char(chars[i])
        invariant
            from <= i <= chars@.len(),
            name_end(chars@, from as int) == name_end(chars@, i as int),
        decreases chars@.len() - i,
    {
        i += 1;
    }
    proof {
        lemma_name_end(chars@, from as int);
    }
    i
}

/// A word is a keyword or a variable.
pub open spec fn word_token(word: Seq<char>) -> TokView {
    if word == "AND"@ {
        TokView::And
    } else if word == "OR"@ {
        TokView::Or
    } else if word == "NOT"@ {
        TokView::Not
    } else {
        TokView::Ident(word)
    }
}

/// `first` in front of the tokens behind it, if those could be read.
pub open spec fn with_token(
    first: TokView,
    rest: std::result::Result<Seq<TokView>, char>,
) -> std::result::Result<Seq<TokView>, char> {
    match rest {
        Ok(toks) => Ok(seq![first] + toks),
        Err(c) => Err(c),
    }
}

/// The tokens of `s` from `from` on, or the first character that begins none.
pub open spec fn tokens_from(s: Seq<char>, from: int) -> std::result::Result<Seq<TokView>, char>
    decreases s.len() - from,
{
    if from < 0 || from >= s.len() {
        Ok(seq![])
    } else if is_white(s[from]) {
        tokens_from(s, from + 1)
    } else if s[from] == '!' {
        with_token(TokView::Not, tokens_from(s, from + 1))
    } else if is_name_char(s[from]) {
        proof {
            lemma_name_end(s, from);
        }
        with_token(
            word_token(s.subrange(from, name_end(s, from))),
            tokens_from(s, name_end(s, from)),
        )
    } else {
        Err(s[from])
    }
}

/// The tokens of `s`, or the first character that begins none.
pub open spec fn tokens(s: Seq<char>) -> std::result::Result<Seq<TokView>, char> {
    tokens_from(s, 0)
}

/// The message for a character that begins no token.
pub open spec fn bad_char_message(c: char, s: Seq<char>) -> Seq<char> {
    "unexpected character `"@ + seq![c] + "` in condition `"@ + s + "`"@
}

fn bad_char(c: char, s: &str) -> (m: String)
    ensures
        m@ == bad_char_message(c, s@),
{
    let mut m = String::new();
    m.append("unexpected character `");
    m.push(c);
    m.append("` in condition `");
    m.append(s);
    m.append("`");
    assert(m@ =~= bad_char_message(c, s@));
    m
}

/// The tokens in front of the rest of the tokens.
pub open spec fn prefixed(
    done: Seq<TokView>,
    rest: std::result::Result<Seq<TokView>, char>,
) -> std::result::Result<Seq<TokView>, char> {
    match rest {
        Ok(toks) => Ok(done + toks),
        Err(c) => Err(c),
    }
}

fn tokenize(s: &str) -> (r: Result<Vec<Tok>>)
    ensures
        match r {
            Ok(toks) => tokens(s@) == Ok::<Seq<TokView>, char>(toks.deep_view()),
            Err(e) => tokens(s@) matches Err(c) && e.deep_view() == ErrorView::Condition(
                bad_char_message(c, s@),
            ),
        },
{
    let chars = chars_of(s);
    let n: usize = chars.len();
    let mut toks: Vec<Tok> = Vec::new();
    let mut i: usize = 0;
    proof {
        if let Ok(t) = tokens(s@) {
            assert(toks.deep_view() + t =~= t);
        }
    }
    while i < n
        invariant
            chars@ == s@,
            i <= n == s@.len(),
            prefixed(toks.deep_view(), tokens_from(s@, i as int)) == tokens(s@),
        decreases n - i,
    {
        let c = chars[i];
        let ghost before = toks.deep_view();
        let ghost from = i as int;
        if white(c) {
            i += 1;
        } else if c == '!' {
            toks.push(Tok::Not);
            i += 1;
            proof {
                assert(toks.deep_view() =~= before.push(TokView::Not));
                if let Ok(t) = tokens_from(s@, i as int) {
                    assert(toks.deep_view() + t =~= before + (seq![TokView::Not] + t));
                }
            }
        } else if is_ident_char(c) {
            let end = run_end(&chars, i);
            let word = text_of(&chars, i, end);
            let w = word.as_str();
            let ghost t0 = word_token(word@);
            let tok = if same_text(w, "AND") {
                Tok::And
            } else if same_text(w, "OR") {
                Tok::Or
            } else if same_text(w, "NOT") {
                Tok::Not
            } else {
                Tok::Ident(word)
            };
            toks.push(tok);
            i = end;
            proof {
                assert(toks.deep_view() =~= before.push(t0));
                if let Ok(t) = tokens_from(s@, i as int) {
                    assert(toks.deep_view() + t =~= before + (seq![t0] + t));
                }
            }
        } else {
            return Err(RitzError::Condition(bad_char(c, s)));
        }
    }
    assert(toks.deep_view() + Seq::<TokView>::empty() =~= toks.deep_view());
    Ok(toks)
}

// ---- The grammar -----------------------------------------------------------

/// What one rule of the grammar reads at a position: the expression and the
/// position behind it, or the message of the error.
pub type Reading = std::result::Result<(ExprView, int), Seq<char>>;

/// The message where a condition ends too early.
pub open spec fn end_message() -> Seq<char> {
    "unexpected end of condition"@
}

/// The message where a variable should stand.
pub open spec fn found_message(t: TokView) -> Seq<char> {
    match t {
        TokView::And => "expected variable, found `And`"@,
        _ => "expected variable, found `Or`"@,
    }
}

/// The message for tokens behind a whole condition.
pub open spec fn trailing_message(s: Seq<char>) -> Seq<char> {
    "trailing tokens in condition `"@ + s + "`"@
}

/// `atom := "!" atom | IDENT`
pub open spec fn read_atom(t: Seq<TokView>, at: int) -> Reading
    decreases t.len() - at,
{
    if at < 0 || at >= t.len() {
        Err(end_message())
    } else {
        match t[at] {
            TokView::Not => match read_atom(t, at + 1) {
                Ok((e, next)) => Ok((ExprView::Not(Box::new(e)), next)),
                Err(m) => Err(m),
            },
            TokView::Ident(name) => Ok((ExprView::Var(name), at + 1)),
            other => Err(found_message(other)),
        }
    }
}

/// An atom is at least one token long.
pub proof fn lemma_atom_advances(t: Seq<TokView>, at: int)
    ensures
        read_atom(t, at) matches Ok((e, next)) ==> at < next <= t.len(),
    decreases t.len() - at,
{
    if 0 <= at < t.len() {
        lemma_atom_advances(t, at + 1);
    }
}

/// `( "AND" atom )*` behind `left`.
pub open spec fn read_and_rest(t: Seq<TokView>, left: ExprView, at: int) -> Reading
    decreases t.len() - at,
{
    if 0 <= at < t.len() && t[at] == TokView::And {
        proof {
            lemma_atom_advances(t, at + 1);
        }
        match read_atom(t, at + 1) {
            Ok((right, next)) => read_and_rest(
                t,
                ExprView::And(Box::new(left), Box::new(right)),
                next,
            ),
            Err(m) => Err(m),
        }
    } else {
        Ok((left, at))
    }
}

/// `and := atom ( "AND" atom )*`
pub open spec fn read_and(t: Seq<TokView>, at: int) -> Reading {
    match read_atom(t, at) {
        Ok((left, next)) => read_and_rest(t, left, next),
        Err(m) => Err(m),
    }
}

proof fn lemma_and_rest_advances(t: Seq<TokView>, left: ExprView, at: int)
    requires
        at <= t.len(),
    ensures
        read_and_rest(t, left, at) matches Ok((e, next)) ==> at <= next <= t.len(),
    decreases t.len() - at,
{
    if 0 <= at < t.len() && t[at] == TokView::And {
        lemma_atom_advances(t, at + 1);
        if let Ok((right, next)) = read_atom(t, at + 1) {
            lemma_and_rest_advances(t, ExprView::And(Box::new(left), Box::new(right)), next);
        }
    }
}

/// An `and` is at least one token long.
pub proof fn lemma_and_advances(t: Seq<TokView>, at: int)
    ensures
        read_and(t, at) matches Ok((e, next)) ==> at < next <= t.len(),
{
    lemma_atom_advances(t, at);
    if let Ok((left, next)) = read_atom(t, at) {
        lemma_and_rest_advances(t, left, next);
    }
}

/// `( "OR" and )*` behind `left`.
pub open spec fn read_or_rest(t: Seq<TokView>, left: ExprView, at: int) -> Reading
    decreases t.len() - at,
{
    if 0 <= at < t.len() && t[at] == TokView::Or {
        proof {
            lemma_and_advances(t, at + 1);
        }
        match read_and(t, at + 1) {
            Ok((right, next)) => read_or_rest(
                t,
                ExprView::Or(Box::new(left), Box::new(right)),
                next,
            ),
            Err(m) => Err(m),
        }
    } else {
        Ok((left, at))
    }
}

/// `expr := and ( "OR" and )*`
pub open spec fn read_or(t: Seq<TokView>, at: int) -> Reading {
    match read_and(t, at) {
        Ok((left, next)) => read_or_rest(t, left, next),
        Err(m) => Err(m),
    }
}

/// The condition that a whole token sequence spells, or the message of the
/// error (`s` is the text it was read from).
pub open spec fn condition_of(t: Seq<TokView>, s: Seq<char>) -> std::result::Result<
    Option<ExprView>,
    Seq<char>,
> {
    if t.len() == 0 {
        Ok(None)
    } else {
        match read_or(t, 0) {
            Ok((e, next)) => if next == t.len() {
                Ok(Some(e))
            } else {
                Err(trailing_message(s))
            },
            Err(m) => Err(m),
        }
    }
}

/// The condition that a text spells (`None` where it is empty), or the message
/// of the error.
pub open spec fn parsed(s: Seq<char>) -> std::result::Result<Option<ExprView>, Seq<char>> {
    match tokens(s) {
        Ok(t) => condition_of(t, s),
        Err(c) => Err(bad_char_message(c, s)),
    }
}

/// `parsed` as the outcome of a function.
pub open spec fn parse_outcome(s: Seq<char>) -> std::result::Result<Option<ExprView>, ErrorView> {
    match parsed(s) {
        Ok(e) => Ok(e),
        Err(m) => Err(ErrorView::Condition(m)),
    }
}

struct Parser {
    toks: Vec<Tok>,
    pos: usize,
}

impl Parser {
    spec fn at(&self, r: Result<Expr>) -> Reading {
        match r {
            Ok(e) => Ok((e.deep_view(), self.pos as int)),
            Err(e) => match e.deep_view() {
                ErrorView::Condition(m) => Err(m),
                _ => Err(seq![]),
            },
        }
    }

    spec fn only_condition(r: Result<Expr>) -> bool {
        r matches Err(e) ==> e.deep_view() is Condition
    }

    fn at_and(&self) -> (b: bool)
        ensures
            b == (self.pos < self.toks@.len() && self.toks.deep_view()[self.pos as int]
                == TokView::And),
            b ==> self.pos < usize::MAX,
    {
        if self.pos < self.toks.len() {
            matches!(self.toks[self.pos], Tok::And)
        } else {
            false
        }
    }

    fn at_or(&self) -> (b: bool)
        ensures
            b == (self.pos < self.toks@.len() && self.toks.deep_view()[self.pos as int]
                == TokView::Or),
            b ==> self.pos < usize::MAX,
    {
        if self.pos < self.toks.len() {
            matches!(self.toks[self.pos], Tok::Or)
        } else {
            false
        }
    }

    fn parse_or(&mut self) -> (r: Result<Expr>)
        requires
            old(self).pos <= old(self).toks@.len(),
        ensures
            final(self).toks == old(self).toks,
            final(self).at(r) == read_or(old(self).toks.deep_view(), old(self).pos as int),
            Self::only_condition(r),
    {
        let ghost t = self.toks.deep_view();
        let ghost start = self.pos as int;
        let mut left = self.parse_and()?;
        proof {
            lemma_and_advances(t, start);
        }
        while self.at_or()
            invariant
                self.toks == old(self).toks,
                t == self.toks.deep_view(),
                start == old(self).pos,
                self.pos <= self.toks@.len(),
                read_or_rest(t, left.deep_view(), self.pos as int) == read_or(t, start),
            decreases self.toks@.len() - self.pos,
        {
            let ghost here = self.pos as int;
            self.pos += 1;
            proof {
                lemma_and_advances(t, here + 1);
            }
            let right = self.parse_and()?;
            left = Expr::Or(Box::new(left), Box::new(right));
        }
        Ok(left)
    }

    fn parse_and(&mut self) -> (r: Result<Expr>)
        requires
            old(self).pos <= old(self).toks@.len(),
        ensures
            final(self).toks == old(self).toks,
            final(self).at(r) == read_and(old(self).toks.deep_view(), old(self).pos as int),
            Self::only_condition(r),
            r is Ok ==> final(self).pos <= final(self).toks@.len(),
    {
        let ghost t = self.toks.deep_view();
        let ghost start = self.pos as int;
        let mut left = self.parse_atom()?;
        while self.at_and()
            invariant
                self.toks == old(self).toks,
                t == self.toks.deep_view(),
                start == old(self).pos,
                self.pos <= self.toks@.len(),
                read_and_rest(t, left.deep_view(), self.pos as int) == read_and(t, start),
            decreases self.toks@.len() - self.pos,
        {
            let ghost here = self.pos as int;
            self.pos += 1;
            proof {
                lemma_atom_advances(t, here + 1);
            }
            let right = self.parse_atom()?;
            left = Expr::And(Box::new(left), Box::new(right));
        }
        Ok(left)
    }

    fn parse_atom(&mut self) -> (r: Result<Expr>)
        requires
            old(self).pos <= old(self).toks@.len(),
        ensures
            final(self).toks == old(self).toks,
            final(self).at(r) == read_atom(old(self).toks.deep_view(), old(self).pos as int),
            Self::only_condition(r),
            r is Ok ==> final(self).pos <= final(self).toks@.len(),
        decreases old(self).toks@.len() - old(self).pos,
    {
        if self.pos >= self.toks.len() {
            return Err(RitzError::Condition("unexpected end of condition".to_owned()));
        }
        let at: usize = self.pos;
        self.pos = at + 1;
        match &self.toks[at] {
            Tok::Not => {
                let inner = self.parse_atom()?;
                Ok(Expr::Not(Box::new(inner)))
            },
            Tok::Ident(name) => Ok(Expr::Var(name.clone())),
            Tok::And => Err(RitzError::Condition("expected variable, found `And`".to_owned())),
            Tok::Or => Err(RitzError::Condition("expected variable, found `Or`".to_owned())),
        }
    }
}

/// Parse a condition string into an [`Expr`]. Empty input yields `None`
/// (meaning "always true").
pub fn parse(s: &str) -> (r: Result<Option<Expr>>)
    ensures
        outcome(r) == parse_outcome(s@),
{
    let toks = tokenize(s)?;
    if toks.len() == 0 {
        return Ok(None);
    }
    let mut parser = Parser { toks, pos: 0 };
    let expr = parser.parse_or()?;
    if parser.pos != parser.toks.len() {
        let mut m = String::new();
        m.append("trailing tokens in condition `");
        m.append(s);
        m.append("`");
        assert(m@ =~= trailing_message(s@));
        return Err(RitzError::Condition(m));
    }
    Ok(Some(expr))
}

/// The truth of an optional condition: one that is absent or empty is true.
pub open spec fn requirement_met(
    requirement: Option<Seq<char>>,
    truth: spec_fn(Seq<char>) -> bool,
) -> std::result::Result<bool, ErrorView> {
    match requirement {
        None => Ok(true),
        Some(s) => match parse_outcome(s) {
            Ok(None) => Ok(true),
            Ok(Some(e)) => Ok(holds(e, truth)),
            Err(e) => Err(e),
        },
    }
}

/// The variables of an optional condition; none where it cannot be read.
pub open spec fn variables_in(requirement: Option<Seq<char>>) -> Seq<Seq<char>> {
    match requirement {
        None => seq![],
        Some(s) => match parse_outcome(s) {
            Ok(Some(e)) => variables(e),
            _ => seq![],
        },
    }
}

/// Convenience: parse and evaluate. Absent or empty => `true`.
pub fn eval_opt<F: Fn(&str) -> bool>(requirement: Option<&str>, lookup: &F) -> (r: Result<bool>)
    requires
        can_ask(*lookup, variables_in(requirement.deep_view())),
    ensures
        forall|truth: spec_fn(Seq<char>) -> bool| #[trigger]
            answers_for(*lookup, variables_in(requirement.deep_view()), truth) ==> outcome(r)
                == requirement_met(requirement.deep_view(), truth),
        forall|truth: spec_fn(Seq<char>) -> bool| #[trigger]
            answers(*lookup, truth) ==> outcome(r) == requirement_met(requirement.deep_view(), truth),
{
    proof {
        let names = variables_in(requirement.deep_view());
        assert forall|truth: spec_fn(Seq<char>) -> bool| #[trigger]
            answers(*lookup, truth) implies answers_for(*lookup, names, truth) by {}
    }
    match requirement {
        None => Ok(true),
        Some(s) => match parse(s)? {
            None => Ok(true),
            Some(expr) => Ok(expr.eval(lookup)),
        },
    }
}

// ---- Laws ------------------------------------------------------------------

/// A variable under any number of negations.
pub open spec fn is_atom(e: ExprView) -> bool
    decreases e,
{
    match e {
        ExprView::Var(_) => true,
        ExprView::Not(inner) => is_atom(*inner),
        _ => false,
    }
}

/// Atoms joined by `AND`, grouped to the left.
pub open spec fn is_and(e: ExprView) -> bool
    decreases e,
{
    match e {
        ExprView::And(a, b) => is_and(*a) && is_atom(*b),
        _ => is_atom(e),
    }
}

/// `AND` groups joined by `OR`, grouped to the left.
pub open spec fn is_or(e: ExprView) -> bool
    decreases e,
{
    match e {
        ExprView::Or(a, b) => is_or(*a) && is_and(*b),
        _ => is_and(e),
    }
}

/// The tokens that spell a condition.
pub open spec fn spelled(e: ExprView) -> Seq<TokView>
    decreases e,
{
    match e {
        ExprView::Var(name) => seq![TokView::Ident(name)],
        ExprView::Not(inner) => seq![TokView::Not] + spelled(*inner),
        ExprView::And(a, b) => spelled(*a) + seq![TokView::And] + spelled(*b),
        ExprView::Or(a, b) => spelled(*a) + seq![TokView::Or] + spelled(*b),
    }
}

/// The variables among tokens, left to right.
pub open spec fn names_in(t: Seq<TokView>) -> Seq<Seq<char>>
    decreases t.len(),
{
    if t.len() == 0 {
        seq![]
    } else {
        match t.last() {
            TokView::Ident(name) => names_in(t.drop_last()).push(name),
            _ => names_in(t.drop_last()),
        }
    }
}

proof fn lemma_atom_sound(t: Seq<TokView>, at: int)
    ensures
        read_atom(t, at) matches Ok((e, next)) ==> is_atom(e) && t.subrange(at, next) == spelled(e),
    decreases t.len() - at,
{
    lemma_atom_advances(t, at);
    if 0 <= at < t.len() {
        lemma_atom_sound(t, at + 1);
        lemma_atom_advances(t, at + 1);
        if let Ok((e, next)) = read_atom(t, at) {
            assert(t.subrange(at, next) =~= seq![t[at]] + t.subrange(at + 1, next));
        }
    }
}

proof fn lemma_and_rest_sound(t: Seq<TokView>, left: ExprView, from: int, at: int)
    requires
        0 <= from <= at <= t.len(),
        is_and(left),
        t.subrange(from, at) == spelled(left),
    ensures
        read_and_rest(t, left, at) matches Ok((e, next)) ==> is_and(e) && t.subrange(from, next)
            == spelled(e),
    decreases t.len() - at,
{
    if at < t.len() && t[at] == TokView::And {
        lemma_atom_advances(t, at + 1);
        lemma_atom_sound(t, at + 1);
        if let Ok((right, next)) = read_atom(t, at + 1) {
            let e = ExprView::And(Box::new(left), Box::new(right));
            assert(t.subrange(from, next) =~= t.subrange(from, at) + seq![TokView::And]
                + t.subrange(at + 1, next));
            lemma_and_rest_sound(t, e, from, next);
        }
    }
}

proof fn lemma_and_sound(t: Seq<TokView>, at: int)
    ensures
        read_and(t, at) matches Ok((e, next)) ==> is_and(e) && t.subrange(at, next) == spelled(e),
{
    lemma_atom_advances(t, at);
    lemma_atom_sound(t, at);
    if let Ok((left, next)) = read_atom(t, at) {
        lemma_and_rest_sound(t, left, at, next);
    }
}

proof fn lemma_or_rest_sound(t: Seq<TokView>, left: ExprView, from: int, at: int)
    requires
        0 <= from <= at <= t.len(),
        is_or(left),
        t.subrange(from, at) == spelled(left),
    ensures
        read_or_rest(t, left, at) matches Ok((e, next)) ==> is_or(e) && t.subrange(from, next)
            == spelled(e) && next <= t.len(),
    decreases t.len() - at,
{
    if at < t.len() && t[at] == TokView::Or {
        lemma_and_advances(t, at + 1);
        lemma_and_sound(t, at + 1);
        if let Ok((right, next)) = read_and(t, at + 1) {
            let e = ExprView::Or(Box::new(left), Box::new(right));
            assert(t.subrange(from, next) =~= t.subrange(from, at) + seq![TokView::Or]
                + t.subrange(at + 1, next));
            lemma_or_rest_sound(t, e, from, next);
        }
    }
}

/// A condition that is read is spelled by exactly the tokens it was read from,
/// and binds `!` over `AND` over `OR`: no `OR` stands below an `AND`, and
/// neither below a negation.
pub proof fn law_reading_keeps_tokens(t: Seq<TokView>, s: Seq<char>)
    ensures
        condition_of(t, s) matches Ok(Some(e)) ==> spelled(e) == t && is_or(e),
{
    lemma_and_advances(t, 0);
    lemma_and_sound(t, 0);
    if let Ok((left, next)) = read_and(t, 0) {
        lemma_or_rest_sound(t, left, 0, next);
        if let Ok((e, end)) = read_or(t, 0) {
            if end == t.len() {
                assert(t.subrange(0, end) =~= t);
            }
        }
    }
}

proof fn lemma_spelled_nonempty(e: ExprView)
    ensures
        spelled(e).len() > 0,
    decreases e,
{
    match e {
        ExprView::Var(_) => {},
        ExprView::Not(inner) => {},
        ExprView::And(a, b) => {},
        ExprView::Or(a, b) => {},
    }
}

proof fn lemma_atom_complete(t: Seq<TokView>, at: int, e: ExprView)
    requires
        is_atom(e),
        0 <= at,
        at + spelled(e).len() <= t.len(),
        t.subrange(at, at + spelled(e).len()) == spelled(e),
    ensures
        read_atom(t, at) == Ok::<(ExprView, int), Seq<char>>((e, at + spelled(e).len())),
    decreases e,
{
    let sub = t.subrange(at, at + spelled(e).len());
    assert(sub[0] == t[at]);
    if let ExprView::Not(inner) = e {
        assert(t.subrange(at + 1, at + 1 + spelled(*inner).len()) =~= sub.drop_first());
        assert(sub.drop_first() =~= spelled(*inner));
        lemma_atom_complete(t, at + 1, *inner);
    }
}

proof fn lemma_and_complete(t: Seq<TokView>, at: int, e: ExprView)
    requires
        is_and(e),
        0 <= at,
        at + spelled(e).len() <= t.len(),
        t.subrange(at, at + spelled(e).len()) == spelled(e),
    ensures
        read_and(t, at) == read_and_rest(t, e, at + spelled(e).len()),
    decreases e,
{
    let sub = t.subrange(at, at + spelled(e).len());
    if let ExprView::And(a, b) = e {
        let n = spelled(*a).len() as int;
        assert(t.subrange(at, at + n) =~= sub.take(n));
        assert(sub.take(n) =~= spelled(*a));
        lemma_and_complete(t, at, *a);
        assert(t[at + n] == sub[n]);
        assert(t.subrange(at + n + 1, at + spelled(e).len()) =~= sub.skip(n + 1));
        assert(sub.skip(n + 1) =~= spelled(*b));
        lemma_atom_complete(t, at + n + 1, *b);
    } else {
        lemma_atom_complete(t, at, e);
    }
}

proof fn lemma_or_complete(t: Seq<TokView>, at: int, e: ExprView)
    requires
        is_or(e),
        0 <= at,
        at + spelled(e).len() <= t.len(),
        t.subrange(at, at + spelled(e).len()) == spelled(e),
        at + spelled(e).len() < t.len() ==> t[at + spelled(e).len()] == TokView::Or,
    ensures
        read_or(t, at) == read_or_rest(t, e, at + spelled(e).len()),
    decreases e,
{
    let sub = t.subrange(at, at + spelled(e).len());
    if let ExprView::Or(a, b) = e {
        let n = spelled(*a).len() as int;
        assert(t.subrange(at, at + n) =~= sub.take(n));
        assert(sub.take(n) =~= spelled(*a));
        assert(t[at + n] == sub[n]);
        lemma_or_complete(t, at, *a);
        assert(t.subrange(at + n + 1, at + spelled(e).len()) =~= sub.skip(n + 1));
        assert(sub.skip(n + 1) =~= spelled(*b));
        lemma_and_complete(t, at + n + 1, *b);
    } else {
        lemma_and_complete(t, at, e);
    }
}

/// Every condition of the grammar's shape is read back from the tokens that
/// spell it; with [`law_reading_keeps_tokens`], the grammar is unambiguous.
pub proof fn law_spelling_is_read_back(e: ExprView, s: Seq<char>)
    requires
        is_or(e),
    ensures
        condition_of(spelled(e), s) == Ok::<Option<ExprView>, Seq<char>>(Some(e)),
{
    lemma_spelled_nonempty(e);
    let t = spelled(e);
    assert(t.subrange(0, t.len() as int) =~= t);
    lemma_or_complete(t, 0, e);
}

/// `left` and then `OR` and then `right`, grouped to the left.
spec fn graft(left: ExprView, right: ExprView) -> ExprView
    decreases right,
{
    match right {
        ExprView::Or(a, b) => ExprView::Or(Box::new(graft(left, *a)), b),
        _ => ExprView::Or(Box::new(left), Box::new(right)),
    }
}

proof fn lemma_graft(left: ExprView, right: ExprView, truth: spec_fn(Seq<char>) -> bool)
    requires
        is_or(left),
        is_or(right),
    ensures
        is_or(graft(left, right)),
        spelled(graft(left, right)) == spelled(left) + seq![TokView::Or] + spelled(right),
        holds(graft(left, right), truth) == (holds(left, truth) || holds(right, truth)),
    decreases right,
{
    if let ExprView::Or(a, b) = right {
        lemma_graft(left, *a, truth);
    }
    assert(spelled(graft(left, right)) =~= spelled(left) + seq![TokView::Or] + spelled(right));
}

/// `OR` binds loosest: where two conditions can be read, the two joined by `OR`
/// can be read too, and hold exactly where one of them does.
pub proof fn law_or_binds_loosest(
    t1: Seq<TokView>,
    t2: Seq<TokView>,
    s: Seq<char>,
    truth: spec_fn(Seq<char>) -> bool,
)
    requires
        condition_of(t1, s) matches Ok(Some(_)),
        condition_of(t2, s) matches Ok(Some(_)),
    ensures
        condition_of(t1 + seq![TokView::Or] + t2, s) matches Ok(Some(e)) && holds(e, truth) == (
        holds(condition_of(t1, s)->Ok_0->0, truth) || holds(condition_of(t2, s)->Ok_0->0, truth)),
{
    let e1 = condition_of(t1, s)->Ok_0->0;
    let e2 = condition_of(t2, s)->Ok_0->0;
    law_reading_keeps_tokens(t1, s);
    law_reading_keeps_tokens(t2, s);
    lemma_graft(e1, e2, truth);
    law_spelling_is_read_back(graft(e1, e2), s);
}

proof fn lemma_names_concat(a: Seq<TokView>, b: Seq<TokView>)
    ensures
        names_in(a + b) == names_in(a) + names_in(b),
    decreases b.len(),
{
    if b.len() == 0 {
        assert(a + b =~= a);
        assert(names_in(a) + names_in(b) =~= names_in(a));
    } else {
        lemma_names_concat(a, b.drop_last());
        assert((a + b).drop_last() =~= a + b.drop_last());
        assert((a + b).last() == b.last());
        assert(names_in(a + b) =~= names_in(a) + names_in(b));
    }
}

/// The variables of a condition are the names among its tokens, in order.
pub proof fn law_variables_are_the_names(e: ExprView)
    ensures
        variables(e) == names_in(spelled(e)),
    decreases e,
{
    reveal_with_fuel(names_in, 2);
    match e {
        ExprView::Var(name) => {
            assert(spelled(e).drop_last() =~= Seq::empty());
            assert(names_in(spelled(e)) =~= seq![name]);
        },
        ExprView::Not(inner) => {
            law_variables_are_the_names(*inner);
            let first = seq![TokView::Not];
            lemma_names_concat(first, spelled(*inner));
            assert(first.drop_last() =~= Seq::empty());
            assert(names_in(first) =~= Seq::empty());
            assert(variables(e) =~= names_in(spelled(e)));
        },
        ExprView::And(a, b) => {
            law_variables_are_the_names(*a);
            law_variables_are_the_names(*b);
            let mid = seq![TokView::And];
            lemma_names_concat(spelled(*a) + mid, spelled(*b));
            lemma_names_concat(spelled(*a), mid);
            assert(mid.drop_last() =~= Seq::empty());
            assert(names_in(mid) =~= Seq::empty());
            assert(variables(e) =~= names_in(spelled(e)));
        },
        ExprView::Or(a, b) => {
            law_variables_are_the_names(*a);
            law_variables_are_the_names(*b);
            let mid = seq![TokView::Or];
            lemma_names_concat(spelled(*a) + mid, spelled(*b));
            lemma_names_concat(spelled(*a), mid);
            assert(mid.drop_last() =~= Seq::empty());
            assert(names_in(mid) =~= Seq::empty());
            assert(variables(e) =~= names_in(spelled(e)));
        },
    }
}

/// Whether a condition holds depends on the variables that it references, and on
/// nothing else.
pub proof fn law_only_its_variables_count(
    e: ExprView,
    f: spec_fn(Seq<char>) -> bool,
    g: spec_fn(Seq<char>) -> bool,
)
    requires
        forall|i: int| 0 <= i < variables(e).len() ==> f(#[trigger] variables(e)[i]) == g(variables(e)[i]),
    ensures
        holds(e, f) == holds(e, g),
    decreases e,
{
    match e {
        ExprView::Var(name) => {
            assert(variables(e)[0] == name);
        },
        ExprView::Not(inner) => {
            assert(variables(e) == variables(*inner));
            law_only_its_variables_count(*inner, f, g);
        },
        ExprView::And(a, b) => {
            assert(variables(e) == variables(*a) + variables(*b));
            lemma_agree_on_parts(variables(*a), variables(*b), f, g);
            law_only_its_variables_count(*a, f, g);
            law_only_its_variables_count(*b, f, g);
        },
        ExprView::Or(a, b) => {
            assert(variables(e) == variables(*a) + variables(*b));
            lemma_agree_on_parts(variables(*a), variables(*b), f, g);
            law_only_its_variables_count(*a, f, g);
            law_only_its_variables_count(*b, f, g);
        },
    }
}

proof fn lemma_agree_on_parts(
    a: Seq<Seq<char>>,
    b: Seq<Seq<char>>,
    f: spec_fn(Seq<char>) -> bool,
    g: spec_fn(Seq<char>) -> bool,
)
    requires
        forall|i: int| 0 <= i < (a + b).len() ==> f(#[trigger] (a + b)[i]) == g((a + b)[i]),
    ensures
        forall|i: int| 0 <= i < a.len() ==> f(#[trigger] a[i]) == g(a[i]),
        forall|i: int| 0 <= i < b.len() ==> f(#[trigger] b[i]) == g(b[i]),
{
    assert forall|i: int| 0 <= i < a.len() implies f(#[trigger] a[i]) == g(a[i]) by {
        assert((a + b)[i] == a[i]);
    }
    assert forall|i: int| 0 <= i < b.len() implies f(#[trigger] b[i]) == g(b[i]) by {
        assert((a + b)[a.len() + i] == b[i]);
    }
}

proof fn lemma_blank_from(s: Seq<char>, from: int)
    requires
        0 <= from <= s.len(),
        forall|i: int| 0 <= i < s.len() ==> is_white(#[trigger] s[i]),
    ensures
        tokens_from(s, from) == Ok::<Seq<TokView>, char>(seq![]),
    decreases s.len() - from,
{
    if from < s.len() {
        lemma_blank_from(s, from + 1);
    }
}

/// An empty or white-space-only condition is no condition, and always met.
pub proof fn law_blank_is_true(s: Seq<char>, truth: spec_fn(Seq<char>) -> bool)
    requires
        forall|i: int| 0 <= i < s.len() ==> is_white(#[trigger] s[i]),
    ensures
        parsed(s) == Ok::<Option<ExprView>, Seq<char>>(None),
        requirement_met(Some(s), truth) == Ok::<bool, ErrorView>(true),
{
    lemma_blank_from(s, 0);
}

} // verus!
