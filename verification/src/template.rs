//! Templates: text with `{name}` slots, where `{{` and `}}` stand for literal
//! braces.

use crate::ordered::{value_of, Entries};
use crate::text::{next_char, seek, text_of, trimmed};
use vstd::prelude::*;

verus! {

/// A piece of a template.
pub enum Piece {
    /// A character that stands for itself.
    Char(char),
    /// The escape `{{`.
    Open,
    /// The escape `}}`.
    Close,
    /// `{name}`, by what stands between the braces.
    Slot(String),
}

/// A [`Piece`] as contracts speak of it.
pub enum PieceView {
    Char(char),
    Open,
    Close,
    Slot(Seq<char>),
}

impl DeepView for Piece {
    type V = PieceView;

    open spec fn deep_view(&self) -> PieceView {
        match self {
            Piece::Char(c) => PieceView::Char(*c),
            Piece::Open => PieceView::Open,
            Piece::Close => PieceView::Close,
            Piece::Slot(name) => PieceView::Slot(name@),
        }
    }
}

/// The first piece of a template that is not empty, and how many characters it
/// takes. A `{` that no `}` follows stands for itself.
pub open spec fn first_piece(s: Seq<char>) -> (PieceView, int) {
    if s[0] == '{' && s.len() > 1 && s[1] == '{' {
        (PieceView::Open, 2)
    } else if s[0] == '}' && s.len() > 1 && s[1] == '}' {
        (PieceView::Close, 2)
    } else if s[0] == '{' && next_char(s, '}', 1) < s.len() {
        (PieceView::Slot(s.subrange(1, next_char(s, '}', 1))), next_char(s, '}', 1) + 1)
    } else {
        (PieceView::Char(s[0]), 1)
    }
}

/// The first piece takes at least one character and ends within the template.
pub proof fn lemma_first_piece(s: Seq<char>)
    requires
        s.len() > 0,
    ensures
        0 < first_piece(s).1 <= s.len(),
{
    crate::text::lemma_next_char(s, '}', 1);
}

/// The pieces of a template.
pub open spec fn pieces(s: Seq<char>) -> Seq<PieceView>
    decreases s.len(),
{
    if s.len() == 0 {
        seq![]
    } else {
        proof {
            lemma_first_piece(s);
        }
        seq![first_piece(s).0] + pieces(s.skip(first_piece(s).1))
    }
}

/// The first piece at or behind `at`, and where the next one begins.
pub fn read_piece(chars: &Vec<char>, at: usize) -> (r: (Piece, usize))
    requires
        at < chars@.len(),
    ensures
        at < r.1 <= chars@.len(),
        r.0.deep_view() == first_piece(chars@.skip(at as int)).0,
        r.1 == at + first_piece(chars@.skip(at as int)).1,
{
    let n: usize = chars.len();
    let ghost s = chars@.skip(at as int);
    let c = chars[at];
    if c == '{' && n - at > 1 && chars[at + 1] == '{' {
        return (Piece::Open, at + 2);
    }
    if c == '}' && n - at > 1 && chars[at + 1] == '}' {
        return (Piece::Close, at + 2);
    }
    if c == '{' {
        let j = seek(chars, '}', at + 1);
        proof {
            crate::text::lemma_next_char_skip(chars@, '}', at as int, 1);
        }
        if j < n {
            let name = text_of(chars, at + 1, j);
            assert(name@ =~= s.subrange(1, next_char(s, '}', 1)));
            return (Piece::Slot(name), j + 1);
        }
    }
    (Piece::Char(c), at + 1)
}

// ---- Filling ---------------------------------------------------------------

/// What a piece turns into when slots are filled with `value`.
pub open spec fn piece_filled(p: PieceView, value: spec_fn(Seq<char>) -> Seq<char>) -> Seq<char> {
    match p {
        PieceView::Char(c) => seq![c],
        PieceView::Open => seq!['{'],
        PieceView::Close => seq!['}'],
        PieceView::Slot(name) => value(trimmed(name)),
    }
}

/// What pieces turn into when slots are filled with `value`.
pub open spec fn pieces_filled(
    ps: Seq<PieceView>,
    value: spec_fn(Seq<char>) -> Seq<char>,
) -> Seq<char>
    decreases ps.len(),
{
    if ps.len() == 0 {
        seq![]
    } else {
        piece_filled(ps[0], value) + pieces_filled(ps.drop_first(), value)
    }
}

/// A template with its slots filled: `value` gives what stands for a name.
pub open spec fn filled(s: Seq<char>, value: spec_fn(Seq<char>) -> Seq<char>) -> Seq<char> {
    pieces_filled(pieces(s), value)
}

/// Filling the first piece and then the rest.
pub proof fn lemma_filled_step(s: Seq<char>, value: spec_fn(Seq<char>) -> Seq<char>)
    requires
        s.len() > 0,
    ensures
        filled(s, value) == piece_filled(first_piece(s).0, value) + filled(
            s.skip(first_piece(s).1),
            value,
        ),
{
    assert(pieces(s).drop_first() =~= pieces(s.skip(first_piece(s).1)));
}

// ---- Renaming --------------------------------------------------------------

/// The new name of a variable, where it has one.
pub open spec fn renamed(name: Seq<char>, renames: Entries<Seq<char>>) -> Seq<char> {
    match value_of(renames, name) {
        Some(new) => new,
        None => name,
    }
}

/// A piece with a renamed variable. A slot whose variable keeps its name is left
/// as it is, white space included.
pub open spec fn piece_renamed(p: PieceView, renames: Entries<Seq<char>>) -> PieceView {
    match p {
        PieceView::Slot(name) => match value_of(renames, trimmed(name)) {
            Some(new) => PieceView::Slot(new),
            None => p,
        },
        _ => p,
    }
}

/// The text of a piece.
pub open spec fn piece_text(p: PieceView) -> Seq<char> {
    match p {
        PieceView::Char(c) => seq![c],
        PieceView::Open => seq!['{', '{'],
        PieceView::Close => seq!['}', '}'],
        PieceView::Slot(name) => seq!['{'] + name + seq!['}'],
    }
}

/// The template made of pieces.
pub open spec fn template_of(ps: Seq<PieceView>) -> Seq<char>
    decreases ps.len(),
{
    if ps.len() == 0 {
        seq![]
    } else {
        piece_text(ps[0]) + template_of(ps.drop_first())
    }
}

/// Pieces with variables renamed.
pub open spec fn pieces_renamed(
    ps: Seq<PieceView>,
    renames: Entries<Seq<char>>,
) -> Seq<PieceView> {
    ps.map_values(|p: PieceView| piece_renamed(p, renames))
}

/// A template with variables renamed.
pub open spec fn template_renamed(s: Seq<char>, renames: Entries<Seq<char>>) -> Seq<char> {
    template_of(pieces_renamed(pieces(s), renames))
}

/// Renaming in the first piece and then in the rest.
pub proof fn lemma_renamed_step(s: Seq<char>, renames: Entries<Seq<char>>)
    requires
        s.len() > 0,
    ensures
        template_renamed(s, renames) == piece_text(piece_renamed(first_piece(s).0, renames))
            + template_renamed(s.skip(first_piece(s).1), renames),
        pieces_renamed(pieces(s), renames) == seq![piece_renamed(first_piece(s).0, renames)]
            + pieces_renamed(pieces(s.skip(first_piece(s).1)), renames),
{
    let ps = pieces_renamed(pieces(s), renames);
    assert(ps.drop_first() =~= pieces_renamed(pieces(s.skip(first_piece(s).1)), renames));
    assert(ps =~= seq![ps[0]] + ps.drop_first());
}

// ---- Laws ------------------------------------------------------------------

/// Text without braces fills to itself.
pub proof fn law_plain_text_is_kept(s: Seq<char>, value: spec_fn(Seq<char>) -> Seq<char>)
    requires
        forall|i: int| 0 <= i < s.len() ==> s[i] != '{' && s[i] != '}',
    ensures
        filled(s, value) == s,
    decreases s.len(),
{
    if s.len() > 0 {
        assert(s[0] != '{' && s[0] != '}');
        assert(first_piece(s) == (PieceView::Char(s[0]), 1int));
        law_plain_text_is_kept(s.skip(1), value);
        lemma_filled_step(s, value);
        assert(seq![s[0]] + s.skip(1) =~= s);
    }
}

/// `s` with every brace doubled.
pub open spec fn escaped(s: Seq<char>) -> Seq<char>
    decreases s.len(),
{
    if s.len() == 0 {
        seq![]
    } else if s[0] == '{' || s[0] == '}' {
        seq![s[0], s[0]] + escaped(s.drop_first())
    } else {
        seq![s[0]] + escaped(s.drop_first())
    }
}

/// Doubled braces fill to single ones: any text can be written literally.
pub proof fn law_escapes_are_undone(s: Seq<char>, value: spec_fn(Seq<char>) -> Seq<char>)
    ensures
        filled(escaped(s), value) == s,
    decreases s.len(),
{
    if s.len() > 0 {
        let e = escaped(s);
        let rest = escaped(s.drop_first());
        law_escapes_are_undone(s.drop_first(), value);
        lemma_filled_step(e, value);
        if s[0] == '{' || s[0] == '}' {
            assert(e.skip(2) =~= rest);
        } else {
            assert(e[0] == s[0]);
            assert(e.skip(1) =~= rest);
        }
        assert(filled(e, value) =~= seq![s[0]] + s.drop_first());
        assert(seq![s[0]] + s.drop_first() =~= s);
    }
}

/// A name that can stand between braces: it holds no `}` and does not begin
/// with `{`.
pub open spec fn slot_name(name: Seq<char>) -> bool {
    &&& forall|i: int| 0 <= i < name.len() ==> name[i] != '}'
    &&& name.len() > 0 ==> name[0] != '{'
}

/// Every new name can stand between braces.
pub open spec fn slot_names(renames: Entries<Seq<char>>) -> bool {
    forall|i: int| 0 <= i < renames.len() ==> slot_name(#[trigger] renames[i].1)
}

proof fn lemma_no_close(s: Seq<char>, renames: Entries<Seq<char>>)
    requires
        forall|i: int| 0 <= i < s.len() ==> s[i] != '}',
    ensures
        template_renamed(s, renames) == s,
    decreases s.len(),
{
    if s.len() > 0 {
        let n = first_piece(s).1;
        crate::text::lemma_next_char(s, '}', 1);
        assert(next_char(s, '}', 1) == s.len());
        lemma_no_close(s.skip(n), renames);
        lemma_renamed_step(s, renames);
        if first_piece(s).0 is Open {
            assert(seq!['{', '{'] + s.skip(2) =~= s);
        } else {
            assert(seq![s[0]] + s.skip(1) =~= s);
        }
    }
}

proof fn lemma_first_char(s: Seq<char>, renames: Entries<Seq<char>>)
    requires
        s.len() > 0,
    ensures
        template_renamed(s, renames).len() > 0,
        template_renamed(s, renames)[0] == s[0],
{
    lemma_renamed_step(s, renames);
    let p = piece_renamed(first_piece(s).0, renames);
    assert(piece_text(p)[0] == s[0]);
    assert(template_renamed(s, renames)[0] == piece_text(p)[0]);
}

/// Renaming touches names alone: a template with renamed variables has the same
/// pieces, but for the names of the variables that were renamed.
pub proof fn law_renaming_keeps_pieces(s: Seq<char>, renames: Entries<Seq<char>>)
    requires
        slot_names(renames),
    ensures
        pieces(template_renamed(s, renames)) == pieces_renamed(pieces(s), renames),
    decreases s.len(),
{
    let t = template_renamed(s, renames);
    if s.len() == 0 {
        assert(t.len() == 0);
        assert(pieces_renamed(pieces(s), renames) =~= seq![]);
    } else {
        let (p, n) = first_piece(s);
        let q = piece_renamed(p, renames);
        let s2 = s.skip(n);
        let t2 = template_renamed(s2, renames);
        lemma_first_piece(s);
        lemma_renamed_step(s, renames);
        law_renaming_keeps_pieces(s2, renames);
        let k = piece_text(q).len() as int;
        assert(t == piece_text(q) + t2);
        assert(t.skip(k) =~= t2);
        assert(first_piece(t) == (q, k)) by {
            crate::text::lemma_next_char(s, '}', 1);
            match p {
                PieceView::Open => {
                    assert(t[0] == '{' && t[1] == '{');
                },
                PieceView::Close => {
                    assert(t[0] == '}' && t[1] == '}');
                },
                PieceView::Slot(name) => {
                    let new = q->Slot_0;
                    assert(slot_name(new)) by {
                        match value_of(renames, trimmed(name)) {
                            Some(v) => {
                                let i = crate::ordered::key_index(renames, trimmed(name));
                                assert(0 <= i < renames.len() && renames[i].0 == trimmed(name));
                                assert(slot_name(renames[i].1));
                            },
                            None => {
                                assert forall|i: int| 0 <= i < name.len() implies name[i] != '}' by {
                                    assert(name[i] == s[i + 1]);
                                }
                                if name.len() > 0 {
                                    assert(name[0] == s[1]);
                                }
                            },
                        }
                    }
                    assert(t[0] == '{');
                    assert forall|i: int| 1 <= i < k - 1 implies t[i] != '}' by {
                        assert(t[i] == new[i - 1]);
                    }
                    assert(t[k - 1] == '}');
                    crate::text::lemma_next_char(t, '}', 1);
                    assert(next_char(t, '}', 1) == k - 1);
                    assert(t[1] != '{') by {
                        if new.len() > 0 {
                            assert(t[1] == new[0]);
                        }
                    }
                    assert(t.subrange(1, k - 1) =~= new);
                },
                PieceView::Char(c) => {
                    assert(t[0] == c);
                    assert(c == s[0]);
                    if s2.len() > 0 {
                        lemma_first_char(s2, renames);
                        assert(s2[0] == s[1]);
                        assert(t[1] == t2[0]);
                    } else {
                        assert(t2.len() == 0);
                    }
                    if c == '{' {
                        assert forall|i: int| 0 <= i < s2.len() implies s2[i] != '}' by {
                            assert(s2[i] == s[i + 1]);
                        }
                        lemma_no_close(s2, renames);
                        assert(t =~= s) by {
                            assert(seq![s[0]] + s.skip(1) =~= s);
                        }
                    }
                },
            }
        }
        assert(pieces(t) =~= pieces_renamed(pieces(s), renames));
    }
}

/// Renaming with no entries changes nothing.
pub proof fn law_no_renames_no_change(s: Seq<char>)
    ensures
        template_renamed(s, Seq::<(Seq<char>, Seq<char>)>::empty()) == s,
    decreases s.len(),
{
    let none = Seq::<(Seq<char>, Seq<char>)>::empty();
    if s.len() > 0 {
        let n = first_piece(s).1;
        lemma_first_piece(s);
        crate::text::lemma_next_char(s, '}', 1);
        lemma_renamed_step(s, none);
        law_no_renames_no_change(s.skip(n));
        assert(piece_text(first_piece(s).0) =~= s.take(n));
        assert(s.take(n) + s.skip(n) =~= s);
    }
}

/// The slots of a template get the same under their old names as under their new ones.
pub open spec fn agree(
    ps: Seq<PieceView>,
    renames: Entries<Seq<char>>,
    before: spec_fn(Seq<char>) -> Seq<char>,
    after: spec_fn(Seq<char>) -> Seq<char>,
) -> bool {
    forall|i: int|
        0 <= i < ps.len() && #[trigger] ps[i] is Slot ==> before(trimmed(ps[i]->Slot_0)) == after(
            renamed(trimmed(ps[i]->Slot_0), renames),
        )
}

/// A template that has no slot with a renamed variable stays as it is.
pub proof fn law_other_slots_are_kept(s: Seq<char>, renames: Entries<Seq<char>>)
    requires
        forall|i: int|
            0 <= i < pieces(s).len() && #[trigger] pieces(s)[i] is Slot ==> value_of(
                renames,
                trimmed(pieces(s)[i]->Slot_0),
            ) is None,
    ensures
        template_renamed(s, renames) == s,
    decreases s.len(),
{
    if s.len() > 0 {
        let n = first_piece(s).1;
        let rest = s.skip(n);
        lemma_first_piece(s);
        crate::text::lemma_next_char(s, '}', 1);
        lemma_renamed_step(s, renames);
        assert(pieces(s)[0] == first_piece(s).0);
        assert forall|i: int| 0 <= i < pieces(rest).len() && #[trigger] pieces(rest)[i] is Slot implies
            value_of(renames, trimmed(pieces(rest)[i]->Slot_0)) is None by {
            assert(pieces(s)[i + 1] == pieces(rest)[i]);
        }
        law_other_slots_are_kept(rest, renames);
        assert(piece_text(first_piece(s).0) =~= s.take(n));
        assert(s.take(n) + rest =~= s);
    }
}

proof fn lemma_filled_renamed(
    ps: Seq<PieceView>,
    renames: Entries<Seq<char>>,
    before: spec_fn(Seq<char>) -> Seq<char>,
    after: spec_fn(Seq<char>) -> Seq<char>,
)
    requires
        forall|i: int|
            0 <= i < renames.len() ==> trimmed(#[trigger] renames[i].1) == renames[i].1,
        agree(ps, renames, before, after),
    ensures
        pieces_filled(pieces_renamed(ps, renames), after) == pieces_filled(ps, before),
    decreases ps.len(),
{
    let qs = pieces_renamed(ps, renames);
    if ps.len() > 0 {
        assert forall|i: int|
            0 <= i < ps.drop_first().len() && #[trigger] ps.drop_first()[i] is Slot implies before(
            trimmed(ps.drop_first()[i]->Slot_0),
        ) == after(renamed(trimmed(ps.drop_first()[i]->Slot_0), renames)) by {
            assert(ps.drop_first()[i] == ps[i + 1]);
        }
        lemma_filled_renamed(ps.drop_first(), renames, before, after);
        assert(qs.drop_first() =~= pieces_renamed(ps.drop_first(), renames));
        assert(qs[0] == piece_renamed(ps[0], renames));
        if let PieceView::Slot(name) = ps[0] {
            assert(ps[0] is Slot);
            assert(before(trimmed(name)) == after(renamed(trimmed(name), renames)));
            if value_of(renames, trimmed(name)) is Some {
                let i = crate::ordered::key_index(renames, trimmed(name));
                assert(0 <= i < renames.len() && renames[i].0 == trimmed(name));
                assert(trimmed(renames[i].1) == renames[i].1);
            }
        }
    }
}

/// Renaming variables in a template, and giving the new name of each of its slots the
/// value of the old one, keeps what the template fills to.
pub proof fn law_renaming_keeps_filling(
    s: Seq<char>,
    renames: Entries<Seq<char>>,
    before: spec_fn(Seq<char>) -> Seq<char>,
    after: spec_fn(Seq<char>) -> Seq<char>,
)
    requires
        slot_names(renames),
        forall|i: int|
            0 <= i < renames.len() ==> trimmed(#[trigger] renames[i].1) == renames[i].1,
        agree(pieces(s), renames, before, after),
    ensures
        filled(template_renamed(s, renames), after) == filled(s, before),
{
    law_renaming_keeps_pieces(s, renames);
    lemma_filled_renamed(pieces(s), renames, before, after);
}

} // verus!
