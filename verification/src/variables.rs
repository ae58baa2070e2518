//! Resolved variable values and the per-extension lookup used during building.
//!
//! A name is resolved within the current extension unless it begins with
//! `global:`, in which case it comes from the shared global map populated by the
//! `global:` fields of any extension.

use crate::condition::{answers, parse, parse_outcome, variables};
use crate::data::Duplicate;
use crate::error::{outcome, ErrorView, Result, RitzError};
use crate::ordered::{distinct, law_put, put, value_of, Entries, OrderedMap};
use crate::schema::{FieldType, UiField};
use crate::template::{filled, lemma_filled_step, piece_filled, read_piece, Piece};
use crate::text::{after_prefix, begins, chars_of, same_text, starts_with, strip_prefix, trim};
use vstd::prelude::*;

verus! {

/// What a name begins with that is looked up in the global scope.
pub const GLOBAL_PREFIX: &'static str = "global:";

/// The value of a variable.
#[derive(Debug, PartialEq, Eq)]
pub struct ResolvedVar {
    /// What a condition takes the variable for.
    pub truthy: bool,
    /// What `{var}` is filled with (empty where there is nothing).
    pub value: String,
}

/// A [`ResolvedVar`] as contracts speak of it.
#[verifier::ext_equal]
pub struct ResolvedVarView {
    pub truthy: bool,
    pub value: Seq<char>,
}

impl DeepView for ResolvedVar {
    type V = ResolvedVarView;

    open spec fn deep_view(&self) -> ResolvedVarView {
        ResolvedVarView {
            truthy: self.truthy,
            value: self.value.deep_view(),
        }
    }
}

impl Duplicate for ResolvedVar {
    fn duplicate(&self) -> (r: Self) {
        ResolvedVar {
            truthy: self.truthy,
            value: self.value.duplicate(),
        }
    }
}

impl Clone for ResolvedVar {
    fn clone(&self) -> (r: Self)
        ensures
            r.deep_view() == self.deep_view(),
    {
        self.duplicate()
    }
}

/// What a variable that is off is worth.
pub open spec fn nothing() -> ResolvedVarView {
    ResolvedVarView { truthy: false, value: seq![] }
}

impl ResolvedVar {
    /// A variable with this truth and this text.
    pub fn new(truthy: bool, value: &str) -> (r: Self)
        ensures
            r.deep_view() == (ResolvedVarView { truthy, value: value@ }),
    {
        ResolvedVar { truthy, value: value.to_owned() }
    }

    /// A variable that is off.
    pub fn falsy() -> (r: Self)
        ensures
            r.deep_view() == nothing(),
    {
        let r = ResolvedVar { truthy: false, value: String::new() };
        assert(r.deep_view().value =~= seq![]);
        r
    }
}

/// The lookup surface for one extension's build pass: its own variables and the
/// shared global ones.
#[derive(Debug)]
pub struct VarStore {
    local: OrderedMap<ResolvedVar>,
    global: OrderedMap<ResolvedVar>,
}

/// A [`VarStore`] as contracts speak of it.
#[verifier::ext_equal]
pub struct VarStoreView {
    pub local: Entries<ResolvedVarView>,
    pub global: Entries<ResolvedVarView>,
}

impl DeepView for VarStore {
    type V = VarStoreView;

    closed spec fn deep_view(&self) -> VarStoreView {
        VarStoreView { local: self.local.deep_view(), global: self.global.deep_view() }
    }
}

impl Duplicate for VarStore {
    fn duplicate(&self) -> (r: Self) {
        VarStore { local: self.local.duplicate(), global: self.global.duplicate() }
    }
}

impl Clone for VarStore {
    fn clone(&self) -> (r: Self)
        ensures
            r.deep_view() == self.deep_view(),
    {
        self.duplicate()
    }
}

/// A name without the `global:` in front, where it has one.
pub open spec fn bare_name(name: Seq<char>) -> Seq<char> {
    match after_prefix(name, GLOBAL_PREFIX@) {
        Some(bare) => bare,
        None => name,
    }
}

impl VarStoreView {
    /// No name stands twice; every [`VarStore`] is like this.
    pub open spec fn wf(self) -> bool {
        distinct(self.local) && distinct(self.global)
    }

    /// The variable that a name stands for.
    pub open spec fn lookup(self, name: Seq<char>) -> Option<ResolvedVarView> {
        match after_prefix(name, GLOBAL_PREFIX@) {
            Some(bare) => value_of(self.global, bare),
            None => value_of(self.local, name),
        }
    }

    /// What conditions take a name for; unknown names are falsy.
    pub open spec fn truthy(self, name: Seq<char>) -> bool {
        match self.lookup(name) {
            Some(v) => v.truthy,
            None => false,
        }
    }

    /// What a slot with this name is filled with; unknown names yield nothing.
    pub open spec fn value(self, name: Seq<char>) -> Seq<char> {
        match self.lookup(name) {
            Some(v) => v.value,
            None => seq![],
        }
    }

    /// The truth that conditions are evaluated with.
    pub open spec fn truth(self) -> spec_fn(Seq<char>) -> bool {
        |name: Seq<char>| self.truthy(name)
    }

    /// A template with its slots filled.
    pub open spec fn interpolated(self, template: Seq<char>) -> Seq<char> {
        filled(template, |name: Seq<char>| self.value(name))
    }
}

/// The store without variables.
pub open spec fn empty_store() -> VarStoreView {
    VarStoreView { local: seq![], global: seq![] }
}

impl Default for VarStore {
    fn default() -> (s: Self)
        ensures
            s.deep_view() == empty_store(),
    {
        let s = VarStore { local: OrderedMap::new(), global: OrderedMap::new() };
        assert(s.deep_view() =~= empty_store());
        s
    }
}

impl VarStore {
    /// A store without variables.
    pub fn new() -> (s: Self)
        ensures
            s.deep_view() == empty_store(),
    {
        Self::default()
    }

    /// A store with these global variables and no others.
    pub fn with_global(global: OrderedMap<ResolvedVar>) -> (s: Self)
        ensures
            s.deep_view() == (VarStoreView { local: seq![], global: global.deep_view() }),
    {
        let s = VarStore { local: OrderedMap::new(), global };
        assert(s.deep_view().local =~= seq![]);
        s
    }

    /// Inserts a local variable (short name, no prefix).
    pub fn insert_local(&mut self, name: &str, var: ResolvedVar)
        ensures
            final(self).deep_view() == (VarStoreView {
                local: put(old(self).deep_view().local, name@, var.deep_view()),
                ..old(self).deep_view()
            }),
    {
        self.local.insert(name.to_owned(), var);
    }

    /// Inserts a global variable. Accepts either the bare name or the
    /// `global:`-prefixed form; stored bare.
    pub fn insert_global(&mut self, name: &str, var: ResolvedVar)
        ensures
            final(self).deep_view() == (VarStoreView {
                global: put(old(self).deep_view().global, bare_name(name@), var.deep_view()),
                ..old(self).deep_view()
            }),
    {
        let bare = match strip_prefix(name, GLOBAL_PREFIX) {
            Some(b) => b,
            None => name.to_owned(),
        };
        self.global.insert(bare, var);
    }

    fn get(&self, name: &str) -> (r: Option<&ResolvedVar>)
        ensures
            r.deep_view() == self.deep_view().lookup(name@),
    {
        match strip_prefix(name, GLOBAL_PREFIX) {
            Some(bare) => self.global.get(bare.as_str()),
            None => self.local.get(name),
        }
    }

    /// Truthiness for conditions; unknown names are falsy.
    pub fn truthy(&self, name: &str) -> (b: bool)
        ensures
            b == self.deep_view().truthy(name@),
    {
        match self.get(name) {
            Some(v) => v.truthy,
            None => false,
        }
    }

    /// The value for `{var}`; unknown names yield the empty text.
    pub fn value(&self, name: &str) -> (r: &str)
        ensures
            r@ == self.deep_view().value(name@),
    {
        match self.get(name) {
            Some(v) => v.value.as_str(),
            None => {
                proof {
                    reveal_strlit("");
                    assert(""@ =~= seq![]);
                }
                ""
            },
        }
    }

    /// A closure suitable for condition evaluation.
    pub fn lookup_fn(&self) -> (f: impl Fn(&str) -> bool + '_)
        ensures
            forall|name: &str| #[trigger] call_requires(f, (name,)),
            answers(f, self.deep_view().truth()),
    {
        let ghost store = self.deep_view();
        move |name: &str| -> (b: bool)
            ensures
                b == store.truthy(name@),
            { self.truthy(name) }
    }

    /// Replaces every `{name}` with its value. `{{` and `}}` escape to literal
    /// braces. Unknown names interpolate to the empty text.
    pub fn interpolate(&self, template: &str) -> (r: String)
        ensures
            r@ == self.deep_view().interpolated(template@),
    {
        let chars = chars_of(template);
        let n: usize = chars.len();
        let mut out = String::new();
        let mut i: usize = 0;
        let ghost t = template@;
        let ghost store = self.deep_view();
        let ghost value = |name: Seq<char>| store.value(name);
        assert(t.skip(0) =~= t);
        assert(out@ + filled(t, value) =~= filled(t, value));
        while i < n
            invariant
                store == self.deep_view(),
                value == (|name: Seq<char>| store.value(name)),
                chars@ == t,
                i <= n == t.len(),
                out@ + filled(t.skip(i as int), value) == filled(t, value),
            decreases n - i,
        {
            let ghost rest = t.skip(i as int);
            let ghost before = out@;
            let (piece, next) = read_piece(&chars, i);
            match &piece {
                Piece::Char(c) => out.push(*c),
                Piece::Open => out.push('{'),
                Piece::Close => out.push('}'),
                Piece::Slot(name) => out.append(self.value(trim(name.as_str()).as_str())),
            }
            proof {
                lemma_filled_step(rest, value);
                assert(rest.skip(next - i) =~= t.skip(next as int));
                assert(out@ =~= before + piece_filled(piece.deep_view(), value));
                assert(out@ + filled(t.skip(next as int), value) =~= before + filled(rest, value));
            }
            i = next;
        }
        assert(out@ + filled(t.skip(n as int), value) =~= out@);
        out
    }
}

/// The value of a field, from whether it is on and its stored text.
pub open spec fn field_value(
    field_type: FieldType,
    enabled: bool,
    raw: Option<Seq<char>>,
) -> ResolvedVarView {
    if field_type == FieldType::Toggle {
        let on = match raw {
            Some(v) => v == "true"@,
            None => enabled,
        };
        ResolvedVarView {
            truthy: on,
            value: if on {
                "true"@
            } else {
                "false"@
            },
        }
    } else {
        match raw {
            Some(v) => if enabled && v.len() > 0 {
                ResolvedVarView { truthy: true, value: v }
            } else {
                nothing()
            },
            None => nothing(),
        }
    }
}

/// Computes a [`ResolvedVar`] from a field definition and its effective stored
/// value:
/// - toggle: `"true"`/`"false"`;
/// - otherwise `None` means the enable-checkbox is off, and `Some(v)` that the
///   field is enabled with value `v`.
pub fn resolve_field(field: &UiField, enabled: bool, raw: Option<&str>) -> (r: ResolvedVar)
    ensures
        r.deep_view() == field_value(field.deep_view().field_type, enabled, raw.deep_view()),
{
    match field.field_type {
        FieldType::Toggle => {
            let on = match raw {
                Some(v) => same_text(v, "true"),
                None => enabled,
            };
            ResolvedVar::new(
                on,
                if on {
                    "true"
                } else {
                    "false"
                },
            )
        },
        _ => match raw {
            Some(v) => if enabled && chars_of(v).len() > 0 {
                ResolvedVar::new(true, v)
            } else {
                ResolvedVar::falsy()
            },
            None => ResolvedVar::falsy(),
        },
    }
}

/// The message for a `global:` reference where none is allowed.
pub open spec fn global_message(name: Seq<char>) -> Seq<char> {
    "`global:` reference `"@ + name + "` is not allowed in a UI Requires"@
}

/// `i` is the first position in `names` that holds a `global:` reference.
pub open spec fn first_global(names: Seq<Seq<char>>, i: int) -> bool {
    &&& 0 <= i < names.len()
    &&& begins(names[i], GLOBAL_PREFIX@)
    &&& forall|j: int| 0 <= j < i ==> !begins(#[trigger] names[j], GLOBAL_PREFIX@)
}

/// Some name is a `global:` reference.
pub open spec fn any_global(names: Seq<Seq<char>>) -> bool {
    exists|i: int| 0 <= i < names.len() && begins(#[trigger] names[i], GLOBAL_PREFIX@)
}

/// What validating a UI condition gives: the parse error, the first `global:`
/// reference, or nothing.
pub open spec fn ui_check(requirement: Seq<char>) -> std::result::Result<(), ErrorView> {
    match parse_outcome(requirement) {
        Err(e) => Err(e),
        Ok(None) => Ok(()),
        Ok(Some(e)) => if any_global(variables(e)) {
            Err(
                ErrorView::Condition(
                    global_message(
                        variables(e)[choose|i: int| first_global(variables(e), i)],
                    ),
                ),
            )
        } else {
            Ok(())
        },
    }
}

/// Validates that a UI condition does not reference `global:` variables.
/// (Dependencies across extensions are only allowed in the build phase.)
pub fn ui_requires_is_valid(requirement: &str) -> (r: Result<()>)
    ensures
        outcome(r) == ui_check(requirement@),
{
    let parsed = parse(requirement)?;
    if let Some(expr) = parsed {
        let names = expr.referenced_vars();
        let ghost d = names.deep_view();
        let mut i: usize = 0;
        while i < names.len()
            invariant
                d == names.deep_view(),
                i <= names@.len(),
                parse_outcome(requirement@) == Ok::<
                    Option<crate::condition::ExprView>,
                    ErrorView,
                >(Some(expr.deep_view())),
                d == variables(expr.deep_view()),
                forall|j: int| 0 <= j < i ==> !begins(#[trigger] d[j], GLOBAL_PREFIX@),
            decreases names@.len() - i,
        {
            assert(d[i as int] == names@[i as int]@);
            if starts_with(names[i].as_str(), GLOBAL_PREFIX) {
                let mut m = String::new();
                m.append("`global:` reference `");
                m.append(names[i].as_str());
                m.append("` is not allowed in a UI Requires");
                assert(m@ =~= global_message(names@[i as int]@));
                assert(first_global(d, i as int));
                return Err(RitzError::Condition(m));
            }
            i += 1;
        }
    }
    Ok(())
}

// ---- Laws ------------------------------------------------------------------

/// A prefixed name is looked up among the global variables alone, and any other
/// name among the local ones alone.
pub proof fn law_scopes_do_not_mix(a: VarStoreView, b: VarStoreView, name: Seq<char>)
    ensures
        begins(name, GLOBAL_PREFIX@) && a.global == b.global ==> a.lookup(name) == b.lookup(name),
        !begins(name, GLOBAL_PREFIX@) && a.local == b.local ==> a.lookup(name) == b.lookup(name),
{
}

/// A variable that is inserted is found, a global one under its prefixed name;
/// all others stay.
pub proof fn law_inserted_is_found(
    s: VarStoreView,
    name: Seq<char>,
    var: ResolvedVarView,
    other: Seq<char>,
)
    requires
        s.wf(),
    ensures
        ({
            let global = VarStoreView { global: put(s.global, bare_name(name), var), ..s };
            let local = VarStoreView { local: put(s.local, name, var), ..s };
            &&& global.lookup(GLOBAL_PREFIX@ + bare_name(name)) == Some(var)
            &&& !begins(name, GLOBAL_PREFIX@) ==> local.lookup(name) == Some(var)
            &&& other != GLOBAL_PREFIX@ + bare_name(name) ==> global.lookup(other) == s.lookup(other)
            &&& other != name ==> local.lookup(other) == s.lookup(other)
        }),
{
    let p = GLOBAL_PREFIX@;
    let bare = bare_name(name);
    assert((p + bare).take(p.len() as int) =~= p);
    assert((p + bare).skip(p.len() as int) =~= bare);
    law_put(s.global, bare, var, bare);
    law_put(s.local, name, var, name);
    law_put(s.local, name, var, other);
    if let Some(b) = after_prefix(other, p) {
        law_put(s.global, bare, var, b);
        assert(p + b =~= other);
    }
}

} // verus!
