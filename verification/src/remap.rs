//! Moving a module's stored values when it is forked or renamed.
//!
//! Stored values are kept by `Author → Name → var`, so forking or renaming a
//! module moves them from one `(Author, Name)` to another in every scope.

use crate::config::{
    copy_vars, law_pruned, law_with_vars, lemma_stored, lemma_valid_parts, prune, pruned, put_vars,
    stored, valid, vars_at, vars_or_none, with_vars, AuthorsMap, AuthorsView, ExtMap, ExtsView, VarMap,
    VarsView,
};
use crate::data::Duplicate;
use crate::ordered::{
    distinct, has_key, law_put, law_without, lemma_found, put, value_of, without, Entries, OrderedMap,
};
use crate::paths::{game_path, path_joined, preset_path, Paths};
use crate::template::renamed;
use crate::text::{begins, contains_text, same_text};
use crate::value::{same_value, Json, ValueView};
use vstd::prelude::*;

verus! {

/// A module: its author and its name.
pub type ModuleView = (Seq<char>, Seq<char>);

// ---- Copying the values of one module --------------------------------------

/// The values that have landed, and the variables that landed nowhere.
pub struct Moved {
    pub target: VarsView,
    pub dropped: Seq<Seq<char>>,
}

/// A variable has its value from another one of the module: one that is not dropped,
/// is renamed to it, and holds the same value.
pub open spec fn arrived(
    held: VarsView,
    var: Seq<char>,
    value: ValueView,
    rename: Entries<Seq<char>>,
    drop: Seq<Seq<char>>,
) -> bool {
    exists|u: int|
        0 <= u < held.len() && (#[trigger] held[u]).0 != var && !drop.contains(held[u].0) && renamed(
            held[u].0,
            rename,
        ) == var && held[u].1 == value
}

/// One variable copied: one in `drop` is left out, and one whose destination is
/// taken never overwrites it. Where a module is copied in place (`held` is what it
/// holds), a variable that keeps its name is left alone, and one that has its value
/// from another by the same renaming goes no further.
pub open spec fn copied(
    m: Moved,
    var: Seq<char>,
    value: ValueView,
    held: Option<VarsView>,
    rename: Entries<Seq<char>>,
    drop: Seq<Seq<char>>,
) -> Moved {
    let dest = renamed(var, rename);
    if drop.contains(var) {
        Moved { dropped: m.dropped.push(var), ..m }
    } else if held is Some && dest == var {
        m
    } else if has_key(m.target, dest) || (held is Some && arrived(
        held->0,
        var,
        value,
        rename,
        drop,
    )) {
        Moved { dropped: m.dropped.push(var), ..m }
    } else {
        Moved { target: put(m.target, dest, value), ..m }
    }
}

/// All variables of `source` copied into `target`, in order.
pub open spec fn all_copied(
    source: VarsView,
    target: VarsView,
    held: Option<VarsView>,
    rename: Entries<Seq<char>>,
    drop: Seq<Seq<char>>,
) -> Moved
    decreases source.len(),
{
    if source.len() == 0 {
        Moved { target, dropped: seq![] }
    } else {
        copied(
            all_copied(source.drop_last(), target, held, rename, drop),
            source.last().0,
            source.last().1,
            held,
            rename,
            drop,
        )
    }
}

/// What a module holds that is copied in place.
pub open spec fn held_by(source: VarsView, from: ModuleView, to: ModuleView) -> Option<VarsView> {
    if from == to {
        Some(source)
    } else {
        None
    }
}

/// The values of `from` copied to `to`, and the variables that landed nowhere.
pub open spec fn remapped(
    a: AuthorsView,
    from: ModuleView,
    to: ModuleView,
    rename: Entries<Seq<char>>,
    drop: Seq<Seq<char>>,
) -> (AuthorsView, Seq<Seq<char>>) {
    match vars_at(a, from.0, from.1) {
        None => (a, seq![]),
        Some(source) => {
            let held = held_by(source, from, to);
            let m = all_copied(source, vars_or_none(a, to.0, to.1), held, rename, drop);
            (with_vars(a, to.0, to.1, m.target), m.dropped)
        },
    }
}

fn has_arrived(
    held: &VarMap,
    var: &str,
    value: &Json,
    rename: &OrderedMap<String>,
    drop: &Vec<String>,
) -> (b: bool)
    ensures
        b == arrived(
            held.deep_view(),
            var@,
            value.deep_view(),
            rename.deep_view(),
            drop.deep_view(),
        ),
{
    let ghost h = held.deep_view();
    let ghost names = rename.deep_view();
    let ghost skip = drop.deep_view();
    let n: usize = held.len();
    let mut i: usize = 0;
    while i < n
        invariant
            h == held.deep_view(),
            names == rename.deep_view(),
            skip == drop.deep_view(),
            i <= n == h.len(),
            forall|u: int|
                0 <= u < i ==> !((#[trigger] h[u]).0 != var@ && !skip.contains(h[u].0) && renamed(
                    h[u].0,
                    names,
                ) == var@ && h[u].1 == value.deep_view()),
        decreases n - i,
    {
        let other = held.key_at(i);
        assert(h[i as int].0 == other@);
        let leads_here = match rename.get(other.as_str()) {
            Some(new) => same_text(new.as_str(), var),
            None => same_text(other.as_str(), var),
        };
        if leads_here && !same_text(other.as_str(), var) && !contains_text(drop, other.as_str())
            && same_value(held.value_at(i), value) {
            assert(arrived(h, var@, value.deep_view(), names, skip));
            return true;
        }
        i += 1;
    }
    false
}

/// Copies one module's stored values from `from = (author, name)` to
/// `to = (author, name)` within one scope.
///
/// - `rename` maps a source variable to a new name (absent = keep the name).
/// - `drop` names source variables to skip entirely.
/// - The source is left intact.
/// - Where the destination already holds a value for a target variable, that
///   variable is skipped, never overwritten.
///
/// Returns the source variables that landed nowhere: those in `drop`, and those
/// that were skipped. Running it twice is the same as running it once: the second
/// pass changes nothing. In place, a variable that has its value from another one
/// by the same renaming is skipped for that reason.
pub fn remap_module_config(
    authors: &mut AuthorsMap,
    from: (&str, &str),
    to: (&str, &str),
    rename: &OrderedMap<String>,
    drop: &Vec<String>,
) -> (r: Vec<String>)
    ensures
        (final(authors).deep_view(), r.deep_view()) == remapped(
            old(authors).deep_view(),
            from.deep_view(),
            to.deep_view(),
            rename.deep_view(),
            drop.deep_view(),
        ),
{
    let mut dropped: Vec<String> = Vec::new();
    assert(dropped.deep_view() =~= seq![]);
    let source = match copy_vars(authors, from.0, from.1) {
        Some(vars) => vars,
        None => {
            return dropped;
        },
    };
    let mut target = match copy_vars(authors, to.0, to.1) {
        Some(vars) => vars,
        None => OrderedMap::new(),
    };
    let in_place = same_text(from.0, to.0) && same_text(from.1, to.1);
    let ghost s = source.deep_view();
    let ghost start = target.deep_view();
    let ghost names = rename.deep_view();
    let ghost skip = drop.deep_view();
    let ghost held = held_by(s, from.deep_view(), to.deep_view());
    let n: usize = source.len();
    let mut i: usize = 0;
    assert(s.take(0).len() == 0);
    while i < n
        invariant
            s == source.deep_view(),
            names == rename.deep_view(),
            skip == drop.deep_view(),
            i <= n == s.len(),
            held == (if in_place {
                Some(s)
            } else {
                None
            }),
            all_copied(s.take(i as int), start, held, names, skip) == (Moved {
                target: target.deep_view(),
                dropped: dropped.deep_view(),
            }),
        decreases n - i,
    {
        let var = source.key_at(i);
        let value = source.value_at(i);
        let ghost before = dropped.deep_view();
        assert(s.take(i + 1).drop_last() =~= s.take(i as int));
        assert(s.take(i + 1).last() == s[i as int]);
        i += 1;
        if contains_text(drop, var.as_str()) {
            dropped.push(var.clone());
            assert(dropped.deep_view() =~= before.push(var@));
            continue ;
        }
        let dest = match rename.get(var.as_str()) {
            Some(new) => new.clone(),
            None => var.clone(),
        };
        if in_place && same_text(dest.as_str(), var.as_str()) {
            continue ;
        }
        if target.contains_key(dest.as_str()) || (in_place && has_arrived(
            &source,
            var.as_str(),
            value,
            rename,
            drop,
        )) {
            dropped.push(var.clone());
            assert(dropped.deep_view() =~= before.push(var@));
            continue ;
        }
        target.insert(dest, value.duplicate());
    }
    assert(s.take(n as int) =~= s);
    put_vars(authors, to.0, to.1, target);
    dropped
}

// ---- One scope -------------------------------------------------------------

/// What a fork or a rename does to the stored values.
pub struct RemapPlan {
    pub from: (String, String),
    pub to: (String, String),
    pub rename: OrderedMap<String>,
    pub drop: Vec<String>,
    /// Whether what was moved is taken out of the source.
    pub remove_source: bool,
}

/// A [`RemapPlan`] as contracts speak of it.
pub struct RemapPlanView {
    pub from: ModuleView,
    pub to: ModuleView,
    pub rename: Entries<Seq<char>>,
    pub drop: Seq<Seq<char>>,
    pub remove_source: bool,
}

impl DeepView for RemapPlan {
    type V = RemapPlanView;

    open spec fn deep_view(&self) -> RemapPlanView {
        RemapPlanView {
            from: self.from.deep_view(),
            to: self.to.deep_view(),
            rename: self.rename.deep_view(),
            drop: self.drop.deep_view(),
            remove_source: self.remove_source,
        }
    }
}

/// The plan that copies a module's values to its fork.
pub open spec fn fork_plan(parent: ModuleView, fork: ModuleView) -> RemapPlanView {
    RemapPlanView { from: parent, to: fork, rename: seq![], drop: seq![], remove_source: false }
}

/// The plan that moves a module's values to its new name.
pub open spec fn move_plan(
    from: ModuleView,
    to: ModuleView,
    rename: Entries<Seq<char>>,
) -> RemapPlanView {
    RemapPlanView { from, to, rename, drop: seq![], remove_source: true }
}

/// Fork: copies a parent module's stored values to the fork, keeping the
/// parent's. Nothing is renamed or dropped.
pub fn snapshot_config_to_fork(parent: (&str, &str), fork: (&str, &str)) -> (r: RemapPlan)
    ensures
        r.deep_view() == fork_plan(parent.deep_view(), fork.deep_view()),
{
    let drop: Vec<String> = Vec::new();
    assert(drop.deep_view() =~= seq![]);
    RemapPlan {
        from: (parent.0.to_owned(), parent.1.to_owned()),
        to: (fork.0.to_owned(), fork.1.to_owned()),
        rename: OrderedMap::new(),
        drop,
        remove_source: false,
    }
}

/// Rename: moves a module's stored values to a new identity and renames its
/// variables, taking them out of the source.
pub fn migrate_renamed_module(
    from: (&str, &str),
    to: (&str, &str),
    var_rename: &OrderedMap<String>,
) -> (r: RemapPlan)
    ensures
        r.deep_view() == move_plan(from.deep_view(), to.deep_view(), var_rename.deep_view()),
{
    let drop: Vec<String> = Vec::new();
    assert(drop.deep_view() =~= seq![]);
    RemapPlan {
        from: (from.0.to_owned(), from.1.to_owned()),
        to: (to.0.to_owned(), to.1.to_owned()),
        rename: var_rename.duplicate(),
        drop,
        remove_source: true,
    }
}

/// The variables of a module, in order.
pub open spec fn names_of(vars: VarsView) -> Seq<Seq<char>> {
    vars.map_values(|e: (Seq<char>, ValueView)| e.0)
}

/// A source variable leaves the source: it has reached its destination, or was
/// dropped on purpose. One that was skipped stays, and so does one that is renamed
/// to nothing else in place.
pub open spec fn leaves(var: Seq<char>, dropped: Seq<Seq<char>>, plan: RemapPlanView) -> bool {
    let clobbered = dropped.contains(var) && !plan.drop.contains(var);
    let stays = plan.from == plan.to && renamed(var, plan.rename) == var && !plan.drop.contains(
        var,
    );
    !clobbered && !stays
}

/// `vars` without those of `names` that leave.
pub open spec fn left_behind(
    vars: VarsView,
    names: Seq<Seq<char>>,
    dropped: Seq<Seq<char>>,
    plan: RemapPlanView,
) -> VarsView
    decreases names.len(),
{
    if names.len() == 0 {
        vars
    } else {
        let rest = left_behind(vars, names.drop_last(), dropped, plan);
        if leaves(names.last(), dropped, plan) {
            without(rest, names.last())
        } else {
            rest
        }
    }
}

/// The stored values of a scope after a plan, and the variables that landed
/// nowhere.
pub open spec fn scope_remapped(a: AuthorsView, plan: RemapPlanView) -> (
    AuthorsView,
    Seq<Seq<char>>,
) {
    let names = names_of(vars_or_none(a, plan.from.0, plan.from.1));
    let (b, dropped) = remapped(a, plan.from, plan.to, plan.rename, plan.drop);
    if plan.remove_source && names.len() > 0 {
        let vars = left_behind(
            vars_or_none(b, plan.from.0, plan.from.1),
            names,
            dropped,
            plan,
        );
        (
            pruned(
                with_vars(b, plan.from.0, plan.from.1, vars),
                plan.from.0,
                plan.from.1,
            ),
            dropped,
        )
    } else {
        (b, dropped)
    }
}

/// Applies a plan to one scope's stored values, and reports the variables that
/// landed nowhere.
pub fn remap_one_scope(authors: &mut AuthorsMap, plan: &RemapPlan) -> (r: Vec<String>)
    ensures
        (final(authors).deep_view(), r.deep_view()) == scope_remapped(
            old(authors).deep_view(),
            plan.deep_view(),
        ),
{
    let ghost a = authors.deep_view();
    let ghost p = plan.deep_view();
    let from = (plan.from.0.as_str(), plan.from.1.as_str());
    let to = (plan.to.0.as_str(), plan.to.1.as_str());
    let source = match copy_vars(authors, from.0, from.1) {
        Some(vars) => vars,
        None => OrderedMap::new(),
    };
    let dropped = remap_module_config(authors, from, to, &plan.rename, &plan.drop);
    if plan.remove_source && !source.is_empty() {
        let mut vars = match copy_vars(authors, from.0, from.1) {
            Some(v) => v,
            None => OrderedMap::new(),
        };
        let in_place = same_text(from.0, to.0) && same_text(from.1, to.1);
        let ghost s = source.deep_view();
        let ghost names = names_of(s);
        let ghost start = vars.deep_view();
        let ghost d = dropped.deep_view();
        let n: usize = source.len();
        let mut i: usize = 0;
        assert(names.take(0).len() == 0);
        while i < n
            invariant
                p == plan.deep_view(),
                d == dropped.deep_view(),
                s == source.deep_view(),
                names == names_of(s),
                in_place == (p.from == p.to),
                i <= n == s.len(),
                vars.deep_view() == left_behind(start, names.take(i as int), d, p),
            decreases n - i,
        {
            let v = source.key_at(i);
            assert(names.take(i + 1).drop_last() =~= names.take(i as int));
            assert(names.take(i + 1).last() == v@);
            i += 1;
            let listed = contains_text(&plan.drop, v.as_str());
            if contains_text(&dropped, v.as_str()) && !listed {
                continue ;
            }
            if in_place {
                let keeps_name = match plan.rename.get(v.as_str()) {
                    Some(new) => same_text(new.as_str(), v.as_str()),
                    None => true,
                };
                if keeps_name && !listed {
                    continue ;
                }
            }
            let _ = vars.shift_remove(v.as_str());
        }
        assert(names.take(n as int) =~= names);
        put_vars(authors, from.0, from.1, vars);
        prune(authors, from.0, from.1);
    }
    dropped
}

// ---- All scopes ------------------------------------------------------------

/// Where values are stored.
#[derive(Debug, PartialEq, Eq)]
pub enum Scope {
    Global,
    Profile(String),
    Game(String),
}

/// A [`Scope`] as contracts speak of it.
pub enum ScopeView {
    Global,
    Profile(Seq<char>),
    Game(Seq<char>),
}

impl DeepView for Scope {
    type V = ScopeView;

    open spec fn deep_view(&self) -> ScopeView {
        match self {
            Scope::Global => ScopeView::Global,
            Scope::Profile(name) => ScopeView::Profile(name@),
            Scope::Game(appid) => ScopeView::Game(appid@),
        }
    }
}

/// How a scope is called in a report.
pub open spec fn label_of(s: ScopeView) -> Seq<char> {
    match s {
        ScopeView::Global => "global"@,
        ScopeView::Profile(name) => "profile:"@ + name,
        ScopeView::Game(appid) => "game:"@ + appid,
    }
}

/// The file that a scope is stored in.
pub open spec fn file_of(base: Seq<char>, s: ScopeView) -> Seq<char> {
    match s {
        ScopeView::Global => path_joined(base, "global.json"@),
        ScopeView::Profile(name) => preset_path(base, name),
        ScopeView::Game(appid) => game_path(base, appid),
    }
}

impl Scope {
    /// The file that this scope is stored in.
    pub fn file(&self, paths: &Paths) -> (r: String)
        ensures
            r@ == file_of(paths.deep_view(), self.deep_view()),
    {
        match self {
            Scope::Global => paths.global_config(),
            Scope::Profile(name) => paths.preset(name.as_str()),
            Scope::Game(appid) => paths.game(appid.as_str()),
        }
    }

    /// How this scope is called in a report.
    pub fn label(&self) -> (r: String)
        ensures
            r@ == label_of(self.deep_view()),
    {
        match self {
            Scope::Global => "global".to_owned(),
            Scope::Profile(name) => {
                let mut r = "profile:".to_owned();
                r.append(name.as_str());
                r
            },
            Scope::Game(appid) => {
                let mut r = "game:".to_owned();
                r.append(appid.as_str());
                r
            },
        }
    }
}

/// Every scope in the order in which they are visited: the global one, then the
/// profiles, then the games.
pub open spec fn scopes(presets: Seq<Seq<char>>, games: Seq<Seq<char>>) -> Seq<ScopeView> {
    seq![ScopeView::Global] + presets.map_values(|n: Seq<char>| ScopeView::Profile(n))
        + games.map_values(|g: Seq<char>| ScopeView::Game(g))
}

/// Every scope in the order in which they are visited.
pub fn all_scopes(presets: &Vec<String>, games: &Vec<String>) -> (r: Vec<Scope>)
    ensures
        r.deep_view() == scopes(presets.deep_view(), games.deep_view()),
{
    let mut out: Vec<Scope> = Vec::new();
    out.push(Scope::Global);
    let ghost p = presets.deep_view();
    let ghost g = games.deep_view();
    let mut i: usize = 0;
    assert(out.deep_view() =~= scopes(p.take(0), seq![]));
    while i < presets.len()
        invariant
            p == presets.deep_view(),
            i <= presets@.len(),
            out.deep_view() == scopes(p.take(i as int), seq![]),
        decreases presets@.len() - i,
    {
        let ghost before = out.deep_view();
        let name = presets[i].clone();
        let ghost n = name@;
        out.push(Scope::Profile(name));
        assert(out.deep_view() =~= before.push(ScopeView::Profile(n)));
        i += 1;
        assert(out.deep_view() =~= scopes(p.take(i as int), seq![]));
    }
    assert(p.take(p.len() as int) =~= p);
    let mut j: usize = 0;
    assert(g.take(0) =~= seq![]);
    while j < games.len()
        invariant
            g == games.deep_view(),
            j <= games@.len(),
            out.deep_view() == scopes(p, g.take(j as int)),
        decreases games@.len() - j,
    {
        let ghost before = out.deep_view();
        let appid = games[j].clone();
        let ghost n = appid@;
        out.push(Scope::Game(appid));
        assert(out.deep_view() =~= before.push(ScopeView::Game(n)));
        j += 1;
        assert(out.deep_view() =~= scopes(p, g.take(j as int)));
    }
    assert(g.take(g.len() as int) =~= g);
    out
}

/// Two maps hold the same entries, in whatever order.
pub open spec fn same_entries<T>(
    a: Entries<T>,
    b: Entries<T>,
    same: spec_fn(T, T) -> bool,
) -> bool {
    &&& a.len() == b.len()
    &&& forall|i: int|
        0 <= i < a.len() ==> match value_of(b, (#[trigger] a[i]).0) {
            Some(v) => same(a[i].1, v),
            None => false,
        }
}

/// Two modules hold the same values.
pub open spec fn same_vars(a: VarsView, b: VarsView) -> bool {
    same_entries(a, b, |x: ValueView, y: ValueView| x == y)
}

/// Two authors hold the same modules.
pub open spec fn same_exts(a: ExtsView, b: ExtsView) -> bool {
    same_entries(a, b, |x: VarsView, y: VarsView| same_vars(x, y))
}

/// Two scopes hold the same values.
pub open spec fn same_authors(a: AuthorsView, b: AuthorsView) -> bool {
    same_entries(a, b, |x: ExtsView, y: ExtsView| same_exts(x, y))
}

fn equal_vars(a: &VarMap, b: &VarMap) -> (r: bool)
    ensures
        r == same_vars(a.deep_view(), b.deep_view()),
{
    let ghost x = a.deep_view();
    let ghost y = b.deep_view();
    let n: usize = a.len();
    if n != b.len() {
        return false;
    }
    let mut i: usize = 0;
    while i < n
        invariant
            x == a.deep_view(),
            y == b.deep_view(),
            i <= n == x.len(),
            forall|j: int|
                0 <= j < i ==> match value_of(y, (#[trigger] x[j]).0) {
                    Some(v) => x[j].1 == v,
                    None => false,
                },
        decreases n - i,
    {
        let same = match b.get(a.key_at(i).as_str()) {
            Some(v) => same_value(a.value_at(i), v),
            None => false,
        };
        if !same {
            assert(x[i as int].0 == x[i as int].0);
            return false;
        }
        i += 1;
    }
    true
}

fn equal_exts(a: &ExtMap, b: &ExtMap) -> (r: bool)
    ensures
        r == same_exts(a.deep_view(), b.deep_view()),
{
    let ghost x = a.deep_view();
    let ghost y = b.deep_view();
    let n: usize = a.len();
    if n != b.len() {
        return false;
    }
    let mut i: usize = 0;
    while i < n
        invariant
            x == a.deep_view(),
            y == b.deep_view(),
            i <= n == x.len(),
            forall|j: int|
                0 <= j < i ==> match value_of(y, (#[trigger] x[j]).0) {
                    Some(v) => same_vars(x[j].1, v),
                    None => false,
                },
        decreases n - i,
    {
        let same = match b.get(a.key_at(i).as_str()) {
            Some(v) => equal_vars(a.value_at(i), v),
            None => false,
        };
        if !same {
            assert(x[i as int].0 == x[i as int].0);
            return false;
        }
        i += 1;
    }
    true
}

fn equal_authors(a: &AuthorsMap, b: &AuthorsMap) -> (r: bool)
    ensures
        r == same_authors(a.deep_view(), b.deep_view()),
{
    let ghost x = a.deep_view();
    let ghost y = b.deep_view();
    let n: usize = a.len();
    if n != b.len() {
        return false;
    }
    let mut i: usize = 0;
    while i < n
        invariant
            x == a.deep_view(),
            y == b.deep_view(),
            i <= n == x.len(),
            forall|j: int|
                0 <= j < i ==> match value_of(y, (#[trigger] x[j]).0) {
                    Some(v) => same_exts(x[j].1, v),
                    None => false,
                },
        decreases n - i,
    {
        let same = match b.get(a.key_at(i).as_str()) {
            Some(v) => equal_exts(a.value_at(i), v),
            None => false,
        };
        if !same {
            assert(x[i as int].0 == x[i as int].0);
            return false;
        }
        i += 1;
    }
    true
}

/// What visiting a scope came to.
pub struct ScopeOutcome {
    /// The stored values changed, so the scope's file is to be written.
    pub changed: bool,
    /// The label of the scope and the variables that landed nowhere, where there
    /// are any.
    pub report: Option<(String, Vec<String>)>,
}

/// What is reported of a scope: the variables that landed nowhere, if there are
/// any.
pub open spec fn report_of(scope: ScopeView, dropped: Seq<Seq<char>>) -> Option<
    (Seq<char>, Seq<Seq<char>>),
> {
    if dropped.len() == 0 {
        None
    } else {
        Some((label_of(scope), dropped))
    }
}

/// Visits one scope: applies the plan to its stored values, and says whether
/// they changed and what landed nowhere.
pub fn visit_scope(scope: &Scope, authors: &mut AuthorsMap, plan: &RemapPlan) -> (r: ScopeOutcome)
    ensures
        final(authors).deep_view() == scope_remapped(
            old(authors).deep_view(),
            plan.deep_view(),
        ).0,
        r.changed == !same_authors(final(authors).deep_view(), old(authors).deep_view()),
        r.report.deep_view() == report_of(
            scope.deep_view(),
            scope_remapped(old(authors).deep_view(), plan.deep_view()).1,
        ),
{
    let before = authors.duplicate();
    let dropped = remap_one_scope(authors, plan);
    let changed = !equal_authors(authors, &before);
    let report = if dropped.len() == 0 {
        None
    } else {
        Some((scope.label(), dropped))
    };
    ScopeOutcome { changed, report }
}

/// A pass over every scope: which one is next, and what was reported so far.
pub struct Sweep {
    pub paths: Paths,
    pub plan: RemapPlan,
    pub scopes: Vec<Scope>,
    pub at: usize,
    pub reports: Vec<(String, Vec<String>)>,
}

/// A [`Sweep`] as contracts speak of it.
#[verifier::ext_equal]
pub struct SweepView {
    pub base: Seq<char>,
    pub plan: RemapPlanView,
    pub scopes: Seq<ScopeView>,
    pub at: int,
    pub reports: Seq<(Seq<char>, Seq<Seq<char>>)>,
}

impl DeepView for Sweep {
    type V = SweepView;

    open spec fn deep_view(&self) -> SweepView {
        SweepView {
            base: self.paths.deep_view(),
            plan: self.plan.deep_view(),
            scopes: self.scopes.deep_view(),
            at: self.at as int,
            reports: self.reports.deep_view(),
        }
    }
}

impl SweepView {
    /// What is reported of a scope with these stored values, where anything is.
    pub open spec fn report(self, scope: ScopeView, authors: Option<AuthorsView>) -> Option<
        (Seq<char>, Seq<Seq<char>>),
    > {
        match authors {
            Some(a) => {
                let dropped = scope_remapped(a, self.plan).1;
                if dropped.len() == 0 {
                    None
                } else {
                    Some((label_of(scope), dropped))
                }
            },
            None => None,
        }
    }

    /// The values that the next scope gets, where those it held change, and the file
    /// to write them to: the one that they come from.
    pub open spec fn rewritten(self, authors: Option<AuthorsView>) -> Option<
        (Seq<char>, AuthorsView),
    > {
        match authors {
            Some(a) => {
                let b = scope_remapped(a, self.plan).0;
                if same_authors(b, a) {
                    None
                } else {
                    Some((file_of(self.base, self.scopes[self.at]), b))
                }
            },
            None => None,
        }
    }

    /// The pass after the next scope, which held `authors`; nothing is done to a
    /// scope that is not there.
    pub open spec fn past(self, authors: Option<AuthorsView>) -> SweepView {
        SweepView {
            at: self.at + 1,
            reports: match self.report(self.scopes[self.at], authors) {
                Some(r) => self.reports.push(r),
                None => self.reports,
            },
            ..self
        }
    }

    /// The files after `n` scopes were visited and each was written where it changed:
    /// a file holds the values of a scope.
    pub open spec fn written(self, files: Map<Seq<char>, AuthorsView>, n: int) -> Map<
        Seq<char>,
        AuthorsView,
    >
        decreases n,
    {
        if n <= 0 {
            files
        } else {
            let before = self.written(files, n - 1);
            let file = file_of(self.base, self.scopes[n - 1]);
            let found = if before.contains_key(file) {
                Some(before[file])
            } else {
                None
            };
            match (SweepView { at: n - 1, ..self }).rewritten(found) {
                Some((to, values)) => before.insert(to, values),
                None => before,
            }
        }
    }

    /// The pass after as many scopes as there are `found`.
    pub open spec fn swept(self, found: Seq<Option<AuthorsView>>) -> SweepView
        decreases found.len(),
    {
        if found.len() == 0 {
            self
        } else {
            self.swept(found.drop_last()).past(found.last())
        }
    }
}

/// A pass as it begins.
pub open spec fn sweep_begun(
    base: Seq<char>,
    plan: RemapPlanView,
    presets: Seq<Seq<char>>,
    games: Seq<Seq<char>>,
) -> SweepView {
    SweepView { base, plan, scopes: scopes(presets, games), at: 0, reports: seq![] }
}

impl Sweep {
    /// A pass over the global scope, the profiles and the games.
    pub fn start(
        paths: Paths,
        plan: RemapPlan,
        presets: &Vec<String>,
        games: &Vec<String>,
    ) -> (r: Self)
        ensures
            r.deep_view() == sweep_begun(
                paths.deep_view(),
                plan.deep_view(),
                presets.deep_view(),
                games.deep_view(),
            ),
    {
        let reports: Vec<(String, Vec<String>)> = Vec::new();
        assert(reports.deep_view() =~= seq![]);
        Sweep { paths, plan, scopes: all_scopes(presets, games), at: 0, reports }
    }

    /// The scope to load next.
    pub fn next_scope(&self) -> (r: Option<&Scope>)
        ensures
            r.deep_view() == if self.deep_view().at < self.deep_view().scopes.len() {
                Some(self.deep_view().scopes[self.deep_view().at])
            } else {
                None
            },
    {
        if self.at < self.scopes.len() {
            Some(&self.scopes[self.at])
        } else {
            None
        }
    }

    /// Takes the stored values of the next scope, where there are any. Gives them
    /// back where they changed and are to be written, with the file to write to.
    pub fn take(&mut self, authors: Option<AuthorsMap>) -> (r: Option<(String, AuthorsMap)>)
        requires
            old(self).at < old(self).scopes@.len(),
        ensures
            final(self).deep_view() == old(self).deep_view().past(authors.deep_view()),
            r.deep_view() == old(self).deep_view().rewritten(authors.deep_view()),
    {
        let ghost before = self.deep_view();
        let ghost given = authors.deep_view();
        let at = self.at;
        let n: usize = self.scopes.len();
        assert(at < n);
        self.at = at + 1;
        let mut map = match authors {
            Some(map) => map,
            None => {
                assert(self.deep_view() =~= before.past(given));
                return None;
            },
        };
        let out = visit_scope(&self.scopes[at], &mut map, &self.plan);
        match out.report {
            Some(r) => {
                let ghost reports = self.reports.deep_view();
                let ghost report = r.deep_view();
                self.reports.push(r);
                assert(self.reports.deep_view() =~= reports.push(report));
            },
            None => {},
        }
        assert(self.deep_view() =~= before.past(given));
        if out.changed {
            Some((self.scopes[at].file(&self.paths), map))
        } else {
            None
        }
    }
}

// ---- Laws ------------------------------------------------------------------

/// The name of a scope's file is a name, and leads to no other directory.
pub open spec fn plainly_named(s: ScopeView) -> bool {
    match s {
        ScopeView::Global => true,
        ScopeView::Profile(name) => !begins(name, "/"@),
        ScopeView::Game(appid) => !begins(appid, "/"@),
    }
}

/// Each scope has a file of its own, so that writing one leaves the others alone.
pub proof fn law_scopes_have_their_own_files(base: Seq<char>, a: ScopeView, b: ScopeView)
    requires
        plainly_named(a),
        plainly_named(b),
        file_of(base, a) == file_of(base, b),
    ensures
        a == b,
{
    let front = path_front(base);
    let n = front.len() as int;
    lemma_file_of(base, a);
    lemma_file_of(base, b);
    let fa = below_base(a);
    let fb = below_base(b);
    assert((front + fa).skip(n) =~= fa);
    assert((front + fb).skip(n) =~= fb);
    assert(fa == fb);
    reveal_strlit("global.json");
    reveal_strlit("profiles/");
    reveal_strlit("games/");
    reveal_strlit(".json");
    match (a, b) {
        (ScopeView::Profile(x), ScopeView::Profile(y)) => {
            assert(fa.subrange(9, fa.len() - 5) =~= x);
            assert(fb.subrange(9, fb.len() - 5) =~= y);
        },
        (ScopeView::Game(x), ScopeView::Game(y)) => {
            assert(fa.subrange(6, fa.len() - 5) =~= x);
            assert(fb.subrange(6, fb.len() - 5) =~= y);
        },
        (ScopeView::Global, ScopeView::Global) => {},
        _ => {
            assert(fa[0] == fb[0] && fa[1] == fb[1]);
        },
    }
}

/// A pass rewrites the files in place: each file of a scope gets what the plan makes
/// of its values, or stays where they do not change, and no other file is touched.
pub proof fn law_sweep_writes_in_place(
    s: SweepView,
    files: Map<Seq<char>, AuthorsView>,
    n: int,
    path: Seq<char>,
)
    requires
        0 <= n <= s.scopes.len(),
        forall|i: int| 0 <= i < s.scopes.len() ==> plainly_named(#[trigger] s.scopes[i]),
        forall|i: int, j: int|
            0 <= i < j < s.scopes.len() ==> #[trigger] s.scopes[i] != #[trigger] s.scopes[j],
    ensures
        s.written(files, n).contains_key(path) == files.contains_key(path),
        (forall|i: int| 0 <= i < n ==> file_of(s.base, #[trigger] s.scopes[i]) != path) ==> (
        files.contains_key(path) ==> s.written(files, n)[path] == files[path]),
        forall|i: int|
            0 <= i < n && file_of(s.base, #[trigger] s.scopes[i]) == path && files.contains_key(path)
                ==> ({
                let made = scope_remapped(files[path], s.plan).0;
                s.written(files, n)[path] == if same_authors(made, files[path]) {
                    files[path]
                } else {
                    made
                }
            }),
    decreases n,
{
    if n > 0 {
        law_sweep_writes_in_place(s, files, n - 1, path);
        let last = s.scopes[n - 1];
        let file = file_of(s.base, last);
        if file != path {
            assert(s.written(files, n).contains_key(path) == s.written(files, n - 1).contains_key(
                path,
            ));
        } else {
            assert forall|i: int| 0 <= i < n - 1 implies file_of(s.base, #[trigger] s.scopes[i])
                != path by {
                if file_of(s.base, s.scopes[i]) == path {
                    law_scopes_have_their_own_files(s.base, s.scopes[i], s.scopes[n - 1]);
                }
            }
        }
    }
}

spec fn path_front(dir: Seq<char>) -> Seq<char> {
    if dir.len() == 0 || dir.last() == '/' {
        dir
    } else {
        dir + "/"@
    }
}

spec fn below_base(s: ScopeView) -> Seq<char> {
    match s {
        ScopeView::Global => "global.json"@,
        ScopeView::Profile(name) => "profiles/"@ + (name + ".json"@),
        ScopeView::Game(appid) => "games/"@ + (appid + ".json"@),
    }
}

proof fn lemma_json_name_is_plain(name: Seq<char>)
    requires
        !begins(name, "/"@),
    ensures
        !begins(name + ".json"@, "/"@),
{
    reveal_strlit("/");
    reveal_strlit(".json");
    let file = name + ".json"@;
    if begins(file, "/"@) {
        assert(file.take(1)[0] == '/');
        if name.len() > 0 {
            assert(name[0] == file[0]);
            assert(name.take(1) =~= "/"@);
        }
    }
}

proof fn lemma_file_of(base: Seq<char>, s: ScopeView)
    requires
        plainly_named(s),
    ensures
        file_of(base, s) == path_front(base) + below_base(s),
{
    reveal_strlit("/");
    reveal_strlit("global.json");
    reveal_strlit("profiles");
    reveal_strlit("games");
    reveal_strlit("profiles/");
    reveal_strlit("games/");
    assert("global.json"@.take(1)[0] != '/');
    assert("profiles"@.take(1)[0] != '/');
    assert("games"@.take(1)[0] != '/');
    match s {
        ScopeView::Global => {
            assert(file_of(base, s) =~= path_front(base) + below_base(s));
        },
        ScopeView::Profile(name) => {
            lemma_json_name_is_plain(name);
            let dir = path_joined(base, "profiles"@);
            assert(dir =~= path_front(base) + "profiles"@);
            assert(dir.last() == 's');
            assert(file_of(base, s) =~= path_front(base) + below_base(s));
        },
        ScopeView::Game(appid) => {
            lemma_json_name_is_plain(appid);
            let dir = path_joined(base, "games"@);
            assert(dir =~= path_front(base) + "games"@);
            assert(dir.last() == 's');
            assert(file_of(base, s) =~= path_front(base) + below_base(s));
        },
    }
}

/// A pass visits every scope once, in order, under one plan, and reports just the
/// scopes in which a variable landed nowhere.
pub proof fn law_sweep_reports_each_scope(
    start: SweepView,
    found: Seq<Option<AuthorsView>>,
    r: (Seq<char>, Seq<Seq<char>>),
)
    requires
        start.at == 0,
        start.reports.len() == 0,
        found.len() <= start.scopes.len(),
    ensures
        start.swept(found).at == found.len(),
        start.swept(found).base == start.base,
        start.swept(found).plan == start.plan,
        start.swept(found).scopes == start.scopes,
        start.swept(found).reports.contains(r) <==> exists|i: int|
            0 <= i < found.len() && start.report(#[trigger] start.scopes[i], found[i]) == Some(r),
    decreases found.len(),
{
    if found.len() == 0 {
        assert(!start.reports.contains(r));
    } else {
        let n = found.len() - 1;
        let rest = found.drop_last();
        law_sweep_reports_each_scope(start, rest, r);
        let before = start.swept(rest);
        let after = start.swept(found);
        let told = start.report(start.scopes[n], found[n]);
        if told is Some {
            assert(after.reports == before.reports.push(told->0));
            assert(after.reports[before.reports.len() as int] == told->0);
            assert forall|x: (Seq<char>, Seq<Seq<char>>)|
                before.reports.contains(x) implies after.reports.contains(x) by {
                let k = choose|k: int| 0 <= k < before.reports.len() && before.reports[k] == x;
                assert(after.reports[k] == x);
            }
        }
        if after.reports.contains(r) && !before.reports.contains(r) {
            assert(start.report(start.scopes[n], found[n]) == Some(r));
        }
        if before.reports.contains(r) {
            let i = choose|i: int|
                0 <= i < rest.len() && start.report(#[trigger] start.scopes[i], rest[i]) == Some(r);
            assert(found[i] == rest[i]);
            assert(start.report(start.scopes[i], found[i]) == Some(r));
        }
        if exists|i: int|
            0 <= i < found.len() && start.report(#[trigger] start.scopes[i], found[i]) == Some(
                r,
            ) {
            let i = choose|i: int|
                0 <= i < found.len() && start.report(#[trigger] start.scopes[i], found[i]) == Some(
                    r,
                );
            if i < n {
                assert(rest[i] == found[i]);
                assert(start.report(start.scopes[i], rest[i]) == Some(r));
            }
        }
    }
}

/// Copying keeps every value of the target, and no name comes in twice.
proof fn lemma_copy_keeps(
    source: VarsView,
    target: VarsView,
    held: Option<VarsView>,
    rename: Entries<Seq<char>>,
    drop: Seq<Seq<char>>,
    name: Seq<char>,
)
    requires
        distinct(target),
    ensures
        distinct(all_copied(source, target, held, rename, drop).target),
        has_key(target, name) ==> has_key(
            all_copied(source, target, held, rename, drop).target,
            name,
        ) && value_of(all_copied(source, target, held, rename, drop).target, name) == value_of(
            target,
            name,
        ),
    decreases source.len(),
{
    if source.len() > 0 {
        let m = all_copied(source.drop_last(), target, held, rename, drop);
        lemma_copy_keeps(source.drop_last(), target, held, rename, drop, name);
        let dest = renamed(source.last().0, rename);
        law_put(m.target, dest, source.last().1, name);
    }
}

/// Where a value went: it was dropped, stays in place, or is at its destination.
/// One that landed nowhere was to be dropped, or its destination is taken.
proof fn lemma_lands(
    source: VarsView,
    target: VarsView,
    held: Option<VarsView>,
    rename: Entries<Seq<char>>,
    drop: Seq<Seq<char>>,
    i: int,
)
    requires
        distinct(target),
        distinct(source),
        0 <= i < source.len(),
    ensures
        ({
            let m = all_copied(source, target, held, rename, drop);
            let var = source[i].0;
            let dest = renamed(var, rename);
            let came = held is Some && arrived(held->0, var, source[i].1, rename, drop);
            &&& m.dropped.contains(var) || (held is Some && dest == var) || value_of(
                m.target,
                dest,
            ) == Some(source[i].1)
            &&& m.dropped.contains(var) && !drop.contains(var) ==> has_key(m.target, dest) || came
            &&& drop.contains(var) || (held is Some && dest == var) || has_key(m.target, dest)
                || came
        }),
    decreases source.len(),
{
    let init = source.drop_last();
    let n = source.len() - 1;
    let m0 = all_copied(init, target, held, rename, drop);
    let m = all_copied(source, target, held, rename, drop);
    let last = source.last().0;
    let dest_last = renamed(last, rename);
    let var = source[i].0;
    let dest = renamed(var, rename);
    lemma_distinct_init(source);
    lemma_copy_keeps(init, target, held, rename, drop, dest);
    if i < n {
        lemma_lands(init, target, held, rename, drop, i);
        assert(init[i] == source[i]);
        law_put(m0.target, dest_last, source.last().1, dest);
        assert(var != last) by {
            assert(source[i].0 != source[n].0);
        }
        if m.dropped.contains(var) {
            let k = choose|k: int| 0 <= k < m.dropped.len() && m.dropped[k] == var;
            assert(k < m0.dropped.len());
            assert(m0.dropped[k] == var);
        }
        if m0.dropped.contains(var) {
            let k = choose|k: int| 0 <= k < m0.dropped.len() && m0.dropped[k] == var;
            assert(m.dropped[k] == var);
        }
    } else {
        law_put(m0.target, dest_last, source.last().1, dest_last);
        lemma_dropped_names(init, target, held, rename, drop);
        if m0.dropped.contains(var) {
            let k = choose|k: int| 0 <= k < m0.dropped.len() && m0.dropped[k] == var;
            let j = choose|j: int| 0 <= j < init.len() && (#[trigger] init[j]).0 == m0.dropped[k];
            assert(source[j].0 != source[n].0);
        }
        let came = held is Some && arrived(held->0, var, source[i].1, rename, drop);
        if drop.contains(var) || (!(held is Some && dest == var) && (has_key(m0.target, dest)
            || came)) {
            assert(m.dropped[m0.dropped.len() as int] == var);
            assert(m.dropped.contains(var));
        }
    }
}

proof fn lemma_distinct_init<T>(s: Entries<T>)
    requires
        distinct(s),
        s.len() > 0,
    ensures
        distinct(s.drop_last()),
{
    assert forall|i: int, j: int| 0 <= i < j < s.drop_last().len() implies (
    #[trigger] s.drop_last()[i]).0 != (#[trigger] s.drop_last()[j]).0 by {
        assert(s[i].0 != s[j].0);
    }
}

/// What landed nowhere was in the source.
proof fn lemma_dropped_names(
    source: VarsView,
    target: VarsView,
    held: Option<VarsView>,
    rename: Entries<Seq<char>>,
    drop: Seq<Seq<char>>,
)
    ensures
        forall|k: int|
            0 <= k < all_copied(source, target, held, rename, drop).dropped.len() ==> exists|
                j: int,
            |
                0 <= j < source.len() && (#[trigger] source[j]).0 == (#[trigger] all_copied(
                    source,
                    target,
                    held,
                    rename,
                    drop,
                ).dropped[k]),
    decreases source.len(),
{
    if source.len() > 0 {
        let init = source.drop_last();
        lemma_dropped_names(init, target, held, rename, drop);
        let m0 = all_copied(init, target, held, rename, drop);
        let m = all_copied(source, target, held, rename, drop);
        assert forall|k: int| 0 <= k < m.dropped.len() implies exists|j: int|
            0 <= j < source.len() && (#[trigger] source[j]).0 == (#[trigger] m.dropped[k]) by {
            if k < m0.dropped.len() {
                assert(m.dropped[k] == m0.dropped[k]);
                let j = choose|j: int| 0 <= j < init.len() && (#[trigger] init[j]).0 == m0.dropped[k];
                assert(source[j].0 == m.dropped[k]);
            } else {
                assert(source[source.len() - 1].0 == m.dropped[k]);
            }
        }
    }
}

/// Copying a module never overwrites or removes a stored value, and touches no
/// module but the destination: the source is left intact.
pub proof fn law_remap_is_copy_only(
    a: AuthorsView,
    from: ModuleView,
    to: ModuleView,
    rename: Entries<Seq<char>>,
    drop: Seq<Seq<char>>,
    author: Seq<char>,
    ext: Seq<char>,
    var: Seq<char>,
)
    requires
        valid(a),
    ensures
        valid(remapped(a, from, to, rename, drop).0),
        stored(a, author, ext, var) is Some ==> stored(
            remapped(a, from, to, rename, drop).0,
            author,
            ext,
            var,
        ) == stored(a, author, ext, var),
        (author, ext) != to ==> vars_at(remapped(a, from, to, rename, drop).0, author, ext)
            == vars_at(a, author, ext),
{
    if let Some(source) = vars_at(a, from.0, from.1) {
        let target = vars_or_none(a, to.0, to.1);
        let m = all_copied(source, target, held_by(source, from, to), rename, drop);
        lemma_valid_parts(a, to.0, to.1);
        lemma_copy_keeps(source, target, held_by(source, from, to), rename, drop, var);
        law_with_vars(a, to.0, to.1, m.target, author, ext);
    }
}

/// Every value of the source that is not to be dropped is at its destination
/// afterwards, unless the destination was taken (or is where it already is), or the
/// value came from another variable by the same renaming; and only such values are
/// reported.
pub proof fn law_remap_reports_what_did_not_land(
    a: AuthorsView,
    from: ModuleView,
    to: ModuleView,
    rename: Entries<Seq<char>>,
    drop: Seq<Seq<char>>,
    i: int,
)
    requires
        valid(a),
        0 <= i < vars_or_none(a, from.0, from.1).len(),
    ensures
        ({
            let (var, value) = vars_or_none(a, from.0, from.1)[i];
            let dest = renamed(var, rename);
            let (b, dropped) = remapped(a, from, to, rename, drop);
            &&& dropped.contains(var) || stored(b, to.0, to.1, dest) == Some(value)
            &&& dropped.contains(var) && !drop.contains(var) ==> stored(b, to.0, to.1, dest) is Some
                || (from == to && arrived(
                vars_or_none(a, from.0, from.1),
                var,
                value,
                rename,
                drop,
            ))
        }),
{
    let source = vars_or_none(a, from.0, from.1);
    let target = vars_or_none(a, to.0, to.1);
    lemma_valid_parts(a, from.0, from.1);
    lemma_valid_parts(a, to.0, to.1);
    assert(vars_at(a, from.0, from.1) == Some(source));
    lemma_lands(source, target, held_by(source, from, to), rename, drop, i);
    let m = all_copied(source, target, held_by(source, from, to), rename, drop);
    let var = source[i].0;
    lemma_copy_keeps(source, target, held_by(source, from, to), rename, drop, var);
    law_with_vars(a, to.0, to.1, m.target, to.0, to.1);
    lemma_found(source, i);
}

/// A variable is not copied: it is to be dropped, stays in place, has its destination
/// taken, or its value from another.
spec fn skipped(
    e: (Seq<char>, ValueView),
    target: VarsView,
    held: Option<VarsView>,
    rename: Entries<Seq<char>>,
    drop: Seq<Seq<char>>,
) -> bool {
    ||| drop.contains(e.0)
    ||| held is Some && renamed(e.0, rename) == e.0
    ||| has_key(target, renamed(e.0, rename))
    ||| held is Some && arrived(held->0, e.0, e.1, rename, drop)
}

/// Nothing more to copy.
spec fn settled(
    source: VarsView,
    target: VarsView,
    held: Option<VarsView>,
    rename: Entries<Seq<char>>,
    drop: Seq<Seq<char>>,
) -> bool {
    forall|i: int|
        0 <= i < source.len() ==> skipped(#[trigger] source[i], target, held, rename, drop)
}

proof fn lemma_settled(
    source: VarsView,
    target: VarsView,
    held: Option<VarsView>,
    rename: Entries<Seq<char>>,
    drop: Seq<Seq<char>>,
)
    requires
        settled(source, target, held, rename, drop),
    ensures
        all_copied(source, target, held, rename, drop).target == target,
        held is None ==> all_copied(source, target, held, rename, drop).dropped == names_of(source),
    decreases source.len(),
{
    if source.len() > 0 {
        let init = source.drop_last();
        assert forall|i: int| 0 <= i < init.len() implies skipped(
            #[trigger] init[i],
            target,
            held,
            rename,
            drop,
        ) by {
            assert(init[i] == source[i]);
        }
        lemma_settled(init, target, held, rename, drop);
        assert(skipped(source[source.len() - 1], target, held, rename, drop));
        assert(names_of(source) =~= names_of(init).push(source.last().0));
    } else {
        assert(names_of(source) =~= seq![]);
    }
}

/// In place, what the target holds it held before, or has from a variable that was
/// copied.
proof fn lemma_origin(
    source: VarsView,
    target: VarsView,
    held: Option<VarsView>,
    rename: Entries<Seq<char>>,
    drop: Seq<Seq<char>>,
    k: int,
)
    requires
        held is Some,
        0 <= k < all_copied(source, target, held, rename, drop).target.len(),
    ensures
        ({
            let e = all_copied(source, target, held, rename, drop).target[k];
            (k < target.len() && e == target[k]) || arrived(source, e.0, e.1, rename, drop)
        }),
    decreases source.len(),
{
    if source.len() > 0 {
        let init = source.drop_last();
        let m0 = all_copied(init, target, held, rename, drop);
        let m = all_copied(source, target, held, rename, drop);
        let e = m.target[k];
        if k < m0.target.len() && e == m0.target[k] {
            lemma_origin(init, target, held, rename, drop, k);
            if arrived(init, e.0, e.1, rename, drop) {
                let u = choose|u: int|
                    0 <= u < init.len() && (#[trigger] init[u]).0 != e.0 && !drop.contains(init[u].0)
                        && renamed(init[u].0, rename) == e.0 && init[u].1 == e.1;
                assert(source[u] == init[u]);
            }
        } else {
            assert(e == (renamed(source.last().0, rename), source.last().1));
            assert(source[source.len() - 1] == source.last());
        }
    }
}

/// A value that came from another variable still does once more values have come.
proof fn lemma_still_arrived(
    held: VarsView,
    more: VarsView,
    var: Seq<char>,
    value: ValueView,
    rename: Entries<Seq<char>>,
    drop: Seq<Seq<char>>,
)
    requires
        distinct(held),
        arrived(held, var, value, rename, drop),
        forall|u: int|
            0 <= u < held.len() ==> value_of(more, (#[trigger] held[u]).0) == Some(held[u].1),
    ensures
        arrived(more, var, value, rename, drop),
{
    let u = choose|u: int|
        0 <= u < held.len() && (#[trigger] held[u]).0 != var && !drop.contains(held[u].0) && renamed(
            held[u].0,
            rename,
        ) == var && held[u].1 == value;
    assert(value_of(more, held[u].0) == Some(held[u].1));
    let j = crate::ordered::key_index(more, held[u].0);
    assert(0 <= j < more.len() && more[j].0 == held[u].0);
    assert(more[j].1 == value);
}

/// Copying twice is copying once, whatever is renamed: the second pass changes
/// nothing. Between two modules it finds every destination taken, and reports every
/// variable as landed nowhere.
pub proof fn law_remap_is_idempotent(
    a: AuthorsView,
    from: ModuleView,
    to: ModuleView,
    rename: Entries<Seq<char>>,
    drop: Seq<Seq<char>>,
)
    requires
        valid(a),
    ensures
        ({
            let b = remapped(a, from, to, rename, drop).0;
            let (c, dropped) = remapped(b, from, to, rename, drop);
            &&& c == b
            &&& from != to ==> dropped == names_of(vars_or_none(a, from.0, from.1))
        }),
{
    if let Some(source) = vars_at(a, from.0, from.1) {
        let held = held_by(source, from, to);
        let target = vars_or_none(a, to.0, to.1);
        let m = all_copied(source, target, held, rename, drop);
        let b = remapped(a, from, to, rename, drop).0;
        lemma_valid_parts(a, from.0, from.1);
        lemma_valid_parts(a, to.0, to.1);
        lemma_copy_keeps(source, target, held, rename, drop, seq![]);
        law_with_vars(a, to.0, to.1, m.target, to.0, to.1);
        law_with_vars(a, to.0, to.1, m.target, from.0, from.1);
        let source2 = vars_or_none(b, from.0, from.1);
        let held2 = held_by(source2, from, to);
        assert(settled(source2, m.target, held2, rename, drop)) by {
            assert forall|i: int| 0 <= i < source2.len() implies skipped(
                #[trigger] source2[i],
                m.target,
                held2,
                rename,
                drop,
            ) by {
                if from == to {
                    assert(source == target && source2 == m.target);
                    assert forall|u: int| 0 <= u < source.len() implies value_of(
                        m.target,
                        (#[trigger] source[u]).0,
                    ) == Some(source[u].1) by {
                        lemma_found(source, u);
                        lemma_copy_keeps(source, target, held, rename, drop, source[u].0);
                    }
                    let e = source2[i];
                    lemma_origin(source, target, held, rename, drop, i);
                    if arrived(source, e.0, e.1, rename, drop) {
                        lemma_still_arrived(source, m.target, e.0, e.1, rename, drop);
                    } else {
                        lemma_lands(source, target, held, rename, drop, i);
                    }
                } else {
                    lemma_lands(source, target, held, rename, drop, i);
                }
            }
        }
        lemma_settled(source2, m.target, held2, rename, drop);
        lemma_with_same(b, to.0, to.1);
    } else {
        assert(names_of(vars_or_none(a, from.0, from.1)) =~= seq![]);
    }
}

proof fn lemma_with_same(a: AuthorsView, author: Seq<char>, ext: Seq<char>)
    requires
        valid(a),
        vars_at(a, author, ext) is Some,
    ensures
        with_vars(a, author, ext, vars_or_none(a, author, ext)) == a,
{
    lemma_valid_parts(a, author, ext);
    let exts = crate::config::exts_or_none(a, author);
    crate::ordered::lemma_put_same(exts, ext);
    crate::ordered::lemma_put_same(a, author);
}

proof fn lemma_left_behind(
    vars: VarsView,
    names: Seq<Seq<char>>,
    dropped: Seq<Seq<char>>,
    plan: RemapPlanView,
    name: Seq<char>,
)
    requires
        distinct(vars),
    ensures
        distinct(left_behind(vars, names, dropped, plan)),
        value_of(left_behind(vars, names, dropped, plan), name) == if names.contains(name)
            && leaves(name, dropped, plan) {
            None
        } else {
            value_of(vars, name)
        },
    decreases names.len(),
{
    if names.len() > 0 {
        let init = names.drop_last();
        lemma_left_behind(vars, init, dropped, plan, name);
        let rest = left_behind(vars, init, dropped, plan);
        law_without(rest, names.last(), name);
        assert(names.contains(name) <==> init.contains(name) || name == names.last()) by {
            if init.contains(name) {
                let k = choose|k: int| 0 <= k < init.len() && init[k] == name;
                assert(names[k] == name);
            }
            if names.contains(name) && name != names.last() {
                let k = choose|k: int| 0 <= k < names.len() && names[k] == name;
                assert(init[k] == name);
            }
            if name == names.last() {
                assert(names[names.len() - 1] == name);
            }
        }
    }
}

/// A move loses nothing: every value of the source that was not to be dropped is
/// at its destination afterwards, or still where it was.
pub proof fn law_move_loses_nothing(a: AuthorsView, plan: RemapPlanView, i: int)
    requires
        valid(a),
        0 <= i < vars_or_none(a, plan.from.0, plan.from.1).len(),
        !plan.drop.contains(vars_or_none(a, plan.from.0, plan.from.1)[i].0),
    ensures
        ({
            let (var, value) = vars_or_none(a, plan.from.0, plan.from.1)[i];
            let b = scope_remapped(a, plan).0;
            ||| stored(b, plan.to.0, plan.to.1, renamed(var, plan.rename)) == Some(value)
            ||| stored(b, plan.from.0, plan.from.1, var) == Some(value)
        }),
{
    let from = plan.from;
    let to = plan.to;
    let source = vars_or_none(a, from.0, from.1);
    let target = vars_or_none(a, to.0, to.1);
    let (var, value) = source[i];
    let dest = renamed(var, plan.rename);
    let names = names_of(source);
    let (b, dropped) = remapped(a, from, to, plan.rename, plan.drop);
    let m = all_copied(source, target, held_by(source, from, to), plan.rename, plan.drop);
    lemma_valid_parts(a, from.0, from.1);
    lemma_valid_parts(a, to.0, to.1);
    lemma_found(source, i);
    law_remap_is_copy_only(a, from, to, plan.rename, plan.drop, from.0, from.1, var);
    lemma_lands(source, target, held_by(source, from, to), plan.rename, plan.drop, i);
    lemma_copy_keeps(source, target, held_by(source, from, to), plan.rename, plan.drop, var);
    law_with_vars(a, to.0, to.1, m.target, to.0, to.1);
    lemma_stored(b, from.0, from.1, var);
    lemma_stored(b, to.0, to.1, dest);
    if plan.remove_source {
        lemma_valid_parts(b, from.0, from.1);
        let left = left_behind(vars_or_none(b, from.0, from.1), names, dropped, plan);
        lemma_left_behind(vars_or_none(b, from.0, from.1), names, dropped, plan, var);
        lemma_left_behind(vars_or_none(b, from.0, from.1), names, dropped, plan, dest);
        let c = with_vars(b, from.0, from.1, left);
        law_with_vars(b, from.0, from.1, left, from.0, from.1);
        law_with_vars(b, from.0, from.1, left, to.0, to.1);
        law_pruned(c, from.0, from.1, from.0, from.1);
        law_pruned(c, from.0, from.1, to.0, to.1);
        let d = pruned(c, from.0, from.1);
        lemma_stored(d, from.0, from.1, var);
        lemma_stored(d, to.0, to.1, dest);
        if from == to && !dropped.contains(var) && dest != var {
            lemma_fresh(source, target, plan.rename, plan.drop, i);
        }
    }
}

/// In place, a value is copied to a name that the source does not hold.
proof fn lemma_fresh(
    source: VarsView,
    target: VarsView,
    rename: Entries<Seq<char>>,
    drop: Seq<Seq<char>>,
    i: int,
)
    requires
        distinct(source),
        source == target,
        0 <= i < source.len(),
        !all_copied(source, target, Some(source), rename, drop).dropped.contains(source[i].0),
        renamed(source[i].0, rename) != source[i].0,
    ensures
        !names_of(source).contains(renamed(source[i].0, rename)),
{
    let var = source[i].0;
    let dest = renamed(var, rename);
    let names = names_of(source);
    if names.contains(dest) {
        let k = choose|k: int| 0 <= k < names.len() && names[k] == dest;
        assert(source[k].0 == dest);
        assert(has_key(target, dest));
        lemma_taken(source, target, source, rename, drop, i, source.len() as int);
        assert(source.take(source.len() as int) =~= source);
    }
}

proof fn lemma_taken(
    source: VarsView,
    target: VarsView,
    held: VarsView,
    rename: Entries<Seq<char>>,
    drop: Seq<Seq<char>>,
    i: int,
    n: int,
)
    requires
        distinct(target),
        0 <= i < n <= source.len(),
        has_key(target, renamed(source[i].0, rename)),
        renamed(source[i].0, rename) != source[i].0,
    ensures
        all_copied(source.take(n), target, Some(held), rename, drop).dropped.contains(source[i].0),
    decreases n,
{
    let s = source.take(n);
    let init = source.take(n - 1);
    assert(s.drop_last() =~= init);
    assert(s.last() == source[n - 1]);
    let m0 = all_copied(init, target, Some(held), rename, drop);
    let m = all_copied(s, target, Some(held), rename, drop);
    lemma_copy_keeps(init, target, Some(held), rename, drop, renamed(source[i].0, rename));
    if i < n - 1 {
        lemma_taken(source, target, held, rename, drop, i, n - 1);
        let k = choose|k: int| 0 <= k < m0.dropped.len() && m0.dropped[k] == source[i].0;
        assert(m.dropped[k] == source[i].0);
    } else {
        assert(m.dropped[m0.dropped.len() as int] == source[i].0);
    }
}

/// A fork keeps its parent's values, and holds each of them itself unless it
/// already had a value of its own.
pub proof fn law_fork_keeps_parent(
    a: AuthorsView,
    parent: ModuleView,
    fork: ModuleView,
    i: int,
)
    requires
        valid(a),
        parent != fork,
        0 <= i < vars_or_none(a, parent.0, parent.1).len(),
    ensures
        ({
            let plan = RemapPlanView {
                from: parent,
                to: fork,
                rename: seq![],
                drop: seq![],
                remove_source: false,
            };
            let (var, value) = vars_or_none(a, parent.0, parent.1)[i];
            let b = scope_remapped(a, plan).0;
            &&& vars_at(b, parent.0, parent.1) == vars_at(a, parent.0, parent.1)
            &&& stored(b, fork.0, fork.1, var) == match stored(a, fork.0, fork.1, var) {
                Some(own) => Some(own),
                None => Some(value),
            }
        }),
{
    let none = Seq::<(Seq<char>, Seq<char>)>::empty();
    let source = vars_or_none(a, parent.0, parent.1);
    let target = vars_or_none(a, fork.0, fork.1);
    let (var, value) = source[i];
    law_remap_is_copy_only(a, parent, fork, none, seq![], parent.0, parent.1, var);
    law_remap_is_copy_only(a, parent, fork, none, seq![], fork.0, fork.1, var);
    lemma_valid_parts(a, parent.0, parent.1);
    lemma_valid_parts(a, fork.0, fork.1);
    let m = all_copied(source, target, None, none, seq![]);
    lemma_copy_keeps(source, target, None, none, seq![], var);
    law_with_vars(a, fork.0, fork.1, m.target, fork.0, fork.1);
    assert(renamed(var, none) == var);
    if stored(a, fork.0, fork.1, var) is None {
        lemma_plain_copy(source, target, i, source.len() as int);
        assert(source.take(source.len() as int) =~= source);
    }
}

proof fn lemma_plain_copy(source: VarsView, target: VarsView, i: int, n: int)
    requires
        distinct(source),
        distinct(target),
        0 <= i < source.len(),
        0 <= n <= source.len(),
        !has_key(target, source[i].0),
    ensures
        value_of(
            all_copied(
                source.take(n),
                target,
                None,
                Seq::<(Seq<char>, Seq<char>)>::empty(),
                seq![],
            ).target,
            source[i].0,
        ) == if i < n {
            Some(source[i].1)
        } else {
            None
        },
    decreases n,
{
    let none = Seq::<(Seq<char>, Seq<char>)>::empty();
    if n > 0 {
        let s = source.take(n);
        let init = source.take(n - 1);
        assert(s.drop_last() =~= init);
        assert(s.last() == source[n - 1]);
        lemma_plain_copy(source, target, i, n - 1);
        let m0 = all_copied(init, target, None, none, seq![]);
        lemma_copy_keeps(init, target, None, none, seq![], source[n - 1].0);
        assert(renamed(source[n - 1].0, none) == source[n - 1].0);
        assert(!Seq::<Seq<char>>::empty().contains(source[n - 1].0));
        law_put(m0.target, source[n - 1].0, source[n - 1].1, source[i].0);
        if i != n - 1 {
            assert(source[i].0 != source[n - 1].0);
        }
    }
}

/// A fork copies everything and takes nothing away; a move copies under the new
/// names and takes away what it copied.
pub proof fn law_plans(from: ModuleView, to: ModuleView, rename: Entries<Seq<char>>)
    ensures
        fork_plan(from, to).from == from && fork_plan(from, to).to == to,
        fork_plan(from, to).rename.len() == 0 && fork_plan(from, to).drop.len() == 0,
        !fork_plan(from, to).remove_source,
        move_plan(from, to, rename).from == from && move_plan(from, to, rename).to == to,
        move_plan(from, to, rename).rename == rename && move_plan(from, to, rename).drop.len() == 0,
        move_plan(from, to, rename).remove_source,
{
}

/// Each scope has its label and its file: the global one, each profile, and each
/// game; all of them are visited, in this order.
pub proof fn law_scopes(
    base: Seq<char>,
    name: Seq<char>,
    presets: Seq<Seq<char>>,
    games: Seq<Seq<char>>,
)
    ensures
        label_of(ScopeView::Global) == "global"@,
        label_of(ScopeView::Profile(name)) == "profile:"@ + name,
        label_of(ScopeView::Game(name)) == "game:"@ + name,
        file_of(base, ScopeView::Global) == path_joined(base, "global.json"@),
        file_of(base, ScopeView::Profile(name)) == path_joined(
            path_joined(base, "profiles"@),
            name + ".json"@,
        ),
        file_of(base, ScopeView::Game(name)) == path_joined(
            path_joined(base, "games"@),
            name + ".json"@,
        ),
        scopes(presets, games).len() == 1 + presets.len() + games.len(),
        scopes(presets, games)[0] == ScopeView::Global,
        forall|k: int|
            0 <= k < presets.len() ==> #[trigger] scopes(presets, games)[1 + k]
                == ScopeView::Profile(presets[k]),
        forall|k: int|
            0 <= k < games.len() ==> #[trigger] scopes(presets, games)[1 + presets.len() + k]
                == ScopeView::Game(games[k]),
{
}

/// A move takes away from the source what it copied and what was to be dropped, and
/// leaves there what found its destination taken.
pub proof fn law_move_takes_away(a: AuthorsView, plan: RemapPlanView, i: int)
    requires
        valid(a),
        plan.remove_source,
        plan.from != plan.to,
        0 <= i < vars_or_none(a, plan.from.0, plan.from.1).len(),
    ensures
        ({
            let (var, value) = vars_or_none(a, plan.from.0, plan.from.1)[i];
            let (b, reported) = scope_remapped(a, plan);
            let left = stored(b, plan.from.0, plan.from.1, var);
            &&& plan.drop.contains(var) ==> left is None
            &&& !reported.contains(var) ==> left is None && stored(
                b,
                plan.to.0,
                plan.to.1,
                renamed(var, plan.rename),
            ) == Some(value)
            &&& reported.contains(var) && !plan.drop.contains(var) ==> left == Some(value)
        }),
{
    let from = plan.from;
    let to = plan.to;
    let source = vars_or_none(a, from.0, from.1);
    let target = vars_or_none(a, to.0, to.1);
    let (var, value) = source[i];
    let dest = renamed(var, plan.rename);
    let names = names_of(source);
    let (b, dropped) = remapped(a, from, to, plan.rename, plan.drop);
    let m = all_copied(source, target, held_by(source, from, to), plan.rename, plan.drop);
    lemma_valid_parts(a, from.0, from.1);
    lemma_valid_parts(a, to.0, to.1);
    lemma_found(source, i);
    law_remap_is_copy_only(a, from, to, plan.rename, plan.drop, from.0, from.1, var);
    lemma_lands(source, target, held_by(source, from, to), plan.rename, plan.drop, i);
    lemma_copy_keeps(source, target, held_by(source, from, to), plan.rename, plan.drop, var);
    law_with_vars(a, to.0, to.1, m.target, to.0, to.1);
    lemma_stored(b, from.0, from.1, var);
    lemma_stored(b, to.0, to.1, dest);
    lemma_valid_parts(b, from.0, from.1);
    let left = left_behind(vars_or_none(b, from.0, from.1), names, dropped, plan);
    lemma_left_behind(vars_or_none(b, from.0, from.1), names, dropped, plan, var);
    assert(names[i] == var);
    assert(names.contains(var));
    let c = with_vars(b, from.0, from.1, left);
    law_with_vars(b, from.0, from.1, left, from.0, from.1);
    law_with_vars(b, from.0, from.1, left, to.0, to.1);
    law_pruned(c, from.0, from.1, from.0, from.1);
    law_pruned(c, from.0, from.1, to.0, to.1);
    let d = pruned(c, from.0, from.1);
    lemma_stored(d, from.0, from.1, var);
    lemma_stored(d, to.0, to.1, dest);
}

proof fn lemma_copied_origin(
    source: VarsView,
    target: VarsView,
    held: Option<VarsView>,
    rename: Entries<Seq<char>>,
    drop: Seq<Seq<char>>,
    name: Seq<char>,
)
    requires
        distinct(target),
        !has_key(target, name),
        has_key(all_copied(source, target, held, rename, drop).target, name),
    ensures
        exists|u: int|
            0 <= u < source.len() && !drop.contains((#[trigger] source[u]).0) && renamed(
                source[u].0,
                rename,
            ) == name && value_of(all_copied(source, target, held, rename, drop).target, name)
                == Some(source[u].1),
    decreases source.len(),
{
    if source.len() > 0 {
        let init = source.drop_last();
        let (var, value) = source.last();
        let m0 = all_copied(init, target, held, rename, drop);
        let m = all_copied(source, target, held, rename, drop);
        lemma_copy_keeps(init, target, held, rename, drop, name);
        if m.target == m0.target || has_key(m0.target, name) {
            if m.target != m0.target {
                law_put(m0.target, renamed(var, rename), value, name);
                assert(renamed(var, rename) != name);
            }
            lemma_copied_origin(init, target, held, rename, drop, name);
            let u = choose|u: int|
                0 <= u < init.len() && !drop.contains((#[trigger] init[u]).0) && renamed(
                    init[u].0,
                    rename,
                ) == name && value_of(m0.target, name) == Some(init[u].1);
            assert(source[u] == init[u]);
        } else {
            law_put(m0.target, renamed(var, rename), value, name);
            assert(source[source.len() - 1] == (var, value));
        }
    }
}

/// Nothing is made up: a value that is new at the destination is that of a variable
/// of the source that was not to be dropped, under its new name.
pub proof fn law_copies_come_from_the_source(
    a: AuthorsView,
    from: ModuleView,
    to: ModuleView,
    rename: Entries<Seq<char>>,
    drop: Seq<Seq<char>>,
    name: Seq<char>,
)
    requires
        valid(a),
        stored(a, to.0, to.1, name) is None,
        stored(remapped(a, from, to, rename, drop).0, to.0, to.1, name) is Some,
    ensures
        exists|u: int|
            0 <= u < vars_or_none(a, from.0, from.1).len() && !drop.contains(
                (#[trigger] vars_or_none(a, from.0, from.1)[u]).0,
            ) && renamed(vars_or_none(a, from.0, from.1)[u].0, rename) == name && stored(
                remapped(a, from, to, rename, drop).0,
                to.0,
                to.1,
                name,
            ) == Some(vars_or_none(a, from.0, from.1)[u].1),
{
    if let Some(source) = vars_at(a, from.0, from.1) {
        let target = vars_or_none(a, to.0, to.1);
        let held = held_by(source, from, to);
        let m = all_copied(source, target, held, rename, drop);
        lemma_valid_parts(a, to.0, to.1);
        lemma_copy_keeps(source, target, held, rename, drop, name);
        law_with_vars(a, to.0, to.1, m.target, to.0, to.1);
        lemma_stored(a, to.0, to.1, name);
        lemma_stored(remapped(a, from, to, rename, drop).0, to.0, to.1, name);
        lemma_copied_origin(source, target, held, rename, drop, name);
        let u = choose|u: int|
            0 <= u < source.len() && !drop.contains((#[trigger] source[u]).0) && renamed(
                source[u].0,
                rename,
            ) == name && value_of(m.target, name) == Some(source[u].1);
        assert(vars_or_none(a, from.0, from.1)[u] == source[u]);
    }
}

/// A pass begins before its first scope, with nothing to report; a scope is
/// reported under its label, with what landed nowhere, where there is any.
pub proof fn law_reports(
    base: Seq<char>,
    plan: RemapPlanView,
    presets: Seq<Seq<char>>,
    games: Seq<Seq<char>>,
    scope: ScopeView,
    dropped: Seq<Seq<char>>,
)
    ensures
        ({
            let s = sweep_begun(base, plan, presets, games);
            &&& s.at == 0
            &&& s.reports.len() == 0
            &&& s.base == base
            &&& s.plan == plan
            &&& s.scopes == scopes(presets, games)
        }),
        dropped.len() == 0 ==> report_of(scope, dropped) is None,
        dropped.len() > 0 ==> report_of(scope, dropped) == Some((label_of(scope), dropped)),
{
}

/// Values count as the same only where each is the same: what one of two such sets
/// stores, the other stores under the same names.
pub proof fn law_same_values(
    a: AuthorsView,
    b: AuthorsView,
    author: Seq<char>,
    ext: Seq<char>,
    var: Seq<char>,
)
    requires
        same_authors(a, b),
        stored(a, author, ext, var) is Some,
    ensures
        stored(b, author, ext, var) == stored(a, author, ext, var),
{
    let i = crate::ordered::key_index(a, author);
    assert(0 <= i < a.len() && a[i].0 == author);
    let exts = a[i].1;
    let j = crate::ordered::key_index(exts, ext);
    assert(0 <= j < exts.len() && exts[j].0 == ext);
    let vars = exts[j].1;
    let k = crate::ordered::key_index(vars, var);
    assert(0 <= k < vars.len() && vars[k].0 == var);
    assert(same_exts(exts, value_of(b, author)->0));
    assert(same_vars(vars, value_of(value_of(b, author)->0, ext)->0));
}

} // verus!
