//! The launch command: assembled from a set of extensions and their resolved
//! variables.
//!
//! Block order: `[ENV_VARS] [WRAPPERS] [GAME_ENV_VARS] %command% [GAME_LAUNCH_ARGS]`.
//!
//! - `ENV_VARS` apply to the whole chain (the child process environment).
//! - `GAME_ENV_VARS` apply only to the game, through an `env` shim behind the
//!   wrappers. Without a wrapper they merge into the chain environment.
//! - The game command is the entire `%command%`, verbatim.

use crate::condition::{eval_opt, requirement_met};
use crate::data::{to_vec, Duplicate};
use crate::error::{outcome, ErrorView, Result};
use crate::ordered::{put, value_of, Entries, OrderedMap};
use crate::schema::{
    ArgSpec, ArgSpecView, EnvBuilderEntry, EnvBuilderEntryView, EnvOp, EnvVarSpec, EnvVarSpecView,
    Extension, ExtensionView, WrapperBuilderEntry, WrapperBuilderEntryView, WrapperSpec,
    WrapperSpecView,
};
use crate::sorting::{order, sort, sorted, Ordered};
use crate::text::{
    alnum, chars_of, is_alnum, join, joined, next_char, replace, replaced, same_text, split_at_char,
    split_char, split_first, split_once, split_words, words,
};
use crate::variables::{VarStore, VarStoreView};
use vstd::prelude::*;

verus! {

/// What a computation that can fail gives, as contracts speak of it.
pub type Outcome<T> = std::result::Result<T, ErrorView>;

/// One extension paired with its resolved variables for this build.
pub struct ExtInput<'a> {
    pub spec: &'a Extension,
    pub vars: &'a VarStore,
}

/// An [`ExtInput`] as contracts speak of it.
pub struct InputView {
    pub spec: ExtensionView,
    pub vars: VarStoreView,
}

impl<'a> DeepView for ExtInput<'a> {
    type V = InputView;

    open spec fn deep_view(&self) -> InputView {
        InputView { spec: self.spec.deep_view(), vars: self.vars.deep_view() }
    }
}

/// What happens to an environment variable.
#[derive(Debug, PartialEq, Eq)]
pub enum EnvAction {
    Assign(String),
    Unset,
}

/// An [`EnvAction`] as contracts speak of it.
pub enum EnvActionView {
    Assign(Seq<char>),
    Unset,
}

impl DeepView for EnvAction {
    type V = EnvActionView;

    open spec fn deep_view(&self) -> EnvActionView {
        match self {
            EnvAction::Assign(v) => EnvActionView::Assign(v@),
            EnvAction::Unset => EnvActionView::Unset,
        }
    }
}

impl Duplicate for EnvAction {
    fn duplicate(&self) -> (r: Self) {
        match self {
            EnvAction::Assign(v) => EnvAction::Assign(v.clone()),
            EnvAction::Unset => EnvAction::Unset,
        }
    }
}

impl Clone for EnvAction {
    fn clone(&self) -> (r: Self)
        ensures
            r.deep_view() == self.deep_view(),
    {
        self.duplicate()
    }
}

/// An assembled launch command.
#[derive(Debug)]
pub struct LaunchCommand {
    /// Whole-chain environment (applies to wrappers and game).
    pub env_vars: OrderedMap<EnvAction>,
    /// Wrapper tokens in priority order (each wrapper's `--` is part of its
    /// syntax).
    pub wrappers: Vec<String>,
    /// Game-only environment (emitted through an `env` shim).
    pub game_env_vars: OrderedMap<EnvAction>,
    /// The entire `%command%`, verbatim.
    pub game_command: Vec<String>,
    /// Extra args appended behind the game command.
    pub game_args: Vec<String>,
}

/// A [`LaunchCommand`] as contracts speak of it.
#[verifier::ext_equal]
pub struct LaunchCommandView {
    pub env_vars: Entries<EnvActionView>,
    pub wrappers: Seq<Seq<char>>,
    pub game_env_vars: Entries<EnvActionView>,
    pub game_command: Seq<Seq<char>>,
    pub game_args: Seq<Seq<char>>,
}

impl DeepView for LaunchCommand {
    type V = LaunchCommandView;

    open spec fn deep_view(&self) -> LaunchCommandView {
        LaunchCommandView {
            env_vars: self.env_vars.deep_view(),
            wrappers: self.wrappers.deep_view(),
            game_env_vars: self.game_env_vars.deep_view(),
            game_command: self.game_command.deep_view(),
            game_args: self.game_args.deep_view(),
        }
    }
}

impl Duplicate for LaunchCommand {
    fn duplicate(&self) -> (r: Self) {
        LaunchCommand {
            env_vars: self.env_vars.duplicate(),
            wrappers: self.wrappers.duplicate(),
            game_env_vars: self.game_env_vars.duplicate(),
            game_command: self.game_command.duplicate(),
            game_args: self.game_args.duplicate(),
        }
    }
}

impl Clone for LaunchCommand {
    fn clone(&self) -> (r: Self)
        ensures
            r.deep_view() == self.deep_view(),
    {
        self.duplicate()
    }
}

/// A spawnable plan: program, argv tail, and the environment of the child.
#[derive(Debug)]
pub struct ExecPlan {
    pub program: String,
    pub args: Vec<String>,
    /// Whole-chain environment to apply to the child process.
    pub env: OrderedMap<EnvAction>,
}

/// An [`ExecPlan`] as contracts speak of it.
#[verifier::ext_equal]
pub struct ExecPlanView {
    pub program: Seq<char>,
    pub args: Seq<Seq<char>>,
    pub env: Entries<EnvActionView>,
}

impl DeepView for ExecPlan {
    type V = ExecPlanView;

    open spec fn deep_view(&self) -> ExecPlanView {
        ExecPlanView {
            program: self.program.deep_view(),
            args: self.args.deep_view(),
            env: self.env.deep_view(),
        }
    }
}

impl Duplicate for ExecPlan {
    fn duplicate(&self) -> (r: Self) {
        ExecPlan {
            program: self.program.duplicate(),
            args: self.args.duplicate(),
            env: self.env.duplicate(),
        }
    }
}

impl Clone for ExecPlan {
    fn clone(&self) -> (r: Self)
        ensures
            r.deep_view() == self.deep_view(),
    {
        self.duplicate()
    }
}

// ---- Conditions ------------------------------------------------------------

/// The truth of an optional condition over a store's variables.
pub open spec fn met(requirement: Option<Seq<char>>, vars: VarStoreView) -> Outcome<bool> {
    requirement_met(requirement, vars.truth())
}

fn req(requirement: &Option<String>, vars: &VarStore) -> (r: Result<bool>)
    ensures
        outcome(r) == met(requirement.deep_view(), vars.deep_view()),
{
    let text = match requirement {
        Some(s) => Some(s.as_str()),
        None => None,
    };
    let lookup = vars.lookup_fn();
    eval_opt(text, &lookup)
}

// ---- Environment blocks ----------------------------------------------------

/// What has been built up for one environment variable.
struct EnvAccum {
    applied: bool,
    unset: bool,
    value: String,
}

/// What has been built up for one environment variable.
pub struct AccumView {
    pub applied: bool,
    pub unset: bool,
    pub value: Seq<char>,
}

impl DeepView for EnvAccum {
    type V = AccumView;

    closed spec fn deep_view(&self) -> AccumView {
        AccumView { applied: self.applied, unset: self.unset, value: self.value@ }
    }
}

impl Duplicate for EnvAccum {
    fn duplicate(&self) -> (r: Self) {
        EnvAccum { applied: self.applied, unset: self.unset, value: self.value.clone() }
    }
}

/// Nothing has been applied yet.
pub open spec fn untouched() -> AccumView {
    AccumView { applied: false, unset: false, value: seq![] }
}

/// What stands between appended values: `,` unless the entry says otherwise.
pub open spec fn separator_of(e: EnvBuilderEntryView) -> Seq<char> {
    match e.separator {
        Some(s) => s,
        None => ","@,
    }
}

/// What one step does: `Assign` overwrites, `Append` joins behind what is there,
/// `Unset` clears.
pub open spec fn env_step(a: AccumView, e: EnvBuilderEntryView, value: Seq<char>) -> AccumView {
    match e.op {
        EnvOp::Assign => AccumView { applied: true, unset: false, value },
        EnvOp::Append => AccumView {
            applied: true,
            unset: false,
            value: if a.value.len() == 0 {
                value
            } else {
                a.value + separator_of(e) + value
            },
        },
        EnvOp::Unset => AccumView { applied: true, unset: true, value: seq![] },
    }
}

/// The template of a step's value.
pub open spec fn template_of_step(e: EnvBuilderEntryView) -> Seq<char> {
    match e.value {
        Some(v) => v,
        None => seq![],
    }
}

/// The steps whose condition holds, one after the other.
pub open spec fn steps_applied(
    entries: Seq<EnvBuilderEntryView>,
    vars: VarStoreView,
    a: AccumView,
) -> Outcome<AccumView>
    decreases entries.len(),
{
    if entries.len() == 0 {
        Ok(a)
    } else {
        match met(entries[0].requirement, vars) {
            Err(e) => Err(e),
            Ok(false) => steps_applied(entries.drop_first(), vars, a),
            Ok(true) => steps_applied(
                entries.drop_first(),
                vars,
                env_step(a, entries[0], vars.interpolated(template_of_step(entries[0]))),
            ),
        }
    }
}

/// What has been built up under a name so far.
pub open spec fn accum_of(accums: Entries<AccumView>, name: Seq<char>) -> AccumView {
    match value_of(accums, name) {
        Some(a) => a,
        None => untouched(),
    }
}

/// The environment variables of one extension. One whose condition does not
/// hold, or whose name comes out empty, is skipped.
pub open spec fn specs_applied(
    specs: Seq<EnvVarSpecView>,
    vars: VarStoreView,
    accums: Entries<AccumView>,
) -> Outcome<Entries<AccumView>>
    decreases specs.len(),
{
    if specs.len() == 0 {
        Ok(accums)
    } else {
        let s = specs[0];
        let name = vars.interpolated(s.name);
        match met(s.requirement, vars) {
            Err(e) => Err(e),
            Ok(holds) => if !holds || name.len() == 0 {
                specs_applied(specs.drop_first(), vars, accums)
            } else {
                match steps_applied(s.builder, vars, accum_of(accums, name)) {
                    Err(e) => Err(e),
                    Ok(a) => specs_applied(specs.drop_first(), vars, put(accums, name, a)),
                }
            },
        }
    }
}

/// Which environment a block is for.
#[derive(Debug, Clone, Copy, PartialEq, Eq, Structural)]
pub enum EnvScope {
    /// `ENV_VARS`: wrappers and game.
    Chain,
    /// `GAME_ENV_VARS`: the game alone.
    Game,
}

/// The environment variables that an extension declares for a scope.
pub open spec fn specs_of(e: ExtensionView, scope: EnvScope) -> Seq<EnvVarSpecView> {
    match scope {
        EnvScope::Chain => e.env_vars,
        EnvScope::Game => e.game_env_vars,
    }
}

/// The environment variables of all extensions, in order.
pub open spec fn inputs_applied(
    inputs: Seq<InputView>,
    scope: EnvScope,
    accums: Entries<AccumView>,
) -> Outcome<Entries<AccumView>>
    decreases inputs.len(),
{
    if inputs.len() == 0 {
        Ok(accums)
    } else {
        match specs_applied(specs_of(inputs[0].spec, scope), inputs[0].vars, accums) {
            Err(e) => Err(e),
            Ok(a) => inputs_applied(inputs.drop_first(), scope, a),
        }
    }
}

/// What was built up, as an action.
pub open spec fn action_of(a: AccumView) -> EnvActionView {
    if a.unset {
        EnvActionView::Unset
    } else {
        EnvActionView::Assign(a.value)
    }
}

/// The actions of the variables to which any step was applied.
pub open spec fn settled(accums: Entries<AccumView>) -> Entries<EnvActionView>
    decreases accums.len(),
{
    if accums.len() == 0 {
        seq![]
    } else if accums.last().1.applied {
        settled(accums.drop_last()).push((accums.last().0, action_of(accums.last().1)))
    } else {
        settled(accums.drop_last())
    }
}

/// An environment block.
pub open spec fn env_block(
    inputs: Seq<InputView>,
    scope: EnvScope,
) -> Outcome<Entries<EnvActionView>> {
    match inputs_applied(inputs, scope, seq![]) {
        Ok(accums) => Ok(settled(accums)),
        Err(e) => Err(e),
    }
}

fn apply_steps(entries: &Vec<EnvBuilderEntry>, vars: &VarStore, start: EnvAccum) -> (r: Result<
    EnvAccum,
>)
    ensures
        outcome(r) == steps_applied(entries.deep_view(), vars.deep_view(), start.deep_view()),
{
    let mut accum = start;
    let ghost d = entries.deep_view();
    let ghost v = vars.deep_view();
    let ghost goal = steps_applied(d, v, accum.deep_view());
    let mut i: usize = 0;
    assert(d.skip(0) =~= d);
    while i < entries.len()
        invariant
            d == entries.deep_view(),
            v == vars.deep_view(),
            goal == steps_applied(d, v, start.deep_view()),
            i <= entries@.len(),
            steps_applied(d.skip(i as int), v, accum.deep_view()) == goal,
        decreases entries@.len() - i,
    {
        let entry = &entries[i];
        let ghost rest = d.skip(i as int);
        let ghost before = accum.deep_view();
        assert(rest[0] == entry.deep_view());
        assert(rest.drop_first() =~= d.skip(i + 1));
        i += 1;
        if !req(&entry.requirement, vars)? {
            continue ;
        }
        let template = match &entry.value {
            Some(t) => t.clone(),
            None => String::new(),
        };
        assert(template@ =~= template_of_step(entry.deep_view()));
        let value = vars.interpolate(template.as_str());
        match entry.op {
            EnvOp::Assign => {
                accum.applied = true;
                accum.unset = false;
                accum.value = value;
            },
            EnvOp::Append => {
                accum.applied = true;
                accum.unset = false;
                if chars_of(accum.value.as_str()).len() == 0 {
                    accum.value = value;
                } else {
                    let mut joined_value = accum.value.clone();
                    match &entry.separator {
                        Some(s) => joined_value.append(s.as_str()),
                        None => joined_value.append(","),
                    }
                    joined_value.append(value.as_str());
                    accum.value = joined_value;
                }
            },
            EnvOp::Unset => {
                accum.applied = true;
                accum.unset = true;
                accum.value = String::new();
            },
        }
        assert(accum.deep_view().value =~= env_step(before, entry.deep_view(), value@).value);
    }
    Ok(accum)
}

fn apply_specs(
    specs: &Vec<EnvVarSpec>,
    vars: &VarStore,
    start: OrderedMap<EnvAccum>,
) -> (r: Result<OrderedMap<EnvAccum>>)
    ensures
        outcome(r) == specs_applied(specs.deep_view(), vars.deep_view(), start.deep_view()),
{
    let mut accums = start;
    let ghost d = specs.deep_view();
    let ghost v = vars.deep_view();
    let ghost goal = specs_applied(d, v, accums.deep_view());
    let mut i: usize = 0;
    assert(d.skip(0) =~= d);
    while i < specs.len()
        invariant
            d == specs.deep_view(),
            v == vars.deep_view(),
            goal == specs_applied(d, v, start.deep_view()),
            i <= specs@.len(),
            specs_applied(d.skip(i as int), v, accums.deep_view()) == goal,
        decreases specs@.len() - i,
    {
        let spec_i = &specs[i];
        let ghost rest = d.skip(i as int);
        assert(rest[0] == spec_i.deep_view());
        assert(rest.drop_first() =~= d.skip(i + 1));
        i += 1;
        if !req(&spec_i.requirement, vars)? {
            continue ;
        }
        let name = vars.interpolate(spec_i.name.as_str());
        if chars_of(name.as_str()).len() == 0 {
            continue ;
        }
        let found = match accums.get(name.as_str()) {
            Some(a) => a.duplicate(),
            None => EnvAccum { applied: false, unset: false, value: String::new() },
        };
        assert(found.deep_view().value =~= accum_of(accums.deep_view(), name@).value);
        let accum = apply_steps(&spec_i.builder, vars, found)?;
        accums.insert(name, accum);
    }
    Ok(accums)
}

/// Builds an environment block: every builder entry whose condition holds is
/// applied, in order of extension, declaration and entry.
pub fn build_env_block(inputs: &[ExtInput<'_>], scope: EnvScope) -> (r: Result<
    OrderedMap<EnvAction>,
>)
    ensures
        outcome(r) == env_block(inputs.deep_view(), scope),
{
    let mut accums: OrderedMap<EnvAccum> = OrderedMap::new();
    let ghost d = inputs.deep_view();
    let ghost goal = inputs_applied(d, scope, seq![]);
    let mut i: usize = 0;
    assert(d.skip(0) =~= d);
    assert(accums.deep_view() =~= seq![]);
    while i < inputs.len()
        invariant
            d == inputs.deep_view(),
            goal == inputs_applied(d, scope, seq![]),
            i <= inputs@.len(),
            inputs_applied(d.skip(i as int), scope, accums.deep_view()) == goal,
        decreases inputs@.len() - i,
    {
        let input = &inputs[i];
        let ghost rest = d.skip(i as int);
        assert(rest[0] == input.deep_view());
        assert(rest.drop_first() =~= d.skip(i + 1));
        let specs = match scope {
            EnvScope::Chain => &input.spec.env_vars,
            EnvScope::Game => &input.spec.game_env_vars,
        };
        accums = apply_specs(specs, input.vars, accums)?;
        i += 1;
    }
    Ok(settle(&accums))
}

fn settle(accums: &OrderedMap<EnvAccum>) -> (r: OrderedMap<EnvAction>)
    ensures
        r.deep_view() == settled(accums.deep_view()),
{
    let mut out: OrderedMap<EnvAction> = OrderedMap::new();
    let n: usize = accums.len();
    let ghost d = accums.deep_view();
    let mut i: usize = 0;
    assert(out.deep_view() =~= settled(d.take(0)));
    while i < n
        invariant
            d == accums.deep_view(),
            i <= n == d.len(),
            crate::ordered::distinct(d),
            out.deep_view() == settled(d.take(i as int)),
        decreases n - i,
    {
        let accum = accums.value_at(i);
        assert(d.take(i + 1).drop_last() =~= d.take(i as int));
        if accum.applied {
            let action = if accum.unset {
                EnvAction::Unset
            } else {
                EnvAction::Assign(accum.value.clone())
            };
            proof {
                lemma_settled_keys(d, i as int);
            }
            out.insert(accums.key_at(i).clone(), action);
        }
        i += 1;
    }
    assert(d.take(n as int) =~= d);
    out
}

proof fn lemma_settled_keys(d: Entries<AccumView>, n: int)
    requires
        crate::ordered::distinct(d),
        0 <= n < d.len(),
    ensures
        !crate::ordered::has_key(settled(d.take(n)), d[n].0),
{
    lemma_settled_from(d, n);
    let s = settled(d.take(n));
    assert forall|i: int| 0 <= i < s.len() implies (#[trigger] s[i]).0 != d[n].0 by {
        let j = choose|j: int| 0 <= j < n && (#[trigger] d[j]).0 == s[i].0;
        assert(d[j].0 != d[n].0);
    }
}

proof fn lemma_settled_from(d: Entries<AccumView>, n: int)
    requires
        0 <= n <= d.len(),
    ensures
        forall|i: int|
            0 <= i < settled(d.take(n)).len() ==> exists|j: int|
                0 <= j < n && (#[trigger] d[j]).0 == (#[trigger] settled(d.take(n))[i]).0,
    decreases n,
{
    if n > 0 {
        lemma_settled_from(d, n - 1);
        let s = settled(d.take(n));
        let s0 = settled(d.take(n - 1));
        assert(d.take(n).drop_last() =~= d.take(n - 1));
        assert forall|i: int| 0 <= i < s.len() implies exists|j: int|
            0 <= j < n && (#[trigger] d[j]).0 == (#[trigger] s[i]).0 by {
            if i < s0.len() {
                assert(s[i] == s0[i]);
                let j = choose|j: int| 0 <= j < n - 1 && (#[trigger] d[j]).0 == s0[i].0;
                assert(d[j].0 == s[i].0);
            } else {
                assert(d[n - 1].0 == s[i].0);
            }
        }
    }
}

// ---- Splitting commands into tokens ----------------------------------------

/// The words that a POSIX shell reads from a text, as `shlex` splits it; `None`
/// where the text cannot be split (an open quote, a trailing backslash).
pub uninterp spec fn shell_words(s: Seq<char>) -> Option<Seq<Seq<char>>>;

/// `shlex::split`: the shell words of a text, or `None` where it is erroneous.
#[verifier::external_body]
fn shell_split(s: &str) -> (r: Option<Vec<String>>)
    ensures
        r.deep_view() == shell_words(s@),
{
    shlex::split(s)
}

/// The shell words where there are any, else the words between white space.
pub open spec fn words_or(split: Option<Seq<Seq<char>>>, s: Seq<char>) -> Seq<Seq<char>> {
    match split {
        Some(tokens) => tokens,
        None => words(s),
    }
}

/// The tokens of a command text.
pub open spec fn command_words(s: Seq<char>) -> Seq<Seq<char>> {
    words_or(shell_words(s), s)
}

/// The tokens of a text for which `split` are the shell words.
pub fn tokens_or_words(split: Option<Vec<String>>, s: &str) -> (r: Vec<String>)
    ensures
        r.deep_view() == words_or(split.deep_view(), s@),
{
    match split {
        Some(tokens) => tokens,
        None => split_words(s),
    }
}

/// The tokens of a command text: its shell words, or the words between white
/// space where it does not read as a shell text.
pub fn split_command(s: &str) -> (r: Vec<String>)
    ensures
        r.deep_view() == command_words(s@),
{
    tokens_or_words(shell_split(s), s)
}

// ---- Wrappers --------------------------------------------------------------

/// A wrapper command with what it is ordered by.
pub struct WrapperLine {
    pub priority: i64,
    /// The position of the extension that declares it.
    pub index: usize,
    pub tokens: Vec<String>,
}

/// A [`WrapperLine`] as contracts speak of it.
pub struct WrapperLineView {
    pub priority: i64,
    pub index: usize,
    pub tokens: Seq<Seq<char>>,
}

impl DeepView for WrapperLine {
    type V = WrapperLineView;

    open spec fn deep_view(&self) -> WrapperLineView {
        WrapperLineView {
            priority: self.priority,
            index: self.index,
            tokens: self.tokens.deep_view(),
        }
    }
}

impl Ordered for WrapperLine {
    /// Lower priority first, then the order of the extensions.
    open spec fn le(a: WrapperLineView, b: WrapperLineView) -> bool {
        a.priority < b.priority || (a.priority == b.priority && a.index <= b.index)
    }

    fn at_most(&self, other: &Self) -> (b: bool) {
        self.priority < other.priority || (self.priority == other.priority && self.index
            <= other.index)
    }
}

/// The options whose condition holds, filled in, behind `acc`.
pub open spec fn options_added(
    entries: Seq<WrapperBuilderEntryView>,
    vars: VarStoreView,
    acc: Seq<Seq<char>>,
) -> Outcome<Seq<Seq<char>>>
    decreases entries.len(),
{
    if entries.len() == 0 {
        Ok(acc)
    } else {
        match met(entries[0].requirement, vars) {
            Err(e) => Err(e),
            Ok(false) => options_added(entries.drop_first(), vars, acc),
            Ok(true) => options_added(
                entries.drop_first(),
                vars,
                acc.push(vars.interpolated(entries[0].value)),
            ),
        }
    }
}

/// The command of a wrapper: its syntax with `{OPTIONS}` replaced by the options,
/// then filled in.
pub open spec fn wrapper_text(
    w: WrapperSpecView,
    options: Seq<Seq<char>>,
    vars: VarStoreView,
) -> Seq<char> {
    vars.interpolated(replaced(w.command_syntax, "{OPTIONS}"@, joined(options, " "@)))
}

/// The wrappers of one extension whose condition holds, behind `acc`.
pub open spec fn lines_added(
    wrappers: Seq<WrapperSpecView>,
    vars: VarStoreView,
    index: usize,
    acc: Seq<WrapperLineView>,
) -> Outcome<Seq<WrapperLineView>>
    decreases wrappers.len(),
{
    if wrappers.len() == 0 {
        Ok(acc)
    } else {
        let w = wrappers[0];
        match met(w.requirement, vars) {
            Err(e) => Err(e),
            Ok(false) => lines_added(wrappers.drop_first(), vars, index, acc),
            Ok(true) => match options_added(w.builder, vars, seq![]) {
                Err(e) => Err(e),
                Ok(options) => lines_added(
                    wrappers.drop_first(),
                    vars,
                    index,
                    acc.push(
                        WrapperLineView {
                            priority: w.priority,
                            index,
                            tokens: command_words(wrapper_text(w, options, vars)),
                        },
                    ),
                ),
            },
        }
    }
}

/// The wrappers of the extensions from `at` on, behind `acc`.
pub open spec fn lines_from(
    inputs: Seq<InputView>,
    at: int,
    acc: Seq<WrapperLineView>,
) -> Outcome<Seq<WrapperLineView>>
    decreases inputs.len() - at,
{
    if at < 0 || at >= inputs.len() {
        Ok(acc)
    } else {
        match lines_added(inputs[at].spec.wrappers, inputs[at].vars, at as usize, acc) {
            Err(e) => Err(e),
            Ok(lines) => lines_from(inputs, at + 1, lines),
        }
    }
}

/// The tokens of all lines, in order.
pub open spec fn all_tokens(lines: Seq<WrapperLineView>) -> Seq<Seq<char>>
    decreases lines.len(),
{
    if lines.len() == 0 {
        seq![]
    } else {
        all_tokens(lines.drop_last()) + lines.last().tokens
    }
}

/// The wrapper block: the wrappers of all extensions, by priority and then by
/// the order of the extensions.
pub open spec fn wrapper_block(inputs: Seq<InputView>) -> Outcome<Seq<Seq<char>>> {
    match lines_from(inputs, 0, seq![]) {
        Ok(lines) => Ok(all_tokens(sorted(lines, order::<WrapperLine>()))),
        Err(e) => Err(e),
    }
}

fn wrapper_options(entries: &Vec<WrapperBuilderEntry>, vars: &VarStore) -> (r: Result<Vec<String>>)
    ensures
        outcome(r) == options_added(entries.deep_view(), vars.deep_view(), seq![]),
{
    let mut opts: Vec<String> = Vec::new();
    let ghost d = entries.deep_view();
    let ghost v = vars.deep_view();
    let ghost goal = options_added(d, v, seq![]);
    let mut i: usize = 0;
    assert(d.skip(0) =~= d);
    assert(opts.deep_view() =~= seq![]);
    while i < entries.len()
        invariant
            d == entries.deep_view(),
            v == vars.deep_view(),
            goal == options_added(d, v, seq![]),
            i <= entries@.len(),
            options_added(d.skip(i as int), v, opts.deep_view()) == goal,
        decreases entries@.len() - i,
    {
        let entry = &entries[i];
        let ghost rest = d.skip(i as int);
        let ghost before = opts.deep_view();
        assert(rest[0] == entry.deep_view());
        assert(rest.drop_first() =~= d.skip(i + 1));
        i += 1;
        if !req(&entry.requirement, vars)? {
            continue ;
        }
        let value = vars.interpolate(entry.value.as_str());
        opts.push(value);
        assert(opts.deep_view() =~= before.push(value@));
    }
    Ok(opts)
}

fn wrapper_lines(
    wrappers: &Vec<WrapperSpec>,
    vars: &VarStore,
    index: usize,
    start: Vec<WrapperLine>,
) -> (r: Result<Vec<WrapperLine>>)
    ensures
        outcome(r) == lines_added(
            wrappers.deep_view(),
            vars.deep_view(),
            index,
            start.deep_view(),
        ),
{
    let mut lines = start;
    let ghost d = wrappers.deep_view();
    let ghost v = vars.deep_view();
    let ghost goal = lines_added(d, v, index, lines.deep_view());
    let mut i: usize = 0;
    assert(d.skip(0) =~= d);
    while i < wrappers.len()
        invariant
            d == wrappers.deep_view(),
            v == vars.deep_view(),
            goal == lines_added(d, v, index, start.deep_view()),
            i <= wrappers@.len(),
            lines_added(d.skip(i as int), v, index, lines.deep_view()) == goal,
        decreases wrappers@.len() - i,
    {
        let wrapper = &wrappers[i];
        let ghost rest = d.skip(i as int);
        let ghost before = lines.deep_view();
        assert(rest[0] == wrapper.deep_view());
        assert(rest.drop_first() =~= d.skip(i + 1));
        i += 1;
        if !req(&wrapper.requirement, vars)? {
            continue ;
        }
        let opts = wrapper_options(&wrapper.builder, vars)?;
        let options_text = join(&opts, " ");
        proof {
            reveal_strlit("{OPTIONS}");
        }
        let rendered = replace(
            wrapper.command_syntax.as_str(),
            "{OPTIONS}",
            options_text.as_str(),
        );
        let rendered = vars.interpolate(rendered.as_str());
        let line = WrapperLine {
            priority: wrapper.priority,
            index,
            tokens: split_command(rendered.as_str()),
        };
        let ghost l = line.deep_view();
        lines.push(line);
        assert(lines.deep_view() =~= before.push(l));
    }
    Ok(lines)
}

/// Builds the wrapper block.
pub fn build_wrappers(inputs: &[ExtInput<'_>]) -> (r: Result<Vec<String>>)
    ensures
        outcome(r) == wrapper_block(inputs.deep_view()),
{
    let mut collected: Vec<WrapperLine> = Vec::new();
    let ghost d = inputs.deep_view();
    let ghost goal = lines_from(d, 0, seq![]);
    let mut i: usize = 0;
    assert(collected.deep_view() =~= seq![]);
    while i < inputs.len()
        invariant
            d == inputs.deep_view(),
            goal == lines_from(d, 0, seq![]),
            i <= inputs@.len(),
            lines_from(d, i as int, collected.deep_view()) == goal,
        decreases inputs@.len() - i,
    {
        let input = &inputs[i];
        assert(d[i as int] == input.deep_view());
        collected = wrapper_lines(&input.spec.wrappers, input.vars, i, collected)?;
        i += 1;
    }
    let lines = sort(collected);
    let ghost l = lines.deep_view();
    let mut out: Vec<String> = Vec::new();
    let mut j: usize = 0;
    assert(out.deep_view() =~= all_tokens(l.take(0)));
    while j < lines.len()
        invariant
            l == lines.deep_view(),
            j <= lines@.len(),
            out.deep_view() == all_tokens(l.take(j as int)),
        decreases lines@.len() - j,
    {
        crate::data::extend(&mut out, &lines[j].tokens);
        assert(l.take(j + 1).drop_last() =~= l.take(j as int));
        j += 1;
    }
    assert(l.take(l.len() as int) =~= l);
    Ok(out)
}

// ---- Arguments -------------------------------------------------------------

/// The arguments of one extension whose condition holds, behind `acc`.
pub open spec fn args_added(
    args: Seq<ArgSpecView>,
    vars: VarStoreView,
    acc: Seq<Seq<char>>,
) -> Outcome<Seq<Seq<char>>>
    decreases args.len(),
{
    if args.len() == 0 {
        Ok(acc)
    } else {
        match met(args[0].requirement, vars) {
            Err(e) => Err(e),
            Ok(false) => args_added(args.drop_first(), vars, acc),
            Ok(true) => args_added(
                args.drop_first(),
                vars,
                acc + command_words(vars.interpolated(args[0].value)),
            ),
        }
    }
}

/// The arguments of all extensions, in order, behind `acc`.
pub open spec fn inputs_args(inputs: Seq<InputView>, acc: Seq<Seq<char>>) -> Outcome<
    Seq<Seq<char>>,
>
    decreases inputs.len(),
{
    if inputs.len() == 0 {
        Ok(acc)
    } else {
        match args_added(inputs[0].spec.game_launch_args, inputs[0].vars, acc) {
            Err(e) => Err(e),
            Ok(a) => inputs_args(inputs.drop_first(), a),
        }
    }
}

fn extension_args(args: &Vec<ArgSpec>, vars: &VarStore, start: Vec<String>) -> (r: Result<
    Vec<String>,
>)
    ensures
        outcome(r) == args_added(args.deep_view(), vars.deep_view(), start.deep_view()),
{
    let mut out = start;
    let ghost d = args.deep_view();
    let ghost v = vars.deep_view();
    let ghost goal = args_added(d, v, out.deep_view());
    let mut i: usize = 0;
    assert(d.skip(0) =~= d);
    while i < args.len()
        invariant
            d == args.deep_view(),
            v == vars.deep_view(),
            goal == args_added(d, v, start.deep_view()),
            i <= args@.len(),
            args_added(d.skip(i as int), v, out.deep_view()) == goal,
        decreases args@.len() - i,
    {
        let arg = &args[i];
        let ghost rest = d.skip(i as int);
        assert(rest[0] == arg.deep_view());
        assert(rest.drop_first() =~= d.skip(i + 1));
        i += 1;
        if !req(&arg.requirement, vars)? {
            continue ;
        }
        let value = vars.interpolate(arg.value.as_str());
        let tokens = split_command(value.as_str());
        crate::data::extend(&mut out, &tokens);
    }
    Ok(out)
}

/// Builds the argument block.
pub fn build_args(inputs: &[ExtInput<'_>]) -> (r: Result<Vec<String>>)
    ensures
        outcome(r) == inputs_args(inputs.deep_view(), seq![]),
{
    let mut out: Vec<String> = Vec::new();
    let ghost d = inputs.deep_view();
    let ghost goal = inputs_args(d, seq![]);
    let mut i: usize = 0;
    assert(d.skip(0) =~= d);
    assert(out.deep_view() =~= seq![]);
    while i < inputs.len()
        invariant
            d == inputs.deep_view(),
            goal == inputs_args(d, seq![]),
            i <= inputs@.len(),
            inputs_args(d.skip(i as int), out.deep_view()) == goal,
        decreases inputs@.len() - i,
    {
        let input = &inputs[i];
        let ghost rest = d.skip(i as int);
        assert(rest[0] == input.deep_view());
        assert(rest.drop_first() =~= d.skip(i + 1));
        out = extension_args(&input.spec.game_launch_args, input.vars, out)?;
        i += 1;
    }
    Ok(out)
}

// ---- List-backed modules ---------------------------------------------------

/// A line `name=value` set in `env`. Lines without `=` or with an empty name are
/// skipped.
pub open spec fn line_set(env: Entries<EnvActionView>, line: Seq<char>) -> Entries<EnvActionView> {
    match split_first(line, '=') {
        Some((name, value)) => if name.len() == 0 {
            env
        } else {
            put(env, name, EnvActionView::Assign(value))
        },
        None => env,
    }
}

/// Lines set in `env`, one after the other.
pub open spec fn lines_set(
    env: Entries<EnvActionView>,
    lines: Seq<Seq<char>>,
) -> Entries<EnvActionView>
    decreases lines.len(),
{
    if lines.len() == 0 {
        env
    } else {
        line_set(lines_set(env, lines.drop_last()), lines.last())
    }
}

/// A list-backed environment module: each line of `list` is split on the first
/// `=` into name and value.
pub open spec fn list_set(env: Entries<EnvActionView>, list: Seq<char>) -> Entries<EnvActionView> {
    lines_set(env, split_at_char(list, '\n'))
}

/// Applies a list-backed environment module: each non-empty line of `list` is
/// split on the first `=` into `name=value` and set. Lines without `=` or with
/// an empty name are skipped.
pub fn apply_list_env(env: &mut OrderedMap<EnvAction>, list: &str)
    ensures
        final(env).deep_view() == list_set(old(env).deep_view(), list@),
{
    let lines = split_char(list, '\n');
    let ghost start = env.deep_view();
    let ghost l = lines.deep_view();
    let mut i: usize = 0;
    assert(lines_set(start, l.take(0)) == start);
    while i < lines.len()
        invariant
            l == lines.deep_view(),
            i <= lines@.len(),
            env.deep_view() == lines_set(start, l.take(i as int)),
        decreases lines@.len() - i,
    {
        assert(l.take(i + 1).drop_last() =~= l.take(i as int));
        assert(l.take(i + 1).last() == lines@[i as int]@);
        match split_once(lines[i].as_str(), '=') {
            Some((name, value)) => {
                if chars_of(name.as_str()).len() > 0 {
                    env.insert(name, EnvAction::Assign(value));
                }
            },
            None => {},
        }
        i += 1;
    }
    assert(l.take(l.len() as int) =~= l);
}

/// The lines that are not empty, behind `args`.
pub open spec fn lines_kept(args: Seq<Seq<char>>, lines: Seq<Seq<char>>) -> Seq<Seq<char>>
    decreases lines.len(),
{
    if lines.len() == 0 {
        args
    } else if lines.last().len() == 0 {
        lines_kept(args, lines.drop_last())
    } else {
        lines_kept(args, lines.drop_last()).push(lines.last())
    }
}

/// Appends each non-empty line of `list` as one argument, verbatim.
fn apply_list_args(args: &mut Vec<String>, list: &str)
    ensures
        final(args).deep_view() == lines_kept(old(args).deep_view(), split_at_char(list@, '\n')),
{
    let lines = split_char(list, '\n');
    let ghost start = args.deep_view();
    let ghost l = lines.deep_view();
    let mut i: usize = 0;
    assert(lines_kept(start, l.take(0)) == start);
    while i < lines.len()
        invariant
            l == lines.deep_view(),
            i <= lines@.len(),
            args.deep_view() == lines_kept(start, l.take(i as int)),
        decreases lines@.len() - i,
    {
        assert(l.take(i + 1).drop_last() =~= l.take(i as int));
        assert(l.take(i + 1).last() == lines@[i as int]@);
        if chars_of(lines[i].as_str()).len() > 0 {
            let ghost before = args.deep_view();
            let line = lines[i].clone();
            args.push(line);
            assert(args.deep_view() =~= before.push(line@));
        }
        i += 1;
    }
    assert(l.take(l.len() as int) =~= l);
}

/// The blocks that list-backed modules add to.
pub struct Blocks {
    pub env: Entries<EnvActionView>,
    pub game_env: Entries<EnvActionView>,
    pub args: Seq<Seq<char>>,
}

/// What one extension's backend adds: the lines of its list variable.
pub open spec fn backend_applied(b: Blocks, input: InputView) -> Blocks {
    match input.spec.backend {
        Some(name) => if name == "custom-env"@ {
            Blocks { env: list_set(b.env, input.vars.value("env"@)), ..b }
        } else if name == "custom-game-env"@ {
            Blocks { game_env: list_set(b.game_env, input.vars.value("game_env"@)), ..b }
        } else if name == "custom-args"@ {
            Blocks {
                args: lines_kept(b.args, split_at_char(input.vars.value("args"@), '\n')),
                ..b
            }
        } else {
            b
        },
        None => b,
    }
}

/// What the backends of all extensions add, in order.
pub open spec fn backends_applied(b: Blocks, inputs: Seq<InputView>) -> Blocks
    decreases inputs.len(),
{
    if inputs.len() == 0 {
        b
    } else {
        backend_applied(backends_applied(b, inputs.drop_last()), inputs.last())
    }
}

// ---- The whole command -----------------------------------------------------

/// The launch command of a set of extensions around a game command, or the first
/// error: environment, wrappers, game environment, arguments, in this order.
pub open spec fn built(inputs: Seq<InputView>, game_command: Seq<Seq<char>>) -> Outcome<
    LaunchCommandView,
> {
    match env_block(inputs, EnvScope::Chain) {
        Err(e) => Err(e),
        Ok(env) => match wrapper_block(inputs) {
            Err(e) => Err(e),
            Ok(wrappers) => match env_block(inputs, EnvScope::Game) {
                Err(e) => Err(e),
                Ok(game_env) => match inputs_args(inputs, seq![]) {
                    Err(e) => Err(e),
                    Ok(args) => {
                        let b = backends_applied(Blocks { env, game_env, args }, inputs);
                        Ok(
                            LaunchCommandView {
                                env_vars: b.env,
                                wrappers,
                                game_env_vars: b.game_env,
                                game_command,
                                game_args: b.args,
                            },
                        )
                    },
                },
            },
        },
    }
}

/// Builds the full launch command.
pub fn build(inputs: &[ExtInput<'_>], game_command: &[String]) -> (r: Result<LaunchCommand>)
    ensures
        outcome(r) == built(inputs.deep_view(), game_command.deep_view()),
{
    let mut env_vars = build_env_block(inputs, EnvScope::Chain)?;
    let wrappers = build_wrappers(inputs)?;
    let mut game_env_vars = build_env_block(inputs, EnvScope::Game)?;
    let mut game_args = build_args(inputs)?;
    let ghost d = inputs.deep_view();
    let ghost start = Blocks {
        env: env_vars.deep_view(),
        game_env: game_env_vars.deep_view(),
        args: game_args.deep_view(),
    };
    let mut i: usize = 0;
    assert(d.take(0).len() == 0);
    while i < inputs.len()
        invariant
            d == inputs.deep_view(),
            i <= inputs@.len(),
            backends_applied(start, d.take(i as int)) == (Blocks {
                env: env_vars.deep_view(),
                game_env: game_env_vars.deep_view(),
                args: game_args.deep_view(),
            }),
        decreases inputs@.len() - i,
    {
        let input = &inputs[i];
        assert(d.take(i + 1).drop_last() =~= d.take(i as int));
        assert(d.take(i + 1).last() == input.deep_view());
        match &input.spec.backend {
            Some(name) => {
                if same_text(name.as_str(), "custom-env") {
                    apply_list_env(&mut env_vars, input.vars.value("env"));
                } else if same_text(name.as_str(), "custom-game-env") {
                    apply_list_env(&mut game_env_vars, input.vars.value("game_env"));
                } else if same_text(name.as_str(), "custom-args") {
                    apply_list_args(&mut game_args, input.vars.value("args"));
                }
            },
            None => {},
        }
        i += 1;
    }
    assert(d.take(d.len() as int) =~= d);
    let game_command = to_vec(game_command);
    Ok(LaunchCommand { env_vars, wrappers, game_env_vars, game_command, game_args })
}

// ---- Display ---------------------------------------------------------------

/// A character that needs no quoting.
pub open spec fn is_plain(c: char) -> bool {
    is_alnum(c) || c == '-' || c == '_' || c == '=' || c == '/' || c == '.' || c == ',' || c == ':'
        || c == '+' || c == '@' || c == '%'
}

/// A token as a shell reads it: quoted only where it needs to be.
pub open spec fn quoted(s: Seq<char>) -> Seq<char> {
    if s.len() == 0 {
        "''"@
    } else if forall|i: int| 0 <= i < s.len() ==> is_plain(#[trigger] s[i]) {
        s
    } else {
        "'"@ + replaced(s, "'"@, "'\\''"@) + "'"@
    }
}

/// Minimal shell quoting: only quotes tokens that need it. Leaves `KEY=VAL`,
/// paths, and common flag characters unquoted.
pub fn shq(s: &str) -> (r: String)
    ensures
        r@ == quoted(s@),
{
    let chars = chars_of(s);
    if chars.len() == 0 {
        return "''".to_owned();
    }
    let mut i: usize = 0;
    while i < chars.len()
        invariant
            chars@ == s@,
            s@.len() > 0,
            i <= chars@.len(),
            forall|j: int| 0 <= j < i ==> is_plain(#[trigger] s@[j]),
        decreases chars@.len() - i,
    {
        let c = chars[i];
        if !(alnum(c) || c == '-' || c == '_' || c == '=' || c == '/' || c == '.' || c == ',' || c
            == ':' || c == '+' || c == '@' || c == '%') {
            assert(!is_plain(s@[i as int]));
            proof {
                reveal_strlit("'");
            }
            let inner = replace(s, "'", "'\\''");
            let mut r = String::new();
            r.append("'");
            r.append(inner.as_str());
            r.append("'");
            assert(r@ =~= "'"@ + inner@ + "'"@);
            return r;
        }
        i += 1;
    }
    s.to_owned()
}

/// The tokens that make `env` perform one action.
pub open spec fn env_word(k: Seq<char>, a: EnvActionView, quote: bool) -> Seq<Seq<char>> {
    match a {
        EnvActionView::Unset => seq![
            "-u"@,
            if quote {
                quoted(k)
            } else {
                k
            },
        ],
        EnvActionView::Assign(v) => seq![
            k + "="@ + (if quote {
                quoted(v)
            } else {
                v
            }),
        ],
    }
}

/// The tokens that make `env` perform all actions, in order.
pub open spec fn env_words(env: Entries<EnvActionView>, quote: bool) -> Seq<Seq<char>>
    decreases env.len(),
{
    if env.len() == 0 {
        seq![]
    } else {
        env_words(env.drop_last(), quote) + env_word(env.last().0, env.last().1, quote)
    }
}

/// Some variable is unset.
pub open spec fn any_unset(env: Entries<EnvActionView>) -> bool {
    exists|i: int| 0 <= i < env.len() && (#[trigger] env[i]).1 is Unset
}

/// The environment as a prefix: `KEY=VAL …`, or `env -u KEY …` where a variable
/// is unset.
pub open spec fn prefix_words(env: Entries<EnvActionView>) -> Seq<Seq<char>> {
    if any_unset(env) {
        seq!["env"@] + env_words(env, true)
    } else {
        env_words(env, true)
    }
}

/// The tokens of an `env` shim.
pub open spec fn shim_words(env: Entries<EnvActionView>, quote: bool) -> Seq<Seq<char>> {
    seq!["env"@] + env_words(env, quote)
}

/// `more` put into `env`, in order.
pub open spec fn merged(
    env: Entries<EnvActionView>,
    more: Entries<EnvActionView>,
) -> Entries<EnvActionView>
    decreases more.len(),
{
    if more.len() == 0 {
        env
    } else {
        put(merged(env, more.drop_last()), more.last().0, more.last().1)
    }
}

/// Each token quoted.
pub open spec fn all_quoted(tokens: Seq<Seq<char>>) -> Seq<Seq<char>> {
    tokens.map_values(|t: Seq<char>| quoted(t))
}

fn push_env_words(out: &mut Vec<String>, env: &OrderedMap<EnvAction>, quote: bool)
    ensures
        final(out).deep_view() == old(out).deep_view() + env_words(env.deep_view(), quote),
{
    let n: usize = env.len();
    let ghost start = out.deep_view();
    let ghost d = env.deep_view();
    let mut i: usize = 0;
    assert(start + env_words(d.take(0), quote) =~= start);
    while i < n
        invariant
            d == env.deep_view(),
            i <= n == d.len(),
            out.deep_view() == start + env_words(d.take(i as int), quote),
        decreases n - i,
    {
        let ghost before = out.deep_view();
        let k = env.key_at(i);
        assert(d.take(i + 1).drop_last() =~= d.take(i as int));
        match env.value_at(i) {
            EnvAction::Unset => {
                let name = if quote {
                    shq(k.as_str())
                } else {
                    k.clone()
                };
                out.push("-u".to_owned());
                out.push(name);
                assert(out.deep_view() =~= before + seq!["-u"@, name@]);
            },
            EnvAction::Assign(v) => {
                let mut word = k.clone();
                word.append("=");
                if quote {
                    word.append(shq(v.as_str()).as_str());
                } else {
                    word.append(v.as_str());
                }
                out.push(word);
                assert(out.deep_view() =~= before + seq![word@]);
            },
        }
        i += 1;
        assert(out.deep_view() =~= start + env_words(d.take(i as int), quote));
    }
    assert(d.take(n as int) =~= d);
}

fn push_quoted(out: &mut Vec<String>, tokens: &Vec<String>)
    ensures
        final(out).deep_view() == old(out).deep_view() + all_quoted(tokens.deep_view()),
{
    let ghost start = out.deep_view();
    let ghost d = all_quoted(tokens.deep_view());
    let mut i: usize = 0;
    assert(start + d.take(0) =~= start);
    while i < tokens.len()
        invariant
            d == all_quoted(tokens.deep_view()),
            i <= tokens@.len(),
            out.deep_view() == start + d.take(i as int),
        decreases tokens@.len() - i,
    {
        let ghost before = out.deep_view();
        let q = shq(tokens[i].as_str());
        assert(q@ == d[i as int]);
        out.push(q);
        assert(out.deep_view() =~= before.push(q@));
        i += 1;
        assert(out.deep_view() =~= start + d.take(i as int));
    }
    assert(d.take(d.len() as int) =~= d);
}

/// Renders an environment as a prefix.
fn render_prefix_env(env: &OrderedMap<EnvAction>) -> (r: Vec<String>)
    ensures
        r.deep_view() == prefix_words(env.deep_view()),
{
    let mut out: Vec<String> = Vec::new();
    let ghost d = env.deep_view();
    let n: usize = env.len();
    let mut has_unset = false;
    let mut i: usize = 0;
    while i < n
        invariant
            d == env.deep_view(),
            i <= n == d.len(),
            has_unset == exists|j: int| 0 <= j < i && (#[trigger] d[j]).1 is Unset,
        decreases n - i,
    {
        match env.value_at(i) {
            EnvAction::Unset => {
                has_unset = true;
            },
            EnvAction::Assign(_) => {},
        }
        i += 1;
    }
    if has_unset {
        out.push("env".to_owned());
    }
    assert(out.deep_view() =~= if has_unset {
        seq!["env"@]
    } else {
        seq![]
    });
    push_env_words(&mut out, env, true);
    assert(out.deep_view() =~= prefix_words(d));
    out
}

/// Appends an `env` shim.
fn push_env_shim(out: &mut Vec<String>, env: &OrderedMap<EnvAction>, quote: bool)
    ensures
        final(out).deep_view() == old(out).deep_view() + shim_words(env.deep_view(), quote),
{
    let ghost start = out.deep_view();
    out.push("env".to_owned());
    assert(out.deep_view() =~= start + seq!["env"@]);
    push_env_words(out, env, quote);
    assert(out.deep_view() =~= start + shim_words(env.deep_view(), quote));
}

fn merge_env(env: &OrderedMap<EnvAction>, more: &OrderedMap<EnvAction>) -> (r: OrderedMap<EnvAction>)
    ensures
        r.deep_view() == merged(env.deep_view(), more.deep_view()),
{
    let mut out = env.duplicate();
    let ghost d = more.deep_view();
    let ghost start = env.deep_view();
    let n: usize = more.len();
    let mut i: usize = 0;
    assert(merged(start, d.take(0)) == start);
    while i < n
        invariant
            d == more.deep_view(),
            i <= n == d.len(),
            out.deep_view() == merged(start, d.take(i as int)),
        decreases n - i,
    {
        assert(d.take(i + 1).drop_last() =~= d.take(i as int));
        out.insert(more.key_at(i).clone(), more.value_at(i).duplicate());
        i += 1;
    }
    assert(d.take(n as int) =~= d);
    out
}

impl LaunchCommandView {
    /// What stands in front of the game command when it is shown.
    pub open spec fn shown_prefix(self) -> Seq<Seq<char>> {
        if self.wrappers.len() == 0 {
            prefix_words(merged(self.env_vars, self.game_env_vars))
        } else {
            prefix_words(self.env_vars) + all_quoted(self.wrappers) + (
            if self.game_env_vars.len() == 0 {
                seq![]
            } else {
                shim_words(self.game_env_vars, true)
            })
        }
    }

    /// The command as it is shown, quoted for a shell.
    pub open spec fn shown(self) -> Seq<Seq<char>> {
        self.shown_prefix() + all_quoted(self.game_command) + all_quoted(self.game_args)
    }

    /// The command as one line: its words, a space between them.
    pub open spec fn line(self) -> Seq<char> {
        joined(self.shown(), " "@)
    }

    /// What stands in front of the game command when it is run.
    pub open spec fn argv_prefix(self) -> Seq<Seq<char>> {
        if self.wrappers.len() == 0 {
            seq![]
        } else {
            self.wrappers + (if self.game_env_vars.len() == 0 {
                seq![]
            } else {
                shim_words(self.game_env_vars, false)
            })
        }
    }

    /// The command as it is run.
    pub open spec fn argv(self) -> Seq<Seq<char>> {
        self.argv_prefix() + self.game_command + self.game_args
    }

    /// The environment of the child process.
    pub open spec fn child_env(self) -> Entries<EnvActionView> {
        if self.wrappers.len() == 0 {
            merged(self.env_vars, self.game_env_vars)
        } else {
            self.env_vars
        }
    }

    /// The spawnable plan, where there is a game command.
    pub open spec fn plan(self) -> Option<ExecPlanView> {
        if self.game_command.len() == 0 {
            None
        } else {
            Some(
                ExecPlanView {
                    program: self.argv()[0],
                    args: self.argv().drop_first(),
                    env: self.child_env(),
                },
            )
        }
    }
}

impl LaunchCommand {
    /// Flat token list for display (shell-quoted).
    pub fn display_tokens(&self) -> (r: Vec<String>)
        ensures
            r.deep_view() == self.deep_view().shown(),
    {
        let mut parts: Vec<String>;
        if self.wrappers.len() == 0 {
            // No wrapper: game env and chain env share the same scope.
            let merged_env = merge_env(&self.env_vars, &self.game_env_vars);
            parts = render_prefix_env(&merged_env);
        } else {
            parts = render_prefix_env(&self.env_vars);
            push_quoted(&mut parts, &self.wrappers);
            if !self.game_env_vars.is_empty() {
                push_env_shim(&mut parts, &self.game_env_vars, true);
            }
        }
        assert(parts.deep_view() =~= self.deep_view().shown_prefix());
        push_quoted(&mut parts, &self.game_command);
        push_quoted(&mut parts, &self.game_args);
        parts
    }

    /// The command as one line.
    pub fn text(&self) -> (r: String)
        ensures
            r@ == self.deep_view().line(),
    {
        join(&self.display_tokens(), " ")
    }

    /// Produces a spawnable [`ExecPlan`], or `None` where there is no game
    /// command.
    ///
    /// Game-only env is realized through the `env` shim inside argv when a
    /// wrapper is present (so wrappers don't see it); with no wrapper it merges
    /// into the child's process environment.
    pub fn exec_plan(&self) -> (r: Option<ExecPlan>)
        ensures
            r.deep_view() == self.deep_view().plan(),
    {
        if self.game_command.len() == 0 {
            return None;
        }
        let env: OrderedMap<EnvAction>;
        let mut argv: Vec<String> = Vec::new();
        if self.wrappers.len() == 0 {
            env = merge_env(&self.env_vars, &self.game_env_vars);
        } else {
            env = self.env_vars.duplicate();
            crate::data::extend(&mut argv, &self.wrappers);
            if !self.game_env_vars.is_empty() {
                push_env_shim(&mut argv, &self.game_env_vars, false);
            }
        }
        assert(argv.deep_view() =~= self.deep_view().argv_prefix());
        crate::data::extend(&mut argv, &self.game_command);
        crate::data::extend(&mut argv, &self.game_args);
        let ghost all = argv.deep_view();
        let program = argv.remove(0);
        assert(program@ == all[0]);
        assert(argv.deep_view() =~= all.drop_first());
        Some(ExecPlan { program, args: argv, env })
    }
}

// ---- Laws ------------------------------------------------------------------

/// The game command is kept verbatim: it stands unchanged in the built command,
/// and in argv between what was put in front of it and the extra arguments.
/// There is something to run exactly where there is a game command.
pub proof fn law_command_is_verbatim(inputs: Seq<InputView>, game_command: Seq<Seq<char>>)
    ensures
        built(inputs, game_command) matches Ok(l) ==> {
            &&& l.game_command == game_command
            &&& l.plan() is Some <==> game_command.len() > 0
            &&& l.plan() matches Some(p) ==> seq![p.program] + p.args == l.argv_prefix()
                + game_command + l.game_args
        },
{
    if let Ok(l) = built(inputs, game_command) {
        if l.plan() is Some {
            let all = l.argv();
            assert(seq![all[0]] + all.drop_first() =~= all);
        }
    }
}

/// What is shown is what is run: the child's environment, then argv, each token in
/// the quoting of a shell; of the variables set for the game alone, the values are
/// quoted.
pub proof fn law_shown_is_run(l: LaunchCommandView)
    ensures
        l.wrappers.len() == 0 || l.game_env_vars.len() == 0 ==> l.shown() == prefix_words(
            l.child_env(),
        ) + all_quoted(l.argv()),
        l.wrappers.len() > 0 && l.game_env_vars.len() > 0 ==> {
            &&& l.argv() == l.wrappers + shim_words(l.game_env_vars, false) + (l.game_command
                + l.game_args)
            &&& l.shown() == prefix_words(l.child_env()) + all_quoted(l.wrappers) + shim_words(
                l.game_env_vars,
                true,
            ) + all_quoted(l.game_command + l.game_args)
        },
{
    let tail = l.game_command + l.game_args;
    assert(all_quoted(tail) =~= all_quoted(l.game_command) + all_quoted(l.game_args));
    if l.wrappers.len() == 0 {
        assert(l.argv() =~= tail);
        assert(l.shown() =~= prefix_words(l.child_env()) + all_quoted(tail));
    } else if l.game_env_vars.len() == 0 {
        assert(l.argv() =~= l.wrappers + tail);
        assert(all_quoted(l.argv()) =~= all_quoted(l.wrappers) + all_quoted(tail));
        assert(l.shown() =~= prefix_words(l.child_env()) + all_quoted(l.argv()));
    } else {
        assert(l.argv() =~= l.wrappers + shim_words(l.game_env_vars, false) + tail);
        assert(l.shown() =~= prefix_words(l.child_env()) + all_quoted(l.wrappers) + shim_words(
            l.game_env_vars,
            true,
        ) + all_quoted(tail));
    }
}

/// The text that a shell reads a word as: a quote `'` opens and closes a part that
/// is taken as it is, and outside of one a backslash does so for the next character.
pub open spec fn unquoted(word: Seq<char>, inside: bool) -> Seq<char>
    decreases word.len(),
{
    if word.len() == 0 {
        seq![]
    } else if word[0] == '\'' {
        unquoted(word.skip(1), !inside)
    } else if !inside && word[0] == '\\' && word.len() > 1 {
        seq![word[1]] + unquoted(word.skip(2), false)
    } else {
        seq![word[0]] + unquoted(word.skip(1), inside)
    }
}

proof fn lemma_unquoted_plain(s: Seq<char>)
    requires
        forall|i: int| 0 <= i < s.len() ==> is_plain(#[trigger] s[i]),
    ensures
        unquoted(s, false) == s,
    decreases s.len(),
{
    if s.len() > 0 {
        assert(is_plain(s[0]));
        assert forall|i: int| 0 <= i < s.skip(1).len() implies is_plain(#[trigger] s.skip(1)[i]) by {
            assert(is_plain(s[i + 1]));
        }
        lemma_unquoted_plain(s.skip(1));
        assert(seq![s[0]] + s.skip(1) =~= s);
    } else {
        assert(s =~= seq![]);
    }
}

proof fn lemma_unquoted_inside(s: Seq<char>)
    ensures
        unquoted(replaced(s, "'"@, "'\\''"@) + "'"@, true) == s,
    decreases s.len(),
{
    reveal_strlit("'");
    reveal_strlit("'\\''");
    let q = "'"@;
    let esc = "'\\''"@;
    assert(q =~= seq!['\'']);
    assert(esc =~= seq!['\'', '\\', '\'', '\'']);
    let whole = replaced(s, q, esc) + q;
    if s.len() == 0 {
        assert(whole =~= q);
        assert(q.skip(1) =~= seq![]);
        assert(unquoted(q.skip(1), false) =~= seq![]);
        assert(s =~= seq![]);
    } else if s[0] == '\'' {
        assert(s.take(1) =~= q);
        assert(crate::text::begins(s, q));
        let rest = s.skip(1);
        lemma_unquoted_inside(rest);
        let tail = replaced(rest, q, esc) + q;
        assert(whole =~= esc + tail);
        assert(whole.skip(1) =~= seq!['\\', '\'', '\''] + tail);
        assert(whole.skip(1).skip(2) =~= seq!['\''] + tail);
        assert((seq!['\''] + tail).skip(1) =~= tail);
        assert(unquoted(seq!['\''] + tail, false) == unquoted(tail, true));
        assert(unquoted(whole.skip(1), false) == seq!['\''] + unquoted(tail, true));
        assert(seq!['\''] + rest =~= s);
    } else {
        assert(!crate::text::begins(s, q)) by {
            if crate::text::begins(s, q) {
                assert(s.take(1)[0] == q[0]);
            }
        }
        let rest = s.drop_first();
        lemma_unquoted_inside(rest);
        let tail = replaced(rest, q, esc) + q;
        assert(whole =~= seq![s[0]] + tail);
        assert(whole.skip(1) =~= tail);
        assert(seq![s[0]] + rest =~= s);
    }
}

/// A shell reads a quoted token as the token, and as one word: no token is quoted
/// to nothing.
pub proof fn law_quoting_is_undone(s: Seq<char>)
    ensures
        unquoted(quoted(s), false) == s,
        quoted(s).len() > 0,
{
    reveal_strlit("'");
    reveal_strlit("''");
    assert("''"@ =~= seq!['\'', '\'']);
    assert("'"@ =~= seq!['\'']);
    if s.len() == 0 {
        let w = "''"@;
        assert(w.skip(1) =~= seq!['\'']);
        assert(w.skip(1).skip(1) =~= seq![]);
        assert(unquoted(w.skip(1).skip(1), false) =~= seq![]);
        assert(unquoted(w.skip(1), true) =~= seq![]);
        assert(s =~= seq![]);
    } else if forall|i: int| 0 <= i < s.len() ==> is_plain(#[trigger] s[i]) {
        lemma_unquoted_plain(s);
    } else {
        lemma_unquoted_inside(s);
        let tail = replaced(s, "'"@, "'\\''"@) + "'"@;
        assert(quoted(s) =~= "'"@ + tail);
        assert(quoted(s).skip(1) =~= tail);
    }
}

/// A word that a shell reads as one: its quotes are closed, and outside of them stand
/// characters that mean themselves, and escapes.
pub open spec fn closed_word(word: Seq<char>, inside: bool) -> bool
    decreases word.len(),
{
    if word.len() == 0 {
        !inside
    } else if word[0] == '\'' {
        closed_word(word.skip(1), !inside)
    } else if inside {
        closed_word(word.skip(1), true)
    } else if word[0] == '\\' && word.len() > 1 && word[1] != '\n' {
        closed_word(word.skip(2), false)
    } else {
        is_plain(word[0]) && closed_word(word.skip(1), false)
    }
}

/// How long the word is that a line begins with: it ends at a space outside of quotes.
/// Nothing is said of a line with an open quote, or with a character outside of quotes
/// that a shell may take for something else.
pub open spec fn word_length(line: Seq<char>, inside: bool) -> Option<int>
    decreases line.len(),
{
    if line.len() == 0 {
        if inside {
            None
        } else {
            Some(0)
        }
    } else if line[0] == '\'' {
        longer(word_length(line.skip(1), !inside), 1)
    } else if inside {
        longer(word_length(line.skip(1), true), 1)
    } else if line[0] == '\\' && line.len() > 1 && line[1] != '\n' {
        longer(word_length(line.skip(2), false), 2)
    } else if line[0] == ' ' {
        Some(0)
    } else if is_plain(line[0]) {
        longer(word_length(line.skip(1), false), 1)
    } else {
        None
    }
}

/// A length with `n` more.
pub open spec fn longer(length: Option<int>, n: int) -> Option<int> {
    match length {
        Some(k) => Some(k + n),
        None => None,
    }
}

/// The words that a shell reads a line as: those between spaces, each without its
/// quotes.
pub open spec fn line_words(line: Seq<char>) -> Option<Seq<Seq<char>>>
    decreases line.len(),
{
    if line.len() == 0 {
        Some(seq![])
    } else if line[0] == ' ' {
        line_words(line.skip(1))
    } else {
        match word_length(line, false) {
            Some(n) => if 0 < n <= line.len() {
                match line_words(line.skip(n)) {
                    Some(rest) => Some(seq![unquoted(line.take(n), false)] + rest),
                    None => None,
                }
            } else {
                None
            },
            None => None,
        }
    }
}

proof fn lemma_word_length(word: Seq<char>, rest: Seq<char>, inside: bool)
    requires
        closed_word(word, inside),
        rest.len() > 0 ==> rest[0] == ' ',
    ensures
        word_length(word + rest, inside) == Some(word.len() as int),
    decreases word.len(),
{
    let line = word + rest;
    if word.len() == 0 {
        assert(line =~= rest);
    } else {
        assert(line[0] == word[0]);
        assert(line.skip(1) =~= word.skip(1) + rest);
        if word[0] == '\'' {
            lemma_word_length(word.skip(1), rest, !inside);
        } else if inside {
            lemma_word_length(word.skip(1), rest, true);
        } else if word[0] == '\\' && word.len() > 1 && word[1] != '\n' {
            assert(line[1] == word[1]);
            assert(line.skip(2) =~= word.skip(2) + rest);
            lemma_word_length(word.skip(2), rest, false);
        } else {
            lemma_word_length(word.skip(1), rest, false);
        }
    }
}

proof fn lemma_closed_parts(a: Seq<char>, b: Seq<char>, inside: bool)
    requires
        closed_word(a, inside),
        closed_word(b, false),
    ensures
        closed_word(a + b, inside),
        unquoted(a + b, inside) == unquoted(a, inside) + unquoted(b, false),
    decreases a.len(),
{
    let w = a + b;
    if a.len() == 0 {
        assert(w =~= b);
        assert(unquoted(a, inside) + unquoted(b, false) =~= unquoted(b, false));
    } else {
        assert(w[0] == a[0]);
        assert(w.skip(1) =~= a.skip(1) + b);
        if a[0] == '\'' {
            lemma_closed_parts(a.skip(1), b, !inside);
        } else if inside {
            lemma_closed_parts(a.skip(1), b, true);
            assert(unquoted(w, inside) =~= unquoted(a, inside) + unquoted(b, false));
        } else if a[0] == '\\' && a.len() > 1 && a[1] != '\n' {
            assert(w[1] == a[1]);
            assert(w.skip(2) =~= a.skip(2) + b);
            lemma_closed_parts(a.skip(2), b, false);
            assert(unquoted(w, inside) =~= unquoted(a, inside) + unquoted(b, false));
        } else {
            lemma_closed_parts(a.skip(1), b, false);
            assert(unquoted(w, inside) =~= unquoted(a, inside) + unquoted(b, false));
        }
    }
}

/// A word of plain characters.
pub open spec fn plain_word(word: Seq<char>) -> bool {
    forall|i: int| 0 <= i < word.len() ==> is_plain(#[trigger] word[i])
}

proof fn lemma_closed_plain(word: Seq<char>)
    requires
        plain_word(word),
    ensures
        closed_word(word, false),
        unquoted(word, false) == word,
    decreases word.len(),
{
    lemma_unquoted_plain(word);
    if word.len() > 0 {
        assert(is_plain(word[0]));
        assert forall|i: int| 0 <= i < word.skip(1).len() implies is_plain(
            #[trigger] word.skip(1)[i],
        ) by {
            assert(is_plain(word[i + 1]));
        }
        lemma_closed_plain(word.skip(1));
    }
}

proof fn lemma_closed_inside(s: Seq<char>)
    ensures
        closed_word(replaced(s, "'"@, "'\\''"@) + "'"@, true),
    decreases s.len(),
{
    reveal_strlit("'");
    reveal_strlit("'\\''");
    let q = "'"@;
    let esc = "'\\''"@;
    assert(q =~= seq!['\'']);
    assert(esc =~= seq!['\'', '\\', '\'', '\'']);
    let whole = replaced(s, q, esc) + q;
    if s.len() == 0 {
        assert(whole =~= q);
        assert(q.skip(1) =~= seq![]);
        assert(closed_word(q.skip(1), false));
    } else if s[0] == '\'' {
        assert(s.take(1) =~= q);
        assert(crate::text::begins(s, q));
        let rest = s.skip(1);
        lemma_closed_inside(rest);
        let tail = replaced(rest, q, esc) + q;
        assert(whole =~= esc + tail);
        assert(whole.skip(1) =~= seq!['\\', '\'', '\''] + tail);
        assert(whole.skip(1).skip(2) =~= seq!['\''] + tail);
        assert((seq!['\''] + tail).skip(1) =~= tail);
        assert(closed_word(seq!['\''] + tail, false));
        assert(closed_word(whole.skip(1), false));
    } else {
        assert(!crate::text::begins(s, q)) by {
            if crate::text::begins(s, q) {
                assert(s.take(1)[0] == q[0]);
            }
        }
        let rest = s.drop_first();
        lemma_closed_inside(rest);
        let tail = replaced(rest, q, esc) + q;
        assert(whole =~= seq![s[0]] + tail);
        assert(whole.skip(1) =~= tail);
    }
}

proof fn lemma_closed_quoted(s: Seq<char>)
    ensures
        closed_word(quoted(s), false),
        unquoted(quoted(s), false) == s,
        quoted(s).len() > 0,
{
    law_quoting_is_undone(s);
    reveal_strlit("'");
    reveal_strlit("''");
    assert("''"@ =~= seq!['\'', '\'']);
    assert("'"@ =~= seq!['\'']);
    if s.len() == 0 {
        let w = "''"@;
        assert(w.skip(1) =~= seq!['\'']);
        assert(w.skip(1).skip(1) =~= seq![]);
        assert(closed_word(w.skip(1).skip(1), false));
        assert(closed_word(w.skip(1), true));
    } else if forall|i: int| 0 <= i < s.len() ==> is_plain(#[trigger] s[i]) {
        lemma_closed_plain(s);
    } else {
        lemma_closed_inside(s);
        let tail = replaced(s, "'"@, "'\\''"@) + "'"@;
        assert(quoted(s) =~= "'"@ + tail);
        assert(quoted(s).skip(1) =~= tail);
    }
}

/// `shown` are words that a shell reads as `meant`, one for one.
spec fn read_as(shown: Seq<Seq<char>>, meant: Seq<Seq<char>>) -> bool {
    &&& shown.len() == meant.len()
    &&& forall|i: int|
        0 <= i < shown.len() ==> {
            let w = #[trigger] shown[i];
            w.len() > 0 && closed_word(w, false) && unquoted(w, false) == meant[i]
        }
}

proof fn lemma_read_parts(
    a: Seq<Seq<char>>,
    x: Seq<Seq<char>>,
    b: Seq<Seq<char>>,
    y: Seq<Seq<char>>,
)
    requires
        read_as(a, x),
        read_as(b, y),
    ensures
        read_as(a + b, x + y),
{
    assert forall|i: int| 0 <= i < (a + b).len() implies {
        let w = #[trigger] (a + b)[i];
        w.len() > 0 && closed_word(w, false) && unquoted(w, false) == (x + y)[i]
    } by {
        if i < a.len() {
            assert((a + b)[i] == a[i]);
        } else {
            assert((a + b)[i] == b[i - a.len()]);
        }
    }
}

proof fn lemma_read_quoted(tokens: Seq<Seq<char>>)
    ensures
        read_as(all_quoted(tokens), tokens),
{
    assert forall|i: int| 0 <= i < tokens.len() implies {
        let w = #[trigger] all_quoted(tokens)[i];
        w.len() > 0 && closed_word(w, false) && unquoted(w, false) == tokens[i]
    } by {
        lemma_closed_quoted(tokens[i]);
    }
}

/// The names of the variables that are set are plain words.
pub open spec fn plain_names(env: Entries<EnvActionView>) -> bool {
    forall|i: int|
        0 <= i < env.len() && (#[trigger] env[i]).1 is Assign ==> plain_word(env[i].0)
}

proof fn lemma_read_env(env: Entries<EnvActionView>)
    requires
        plain_names(env),
    ensures
        read_as(env_words(env, true), env_words(env, false)),
    decreases env.len(),
{
    if env.len() > 0 {
        let init = env.drop_last();
        let (k, action) = env.last();
        assert forall|i: int| 0 <= i < init.len() && (#[trigger] init[i]).1 is Assign implies
            plain_word(init[i].0) by {
            assert(init[i] == env[i]);
        }
        lemma_read_env(init);
        let a = env_word(k, action, true);
        let b = env_word(k, action, false);
        match action {
            EnvActionView::Unset => {
                reveal_strlit("-u");
                assert(plain_word("-u"@));
                lemma_closed_plain("-u"@);
                lemma_closed_quoted(k);
            },
            EnvActionView::Assign(v) => {
                assert(env[env.len() - 1].1 is Assign);
                reveal_strlit("=");
                assert(plain_word("="@));
                lemma_closed_plain(k);
                lemma_closed_plain("="@);
                lemma_closed_quoted(v);
                lemma_closed_parts(k, "="@, false);
                lemma_closed_parts(k + "="@, quoted(v), false);
            },
        }
        assert(read_as(a, b));
        lemma_read_parts(env_words(init, true), env_words(init, false), a, b);
    }
}

proof fn lemma_joined_first(parts: Seq<Seq<char>>, sep: Seq<char>)
    requires
        parts.len() > 1,
    ensures
        joined(parts, sep) == parts[0] + (sep + joined(parts.drop_first(), sep)),
    decreases parts.len(),
{
    let init = parts.drop_last();
    let rest = parts.drop_first();
    if parts.len() == 2 {
        assert(init.len() == 1 && rest.len() == 1);
        assert(joined(init, sep) == parts[0]);
        assert(joined(rest, sep) == parts[1]);
        assert(joined(parts, sep) =~= parts[0] + (sep + joined(rest, sep)));
    } else {
        lemma_joined_first(init, sep);
        assert(init.drop_first() =~= rest.drop_last());
        assert(rest.last() == parts.last());
        assert(joined(parts, sep) =~= parts[0] + (sep + joined(rest, sep)));
    }
}

proof fn lemma_line_words(shown: Seq<Seq<char>>, meant: Seq<Seq<char>>)
    requires
        read_as(shown, meant),
    ensures
        line_words(joined(shown, " "@)) == Some(meant),
    decreases shown.len(),
{
    reveal_strlit(" ");
    let line = joined(shown, " "@);
    if shown.len() == 0 {
        assert(meant =~= seq![]);
    } else {
        let w = shown[0];
        let left = shown.drop_first();
        let more = meant.drop_first();
        let rest = if shown.len() == 1 {
            Seq::<char>::empty()
        } else {
            " "@ + joined(left, " "@)
        };
        assert(line =~= w + rest) by {
            if shown.len() > 1 {
                lemma_joined_first(shown, " "@);
            }
        }
        assert(read_as(left, more)) by {
            assert forall|i: int| 0 <= i < left.len() implies {
                let x = #[trigger] left[i];
                x.len() > 0 && closed_word(x, false) && unquoted(x, false) == more[i]
            } by {
                assert(left[i] == shown[i + 1]);
            }
        }
        lemma_line_words(left, more);
        lemma_word_length(w, rest, false);
        let n = w.len() as int;
        assert(line[0] == w[0]);
        assert(w[0] != ' ') by {
            assert(closed_word(w, false));
        }
        assert(line.take(n) =~= w);
        assert(line.skip(n) =~= rest);
        if shown.len() > 1 {
            assert(rest[0] == ' ');
            assert(rest.skip(1) =~= joined(left, " "@));
            assert(line_words(rest) == line_words(joined(left, " "@)));
        } else {
            assert(more =~= seq![]);
            assert(line_words(rest) == Some(more));
        }
        assert(seq![meant[0]] + more =~= meant);
    }
}

/// The environment of a command as plain words: `KEY=VAL …`, with `env` in front and
/// `-u KEY` where a variable is unset.
pub open spec fn prefix_meant(env: Entries<EnvActionView>) -> Seq<Seq<char>> {
    if any_unset(env) {
        seq!["env"@] + env_words(env, false)
    } else {
        env_words(env, false)
    }
}

/// The line that is shown is the command that is run: a shell reads it as the child's
/// environment, the program and its arguments.
pub proof fn law_shown_line_is_run(l: LaunchCommandView)
    requires
        plain_names(l.child_env()),
        plain_names(l.game_env_vars),
    ensures
        line_words(l.line()) == Some(prefix_meant(l.child_env()) + l.argv()),
        l.plan() matches Some(p) ==> line_words(l.line()) == Some(
            prefix_meant(p.env) + (seq![p.program] + p.args),
        ),
{
    law_shown_is_run(l);
    let env = l.child_env();
    let first = seq!["env"@];
    assert(read_as(first, first)) by {
        reveal_strlit("env");
        assert(plain_word("env"@));
        lemma_closed_plain("env"@);
    }
    lemma_read_env(env);
    lemma_read_parts(first, first, env_words(env, true), env_words(env, false));
    assert(read_as(prefix_words(env), prefix_meant(env)));
    let tail = l.game_command + l.game_args;
    if l.wrappers.len() == 0 || l.game_env_vars.len() == 0 {
        lemma_read_quoted(l.argv());
        lemma_read_parts(prefix_words(env), prefix_meant(env), all_quoted(l.argv()), l.argv());
    } else {
        let own = l.game_env_vars;
        lemma_read_env(own);
        lemma_read_parts(first, first, env_words(own, true), env_words(own, false));
        lemma_read_quoted(l.wrappers);
        lemma_read_quoted(tail);
        let a = prefix_words(env) + all_quoted(l.wrappers);
        let x = prefix_meant(env) + l.wrappers;
        lemma_read_parts(prefix_words(env), prefix_meant(env), all_quoted(l.wrappers), l.wrappers);
        let b = a + shim_words(own, true);
        let y = x + shim_words(own, false);
        lemma_read_parts(a, x, shim_words(own, true), shim_words(own, false));
        lemma_read_parts(b, y, all_quoted(tail), tail);
        assert(y + tail =~= prefix_meant(env) + l.argv());
    }
    lemma_line_words(l.shown(), prefix_meant(env) + l.argv());
    if l.plan() is Some {
        let all = l.argv();
        assert(all.len() > 0);
        assert(seq![all[0]] + all.drop_first() =~= all);
    }
}

/// Without extensions the game runs as it was handed over, in an unchanged
/// environment.
pub proof fn law_no_extensions(game_command: Seq<Seq<char>>)
    ensures
        built(seq![], game_command) matches Ok(l) && l.argv() == game_command && l.child_env().len()
            == 0,
{
    let lines = Seq::<WrapperLineView>::empty();
    assert(sorted(lines, order::<WrapperLine>()) == lines);
    let l = built(seq![], game_command)->Ok_0;
    assert(l.argv() =~= game_command);
}

/// Wrappers never see the game-only environment: with a wrapper the child's
/// environment is the chain environment alone, and the game-only variables are
/// set behind all wrapper tokens.
pub proof fn law_game_env_stands_behind_wrappers(l: LaunchCommandView)
    requires
        l.wrappers.len() > 0,
    ensures
        l.child_env() == l.env_vars,
        crate::text::begins(l.argv(), l.wrappers),
        l.game_env_vars.len() > 0 ==> l.argv() == l.wrappers + shim_words(l.game_env_vars, false)
            + l.game_command + l.game_args,
{
    assert(l.argv().take(l.wrappers.len() as int) =~= l.wrappers);
    assert(l.argv_prefix() + l.game_command + l.game_args == l.argv());
}

/// Wrappers stand in order of priority, lower first, those of equal priority in
/// the order of their extensions and declarations; none is lost or doubled.
pub proof fn law_wrappers_are_in_order(inputs: Seq<InputView>, x: WrapperLineView)
    ensures
        lines_from(inputs, 0, seq![]) matches Ok(lines) ==> {
            let s = sorted(lines, order::<WrapperLine>());
            &&& crate::sorting::in_order(s, order::<WrapperLine>())
            &&& s.to_multiset() == lines.to_multiset()
            &&& crate::sorting::ties(s, x, order::<WrapperLine>()) == crate::sorting::ties(
                lines,
                x,
                order::<WrapperLine>(),
            )
        },
{
    let le = order::<WrapperLine>();
    assert(crate::sorting::total(le));
    if let Ok(lines) = lines_from(inputs, 0, seq![]) {
        crate::sorting::law_sorted(lines, le);
        crate::sorting::law_sorted_is_stable(lines, x, le);
    }
}

/// `Assign` and `Unset` make an end of what was built up before them, and what is
/// appended to an unset variable is all that it holds.
pub proof fn law_assign_and_unset_start_over(
    a: AccumView,
    b: AccumView,
    e: EnvBuilderEntryView,
    value: Seq<char>,
)
    ensures
        e.op != EnvOp::Append ==> env_step(a, e, value) == env_step(b, e, value),
        e.op == EnvOp::Append && a.unset && a.value.len() == 0 ==> action_of(env_step(a, e, value))
            == EnvActionView::Assign(value),
{
}

/// In merged environments the later one decides on the names that it holds, and
/// the earlier one on all others.
pub proof fn law_merged(
    env: Entries<EnvActionView>,
    more: Entries<EnvActionView>,
    name: Seq<char>,
)
    requires
        crate::ordered::distinct(env),
        crate::ordered::distinct(more),
    ensures
        crate::ordered::distinct(merged(env, more)),
        value_of(merged(env, more), name) == match value_of(more, name) {
            Some(a) => Some(a),
            None => value_of(env, name),
        },
    decreases more.len(),
{
    if more.len() > 0 {
        let init = more.drop_last();
        let n = more.len() - 1;
        let (k, a) = more.last();
        assert(crate::ordered::distinct(init)) by {
            assert forall|i: int, j: int| 0 <= i < j < init.len() implies (#[trigger] init[i]).0
                != (#[trigger] init[j]).0 by {
                assert(more[i].0 != more[j].0);
            }
        }
        law_merged(env, init, name);
        crate::ordered::law_put(merged(env, init), k, a, name);
        crate::ordered::lemma_found(more, n);
        if name != k {
            if crate::ordered::has_key(more, name) {
                let i = crate::ordered::key_index(more, name);
                assert(0 <= i < more.len() && more[i].0 == name);
                assert(init[i] == more[i]);
                crate::ordered::lemma_found(more, i);
                crate::ordered::lemma_found(init, i);
            } else if crate::ordered::has_key(init, name) {
                let i = crate::ordered::key_index(init, name);
                assert(0 <= i < init.len() && init[i].0 == name);
                assert(more[i].0 == name);
            }
        }
    }
}

/// A name that a list can give a variable: not empty, without `=`, and without a
/// newline.
pub open spec fn is_list_name(name: Seq<char>) -> bool {
    name.len() > 0 && !name.contains('=') && !name.contains('\n')
}

proof fn lemma_lines_set(env: Entries<EnvActionView>, lines: Seq<Seq<char>>)
    requires
        forall|i: int| 0 <= i < lines.len() ==> !(#[trigger] lines[i]).contains('\n'),
    ensures
        forall|i: int|
            0 <= i < lines_set(env, lines).len() ==> crate::ordered::has_key(
                env,
                (#[trigger] lines_set(env, lines)[i]).0,
            ) || is_list_name(lines_set(env, lines)[i].0),
    decreases lines.len(),
{
    if lines.len() == 0 {
        assert forall|i: int| 0 <= i < env.len() implies crate::ordered::has_key(
            env,
            (#[trigger] env[i]).0,
        ) by {}
    } else {
        let init = lines.drop_last();
        assert forall|i: int| 0 <= i < init.len() implies !(#[trigger] init[i]).contains('\n') by {
            assert(init[i] == lines[i]);
        }
        lemma_lines_set(env, init);
        let before = lines_set(env, init);
        let after = lines_set(env, lines);
        let line = lines.last();
        assert(!lines[lines.len() - 1].contains('\n'));
        if let Some((name, value)) = split_first(line, '=') {
            let at = next_char(line, '=', 0);
            crate::text::lemma_next_char(line, '=', 0);
            assert(!name.contains('=')) by {
                if name.contains('=') {
                    let j = choose|j: int| 0 <= j < name.len() && name[j] == '=';
                    assert(line[j] == '=');
                }
            }
            assert(!name.contains('\n')) by {
                if name.contains('\n') {
                    let j = choose|j: int| 0 <= j < name.len() && name[j] == '\n';
                    assert(line[j] == '\n');
                    assert(line.contains('\n'));
                }
            }
            if name.len() > 0 {
                assert forall|i: int| 0 <= i < after.len() implies crate::ordered::has_key(
                    env,
                    (#[trigger] after[i]).0,
                ) || is_list_name(after[i].0) by {
                    if i < before.len() && after[i] == before[i] {
                        assert(before[i].0 == after[i].0);
                    }
                }
            }
        }
    }
}

/// Every variable that a list sets has a proper name: not empty, without `=`,
/// and without a newline.
pub proof fn law_list_names(env: Entries<EnvActionView>, list: Seq<char>, at: int)
    requires
        0 <= at < list_set(env, list).len(),
    ensures
        crate::ordered::has_key(env, list_set(env, list)[at].0) || is_list_name(
            list_set(env, list)[at].0,
        ),
{
    crate::text::lemma_pieces(list, '\n');
    lemma_lines_set(env, split_at_char(list, '\n'));
}

} // verus!
