//! Process supervision: what to do with the running game, step by step.
//!
//! The supervisor stays the process that Steam tracks for the whole game
//! lifetime. With each tick it looks at the child, the termination flag, the
//! game process and the watched files, and decides what is to be done: forward
//! the termination, fire the game-ready stage, reload, or return the exit code.

use vstd::prelude::*;

verus! {

/// Milliseconds between two ticks.
pub const POLL_MILLIS: u64 = 500;

/// Milliseconds after which the game process is no longer awaited.
pub const READY_TIMEOUT_MILLIS: u64 = 60000;

/// How a child ended: by itself, with a code, or by a signal.
#[derive(Debug, Clone, Copy, PartialEq, Eq, Structural)]
pub struct Ended {
    pub code: Option<i32>,
    pub signal: Option<i32>,
}

/// The exit code of a child: its own, or 128 and the signal that ended it.
pub open spec fn exit_code_of(e: Ended) -> int {
    match e.code {
        Some(code) => code as int,
        None => 128 + (match e.signal {
            Some(signal) => signal as int,
            None => 0,
        }),
    }
}

/// The exit code of a child: its own, or 128 and the signal that ended it.
pub fn exit_code(e: Ended) -> (r: i32)
    requires
        exit_code_of(e) <= i32::MAX,
    ensures
        r == exit_code_of(e),
{
    match e.code {
        Some(code) => code,
        None => 128 + match e.signal {
            Some(signal) => signal,
            None => 0,
        },
    }
}

/// The names that some of `backends` give, in order.
pub open spec fn given(backends: Seq<Option<Seq<char>>>) -> Seq<Seq<char>>
    decreases backends.len(),
{
    if backends.len() == 0 {
        seq![]
    } else {
        match backends.last() {
            Some(name) => given(backends.drop_last()).push(name),
            None => given(backends.drop_last()),
        }
    }
}

/// The processes that tell that the game is up: those of the backends, then the
/// game's own name.
pub open spec fn awaited(
    backends: Seq<Option<Seq<char>>>,
    game_name: Option<Seq<char>>,
) -> Seq<Seq<char>> {
    match game_name {
        Some(name) => given(backends).push(name),
        None => given(backends),
    }
}

/// The processes that tell that the game is up.
pub fn ready_names(backends: &Vec<Option<String>>, game_name: &Option<String>) -> (r: Vec<String>)
    ensures
        r.deep_view() == awaited(backends.deep_view(), game_name.deep_view()),
{
    let mut out: Vec<String> = Vec::new();
    let ghost d = backends.deep_view();
    let mut i: usize = 0;
    assert(out.deep_view() =~= given(d.take(0)));
    while i < backends.len()
        invariant
            d == backends.deep_view(),
            i <= backends@.len(),
            out.deep_view() == given(d.take(i as int)),
        decreases backends@.len() - i,
    {
        assert(d.take(i + 1).drop_last() =~= d.take(i as int));
        assert(d.take(i + 1).last() == backends@[i as int].deep_view());
        match &backends[i] {
            Some(name) => {
                let ghost before = out.deep_view();
                out.push(name.clone());
                assert(out.deep_view() =~= before.push(name@));
            },
            None => {},
        }
        i += 1;
    }
    assert(d.take(d.len() as int) =~= d);
    match game_name {
        Some(name) => {
            let ghost before = out.deep_view();
            out.push(name.clone());
            assert(out.deep_view() =~= before.push(name@));
        },
        None => {},
    }
    out
}

// ---- The tick --------------------------------------------------------------

/// Where supervision stands.
#[derive(Debug, Clone, Copy, PartialEq, Eq, Structural)]
pub struct Supervision {
    /// The termination has been forwarded.
    pub forwarded: bool,
    /// The game process is no longer awaited.
    pub ready_fired: bool,
}

/// What a tick finds.
#[derive(Debug, Clone, Copy, PartialEq, Eq, Structural)]
pub struct Tick {
    /// How the child ended, once it has.
    pub ended: Option<Ended>,
    /// Termination was asked for.
    pub term: bool,
    /// One of the awaited processes is running; looked at only while one is
    /// awaited.
    pub running: bool,
    /// Milliseconds since supervision began.
    pub elapsed: u64,
    /// A watched file has changed.
    pub changed: bool,
}

/// What is to be done after a tick: the exit code to return with, or the steps to
/// take, in this order.
#[derive(Debug, Clone, Copy, PartialEq, Eq, Structural)]
pub struct Todo {
    pub finish: Option<i32>,
    pub forward_term: bool,
    pub fire_ready: bool,
    pub reload: bool,
}

/// What is to be done after a tick.
pub open spec fn todo(s: Supervision, t: Tick) -> Todo {
    match t.ended {
        Some(e) => Todo {
            finish: Some(exit_code_of(e) as i32),
            forward_term: false,
            fire_ready: false,
            reload: false,
        },
        None => Todo {
            finish: None,
            forward_term: t.term && !s.forwarded,
            fire_ready: !s.ready_fired && t.running,
            reload: t.changed,
        },
    }
}

/// Where supervision stands after a tick.
pub open spec fn after(s: Supervision, t: Tick) -> Supervision {
    match t.ended {
        Some(_) => s,
        None => Supervision {
            forwarded: s.forwarded || t.term,
            ready_fired: s.ready_fired || t.running || t.elapsed > READY_TIMEOUT_MILLIS,
        },
    }
}

/// Supervision as it begins, where so many processes are awaited.
pub open spec fn begun(awaited: nat) -> Supervision {
    Supervision { forwarded: false, ready_fired: awaited == 0 }
}

impl Supervision {
    /// Supervision as it begins: without names there is nothing to await.
    pub fn start(names: &Vec<String>) -> (r: Self)
        ensures
            r == begun(names.deep_view().len()),
    {
        Supervision { forwarded: false, ready_fired: names.len() == 0 }
    }

    /// Takes in what a tick finds, and says what is to be done.
    pub fn tick(&mut self, t: Tick) -> (r: Todo)
        requires
            t.ended matches Some(e) ==> exit_code_of(e) <= i32::MAX,
        ensures
            r == todo(*old(self), t),
            *final(self) == after(*old(self), t),
    {
        if let Some(e) = t.ended {
            return Todo {
                finish: Some(exit_code(e)),
                forward_term: false,
                fire_ready: false,
                reload: false,
            };
        }
        let mut forward_term = false;
        if t.term && !self.forwarded {
            forward_term = true;
            self.forwarded = true;
        }
        let mut fire_ready = false;
        if !self.ready_fired {
            if t.running {
                fire_ready = true;
                self.ready_fired = true;
            } else if t.elapsed > READY_TIMEOUT_MILLIS {
                // The game may have no process of that name.
                self.ready_fired = true;
            }
        }
        Todo { finish: None, forward_term, fire_ready, reload: t.changed }
    }
}

// ---- Watched files ---------------------------------------------------------

/// The first position at which the two differ, or their length.
pub open spec fn first_change(last: Seq<Option<i128>>, now: Seq<Option<i128>>, from: int) -> int
    decreases last.len() - from,
{
    if from < 0 || from >= last.len() {
        last.len() as int
    } else if last[from] != now[from] {
        from
    } else {
        first_change(last, now, from + 1)
    }
}

/// The stamps that are remembered after looking at the files: those behind the
/// first change are looked at next time.
pub open spec fn remembered(last: Seq<Option<i128>>, now: Seq<Option<i128>>) -> Seq<Option<i128>> {
    let at = first_change(last, now, 0);
    if at < last.len() {
        last.update(at, now[at])
    } else {
        last
    }
}

fn same_stamp(a: Option<i128>, b: Option<i128>) -> (r: bool)
    ensures
        r == (a == b),
{
    match (a, b) {
        (Some(x), Some(y)) => x == y,
        (None, None) => true,
        _ => false,
    }
}

/// Looks at the time stamps of the watched files: whether one has changed since
/// it was last noticed. One change is noticed at a time.
pub fn notice_change(last: &mut Vec<Option<i128>>, now: &Vec<Option<i128>>) -> (changed: bool)
    requires
        old(last)@.len() == now@.len(),
    ensures
        changed == (old(last)@ != now@),
        final(last)@ == remembered(old(last)@, now@),
{
    let ghost before = last@;
    let n: usize = last.len();
    let mut i: usize = 0;
    while i < n
        invariant
            before == old(last)@,
            last@ == before,
            i <= n == last@.len() == now@.len(),
            forall|j: int| 0 <= j < i ==> before[j] == now@[j],
            first_change(before, now@, 0) == first_change(before, now@, i as int),
        decreases n - i,
    {
        if !same_stamp(last[i], now[i]) {
            last.set(i, now[i]);
            return true;
        }
        i += 1;
    }
    assert(before =~= now@);
    false
}

// ---- Laws ------------------------------------------------------------------

/// Supervision after a series of ticks.
pub open spec fn after_all(s: Supervision, ticks: Seq<Tick>) -> Supervision
    decreases ticks.len(),
{
    if ticks.len() == 0 {
        s
    } else {
        after(after_all(s, ticks.drop_last()), ticks.last())
    }
}

/// What is to be done at the tick `i` of a series.
pub open spec fn todo_at(s: Supervision, ticks: Seq<Tick>, i: int) -> Todo {
    todo(after_all(s, ticks.take(i)), ticks[i])
}

proof fn lemma_stays(s: Supervision, ticks: Seq<Tick>, i: int, j: int)
    requires
        0 <= i <= j <= ticks.len(),
    ensures
        after_all(s, ticks.take(i)).forwarded ==> after_all(s, ticks.take(j)).forwarded,
        after_all(s, ticks.take(i)).ready_fired ==> after_all(s, ticks.take(j)).ready_fired,
    decreases j - i,
{
    if i < j {
        lemma_stays(s, ticks, i, j - 1);
        assert(ticks.take(j).drop_last() =~= ticks.take(j - 1));
    }
}

/// The termination is forwarded once at most, and the game-ready stage fires
/// once at most.
pub proof fn law_fires_once(s: Supervision, ticks: Seq<Tick>, i: int, j: int)
    requires
        0 <= i < j < ticks.len(),
    ensures
        !(todo_at(s, ticks, i).forward_term && todo_at(s, ticks, j).forward_term),
        !(todo_at(s, ticks, i).fire_ready && todo_at(s, ticks, j).fire_ready),
{
    assert(ticks.take(i + 1).drop_last() =~= ticks.take(i));
    assert(ticks.take(i + 1).last() == ticks[i]);
    lemma_stays(s, ticks, i + 1, j);
}

/// The game-ready stage never fires after the time to wait is over.
pub proof fn law_ready_times_out(s: Supervision, ticks: Seq<Tick>, i: int, j: int)
    requires
        0 <= i < j < ticks.len(),
        ticks[i].ended is None,
        ticks[i].elapsed > READY_TIMEOUT_MILLIS,
    ensures
        !todo_at(s, ticks, j).fire_ready,
{
    assert(ticks.take(i + 1).drop_last() =~= ticks.take(i));
    assert(ticks.take(i + 1).last() == ticks[i]);
    lemma_stays(s, ticks, i + 1, j);
}

/// Where the game-ready stage has fired, or no process is awaited, it never fires.
pub proof fn law_nothing_awaited_never_fires(s: Supervision, ticks: Seq<Tick>, i: int)
    requires
        s.ready_fired,
        0 <= i < ticks.len(),
    ensures
        !todo_at(s, ticks, i).fire_ready,
{
    assert(ticks.take(0).len() == 0);
    lemma_stays(s, ticks, 0, i);
}

/// Supervision ends exactly where the child has, with nothing else done.
pub proof fn law_finishes_with_the_child(s: Supervision, t: Tick)
    ensures
        todo(s, t).finish is Some <==> t.ended is Some,
        t.ended is Some ==> !todo(s, t).forward_term && !todo(s, t).fire_ready && !todo(s, t).reload,
{
}

/// How many stamps differ.
pub open spec fn differences(last: Seq<Option<i128>>, now: Seq<Option<i128>>) -> nat
    decreases last.len(),
{
    if last.len() == 0 {
        0
    } else if last.last() != now[last.len() - 1] {
        differences(last.drop_last(), now) + 1
    } else {
        differences(last.drop_last(), now)
    }
}

proof fn lemma_first_change(last: Seq<Option<i128>>, now: Seq<Option<i128>>, from: int)
    requires
        0 <= from <= last.len(),
    ensures
        from <= first_change(last, now, from) <= last.len(),
        first_change(last, now, from) < last.len() ==> last[first_change(last, now, from)]
            != now[first_change(last, now, from)],
        first_change(last, now, from) == last.len() ==> forall|j: int|
            from <= j < last.len() ==> last[j] == now[j],
    decreases last.len() - from,
{
    if from < last.len() && last[from] == now[from] {
        lemma_first_change(last, now, from + 1);
    }
}

proof fn lemma_update_difference(last: Seq<Option<i128>>, now: Seq<Option<i128>>, at: int)
    requires
        0 <= at < last.len(),
        last[at] != now[at],
    ensures
        differences(last.update(at, now[at]), now) + 1 == differences(last, now),
    decreases last.len(),
{
    let u = last.update(at, now[at]);
    let init = last.drop_last();
    if at < last.len() - 1 {
        assert(u.drop_last() =~= init.update(at, now[at]));
        lemma_update_difference(init, now, at);
    } else {
        assert(u.drop_last() =~= init);
    }
}

/// Every change is noticed: each look that finds one leaves one less, so as many
/// looks as there are changed files notice them all.
pub proof fn law_every_change_is_noticed(last: Seq<Option<i128>>, now: Seq<Option<i128>>)
    requires
        last.len() == now.len(),
    ensures
        last != now ==> differences(remembered(last, now), now) + 1 == differences(last, now),
        remembered(last, now).len() == last.len(),
{
    lemma_first_change(last, now, 0);
    let at = first_change(last, now, 0);
    if at < last.len() {
        lemma_update_difference(last, now, at);
    } else {
        assert(last =~= now);
    }
}

} // verus!
