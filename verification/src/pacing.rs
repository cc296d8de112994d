//! Releasing the content updates that wait on the screen: fifo barriers and
//! commit timers, from the shell's reports and, where there are none, from a
//! clock ticking at the display's refresh.

use vstd::prelude::*;

use crate::action::Action;
use crate::timing::FrameClock;

verus! {

/// Fifo barriers of updates no view shows held for the clock, at most. A
/// client committing faster than that between two ticks gets the oldest
/// cleared early.
pub const MAX_LOOSE: usize = 256;

/// The least time between two ticks, whatever rounding says.
pub const MIN_TICK_NS: u64 = 100_000;

/// A fifo barrier of an update no view shows, cleared on the clock so its
/// client keeps a steady pace.
#[derive(Clone, Copy, Debug, PartialEq, Eq, Structural)]
pub struct Loose {
    pub barrier: u64,
    pub client: u64,
    pub due_ns: u64,
}

/// What waits on the clock.
#[derive(Debug)]
pub struct Pacing {
    /// The display's refresh cycle, from the shell's last report.
    pub clock: FrameClock,
    /// Surfaces with updates waiting for their target time.
    pub timed: Vec<u64>,
    /// Fifo barriers of updates no view shows.
    pub loose: Vec<Loose>,
    /// The clock's next tick, while anything waits on it.
    pub tick: Option<u64>,
}

/// What waits on the clock, as plain values.
#[verifier::ext_equal]
pub struct PacingModel {
    pub clock: FrameClock,
    pub timed: Seq<u64>,
    pub loose: Seq<Loose>,
    pub tick: Option<u64>,
}

impl View for Pacing {
    type V = PacingModel;

    open spec fn view(&self) -> PacingModel {
        PacingModel {
            clock: self.clock,
            timed: self.timed@,
            loose: self.loose@,
            tick: self.tick,
        }
    }
}

/// What the commit timers of a timed surface said when told that updates up
/// to a time are due.
#[derive(Clone, Copy, Debug, PartialEq, Eq, Structural)]
pub struct Timer {
    /// The surface is still there.
    pub alive: bool,
    /// Updates of it were released.
    pub released: bool,
    pub client: Option<u64>,
    /// The target of its next update still waiting.
    pub pending: Option<u64>,
}

/// The clearing of each barrier of `loose`.
pub open spec fn loose_clears(loose: Seq<Loose>) -> Seq<Action> {
    loose.map_values(|l: Loose| Action::Cleared(l.barrier))
}

/// `barriers` of `client`, to be cleared at `due_ns`.
pub open spec fn loosened(barriers: Seq<u64>, client: u64, due_ns: u64) -> Seq<Loose> {
    barriers.map_values(|barrier: u64| Loose { barrier, client, due_ns })
}

/// Barriers due at `now`.
pub open spec fn due_by(now: u64) -> spec_fn(Loose) -> bool {
    |l: Loose| l.due_ns <= now
}

/// Barriers not due at `now`.
pub open spec fn due_after(now: u64) -> spec_fn(Loose) -> bool {
    |l: Loose| l.due_ns > now
}

/// The earlier of two times, where a missing one is no time at all.
pub open spec fn sooner(a: Option<u64>, b: Option<u64>) -> Option<u64> {
    match (a, b) {
        (Some(x), Some(y)) => Some(
            if x <= y {
                x
            } else {
                y
            },
        ),
        (Some(x), None) => Some(x),
        (None, b) => b,
    }
}

/// The soonest of the times that `f` gives for `items`.
pub open spec fn soonest<A>(items: Seq<A>, f: spec_fn(A) -> Option<u64>) -> Option<u64>
    decreases items.len(),
{
    if items.len() == 0 {
        None
    } else {
        sooner(soonest(items.drop_last(), f), f(items.last()))
    }
}

/// The timed surfaces that still have updates waiting.
pub open spec fn still_timed(timed: Seq<u64>, timers: Seq<Timer>) -> Seq<u64>
    decreases timed.len(),
{
    if timed.len() == 0 {
        Seq::empty()
    } else {
        let rest = still_timed(timed.drop_last(), timers);
        let timer = timers[timed.len() - 1];
        if timer.alive && timer.pending is Some {
            rest.push(timed.last())
        } else {
            rest
        }
    }
}

/// The client that a timer's release lets carry on.
pub open spec fn timer_client() -> spec_fn(Timer) -> Seq<u64> {
    |t: Timer|
        if t.alive && t.released && t.client is Some {
            seq![t.client->0]
        } else {
            Seq::empty()
        }
}

/// When a timer's next update is to be applied.
pub open spec fn timer_wake(clock: FrameClock) -> spec_fn(Timer) -> Option<u64> {
    |t: Timer|
        if t.alive && t.pending is Some {
            Some(clock.release_for(t.pending->0 as int) as u64)
        } else {
            None
        }
}

/// When a loose barrier clears.
pub open spec fn loose_wake() -> spec_fn(Loose) -> Option<u64> {
    |l: Loose| Some(l.due_ns)
}

/// The clients of `loose`.
pub open spec fn loose_clients(loose: Seq<Loose>) -> Seq<u64> {
    loose.map_values(|l: Loose| l.client)
}

/// `clients` with every repetition left out.
pub open spec fn once_each(clients: Seq<u64>) -> Seq<u64>
    decreases clients.len(),
{
    if clients.len() == 0 {
        Seq::empty()
    } else {
        let rest = once_each(clients.drop_last());
        if rest.contains(clients.last()) {
            rest
        } else {
            rest.push(clients.last())
        }
    }
}

/// Each of `clients` carries on, once.
pub open spec fn unblocks(clients: Seq<u64>) -> Seq<Action> {
    once_each(clients).map_values(|c: u64| Action::Unblock(c))
}

impl PacingModel {
    pub open spec fn wf(self) -> bool {
        self.clock.wf() && self.loose.len() <= MAX_LOOSE
    }

    /// Run the clock at `at`, unless it already runs sooner.
    pub open spec fn scheduled(self, at: u64) -> PacingModel {
        if self.tick matches Some(when) && when <= at {
            self
        } else {
            PacingModel { tick: Some(at), ..self }
        }
    }

    /// The request that goes with `scheduled`.
    pub open spec fn scheduling(self, at: u64) -> Seq<Action> {
        if self.tick matches Some(when) && when <= at {
            Seq::empty()
        } else {
            seq![Action::Tick(at)]
        }
    }

    /// How many loose barriers have to make room for `n` more.
    pub open spec fn excess(self, n: int) -> int {
        if self.loose.len() + n > MAX_LOOSE {
            self.loose.len() + n - MAX_LOOSE
        } else {
            0
        }
    }

    /// When the next refresh after `now` is.
    pub open spec fn refresh_after(self, now: u64) -> u64 {
        self.clock.vblank_after(now as int) as u64
    }

    /// Clear `barriers` at the next refresh.
    pub open spec fn holding_loose(
        self,
        client: Option<u64>,
        barriers: Seq<u64>,
        now: u64,
    ) -> PacingModel {
        if barriers.len() == 0 || client is None {
            self
        } else {
            let due = self.refresh_after(now);
            let all = self.loose + loosened(barriers, client->0, due);
            let excess = self.excess(barriers.len() as int);
            PacingModel { loose: all.skip(excess), ..self }.scheduled(due)
        }
    }

    /// What goes with `holding_loose`: barriers of a client that is gone clear
    /// at once, and the oldest past the bound.
    pub open spec fn loose_actions(
        self,
        client: Option<u64>,
        barriers: Seq<u64>,
        now: u64,
    ) -> Seq<Action> {
        if barriers.len() == 0 {
            Seq::empty()
        } else if client is None {
            crate::timing::clears(barriers)
        } else {
            let due = self.refresh_after(now);
            let all = self.loose + loosened(barriers, client->0, due);
            loose_clears(all.take(self.excess(barriers.len() as int))) + self.scheduling(due)
        }
    }

    /// Watch `surface` until its updates' target times.
    pub open spec fn watching(self, surface: u64, now: u64) -> PacingModel {
        PacingModel {
            timed: if self.timed.contains(surface) {
                self.timed
            } else {
                self.timed.push(surface)
            },
            ..self
        }.scheduled(now)
    }
}

impl Pacing {
    pub fn new() -> (p: Pacing)
        ensures
            p@.wf(),
            p.clock.ust_ns == 0,
            p.clock.refresh_ns == crate::timing::DEFAULT_REFRESH_NS,
            p.clock.refresh_ns == 16_666_667,
            p.timed@ == Seq::<u64>::empty(),
            p.loose@ == Seq::<Loose>::empty(),
            p.tick is None,
    {
        Pacing { clock: FrameClock::default(), timed: Vec::new(), loose: Vec::new(), tick: None }
    }

    /// Run the clock at `at_ns`, unless it already runs sooner.
    pub fn schedule_tick(&mut self, at_ns: u64, out: &mut Vec<Action>)
        ensures
            final(self)@ == old(self)@.scheduled(at_ns),
            final(out)@ == old(out)@ + old(self)@.scheduling(at_ns),
    {
        if let Some(when) = self.tick {
            if when <= at_ns {
                assert(out@ == old(out)@ + Seq::<Action>::empty());
                return;
            }
        }
        self.tick = Some(at_ns);
        out.push(Action::Tick(at_ns));
    }

    /// The next refresh after `now_ns`.
    pub fn next_refresh(&self, now_ns: u64) -> (at: u64)
        requires
            self@.wf(),
            now_ns < u64::MAX,
        ensures
            at == self@.refresh_after(now_ns),
    {
        proof {
            crate::timing::times_before_the_end_count(self.clock, now_ns as int);
        }
        self.clock.next_vblank(now_ns)
    }

    /// Clear `barriers` at the next refresh: of updates of `client` that no
    /// view shows.
    pub fn hold_loose(
        &mut self,
        client: Option<u64>,
        barriers: &Vec<u64>,
        now_ns: u64,
        out: &mut Vec<Action>,
    )
        requires
            old(self)@.wf(),
            now_ns < u64::MAX,
        ensures
            final(self)@ == old(self)@.holding_loose(client, barriers@, now_ns),
            final(self)@.wf(),
            final(out)@ == old(out)@ + old(self)@.loose_actions(client, barriers@, now_ns),
    {
        if barriers.len() == 0 {
            assert(out@ == old(out)@ + Seq::<Action>::empty());
            return;
        }
        let client: u64 = match client {
            Some(client) => client,
            None => {
                crate::timing::push_clears(out, barriers);
                return;
            },
        };
        let due: u64 = self.next_refresh(now_ns);
        let ghost all = self.loose@ + loosened(barriers@, client, due);
        let mut i: usize = 0;
        assert(barriers@.take(0) == Seq::<u64>::empty());
        assert(self.loose@ == old(self).loose@ + loosened(barriers@.take(0), client, due));
        while i < barriers.len()
            invariant
                i <= barriers.len(),
                self.clock == old(self).clock,
                self.timed@ == old(self).timed@,
                self.tick == old(self).tick,
                out@ == old(out)@,
                self.loose@ == old(self).loose@ + loosened(
                    barriers@.take(i as int),
                    client,
                    due,
                ),
            decreases barriers.len() - i,
        {
            proof {
                assert(barriers@.take(i + 1) == barriers@.take(i as int).push(
                    barriers@[i as int],
                ));
                assert(loosened(barriers@.take(i + 1), client, due) == loosened(
                    barriers@.take(i as int),
                    client,
                    due,
                ).push(Loose { barrier: barriers@[i as int], client, due_ns: due }));
            }
            self.loose.push(Loose { barrier: barriers[i], client, due_ns: due });
            i += 1;
        }
        assert(barriers@.take(i as int) == barriers@);
        assert(self.loose@ == all);
        let ghost excess = old(self)@.excess(barriers@.len() as int);
        let ghost mut k: int = 0;
        assert(all.skip(0) == all);
        assert(loose_clears(all.take(0)) == Seq::<Action>::empty());
        while self.loose.len() > MAX_LOOSE
            invariant
                0 <= k <= excess <= all.len(),
                all.len() - excess <= MAX_LOOSE,
                excess > 0 ==> all.len() - excess == MAX_LOOSE,
                self.clock == old(self).clock,
                self.timed@ == old(self).timed@,
                self.tick == old(self).tick,
                self.loose@ == all.skip(k),
                out@ == old(out)@ + loose_clears(all.take(k)),
            decreases self.loose.len(),
        {
            let l = self.loose.remove(0);
            proof {
                assert(all.skip(k)[0] == all[k]);
                assert(all.skip(k).remove(0) == all.skip(k + 1));
                assert(all.take(k + 1) == all.take(k).push(l));
                assert(loose_clears(all.take(k + 1)) == loose_clears(all.take(k)).push(
                    Action::Cleared(l.barrier),
                ));
                k = k + 1;
            }
            out.push(Action::Cleared(l.barrier));
        }
        assert(k == excess);
        let ghost mid = self@;
        assert(mid.scheduling(due) == old(self)@.scheduling(due));
        self.schedule_tick(due, out);
        assert(out@ == old(out)@ + (loose_clears(all.take(excess)) + old(self)@.scheduling(due)));
    }

    /// Called before a commit of `surface` is applied, when it carries a
    /// target time: watch it until it is due. When that is, is worked out on
    /// the next pass.
    pub fn watch_target(&mut self, surface: u64, now_ns: u64, out: &mut Vec<Action>)
        requires
            old(self)@.wf(),
        ensures
            final(self)@ == old(self)@.watching(surface, now_ns),
            final(self)@.wf(),
            final(out)@ == old(out)@ + old(self)@.scheduling(now_ns),
    {
        let mut i: usize = 0;
        let mut known: bool = false;
        while i < self.timed.len()
            invariant
                i <= self.timed.len(),
                self@ == old(self)@,
                known == exists|j: int| 0 <= j < i && self.timed@[j] == surface,
            decreases self.timed.len() - i,
        {
            known = known || self.timed[i] == surface;
            i += 1;
        }
        if !known {
            self.timed.push(surface);
        }
        self.schedule_tick(now_ns, out);
    }

    /// The latest target that an update applied at `now_ns` can meet: what the
    /// commit timers are told.
    pub fn tick_due(&self, now_ns: u64) -> (due: u64)
        requires
            self@.wf(),
            now_ns < u64::MAX,
        ensures
            due == self.clock.due_at(now_ns as int),
    {
        proof {
            crate::timing::times_before_the_end_count(self.clock, now_ns as int);
        }
        self.clock.due(now_ns)
    }

    /// The commit timers were told what is due: surfaces with nothing left to
    /// wait for are not watched any more. When the next update is to be
    /// applied; `clients` gathers those with updates released.
    pub fn tick_timers(&mut self, timers: &Vec<Timer>, clients: &mut Vec<u64>) -> (wake: Option<
        u64,
    >)
        requires
            old(self)@.wf(),
            timers@.len() == old(self)@.timed.len(),
        ensures
            final(self)@ == (PacingModel {
                timed: still_timed(old(self)@.timed, timers@),
                ..old(self)@
            }),
            final(self)@.wf(),
            final(clients)@ == old(clients)@ + timers@.flat_map(timer_client()),
            wake == soonest(timers@, timer_wake(old(self).clock)),
    {
        let ghost g = timer_client();
        let ghost f = timer_wake(self.clock);
        let ghost all = timers@;
        let mut kept: Vec<u64> = Vec::new();
        let mut wake: Option<u64> = None;
        let mut i: usize = 0;
        proof {
            assert(all.take(0) == Seq::<Timer>::empty());
            assert(all.take(0).flat_map(g) == Seq::<u64>::empty()) by {
                reveal(Seq::flatten);
            }
            assert(self.timed@.take(0) == Seq::<u64>::empty());
        }
        while i < timers.len()
            invariant
                i <= timers.len(),
                self@ == old(self)@,
                self@.wf(),
                all == timers@,
                timers@.len() == self@.timed.len(),
                g == timer_client(),
                f == timer_wake(self.clock),
                kept@ == still_timed(self.timed@.take(i as int), timers@),
                clients@ == old(clients)@ + all.take(i as int).flat_map(g),
                wake == soonest(all.take(i as int), f),
            decreases timers.len() - i,
        {
            let timer = timers[i];
            proof {
                all.lemma_flat_map_take_append(g, i as int);
                assert(all.take(i + 1).drop_last() == all.take(i as int));
                assert(self.timed@.take(i + 1).drop_last() == self.timed@.take(i as int));
            }
            if timer.alive {
                if timer.released {
                    if let Some(client) = timer.client {
                        clients.push(client);
                    }
                }
                if let Some(target) = timer.pending {
                    let at: u64 = self.clock.release_at(target);
                    wake = sooner_of(wake, Some(at));
                    kept.push(self.timed[i]);
                }
            }
            i += 1;
        }
        assert(all.take(i as int) == all);
        assert(self.timed@.take(i as int) == self.timed@);
        self.timed = kept;
        wake
    }

    /// Clear the barriers of updates nobody shows that are due. When the next
    /// is; `clients` gathers those whose barriers cleared.
    pub fn tick_loose(
        &mut self,
        now_ns: u64,
        clients: &mut Vec<u64>,
        out: &mut Vec<Action>,
    ) -> (wake: Option<u64>)
        requires
            old(self)@.wf(),
        ensures
            final(self)@ == (PacingModel {
                loose: old(self)@.loose.filter(due_after(now_ns)),
                ..old(self)@
            }),
            final(self)@.wf(),
            final(out)@ == old(out)@ + loose_clears(old(self)@.loose.filter(due_by(now_ns))),
            final(clients)@ == old(clients)@ + loose_clients(
                old(self)@.loose.filter(due_by(now_ns)),
            ),
            wake == soonest(old(self)@.loose.filter(due_after(now_ns)), loose_wake()),
    {
        let ghost keep = due_after(now_ns);
        let ghost lose = due_by(now_ns);
        let ghost f = loose_wake();
        let ghost all = self.loose@;
        let mut kept: Vec<Loose> = Vec::new();
        let mut wake: Option<u64> = None;
        let mut i: usize = 0;
        proof {
            assert(all.take(0) == Seq::<Loose>::empty());
            assert(Seq::<Loose>::empty().filter(keep) == Seq::<Loose>::empty()) by {
                reveal(Seq::filter);
            }
            assert(Seq::<Loose>::empty().filter(lose) == Seq::<Loose>::empty()) by {
                reveal(Seq::filter);
            }
            assert(loose_clears(Seq::empty()) == Seq::<Action>::empty());
            assert(loose_clients(Seq::empty()) == Seq::<u64>::empty());
        }
        while i < self.loose.len()
            invariant
                i <= self.loose.len(),
                self@ == old(self)@,
                all == self.loose@,
                keep == due_after(now_ns),
                lose == due_by(now_ns),
                f == loose_wake(),
                kept@ == all.take(i as int).filter(keep),
                out@ == old(out)@ + loose_clears(all.take(i as int).filter(lose)),
                clients@ == old(clients)@ + loose_clients(all.take(i as int).filter(lose)),
                wake == soonest(all.take(i as int).filter(keep), f),
            decreases self.loose.len() - i,
        {
            let l = self.loose[i];
            proof {
                let done = all.take(i as int);
                assert(all.take(i + 1) == done.push(l));
                done.lemma_filter_push(l, keep);
                done.lemma_filter_push(l, lose);
                assert(loose_clears(done.filter(lose).push(l)) == loose_clears(
                    done.filter(lose),
                ).push(Action::Cleared(l.barrier)));
                assert(loose_clients(done.filter(lose).push(l)) == loose_clients(
                    done.filter(lose),
                ).push(l.client));
                assert(done.filter(keep).push(l).drop_last() == done.filter(keep));
            }
            if l.due_ns <= now_ns {
                out.push(Action::Cleared(l.barrier));
                clients.push(l.client);
            } else {
                wake = sooner_of(wake, Some(l.due_ns));
                kept.push(l);
            }
            i += 1;
        }
        assert(all.take(i as int) == all);
        proof {
            all.lemma_filter_len(keep);
        }
        self.loose = kept;
        wake
    }

    /// Take every loose barrier off the clock and clear it.
    pub fn drain_loose(&mut self, clients: &mut Vec<u64>, out: &mut Vec<Action>)
        requires
            old(self)@.wf(),
        ensures
            final(self)@ == (PacingModel { loose: Seq::empty(), ..old(self)@ }),
            final(self)@.wf(),
            final(out)@ == old(out)@ + loose_clears(old(self)@.loose),
            final(clients)@ == old(clients)@ + loose_clients(old(self)@.loose),
    {
        let mut i: usize = 0;
        assert(loose_clears(self.loose@.take(0)) == Seq::<Action>::empty());
        assert(loose_clients(self.loose@.take(0)) == Seq::<u64>::empty());
        while i < self.loose.len()
            invariant
                i <= self.loose.len(),
                self@ == old(self)@,
                out@ == old(out)@ + loose_clears(self.loose@.take(i as int)),
                clients@ == old(clients)@ + loose_clients(self.loose@.take(i as int)),
            decreases self.loose.len() - i,
        {
            let l = self.loose[i];
            proof {
                let done = self.loose@.take(i as int);
                assert(self.loose@.take(i + 1) == done.push(l));
                assert(loose_clears(done.push(l)) == loose_clears(done).push(
                    Action::Cleared(l.barrier),
                ));
                assert(loose_clients(done.push(l)) == loose_clients(done).push(l.client));
            }
            out.push(Action::Cleared(l.barrier));
            clients.push(l.client);
            i += 1;
        }
        assert(self.loose@.take(i as int) == self.loose@);
        self.loose.clear();
    }
}

/// The earlier of two times.
pub fn sooner_of(a: Option<u64>, b: Option<u64>) -> (s: Option<u64>)
    ensures
        s == sooner(a, b),
{
    match (a, b) {
        (Some(x), Some(y)) => {
            if x <= y {
                Some(x)
            } else {
                Some(y)
            }
        },
        (Some(x), None) => Some(x),
        (None, b) => b,
    }
}

/// Unblock each of `clients` once.
pub fn unblock_all(clients: &Vec<u64>, out: &mut Vec<Action>)
    ensures
        final(out)@ == old(out)@ + unblocks(clients@),
{
    let mut seen: Vec<u64> = Vec::new();
    let mut i: usize = 0;
    assert(clients@.take(0) == Seq::<u64>::empty());
    assert(unblocks(clients@.take(0)) == Seq::<Action>::empty());
    while i < clients.len()
        invariant
            i <= clients.len(),
            seen@ == once_each(clients@.take(i as int)),
            out@ == old(out)@ + unblocks(clients@.take(i as int)),
        decreases clients.len() - i,
    {
        let client: u64 = clients[i];
        assert(clients@.take(i + 1).drop_last() == clients@.take(i as int));
        let mut known: bool = false;
        let mut j: usize = 0;
        while j < seen.len()
            invariant
                j <= seen.len(),
                known == exists|k: int| 0 <= k < j && seen@[k] == client,
            decreases seen.len() - j,
        {
            known = known || seen[j] == client;
            j += 1;
        }
        assert(known == seen@.contains(client));
        if !known {
            assert(unblocks(clients@.take(i + 1)) == unblocks(clients@.take(i as int)).push(
                Action::Unblock(client),
            ));
            seen.push(client);
            out.push(Action::Unblock(client));
        } else {
            assert(once_each(clients@.take(i + 1)) == once_each(clients@.take(i as int)));
        }
        i += 1;
    }
    assert(clients@.take(i as int) == clients@);
}

/// The earlier of two times is one of them, and no later than either; a missing
/// one does not count.
pub proof fn the_earlier_of_two(a: Option<u64>, b: Option<u64>)
    ensures
        sooner(a, b) == a || sooner(a, b) == b,
        sooner(a, b) is None <==> a is None && b is None,
        a is Some ==> sooner(a, b)->0 <= a->0,
        b is Some ==> sooner(a, b)->0 <= b->0,
{
}

/// The soonest of some times is one of them, and none of them is sooner.
pub proof fn the_soonest_of_all<A>(items: Seq<A>, f: spec_fn(A) -> Option<u64>)
    ensures
        forall|i: int|
            0 <= i < items.len() && f(#[trigger] items[i]) is Some ==> soonest(items, f) is Some
                && soonest(items, f)->0 <= f(items[i])->0,
        soonest(items, f) is Some ==> exists|i: int|
            0 <= i < items.len() && f(#[trigger] items[i]) == soonest(items, f),
    decreases items.len(),
{
    if items.len() > 0 {
        let d = items.drop_last();
        the_soonest_of_all(d, f);
        assert forall|i: int|
            0 <= i < items.len() && f(#[trigger] items[i]) is Some implies soonest(items, f) is Some
            && soonest(items, f)->0 <= f(items[i])->0 by {
            if i < d.len() {
                assert(d[i] == items[i]);
            }
        }
        if soonest(items, f) is Some {
            if soonest(items, f) == f(items.last()) {
                assert(f(items[items.len() - 1]) == soonest(items, f));
            } else {
                let i = choose|i: int| 0 <= i < d.len() && f(#[trigger] d[i]) == soonest(d, f);
                assert(f(items[i]) == soonest(items, f));
            }
        }
    }
}

/// A surface still there with an update waiting is looked at again when that
/// is to be applied; one with nothing waiting is not. Where updates of it were
/// released its client, if that is connected, carries on.
pub proof fn what_a_timer_says(clock: FrameClock, t: Timer)
    ensures
        t.alive && t.pending is Some ==> timer_wake(clock)(t) == Some(
            clock.release_for(t.pending->0 as int) as u64,
        ),
        !t.alive || t.pending is None ==> timer_wake(clock)(t) is None,
        t.alive && t.released && t.client is Some ==> timer_client()(t) == seq![t.client->0],
        !(t.alive && t.released && t.client is Some) ==> timer_client()(t).len() == 0,
{
}

/// A surface with a target time is watched from then on, once, beside those
/// that were, and the clock runs at once to work out when it is due.
pub proof fn a_target_is_watched(p: PacingModel, surface: u64, other: u64, now: u64)
    ensures
        p.watching(surface, now).timed.contains(surface),
        other != surface ==> (p.watching(surface, now).timed.contains(other) <==> p.timed.contains(
            other,
        )),
        p.timed.no_duplicates() ==> p.watching(surface, now).timed.no_duplicates(),
        p.watching(surface, now).tick is Some,
        p.watching(surface, now).tick->0 <= now,
        p.watching(surface, now).loose == p.loose,
        p.watching(surface, now).clock == p.clock,
{
    let all = p.timed.push(surface);
    assert(all =~= p.timed + seq![surface]);
    crate::maps::listed_by_either(p.timed, seq![surface], other);
    crate::maps::listed_by_either(p.timed, seq![surface], surface);
    assert(seq![surface][0] == surface);
}

} // verus!
