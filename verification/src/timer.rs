//! The timer at the heart of the load driver's scheduler: sleepers register
//! a deadline and get a fresh ticket id; each round, every ticket whose
//! deadline has passed fires and is retired. Reading the clock, futures and
//! wakers live with the caller: this core decides, from a caller-supplied
//! timestamp, which tickets fire.
use vstd::prelude::*;

verus! {

/// One registered deadline and the ticket that waits on it.
#[derive(Clone, Copy, Debug, PartialEq, Eq, Structural)]
pub struct TimerEvent {
    pub deadline: u64,
    pub timer_id: u64,
}

/// The ticket ids of the events due at `now`, in registration order.
pub open spec fn due_ids(s: Seq<TimerEvent>, now: u64) -> Seq<u64>
    decreases s.len(),
{
    if s.len() == 0 {
        Seq::empty()
    } else {
        (if s[0].deadline <= now {
            seq![s[0].timer_id]
        } else {
            Seq::empty()
        }) + due_ids(s.skip(1), now)
    }
}

/// The events not yet due at `now`, in registration order.
pub open spec fn kept_events(s: Seq<TimerEvent>, now: u64) -> Seq<TimerEvent>
    decreases s.len(),
{
    if s.len() == 0 {
        Seq::empty()
    } else {
        (if s[0].deadline <= now {
            Seq::empty()
        } else {
            seq![s[0]]
        }) + kept_events(s.skip(1), now)
    }
}

/// Pending deadlines, each under a ticket id that no other pending or future
/// ticket shares.
pub struct Timer {
    next_id: u64,
    events: Vec<TimerEvent>,
}

impl Timer {
    /// The id the next sleeper will get.
    pub closed spec fn spec_next_id(self) -> u64 {
        self.next_id
    }

    /// The pending events, oldest registration first.
    pub closed spec fn spec_events(self) -> Seq<TimerEvent> {
        self.events@
    }

    /// Whether the ticket `timer_id` is still pending.
    pub open spec fn pending(self, timer_id: u64) -> bool {
        exists|i: int|
            0 <= i < self.spec_events().len() && self.spec_events()[i].timer_id == timer_id
    }

    /// Ticket ids grow with registration order and stay below the next id,
    /// so every pending ticket id is unique.
    pub open spec fn wf(self) -> bool {
        &&& forall|i: int, j: int|
            0 <= i < j < self.spec_events().len() ==> self.spec_events()[i].timer_id
                < self.spec_events()[j].timer_id
        &&& forall|i: int|
            0 <= i < self.spec_events().len() ==> (#[trigger] self.spec_events()[i]).timer_id
                < self.spec_next_id()
    }

    /// Registers a deadline `duration_ms` past the caller's clock reading
    /// `now` and hands back the fresh ticket that will fire then.
    pub fn sleep(&mut self, now: u64, duration_ms: u64) -> (timer_id: u64)
        requires
            old(self).wf(),
            old(self).spec_next_id() < u64::MAX,
            now + duration_ms <= u64::MAX,
        ensures
            final(self).wf(),
            timer_id == old(self).spec_next_id(),
            final(self).spec_next_id() == timer_id + 1,
            final(self).spec_events() == old(self).spec_events().push(
                TimerEvent { deadline: (now + duration_ms) as u64, timer_id },
            ),
            final(self).pending(timer_id),
            !old(self).pending(timer_id),
    {
        let deadline = now + duration_ms;
        let timer_id = self.next_id;
        self.next_id = self.next_id + 1;
        self.events.push(TimerEvent { deadline, timer_id });
        proof {
            let s = self.spec_events();
            let o = old(self).spec_events();
            assert(s[s.len() - 1].timer_id == timer_id);
            assert forall|i: int, j: int| 0 <= i < j < s.len() implies s[i].timer_id
                < s[j].timer_id by {
                if j == s.len() - 1 {
                    assert(s[i] == o[i]);
                    assert(o[i].timer_id < old(self).spec_next_id());
                } else {
                    assert(s[i] == o[i] && s[j] == o[j]);
                }
            }
            assert forall|i: int| 0 <= i < s.len() implies (#[trigger] s[i]).timer_id
                < self.next_id by {
                if i < s.len() - 1 {
                    assert(s[i] == o[i]);
                }
            }
        }
        timer_id
    }

    /// Whether the ticket is still pending; a fired or never-issued ticket
    /// reports ready.
    pub fn poll_elapsed(&self, timer_id: u64) -> (r: bool)
        ensures
            r == self.pending(timer_id),
    {
        let n = self.events.len();
        let mut i: usize = 0;
        while i < n
            invariant
                n == self.spec_events().len(),
                i <= n,
                forall|q: int| 0 <= q < i ==> self.spec_events()[q].timer_id != timer_id,
            decreases n - i,
        {
            if self.events[i].timer_id == timer_id {
                return true;
            }
            i = i + 1;
        }
        false
    }

    /// Retires every event due at the caller's clock reading `now` and hands
    /// back their ticket ids, in registration order, for the caller to wake.
    pub fn next_round(&mut self, now: u64) -> (fired: Vec<u64>)
        requires
            old(self).wf(),
        ensures
            final(self).wf(),
            final(self).spec_next_id() == old(self).spec_next_id(),
            final(self).spec_events() == kept_events(old(self).spec_events(), now),
            fired@ == due_ids(old(self).spec_events(), now),
    {
        let ghost s = self.events@;
        let n = self.events.len();
        let mut kept: Vec<TimerEvent> = Vec::new();
        let mut fired: Vec<u64> = Vec::new();
        let mut p: usize = 0;
        proof {
            assert(s.skip(0) =~= s);
            assert(kept@ + kept_events(s, now) =~= kept_events(s, now));
            assert(fired@ + due_ids(s, now) =~= due_ids(s, now));
        }
        while p < n
            invariant
                old(self).wf(),
                s == old(self).spec_events(),
                n == s.len(),
                p <= n,
                kept@ + kept_events(s.skip(p as int), now) == kept_events(s, now),
                fired@ + due_ids(s.skip(p as int), now) == due_ids(s, now),
                self.events@ == s,
                forall|q: int, m: int|
                    0 <= q < kept@.len() && p <= m < n ==> kept@[q].timer_id < s[m].timer_id,
                forall|q1: int, q2: int|
                    0 <= q1 < q2 < kept@.len() ==> kept@[q1].timer_id < kept@[q2].timer_id,
                forall|q: int|
                    0 <= q < kept@.len() ==> (#[trigger] kept@[q]).timer_id < old(
                        self,
                    ).spec_next_id(),
            decreases n - p,
        {
            let e = self.events[p];
            proof {
                assert(s.skip(p as int)[0] == s[p as int]);
                assert(s.skip(p as int).skip(1) =~= s.skip(p as int + 1));
                assert(kept_events(s.skip(p as int), now) == (if s[p as int].deadline <= now {
                    Seq::<TimerEvent>::empty()
                } else {
                    seq![s[p as int]]
                }) + kept_events(s.skip(p as int + 1), now));
                assert(due_ids(s.skip(p as int), now) == (if s[p as int].deadline <= now {
                    seq![s[p as int].timer_id]
                } else {
                    Seq::<u64>::empty()
                }) + due_ids(s.skip(p as int + 1), now));
            }
            if e.deadline <= now {
                fired.push(e.timer_id);
                proof {
                    assert(fired@ + due_ids(s.skip(p as int + 1), now) =~= due_ids(s, now));
                    assert(kept@ + kept_events(s.skip(p as int + 1), now) =~= kept_events(s, now));
                }
            } else {
                kept.push(e);
                proof {
                    assert(kept@ + kept_events(s.skip(p as int + 1), now) =~= kept_events(s, now));
                    assert(fired@ + due_ids(s.skip(p as int + 1), now) =~= due_ids(s, now));
                }
            }
            p = p + 1;
        }
        proof {
            assert(s.skip(n as int) =~= Seq::<TimerEvent>::empty());
            assert(kept@ + kept_events(s.skip(n as int), now) =~= kept@);
            assert(fired@ + due_ids(s.skip(n as int), now) =~= fired@);
        }
        self.events = kept;
        fired
    }
}

impl Default for Timer {
    /// A timer with no pending events and ticket ids starting at zero.
    fn default() -> (r: Self)
        ensures
            r.wf(),
            r.spec_next_id() == 0,
            r.spec_events() == Seq::<TimerEvent>::empty(),
    {
        Timer { next_id: 0, events: Vec::new() }
    }
}

} // verus!
