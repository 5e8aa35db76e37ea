use vstd::prelude::*;

use crate::model::{ConfigError, Outcome, ProbeResult, ProbeResultView};

verus! {

/// The abstract state of a probe run.
pub struct SchedulerView {
    /// Most probes that may be connecting at once.
    pub limit: nat,
    /// Targets handed out so far; they are handed out in index order.
    pub dispatched: nat,
    /// Targets handed out whose result has not come back.
    pub in_flight: nat,
    /// One slot per target, filled once its result comes back.
    pub results: Seq<Option<ProbeResultView>>,
}

pub open spec fn slot_view(o: Option<ProbeResult>) -> Option<ProbeResultView> {
    match o {
        Some(r) => Some(r@),
        None => None,
    }
}

/// The number of filled slots.
pub open spec fn done_count(s: Seq<Option<ProbeResultView>>) -> nat
    decreases s.len(),
{
    if s.len() == 0 {
        0
    } else {
        done_count(s.drop_last()) + if s.last() is Some {
            1nat
        } else {
            0nat
        }
    }
}

/// Decides which probe to start next and collects results in target order,
/// never letting more than `limit` probes be in flight.
pub struct Scheduler {
    limit: usize,
    next: usize,
    in_flight: usize,
    slots: Vec<Option<ProbeResult>>,
}

impl View for Scheduler {
    type V = SchedulerView;

    closed spec fn view(&self) -> SchedulerView {
        SchedulerView {
            limit: self.limit as nat,
            dispatched: self.next as nat,
            in_flight: self.in_flight as nat,
            results: self.slots@.map_values(|o: Option<ProbeResult>| slot_view(o)),
        }
    }
}

/// Filling an empty slot adds one to the count.
proof fn lemma_done_count_fill(s: Seq<Option<ProbeResultView>>, i: int, x: ProbeResultView)
    requires
        0 <= i < s.len(),
        s[i] is None,
    ensures
        done_count(s.update(i, Some(x))) == done_count(s) + 1,
    decreases s.len(),
{
    let u = s.update(i, Some(x));
    if i < s.len() - 1 {
        assert(u.drop_last() =~= s.drop_last().update(i, Some(x)));
        lemma_done_count_fill(s.drop_last(), i, x);
    } else {
        assert(u.drop_last() =~= s.drop_last());
    }
}

/// A sequence whose every slot counts as filled has no empty slot.
proof fn lemma_done_count_full(s: Seq<Option<ProbeResultView>>)
    requires
        done_count(s) == s.len(),
    ensures
        forall|i: int| 0 <= i < s.len() ==> s[i] is Some,
    decreases s.len(),
{
    if s.len() > 0 {
        lemma_done_count_bound(s.drop_last());
        lemma_done_count_full(s.drop_last());
        assert forall|i: int| 0 <= i < s.len() implies s[i] is Some by {
            if i < s.len() - 1 {
                assert(s[i] == s.drop_last()[i]);
            }
        }
    }
}

proof fn lemma_done_count_bound(s: Seq<Option<ProbeResultView>>)
    ensures
        done_count(s) <= s.len(),
    decreases s.len(),
{
    if s.len() > 0 {
        lemma_done_count_bound(s.drop_last());
    }
}

impl Scheduler {
    /// The internal consistency of a run: the bound holds, the in-flight count
    /// matches the handed-out targets without a result, and no target that is
    /// still waiting has a result.
    pub closed spec fn wf(&self) -> bool {
        &&& self.limit > 0
        &&& self.next <= self.slots@.len()
        &&& self.in_flight <= self.limit
        &&& self@.in_flight + done_count(self@.results.take(self@.dispatched as int))
            == self@.dispatched
        &&& forall|i: int| self.next <= i < self.slots@.len() ==> self.slots@[i] is None
    }

    /// A run over `targets` targets with at most `limit` of them in flight.
    pub fn new(targets: usize, limit: usize) -> (r: Result<Scheduler, ConfigError>)
        ensures
            match r {
                Ok(s) => {
                    &&& limit > 0
                    &&& s.wf()
                    &&& s@.limit == limit
                    &&& s@.dispatched == 0
                    &&& s@.in_flight == 0
                    &&& s@.results == Seq::new(targets as nat, |i: int| None::<ProbeResultView>)
                },
                Err(e) => limit == 0 && e == ConfigError::ZeroConcurrency,
            },
    {
        if limit == 0 {
            return Err(ConfigError::ZeroConcurrency);
        }
        let mut slots: Vec<Option<ProbeResult>> = Vec::new();
        let mut i: usize = 0;
        while i < targets
            invariant
                i <= targets,
                slots@.len() == i,
                forall|k: int| 0 <= k < i ==> slots@[k] is None,
            decreases targets - i,
        {
            slots.push(None);
            i = i + 1;
        }
        let s = Scheduler { limit, next: 0, in_flight: 0, slots };
        assert(s@.results.take(0) =~= Seq::<Option<ProbeResultView>>::empty());
        assert(s@.results =~= Seq::new(targets as nat, |i: int| None::<ProbeResultView>));
        Ok(s)
    }

    /// The index of the next target to start, if the bound leaves room and a
    /// target is still waiting; `None` otherwise, with nothing changed.
    pub fn next_dispatch(&mut self) -> (r: Option<usize>)
        requires
            old(self).wf(),
        ensures
            final(self).wf(),
            final(self)@.limit == old(self)@.limit,
            final(self)@.results == old(self)@.results,
            if old(self)@.in_flight < old(self)@.limit && old(self)@.dispatched
                < old(self)@.results.len() {
                &&& r == Some(old(self)@.dispatched as usize)
                &&& final(self)@.dispatched == old(self)@.dispatched + 1
                &&& final(self)@.in_flight == old(self)@.in_flight + 1
            } else {
                &&& r is None
                &&& final(self)@ == old(self)@
            },
    {
        if self.in_flight < self.limit && self.next < self.slots.len() {
            let index = self.next;
            let ghost before = self@.results;
            assert(before.take(index + 1).drop_last() =~= before.take(index as int));
            self.next = self.next + 1;
            self.in_flight = self.in_flight + 1;
            Some(index)
        } else {
            None
        }
    }

    /// Records the result of the target at `index`. Accepted only for a target
    /// that was handed out and has no result yet; otherwise nothing changes.
    pub fn complete(&mut self, index: usize, result: ProbeResult) -> (accepted: bool)
        requires
            old(self).wf(),
        ensures
            final(self).wf(),
            accepted == (index < old(self)@.dispatched && old(self)@.results[index as int] is None),
            final(self)@.limit == old(self)@.limit,
            final(self)@.dispatched == old(self)@.dispatched,
            accepted ==> final(self)@.in_flight == old(self)@.in_flight - 1,
            accepted ==> final(self)@.results == old(self)@.results.update(
                index as int,
                Some(result@),
            ),
            !accepted ==> final(self)@ == old(self)@,
    {
        if index >= self.next {
            return false;
        }
        let empty = match &self.slots[index] {
            Some(_) => false,
            None => true,
        };
        if !empty {
            return false;
        }
        let ghost before = self@.results;
        let ghost n = self.next as int;
        proof {
            lemma_done_count_fill(before.take(n), index as int, result@);
            assert(before.take(n).update(index as int, Some(result@)) =~= before.update(
                index as int,
                Some(result@),
            ).take(n));
            lemma_done_count_bound(before.take(n).update(index as int, Some(result@)));
        }
        self.slots.set(index, Some(result));
        assert(self@.results =~= before.update(index as int, Some(result@)));
        self.in_flight = self.in_flight - 1;
        true
    }

    /// Probes started and not yet finished.
    pub fn in_flight(&self) -> (r: usize)
        ensures
            r == self@.in_flight,
    {
        self.in_flight
    }

    /// Whether every target has been handed out and has its result.
    pub fn is_drained(&self) -> (r: bool)
        requires
            self.wf(),
        ensures
            r == (self@.dispatched == self@.results.len() && self@.in_flight == 0),
            r ==> forall|i: int| 0 <= i < self@.results.len() ==> self@.results[i] is Some,
    {
        let r = self.next == self.slots.len() && self.in_flight == 0;
        if r {
            proof {
                assert(self@.results.take(self.next as int) =~= self@.results);
                lemma_done_count_full(self@.results);
            }
        }
        r
    }

    /// The results of a drained run, in target order.
    pub fn into_results(self) -> (r: Vec<ProbeResult>)
        requires
            self.wf(),
            self@.dispatched == self@.results.len(),
            self@.in_flight == 0,
        ensures
            r@.len() == self@.results.len(),
            forall|i: int| 0 <= i < r@.len() ==> Some(#[trigger] r@[i]@) == self@.results[i],
    {
        proof {
            assert(self@.results.take(self.next as int) =~= self@.results);
            lemma_done_count_full(self@.results);
        }
        let ghost all = self@.results;
        let mut slots = self.slots;
        let mut out: Vec<ProbeResult> = Vec::new();
        let mut k: usize = 0;
        let n = slots.len();
        while k < n
            invariant
                n == all.len(),
                k <= n,
                slots@.len() == n - k,
                out@.len() == k,
                forall|i: int| 0 <= i < n ==> all[i] is Some,
                forall|i: int| 0 <= i < slots@.len() ==> slot_view(slots@[i]) == all[k + i],
                forall|i: int| 0 <= i < k ==> Some(#[trigger] out@[i]@) == all[i],
            decreases n - k,
        {
            let ghost before = slots@;
            let slot = slots.remove(0);
            assert(slot_view(slot) == all[k as int]);
            assert forall|i: int| 0 <= i < slots@.len() implies slot_view(slots@[i]) == all[k + 1
                + i] by {
                assert(slots@[i] == before[i + 1]);
            }
            match slot {
                Some(result) => {
                    out.push(result);
                },
                None => {},
            }
            k = k + 1;
        }
        out
    }
}

/// At every well-formed state no more probes are in flight than the limit
/// allows, and the in-flight count is exactly the number of handed-out targets
/// still without a result.
pub proof fn law_concurrency_bound(s: &Scheduler)
    requires
        s.wf(),
    ensures
        s@.in_flight <= s@.limit,
        s@.in_flight + done_count(s@.results.take(s@.dispatched as int)) == s@.dispatched,
        forall|i: int| s@.dispatched <= i < s@.results.len() ==> s@.results[i] is None,
{
}

/// Whether every probe of a run reached its target.
pub fn all_reachable(results: &Vec<ProbeResult>) -> (r: bool)
    ensures
        r == forall|i: int| 0 <= i < results@.len() ==> #[trigger] results@[i].outcome == Outcome::Reachable,
{
    let mut i: usize = 0;
    while i < results.len()
        invariant
            i <= results@.len(),
            forall|k: int| 0 <= k < i ==> #[trigger] results@[k].outcome == Outcome::Reachable,
        decreases results@.len() - i,
    {
        match results[i].outcome {
            Outcome::Reachable => {},
            _ => return false,
        }
        i = i + 1;
    }
    true
}

} // verus!
