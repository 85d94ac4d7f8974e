//! Proxy selection policies.
//!
//! Both policies are driven from outside: the caller performs each probe or
//! download (an external process) and reports its outcome back, and the
//! state machines here make every decision. The race policy consumes probe
//! outcomes in whatever order they complete; the sequential-survivor policy
//! walks the candidates in file order and records every survivor.

use vstd::prelude::*;

verus! {

/// The first event that reports a live proxy, in observation order.
pub open spec fn first_success(events: Seq<(Seq<char>, bool)>) -> Option<Seq<char>>
    decreases events.len(),
{
    if events.len() == 0 {
        None
    } else if events[0].1 {
        Some(events[0].0)
    } else {
        first_success(events.drop_first())
    }
}

proof fn lemma_first_success_push(events: Seq<(Seq<char>, bool)>, e: (Seq<char>, bool))
    ensures
        first_success(events.push(e)) == if first_success(events) is Some {
            first_success(events)
        } else if e.1 {
            Some(e.0)
        } else {
            None::<Seq<char>>
        },
    decreases events.len(),
{
    if events.len() == 0 {
        assert(events.push(e)[0] == e);
        assert(events.push(e).drop_first() =~= Seq::<(Seq<char>, bool)>::empty());
        assert(first_success(Seq::<(Seq<char>, bool)>::empty()) is None);
        assert(first_success(events) is None);
    } else {
        assert(events.push(e)[0] == events[0]);
        assert(events.push(e).drop_first() =~= events.drop_first().push(e));
        lemma_first_success_push(events.drop_first(), e);
    }
}

/// Aggregator of a first-success race over concurrent probes.
///
/// Completion order among probes is nondeterministic, so the machine keeps
/// no assumption about it: whichever success is observed first wins, and
/// later results are discarded. `outstanding` counts the probes whose
/// outcome has not been observed yet; it falls by one per observation, so a
/// caller that stops when it reaches zero never waits forever.
pub struct RaceState {
    pub outstanding: usize,
    pub winner: Option<String>,
    pub observed: Ghost<Seq<(Seq<char>, bool)>>,
}

impl RaceState {
    /// The winning proxy as a sequence of characters.
    pub open spec fn winner_view(self) -> Option<Seq<char>> {
        match self.winner {
            Some(w) => Some(w@),
            None => None,
        }
    }

    /// The winner is exactly the first observed success.
    pub open spec fn wf(self) -> bool {
        self.winner_view() == first_success(self.observed@)
    }

    /// Starts a race over `total` concurrently launched probes.
    pub fn race_start(total: usize) -> (s: Self)
        ensures
            s.wf(),
            s.outstanding == total,
            s.observed@ == Seq::<(Seq<char>, bool)>::empty(),
            s.winner is None,
    {
        RaceState { outstanding: total, winner: None, observed: Ghost(Seq::empty()) }
    }

    /// Records one probe outcome, in the order outcomes are observed. The
    /// first live proxy becomes the winner; everything after is discarded.
    pub fn on_probe_result(&mut self, proxy: String, live: bool)
        requires
            old(self).wf(),
            old(self).outstanding > 0,
        ensures
            final(self).wf(),
            final(self).outstanding == old(self).outstanding - 1,
            final(self).observed@ == old(self).observed@.push((proxy@, live)),
            final(self).winner_view() == if old(self).winner_view() is Some {
                old(self).winner_view()
            } else if live {
                Some(proxy@)
            } else {
                None::<Seq<char>>
            },
    {
        proof {
            lemma_first_success_push(self.observed@, (proxy@, live));
        }
        self.outstanding = self.outstanding - 1;
        self.observed = Ghost(self.observed@.push((proxy@, live)));
        if self.winner.is_none() && live {
            self.winner = Some(proxy);
        }
    }

    /// A winner has been observed; the caller may stop waiting.
    pub fn decided(&self) -> (r: bool)
        ensures
            r == (self.winner is Some),
    {
        self.winner.is_some()
    }

    /// Every probe outcome has been observed.
    pub fn finished(&self) -> (r: bool)
        ensures
            r == (self.outstanding == 0),
    {
        self.outstanding == 0
    }

    /// Hands out the race's result: the first live proxy observed, or
    /// nothing when no probe succeeded among those observed.
    pub fn into_winner(self) -> (r: Option<String>)
        ensures
            r == self.winner,
    {
        self.winner
    }
}

/// Law: when the race has a winner, that proxy was observed to be live; and
/// when every observed outcome came from the candidate set, the winner is a
/// member of it. Never a non-member, never a failed one.
pub proof fn lemma_race_winner_is_live_candidate(s: RaceState, candidates: Seq<Seq<char>>)
    requires
        s.wf(),
        s.winner_view() is Some,
        forall|i: int| 0 <= i < s.observed@.len() ==> candidates.contains(
            #[trigger] s.observed@[i].0,
        ),
    ensures
        exists|i: int|
            0 <= i < s.observed@.len() && #[trigger] s.observed@[i] == (
                s.winner_view()->Some_0,
                true,
            ),
        candidates.contains(s.winner_view()->Some_0),
{
    lemma_first_success_is_observed(s.observed@);
    let i = choose|i: int|
        0 <= i < s.observed@.len() && #[trigger] s.observed@[i] == (
            first_success(s.observed@)->Some_0,
            true,
        );
    assert(candidates.contains(s.observed@[i].0));
}

/// The first observed success really is one of the observed events.
pub proof fn lemma_first_success_is_observed(events: Seq<(Seq<char>, bool)>)
    requires
        first_success(events) is Some,
    ensures
        exists|i: int|
            0 <= i < events.len() && #[trigger] events[i] == (first_success(events)->Some_0, true),
    decreases events.len(),
{
    if events[0].1 {
        assert(events[0] == (first_success(events)->Some_0, true));
    } else {
        lemma_first_success_is_observed(events.drop_first());
        let i = choose|i: int|
            0 <= i < events.drop_first().len() && #[trigger] events.drop_first()[i] == (
                first_success(events.drop_first())->Some_0,
                true,
            );
        assert(events[i + 1] == (first_success(events)->Some_0, true));
    }
}

/// Law: when every observed outcome reported failure, the race has no
/// winner.
pub proof fn lemma_race_all_failed(s: RaceState)
    requires
        s.wf(),
        forall|i: int| 0 <= i < s.observed@.len() ==> !(#[trigger] s.observed@[i].1),
    ensures
        s.winner is None,
{
    lemma_no_success(s.observed@);
}

proof fn lemma_no_success(events: Seq<(Seq<char>, bool)>)
    requires
        forall|i: int| 0 <= i < events.len() ==> !(#[trigger] events[i].1),
    ensures
        first_success(events) is None,
    decreases events.len(),
{
    if events.len() > 0 {
        assert(forall|i: int|
            0 <= i < events.drop_first().len() ==> !(#[trigger] events.drop_first()[i].1));
        lemma_no_success(events.drop_first());
    }
}

/// `sub` picks out some of `sup`'s entries, keeping their relative order.
pub open spec fn ordered_subselection(sub: Seq<Seq<char>>, sup: Seq<Seq<char>>) -> bool {
    exists|picks: Seq<int>|
        #![trigger picks.len()]
        {
            &&& picks.len() == sub.len()
            &&& (forall|i: int| 0 <= i < picks.len() ==> 0 <= #[trigger] picks[i] < sup.len())
            &&& (forall|i: int, j: int|
                #![trigger picks[i], picks[j]]
                0 <= i < j < picks.len() ==> picks[i] < picks[j])
            &&& (forall|i: int| 0 <= i < picks.len() ==> sub[i] == sup[#[trigger] picks[i]])
        }
}

/// Sequential-survivor policy: walk the candidates in file order, probe
/// each one, keep every candidate whose probe succeeds, and after each
/// successful probe attempt a download through that proxy; a successful
/// download ends the walk, a failed one moves on to the next candidate.
pub struct SeqRun {
    pub candidates: Vec<String>,
    pub next: usize,
    pub survivors: Vec<String>,
    pub awaiting_download: bool,
    pub downloaded: bool,
    pub picks: Ghost<Seq<int>>,
}

impl SeqRun {
    /// Every survivor is a candidate, picked in strictly increasing
    /// candidate order before the cursor.
    pub open spec fn wf(self) -> bool {
        &&& self.next <= self.candidates@.len()
        &&& self.picks@.len() == self.survivors@.len()
        &&& (forall|i: int| 0 <= i < self.picks@.len() ==> 0 <= #[trigger] self.picks@[i] < self.next)
        &&& (forall|i: int, j: int|
            #![trigger self.picks@[i], self.picks@[j]]
            0 <= i < j < self.picks@.len() ==> self.picks@[i] < self.picks@[j])
        &&& (forall|i: int|
            0 <= i < self.picks@.len() ==> self.survivors.deep_view()[i]
                == self.candidates.deep_view()[#[trigger] self.picks@[i]])
    }

    /// A probe of the next candidate is the pending step.
    pub open spec fn probe_pending_spec(self) -> bool {
        !self.downloaded && !self.awaiting_download && self.next < self.candidates@.len()
    }

    /// Starts a sequential run over the candidates, in file order.
    pub fn seq_start(candidates: Vec<String>) -> (s: Self)
        ensures
            s.wf(),
            s.candidates == candidates,
            s.next == 0,
            s.survivors@.len() == 0,
            !s.awaiting_download,
            !s.downloaded,
    {
        SeqRun {
            candidates,
            next: 0,
            survivors: Vec::new(),
            awaiting_download: false,
            downloaded: false,
            picks: Ghost(Seq::empty()),
        }
    }

    /// The candidate to probe next.
    pub fn current_candidate(&self) -> (r: String)
        requires
            self.probe_pending_spec(),
        ensures
            r@ == self.candidates.deep_view()[self.next as int],
    {
        self.candidates[self.next].clone()
    }

    /// True while a probe of the next candidate is the pending step.
    pub fn probe_pending(&self) -> (r: bool)
        ensures
            r == self.probe_pending_spec(),
    {
        !self.downloaded && !self.awaiting_download && self.next < self.candidates.len()
    }

    /// Records the probe outcome for the current candidate. A live
    /// candidate joins the survivors and its download becomes the pending
    /// step; a dead one is skipped.
    pub fn on_probe(&mut self, live: bool)
        requires
            old(self).wf(),
            old(self).probe_pending_spec(),
        ensures
            final(self).wf(),
            final(self).candidates == old(self).candidates,
            final(self).next == old(self).next + 1,
            !final(self).downloaded,
            final(self).awaiting_download == live,
            final(self).survivors.deep_view() == if live {
                old(self).survivors.deep_view().push(
                    old(self).candidates.deep_view()[old(self).next as int],
                )
            } else {
                old(self).survivors.deep_view()
            },
    {
        // Binds the candidate count so the cursor increment below is known
        // to stay within usize.
        let _cap = self.candidates.len();
        if live {
            let c = self.candidates[self.next].clone();
            let ghost old_sv = self.survivors.deep_view();
            self.survivors.push(c);
            proof {
                assert(self.survivors.deep_view() =~~= old_sv.push(
                    self.candidates.deep_view()[self.next as int],
                ));
            }
            self.picks = Ghost(self.picks@.push(self.next as int));
            self.awaiting_download = true;
        }
        self.next = self.next + 1;
    }

    /// Records the outcome of the download attempted through the candidate
    /// that just passed its probe. Success ends the walk; failure moves on.
    pub fn on_download(&mut self, success: bool)
        requires
            old(self).wf(),
            old(self).awaiting_download,
        ensures
            final(self).wf(),
            final(self).candidates == old(self).candidates,
            final(self).survivors == old(self).survivors,
            final(self).next == old(self).next,
            final(self).downloaded == success,
            !final(self).awaiting_download,
    {
        self.downloaded = success;
        self.awaiting_download = false;
    }

    /// The run is over: either a download succeeded or every candidate was
    /// probed and no download remains pending.
    pub fn is_finished(&self) -> (r: bool)
        ensures
            r == (self.downloaded || (!self.awaiting_download && self.next
                == self.candidates@.len())),
    {
        self.downloaded || (!self.awaiting_download && self.next == self.candidates.len())
    }

    /// The survivors recorded so far, in discovery order.
    pub fn survivors(&self) -> (r: &Vec<String>)
        ensures
            r == &self.survivors,
    {
        &self.survivors
    }
}

/// Law: at every reachable state of a sequential run, the survivor set is
/// an ordered subselection of the candidate set — a subset that preserves
/// the candidates' relative order.
pub proof fn lemma_survivors_ordered_subset(s: SeqRun)
    requires
        s.wf(),
    ensures
        ordered_subselection(s.survivors.deep_view(), s.candidates.deep_view()),
        forall|i: int|
            0 <= i < s.survivors.deep_view().len() ==> s.candidates.deep_view().contains(
                #[trigger] s.survivors.deep_view()[i],
            ),
{
    let picks = s.picks@;
    assert(picks.len() == s.survivors.deep_view().len());
    assert(ordered_subselection(s.survivors.deep_view(), s.candidates.deep_view()));
    assert forall|i: int| 0 <= i < s.survivors.deep_view().len() implies s.candidates.deep_view()
        .contains(#[trigger] s.survivors.deep_view()[i]) by {
        assert(s.survivors.deep_view()[i] == s.candidates.deep_view()[picks[i]]);
    }
}

} // verus!

