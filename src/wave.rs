use vstd::prelude::*;

verus! {

/// Lifecycle of one ball of a wave.
#[derive(PartialEq, Eq, Structural, Clone, Copy, Debug)]
pub enum BallState {
    /// Moving under the bounce rules.
    Running,
    /// Has reached the bottom line after the rendezvous was fixed, and walks
    /// back toward it.
    Backing,
    /// At rest.
    Done,
}

/// Mathematical picture of a wave.
pub struct WaveView {
    /// States of the balls launched so far, in launch order.
    pub states: Seq<BallState>,
    /// Balls still waiting to be launched.
    pub waiting: nat,
    /// Ticks left before the next launch.
    pub countdown: nat,
    /// The ball whose arrival fixed the rendezvous point, if one has arrived.
    pub rendezvous: Option<nat>,
}

/// What the end of a tick reports.
#[derive(PartialEq, Eq, Structural, Clone, Copy, Debug)]
pub struct TickEnd {
    /// A new ball was launched this tick (it is the last of the wave's balls).
    pub spawned: bool,
    /// No ball waits and every launched ball is at rest.
    pub complete: bool,
    /// On completion, the ball whose position is the next launch point.
    pub rendezvous: Option<usize>,
}

/// Every launched ball is at rest.
pub open spec fn all_done(states: Seq<BallState>) -> bool {
    forall|i: int| 0 <= i < states.len() ==> states[i] == BallState::Done
}

/// A wave is in flight while a ball waits or a launched ball is not at rest.
pub open spec fn in_flight(w: WaveView) -> bool {
    w.waiting > 0 || !all_done(w.states)
}

/// Effect of ball `i` reaching the bottom line: the first to arrive fixes
/// the rendezvous and stops; a later one starts walking back to it.
pub open spec fn arrive_spec(w: WaveView, i: nat) -> WaveView {
    match w.rendezvous {
        None => WaveView { states: w.states.update(i as int, BallState::Done), rendezvous: Some(i), ..w },
        Some(_) => WaveView { states: w.states.update(i as int, BallState::Backing), ..w },
    }
}

/// Arrivals of the balls `order`, one after another.
pub open spec fn arrive_all(w: WaveView, order: Seq<nat>) -> WaveView
    decreases order.len(),
{
    if order.len() == 0 {
        w
    } else {
        arrive_spec(arrive_all(w, order.drop_last()), order.last())
    }
}

/// The launch step of a tick: a waiting ball is launched once the countdown
/// has run out, which then restarts at `interval`.
pub open spec fn spawn_spec(w: WaveView, interval: nat) -> WaveView {
    if w.waiting == 0 {
        w
    } else if w.countdown == 0 {
        WaveView {
            states: w.states.push(BallState::Running),
            waiting: (w.waiting - 1) as nat,
            countdown: interval,
            ..w
        }
    } else {
        WaveView { countdown: (w.countdown - 1) as nat, ..w }
    }
}

/// A wave with a rendezvous holds it in a ball at rest, and a ball walks
/// back only toward a rendezvous that exists.
pub open spec fn wave_inv(w: WaveView) -> bool {
    &&& w.rendezvous matches Some(r) ==> r < w.states.len() && w.states[r as int] == BallState::Done
    &&& forall|i: int| 0 <= i < w.states.len() && w.states[i] == BallState::Backing ==> w.rendezvous is Some
}

/// A batch of balls that share one launch vector and one rendezvous point.
pub struct Wave {
    states: Vec<BallState>,
    waiting: u32,
    countdown: u32,
    rendezvous: Option<usize>,
}

impl View for Wave {
    type V = WaveView;

    closed spec fn view(&self) -> WaveView {
        WaveView {
            states: self.states@,
            waiting: self.waiting as nat,
            countdown: self.countdown as nat,
            rendezvous: match self.rendezvous {
                Some(r) => Some(r as nat),
                None => None,
            },
        }
    }
}

impl Wave {
    pub open spec fn wf(&self) -> bool {
        wave_inv(self@)
    }

    /// A wave with nothing launched and nothing waiting.
    pub fn new() -> (w: Wave)
        ensures
            w.wf(),
            w@.states.len() == 0,
            w@.waiting == 0,
            w@.countdown == 0,
            w@.rendezvous is None,
    {
        Wave { states: Vec::new(), waiting: 0, countdown: 0, rendezvous: None }
    }

    /// Number of balls launched so far.
    pub fn launched(&self) -> (n: usize)
        ensures
            n == self@.states.len(),
    {
        self.states.len()
    }

    /// Number of balls still waiting to be launched.
    pub fn waiting(&self) -> (n: u32)
        ensures
            n == self@.waiting,
    {
        self.waiting
    }

    /// State of launched ball `i`.
    pub fn state(&self, i: usize) -> (s: BallState)
        requires
            i < self@.states.len(),
        ensures
            s == self@.states[i as int],
    {
        self.states[i]
    }

    /// The ball whose arrival fixed this wave's rendezvous, if any.
    pub fn rendezvous(&self) -> (r: Option<usize>)
        ensures
            r matches Some(i) ==> self@.rendezvous == Some(i as nat),
            r is None ==> self@.rendezvous is None,
    {
        self.rendezvous
    }

    /// Whether a ball waits or a launched ball is not at rest.
    pub fn is_in_flight(&self) -> (r: bool)
        ensures
            r == in_flight(self@),
    {
        if self.waiting > 0 {
            return true;
        }
        let mut i: usize = 0;
        while i < self.states.len()
            invariant
                i <= self.states@.len(),
                forall|k: int| 0 <= k < i ==> self.states@[k] == BallState::Done,
            decreases self.states@.len() - i,
        {
            if self.states[i] != BallState::Done {
                return true;
            }
            i = i + 1;
        }
        false
    }

    /// Starts a wave of `count` balls, unless one is still in flight, in
    /// which case the request is refused and nothing changes.
    pub fn launch(&mut self, count: u32) -> (started: bool)
        requires
            old(self).wf(),
        ensures
            final(self).wf(),
            started == !in_flight(old(self)@),
            started ==> final(self)@ == (WaveView {
                states: Seq::empty(),
                waiting: count as nat,
                countdown: 0,
                rendezvous: None,
            }),
            !started ==> final(self)@ == old(self)@,
    {
        if self.is_in_flight() {
            return false;
        }
        self.states = Vec::new();
        self.waiting = count;
        self.countdown = 0;
        self.rendezvous = None;
        assert(self@.states =~= Seq::<BallState>::empty());
        true
    }

    /// Ball `i` reaches the bottom line. Returns whether it is the first of
    /// the wave to do so, and so fixes the rendezvous.
    pub fn arrive(&mut self, i: usize) -> (first: bool)
        requires
            old(self).wf(),
            i < old(self)@.states.len(),
            old(self)@.states[i as int] == BallState::Running,
        ensures
            final(self).wf(),
            final(self)@ == arrive_spec(old(self)@, i as nat),
            first == (old(self)@.rendezvous is None),
    {
        let ghost w = self@;
        if self.rendezvous.is_none() {
            self.states.set(i, BallState::Done);
            self.rendezvous = Some(i);
            assert(self@ == arrive_spec(w, i as nat));
            true
        } else {
            self.states.set(i, BallState::Backing);
            assert(self@ == arrive_spec(w, i as nat));
            false
        }
    }

    /// Ball `i`, walking back, has reached the rendezvous point and comes to rest.
    pub fn settle(&mut self, i: usize)
        requires
            old(self).wf(),
            i < old(self)@.states.len(),
            old(self)@.states[i as int] == BallState::Backing,
        ensures
            final(self).wf(),
            final(self)@ == (WaveView { states: old(self)@.states.update(i as int, BallState::Done), ..old(self)@ }),
    {
        self.states.set(i, BallState::Done);
    }

    /// Closes a tick: runs the launch step, then reports whether the wave is
    /// complete; on completion the rendezvous is handed back and cleared.
    pub fn end_tick(&mut self, interval: u32) -> (e: TickEnd)
        requires
            old(self).wf(),
        ensures
            final(self).wf(),
            ({
                let s = spawn_spec(old(self)@, interval as nat);
                &&& e.spawned == (s.states.len() > old(self)@.states.len())
                &&& e.complete == !in_flight(s)
                &&& e.complete ==> final(self)@ == (WaveView { rendezvous: None, ..s })
                &&& e.complete ==> match s.rendezvous {
                    Some(r) => e.rendezvous == Some(r as usize),
                    None => e.rendezvous is None,
                }
                &&& !e.complete ==> final(self)@ == s && e.rendezvous is None
            }),
    {
        let ghost w = self@;
        let mut spawned = false;
        if self.waiting > 0 {
            if self.countdown == 0 {
                self.states.push(BallState::Running);
                self.waiting = self.waiting - 1;
                self.countdown = interval;
                spawned = true;
            } else {
                self.countdown = self.countdown - 1;
            }
        }
        assert(self@ == spawn_spec(w, interval as nat));
        if self.is_in_flight() {
            TickEnd { spawned, complete: false, rendezvous: None }
        } else {
            let r = self.rendezvous;
            self.rendezvous = None;
            TickEnd { spawned, complete: true, rendezvous: r }
        }
    }
}

/// Within one wave, the first ball to reach the bottom line is the only one
/// that fixes the rendezvous: it comes to rest there, and every ball that
/// arrives after it walks back toward it.
pub proof fn lemma_single_rendezvous(w: WaveView, order: Seq<nat>)
    requires
        w.rendezvous is None,
        order.no_duplicates(),
        forall|k: int| 0 <= k < order.len() ==> #[trigger] order[k] < w.states.len(),
    ensures
        order.len() == 0 ==> arrive_all(w, order) == w,
        order.len() > 0 ==> {
            let r = arrive_all(w, order);
            &&& r.rendezvous == Some(order[0])
            &&& r.states[order[0] as int] == BallState::Done
            &&& forall|k: int| 1 <= k < order.len() ==> r.states[#[trigger] order[k] as int] == BallState::Backing
        },
        arrive_all(w, order).states.len() == w.states.len(),
        forall|i: int| 0 <= i < w.states.len() && !order.contains(i as nat)
            ==> arrive_all(w, order).states[i] == w.states[i],
    decreases order.len(),
{
    if order.len() > 0 {
        let prefix = order.drop_last();
        assert forall|k: int| 0 <= k < prefix.len() implies #[trigger] prefix[k] < w.states.len() by {
            assert(prefix[k] == order[k]);
        }
        lemma_single_rendezvous(w, prefix);
        let last = order.last();
        assert(!prefix.contains(last)) by {
            if prefix.contains(last) {
                let k = choose|k: int| 0 <= k < prefix.len() && prefix[k] == last;
                assert(order[k] == order[order.len() - 1]);
            }
        }
        if prefix.len() > 0 {
            assert(prefix[0] == order[0]);
            assert forall|k: int| 1 <= k < order.len() implies arrive_all(w, order).states[#[trigger] order[k] as int]
                == BallState::Backing by {
                if k < order.len() - 1 {
                    assert(prefix[k] == order[k]);
                    assert(order[k] != last);
                }
            }
            assert(order[0] != last);
        }
        assert forall|i: int| 0 <= i < w.states.len() && !order.contains(i as nat)
            implies arrive_all(w, order).states[i] == w.states[i] by {
            if prefix.contains(i as nat) {
                let k = choose|k: int| 0 <= k < prefix.len() && prefix[k] == i as nat;
                assert(order[k] == i as nat);
            }
            assert(order[order.len() - 1] != i as nat);
        }
    }
}

} // verus!
