//! The timeline of the animation: a global state and one opacity state per
//! block, both functions of the time elapsed since mount.
use vstd::prelude::*;
use crate::grid::GridBlock;

verus! {

/// The global state of the animation.
#[derive(Clone, Copy, PartialEq, Eq, Debug, Structural)]
pub enum AnimationState {
    Initial,
    Animating,
    Complete,
}

/// The opacity phase of one block.
#[derive(Clone, Copy, PartialEq, Eq, Debug, Structural)]
pub enum OpacityState {
    Moving,
    Arrived,
    Settled,
}

pub open spec fn state_rank(s: AnimationState) -> int {
    match s {
        AnimationState::Initial => 0,
        AnimationState::Animating => 1,
        AnimationState::Complete => 2,
    }
}

pub open spec fn opacity_rank(s: OpacityState) -> int {
    match s {
        OpacityState::Moving => 0,
        OpacityState::Arrived => 1,
        OpacityState::Settled => 2,
    }
}

/// The global state at `t` milliseconds after mount: the animation starts at
/// `start_ms` and is complete at `complete_ms`.
pub open spec fn state_at(t: int, start_ms: int, complete_ms: int) -> AnimationState {
    if t < start_ms {
        AnimationState::Initial
    } else if t < complete_ms {
        AnimationState::Animating
    } else {
        AnimationState::Complete
    }
}

/// The opacity state of a block at `t` milliseconds after the animation
/// starts: it arrives at `arrival_ms` and settles `dwell_ms` later.
pub open spec fn opacity_at(t: int, arrival_ms: int, dwell_ms: int) -> OpacityState {
    if t < arrival_ms {
        OpacityState::Moving
    } else if t < arrival_ms + dwell_ms {
        OpacityState::Arrived
    } else {
        OpacityState::Settled
    }
}

/// The later of two global states.
pub open spec fn later_state(a: AnimationState, b: AnimationState) -> AnimationState {
    if state_rank(a) >= state_rank(b) {
        a
    } else {
        b
    }
}

/// The later of two opacity states.
pub open spec fn later_opacity(a: OpacityState, b: OpacityState) -> OpacityState {
    if opacity_rank(a) >= opacity_rank(b) {
        a
    } else {
        b
    }
}

/// `a + b`, held at `u64::MAX`.
pub open spec fn sat_add(a: int, b: int) -> int {
    if a + b <= u64::MAX {
        a + b
    } else {
        u64::MAX as int
    }
}

/// The largest of the arrival times; 0 where there are none.
pub open spec fn max_of(s: Seq<u64>) -> int
    decreases s.len(),
{
    if s.len() == 0 {
        0
    } else if max_of(s.drop_last()) >= s.last() {
        max_of(s.drop_last())
    } else {
        s.last() as int
    }
}

/// The timeline of one run of the animation.
pub struct Timeline {
    pub state: AnimationState,
    pub opacity: Vec<OpacityState>,
    pub arrival_ms: Vec<u64>,
    pub start_ms: u64,
    pub complete_ms: u64,
    pub dwell_ms: u64,
}

impl Timeline {
    /// The opacity vector and the arrival times belong to the same blocks.
    pub open spec fn wf(&self) -> bool {
        self.opacity@.len() == self.arrival_ms@.len()
    }

    /// Sets up the timeline of `blocks`: the animation starts `initial_delay_ms`
    /// after mount; each block arrives `movement_ms` after its delay, counted
    /// from the start, and settles `dwell_ms` after it arrives; the animation is
    /// complete once the last block has arrived.
    pub fn new(blocks: &Vec<GridBlock>, initial_delay_ms: u64, movement_ms: u64, dwell_ms: u64) -> (r: Timeline)
        ensures
            r.wf(),
            r.state == AnimationState::Initial,
            r.start_ms == initial_delay_ms,
            r.dwell_ms == dwell_ms,
            r.arrival_ms@.len() == blocks@.len(),
            forall|i: int| 0 <= i < blocks@.len() ==> r.arrival_ms@[i] == sat_add(blocks@[i].delay_ms as int, movement_ms as int),
            forall|i: int| 0 <= i < blocks@.len() ==> r.opacity@[i] == OpacityState::Moving,
            r.complete_ms == sat_add(initial_delay_ms as int, max_of(r.arrival_ms@)),
    {
        let mut arrival_ms: Vec<u64> = Vec::new();
        let mut opacity: Vec<OpacityState> = Vec::new();
        let mut longest: u64 = 0;
        for i in 0..blocks.len()
            invariant
                arrival_ms@.len() == i,
                opacity@.len() == i,
                forall|k: int| 0 <= k < i ==> arrival_ms@[k] == sat_add(blocks@[k].delay_ms as int, movement_ms as int),
                forall|k: int| 0 <= k < i ==> opacity@[k] == OpacityState::Moving,
                longest == max_of(arrival_ms@),
        {
            let a = blocks[i].delay_ms.saturating_add(movement_ms);
            assert(arrival_ms@.push(a).drop_last() =~= arrival_ms@);
            arrival_ms.push(a);
            opacity.push(OpacityState::Moving);
            if a > longest {
                longest = a;
            }
        }
        Timeline {
            state: AnimationState::Initial,
            opacity,
            arrival_ms,
            start_ms: initial_delay_ms,
            complete_ms: initial_delay_ms.saturating_add(longest),
            dwell_ms,
        }
    }

    /// Moves the timeline on to `now_ms` milliseconds after mount. No state
    /// goes back: each becomes the later of what it was and what the time
    /// asks for.
    pub fn advance(&mut self, now_ms: u64)
        requires
            old(self).wf(),
        ensures
            final(self).wf(),
            final(self).arrival_ms@ == old(self).arrival_ms@,
            final(self).start_ms == old(self).start_ms,
            final(self).complete_ms == old(self).complete_ms,
            final(self).dwell_ms == old(self).dwell_ms,
            final(self).state == later_state(
                old(self).state,
                state_at(now_ms as int, old(self).start_ms as int, old(self).complete_ms as int),
            ),
            forall|i: int|
                0 <= i < old(self).opacity@.len() ==> #[trigger] final(self).opacity@[i] == if now_ms < old(self).start_ms {
                    old(self).opacity@[i]
                } else {
                    later_opacity(
                        old(self).opacity@[i],
                        opacity_at(now_ms - old(self).start_ms, old(self).arrival_ms@[i] as int, old(self).dwell_ms as int),
                    )
                },
            state_rank(final(self).state) >= state_rank(old(self).state),
            forall|i: int| 0 <= i < old(self).opacity@.len() ==> opacity_rank(#[trigger] final(self).opacity@[i]) >= opacity_rank(old(self).opacity@[i]),
    {
        let target = if now_ms < self.start_ms {
            AnimationState::Initial
        } else if now_ms < self.complete_ms {
            AnimationState::Animating
        } else {
            AnimationState::Complete
        };
        if rank_of_state(target) > rank_of_state(self.state) {
            self.state = target;
        }
        if now_ms >= self.start_ms {
            let t = now_ms - self.start_ms;
            let n = self.opacity.len();
            for i in 0..n
                invariant
                    n == self.opacity@.len(),
                    self.opacity@.len() == self.arrival_ms@.len(),
                    self.start_ms == old(self).start_ms,
                    self.complete_ms == old(self).complete_ms,
                    self.state == later_state(
                        old(self).state,
                        state_at(now_ms as int, old(self).start_ms as int, old(self).complete_ms as int),
                    ),
                    self.arrival_ms@ == old(self).arrival_ms@,
                    self.dwell_ms == old(self).dwell_ms,
                    old(self).opacity@.len() == n,
                    t == now_ms - old(self).start_ms,
                    forall|k: int| i <= k < n ==> self.opacity@[k] == old(self).opacity@[k],
                    forall|k: int|
                        0 <= k < i ==> #[trigger] self.opacity@[k] == later_opacity(
                            old(self).opacity@[k],
                            opacity_at(t as int, old(self).arrival_ms@[k] as int, old(self).dwell_ms as int),
                        ),
            {
                let a = self.arrival_ms[i];
                let due = if t < a {
                    OpacityState::Moving
                } else if t - a < self.dwell_ms {
                    OpacityState::Arrived
                } else {
                    OpacityState::Settled
                };
                if rank_of_opacity(due) > rank_of_opacity(self.opacity[i]) {
                    self.opacity.set(i, due);
                }
            }
        }
    }

    /// The earliest time after `now_ms`, counted from mount, at which some
    /// state is due to change; `None` once nothing is left to change.
    pub fn next_wake_ms(&self, now_ms: u64) -> (r: Option<u64>)
        requires
            self.wf(),
        ensures
            match r {
                Some(w) => w > now_ms && self.is_wake_time(w as int),
                None => forall|w: int| w > now_ms ==> !#[trigger] self.is_wake_time(w),
            },
            r matches Some(w) ==> forall|v: int| now_ms < v < w ==> !#[trigger] self.is_wake_time(v),
    {
        let mut best: Option<u64> = None;
        if self.start_ms > now_ms {
            best = Some(self.start_ms);
        }
        if self.complete_ms > now_ms {
            best = earlier(best, self.complete_ms);
        }
        let mut i: usize = 0;
        while i < self.arrival_ms.len()
            invariant
                i <= self.arrival_ms@.len(),
                self.wf(),
                match best {
                    Some(w) => w > now_ms && self.is_wake_time(w as int),
                    None => true,
                },
                forall|v: int| #![trigger self.wake_before(v, i as int)] now_ms < v <= u64::MAX && self.wake_before(v, i as int) ==> match best {
                    Some(w) => w <= v,
                    None => false,
                },
            decreases self.arrival_ms@.len() - i,
        {
            let arrive = self.start_ms.checked_add(self.arrival_ms[i]);
            if let Some(x) = arrive {
                assert(self.wake_of_block(x as int, i as int));
                if x > now_ms {
                    best = earlier(best, x);
                }
                let settle = x.checked_add(self.dwell_ms);
                if let Some(y) = settle {
                    assert(self.wake_of_block(y as int, i as int));
                    if y > now_ms {
                        best = earlier(best, y);
                    }
                }
            }
            proof {
                assert forall|v: int| now_ms < v <= u64::MAX && #[trigger] self.wake_before(v, i + 1) implies match best {
                    Some(w) => w <= v,
                    None => false,
                } by {
                    if !self.wake_before(v, i as int) {
                        assert(self.wake_of_block(v, i as int));
                    }
                }
            }
            i = i + 1;
        }
        proof {
            assert forall|v: int| now_ms < v && #[trigger] self.is_wake_time(v) implies match best {
                Some(w) => w <= v,
                None => false,
            } by {
                assert(self.wake_before(v, self.arrival_ms@.len() as int));
            }
        }
        best
    }

    /// Whether `w` is a time at which block `k` arrives or settles.
    pub open spec fn wake_of_block(&self, w: int, k: int) -> bool {
        ||| w == self.start_ms + self.arrival_ms@[k]
        ||| w == self.start_ms + self.arrival_ms@[k] + self.dwell_ms
    }

    /// Whether `w` is the start, the completion, or a wake time of one of the
    /// first `n` blocks.
    pub open spec fn wake_before(&self, w: int, n: int) -> bool {
        ||| w == self.start_ms
        ||| w == self.complete_ms
        ||| exists|k: int| 0 <= k < n && #[trigger] self.wake_of_block(w, k)
    }

    /// Whether some state is due to change at `w`.
    pub open spec fn is_wake_time(&self, w: int) -> bool {
        w <= u64::MAX && self.wake_before(w, self.arrival_ms@.len() as int)
    }
}

/// The earlier of a candidate wake time and `x`.
fn earlier(best: Option<u64>, x: u64) -> (r: Option<u64>)
    ensures
        r == Some(match best {
            Some(w) => if w <= x {
                w
            } else {
                x
            },
            None => x,
        }),
{
    match best {
        Some(w) => if w <= x {
            Some(w)
        } else {
            Some(x)
        },
        None => Some(x),
    }
}

fn rank_of_state(s: AnimationState) -> (r: u8)
    ensures
        r == state_rank(s),
{
    match s {
        AnimationState::Initial => 0,
        AnimationState::Animating => 1,
        AnimationState::Complete => 2,
    }
}

fn rank_of_opacity(s: OpacityState) -> (r: u8)
    ensures
        r == opacity_rank(s),
{
    match s {
        OpacityState::Moving => 0,
        OpacityState::Arrived => 1,
        OpacityState::Settled => 2,
    }
}

/// The states never go back in time: at a later time the global state and
/// every block's opacity state are at least as far along, and `Complete` and
/// `Settled` are never left.
pub proof fn lemma_states_monotone(t1: int, t2: int, start_ms: int, complete_ms: int, arrival_ms: int, dwell_ms: int)
    requires
        t1 <= t2,
        dwell_ms >= 0,
    ensures
        state_rank(state_at(t1, start_ms, complete_ms)) <= state_rank(state_at(t2, start_ms, complete_ms)),
        opacity_rank(opacity_at(t1, arrival_ms, dwell_ms)) <= opacity_rank(opacity_at(t2, arrival_ms, dwell_ms)),
        state_at(t1, start_ms, complete_ms) == AnimationState::Complete ==> state_at(t2, start_ms, complete_ms)
            == AnimationState::Complete,
        opacity_at(t1, arrival_ms, dwell_ms) == OpacityState::Settled ==> opacity_at(t2, arrival_ms, dwell_ms)
            == OpacityState::Settled,
{
}

/// Advancing a timeline never moves a state back, and a timeline that is
/// `Complete`, or a block that is `Settled`, stays so whatever time comes.
pub proof fn lemma_advance_keeps_terminal(before: Timeline, after: Timeline, now_ms: u64)
    requires
        before.wf(),
        after.wf(),
        after.state == later_state(before.state, state_at(now_ms as int, before.start_ms as int, before.complete_ms as int)),
        after.opacity@.len() == before.opacity@.len(),
        forall|i: int|
            0 <= i < before.opacity@.len() ==> #[trigger] after.opacity@[i] == if now_ms < before.start_ms {
                before.opacity@[i]
            } else {
                later_opacity(
                    before.opacity@[i],
                    opacity_at(now_ms - before.start_ms, before.arrival_ms@[i] as int, before.dwell_ms as int),
                )
            },
    ensures
        before.state == AnimationState::Complete ==> after.state == AnimationState::Complete,
        forall|i: int|
            0 <= i < before.opacity@.len() && before.opacity@[i] == OpacityState::Settled ==> #[trigger] after.opacity@[i]
                == OpacityState::Settled,
{
}

} // verus!
