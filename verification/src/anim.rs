//! Animation clocks for tile animations.
//!
//! A clock owns an authored frame sequence of (tile id, duration) pairs
//! and a tick timestamp. Polling it with the current time advances the
//! frame index, wrapping, once per elapsed frame duration; tiles sharing
//! one clock therefore move in lock-step.

use vstd::prelude::*;

verus! {

/// One authored animation frame: the tile to show and how long, in
/// milliseconds.
#[derive(Clone, Copy, Debug, PartialEq, Eq, Structural, Hash)]
pub struct AnimFrame {
    pub tile_id: u32,
    pub duration_ms: u32,
}

/// The sum of all frame durations.
pub open spec fn total_duration(frames: Seq<AnimFrame>) -> int
    decreases frames.len(),
{
    if frames.len() == 0 {
        0
    } else {
        total_duration(frames.drop_last()) + frames.last().duration_ms
    }
}

/// The sum of the frame durations from index `i` on.
pub open spec fn suffix_duration(frames: Seq<AnimFrame>, i: int) -> int
    decreases frames.len() - i,
{
    if i < 0 || i >= frames.len() {
        0
    } else {
        frames[i].duration_ms + suffix_duration(frames, i + 1)
    }
}

/// Walks the frames from index `i`, consuming `r` milliseconds: the
/// frame shown after `r` milliseconds into the sequence at `i`.
pub open spec fn walk_frames(frames: Seq<AnimFrame>, r: int, i: int) -> int
    decreases frames.len() - i,
{
    if i < 0 || i >= frames.len() {
        i
    } else if r > frames[i].duration_ms {
        walk_frames(frames, r - frames[i].duration_ms, i + 1)
    } else {
        i
    }
}

/// All durations are at least one millisecond.
pub open spec fn durations_positive(frames: Seq<AnimFrame>) -> bool {
    forall|i: int| 0 <= i < frames.len() ==> (#[trigger] frames[i]).duration_ms >= 1
}

/// The clock state reached by repeatedly ticking: while the time since
/// the last tick exceeds the current frame's duration, advance one frame
/// (wrapping) and move the tick timestamp forward by that duration.
/// Returns (frame index, tick timestamp, number of ticks).
pub open spec fn spec_advance(frames: Seq<AnimFrame>, cur: int, last: int, now: int) -> (
    int,
    int,
    int,
)
    decreases now - last when durations_positive(frames) && 0 <= cur < frames.len() && last <= now
{
    if 0 <= cur < frames.len() && now - last > frames[cur].duration_ms && durations_positive(
        frames,
    ) && last <= now {
        let (c, l, t) = spec_advance(
            frames,
            if cur + 1 == frames.len() {
                0
            } else {
                cur + 1
            },
            last + frames[cur].duration_ms,
            now,
        );
        (c, l, t + 1)
    } else {
        (cur, last, 0)
    }
}

/// A polling animation clock over a fixed frame sequence.
#[derive(Clone, Debug)]
pub struct AnimationClock {
    frames: Vec<AnimFrame>,
    current: usize,
    last_tick_ms: u64,
}

impl AnimationClock {
    /// A non-empty frame list with positive durations, a valid index.
    pub closed spec fn wf(self) -> bool {
        &&& self.frames@.len() > 0
        &&& self.current < self.frames@.len()
        &&& durations_positive(self.frames@)
    }

    pub closed spec fn spec_frames(self) -> Seq<AnimFrame> {
        self.frames@
    }

    pub closed spec fn spec_current(self) -> int {
        self.current as int
    }

    pub closed spec fn spec_last_tick(self) -> int {
        self.last_tick_ms as int
    }

    /// Accepts a non-empty frame sequence whose durations are all
    /// positive, starting at frame zero; rejects exactly the others.
    pub fn new(frames: Vec<AnimFrame>, start_ms: u64) -> (r: Option<AnimationClock>)
        ensures
            match r {
                Some(c) => {
                    &&& c.wf()
                    &&& c.spec_frames() == frames@
                    &&& c.spec_current() == 0
                    &&& c.spec_last_tick() == start_ms as int
                    &&& frames@.len() > 0
                    &&& durations_positive(frames@)
                },
                None => frames@.len() == 0 || !durations_positive(frames@),
            },
    {
        if frames.len() == 0 {
            return None;
        }
        let mut i: usize = 0;
        while i < frames.len()
            invariant
                0 <= i <= frames@.len(),
                forall|j: int| 0 <= j < i ==> (#[trigger] frames@[j]).duration_ms >= 1,
            decreases frames@.len() - i,
        {
            if frames[i].duration_ms == 0 {
                return None;
            }
            i += 1;
        }
        Some(AnimationClock { frames, current: 0, last_tick_ms: start_ms })
    }

    /// The current frame index.
    pub fn current_frame(&self) -> (r: usize)
        requires
            self.wf(),
        ensures
            r == self.spec_current(),
            r < self.spec_frames().len(),
    {
        self.current
    }

    /// The tile id of the current frame.
    pub fn current_tile_id(&self) -> (r: u32)
        requires
            self.wf(),
        ensures
            r == self.spec_frames()[self.spec_current()].tile_id,
    {
        self.frames[self.current].tile_id
    }

    /// Polls the clock: while the time since the last tick exceeds the
    /// current frame's authored duration, advance to the next frame
    /// (wrapping) and push the tick timestamp forward. Returns how many
    /// frames were advanced.
    pub fn update(&mut self, now_ms: u64) -> (ticks: u64)
        requires
            old(self).wf(),
            old(self).spec_last_tick() <= now_ms as int,
        ensures
            final(self).wf(),
            final(self).spec_frames() == old(self).spec_frames(),
            (final(self).spec_current(), final(self).spec_last_tick(), ticks as int)
                == spec_advance(
                old(self).spec_frames(),
                old(self).spec_current(),
                old(self).spec_last_tick(),
                now_ms as int,
            ),
            final(self).spec_last_tick() <= now_ms as int,
    {
        let ghost goal = spec_advance(
            self.frames@,
            self.current as int,
            self.last_tick_ms as int,
            now_ms as int,
        );
        let mut ticks: u64 = 0;
        while now_ms - self.last_tick_ms > self.frames[self.current].duration_ms as u64
            invariant
                self.wf(),
                self.frames@ == old(self).frames@,
                self.last_tick_ms <= now_ms,
                ticks as int <= self.last_tick_ms as int - old(self).last_tick_ms as int,
                ({
                    let (c, l, t) = spec_advance(
                        self.frames@,
                        self.current as int,
                        self.last_tick_ms as int,
                        now_ms as int,
                    );
                    goal == (c, l, (t + ticks) as int)
                }),
            decreases now_ms as int - self.last_tick_ms as int,
        {
            let d = self.frames[self.current].duration_ms as u64;
            self.last_tick_ms = self.last_tick_ms + d;
            if self.current == self.frames.len() - 1 {
                self.current = 0;
            } else {
                self.current = self.current + 1;
            }
            ticks = ticks + 1;
        }
        ticks
    }
}

/// An animation identity: two clocks built from equal frame sequences
/// tick identically, so tiles grouped by their frame sequence move in
/// lock-step under one clock.
pub fn frames_equal(a: &Vec<AnimFrame>, b: &Vec<AnimFrame>) -> (r: bool)
    ensures
        r == (a@ == b@),
{
    if a.len() != b.len() {
        return false;
    }
    let mut i: usize = 0;
    while i < a.len()
        invariant
            0 <= i <= a@.len(),
            a@.len() == b@.len(),
            forall|j: int| 0 <= j < i ==> a@[j] == b@[j],
        decreases a@.len() - i,
    {
        if a[i].tile_id != b[i].tile_id || a[i].duration_ms != b[i].duration_ms {
            return false;
        }
        i += 1;
    }
    proof {
        assert(a@ =~= b@);
    }
    true
}

} // verus!
