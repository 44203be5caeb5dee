//! Input button tracking.
//!
//! Each key or button code carries a tri-state: pressed this frame
//! (with the press time), held (with the press time), or released.
//! Events move a button between the states; the end-of-frame clear
//! turns this frame's presses into holds, so a press counts as a press
//! for exactly one frame.

use vstd::prelude::*;

verus! {

/// The tri-state of one button, timestamps in milliseconds.
#[derive(Clone, Copy, Debug, PartialEq, Eq, Structural)]
pub enum ButtonState {
    Pressed(u64),
    Held(u64),
    Released,
}

/// The state a button enters on an event: a press lands only on an
/// un-pressed button, a release only on a pressed or held one.
pub open spec fn spec_on_event(prev: Option<ButtonState>, pressed: bool, now: u64) -> Option<
    ButtonState,
> {
    match prev {
        Some(ButtonState::Pressed(t)) => if !pressed {
            Some(ButtonState::Released)
        } else {
            prev
        },
        Some(ButtonState::Held(t)) => if !pressed {
            Some(ButtonState::Released)
        } else {
            prev
        },
        _ => if pressed {
            Some(ButtonState::Pressed(now))
        } else {
            prev
        },
    }
}

/// The state a button enters at end of frame: a press becomes a hold.
pub open spec fn spec_on_clear(s: ButtonState) -> ButtonState {
    match s {
        ButtonState::Pressed(t) => ButtonState::Held(t),
        _ => s,
    }
}

/// Tracks the tri-state of every button seen so far.
#[derive(Debug)]
pub struct ButtonTracker {
    buttons: Vec<(u32, ButtonState)>,
}

impl ButtonTracker {
    /// One slot per button code.
    pub closed spec fn wf(self) -> bool {
        forall|i: int, j: int|
            0 <= i < j < self.buttons@.len() ==> (#[trigger] self.buttons@[i]).0 != (
            #[trigger] self.buttons@[j]).0
    }

    /// The tracked state of a button code, if any event reached it yet.
    pub closed spec fn spec_state(self, button: u32) -> Option<ButtonState> {
        if exists|i: int| 0 <= i < self.buttons@.len() && (#[trigger] self.buttons@[i]).0
            == button {
            let i = choose|i: int|
                0 <= i < self.buttons@.len() && (#[trigger] self.buttons@[i]).0 == button;
            Some(self.buttons@[i].1)
        } else {
            None
        }
    }

    pub fn new() -> (r: ButtonTracker)
        ensures
            r.wf(),
            forall|b: u32| r.spec_state(b) is None,
    {
        ButtonTracker { buttons: Vec::new() }
    }

    fn find_idx(&self, button: u32) -> (r: Option<usize>)
        requires
            self.wf(),
        ensures
            match r {
                Some(i) => i < self.buttons@.len() && self.buttons@[i as int].0 == button
                    && self.spec_state(button) == Some(self.buttons@[i as int].1),
                None => self.spec_state(button) is None,
            },
    {
        let mut i: usize = 0;
        while i < self.buttons.len()
            invariant
                0 <= i <= self.buttons@.len(),
                self.wf(),
                forall|j: int| 0 <= j < i ==> (#[trigger] self.buttons@[j]).0 != button,
            decreases self.buttons@.len() - i,
        {
            if self.buttons[i].0 == button {
                proof {
                    let j = choose|j: int|
                        0 <= j < self.buttons@.len() && (#[trigger] self.buttons@[j]).0 == button;
                    assert(j == i);
                }
                return Some(i);
            }
            i += 1;
        }
        None
    }

    /// Feeds one device event for a button: `pressed` is whether the
    /// event reports the button down.
    pub fn handle_event(&mut self, button: u32, pressed: bool, now_ms: u64)
        requires
            old(self).wf(),
        ensures
            final(self).wf(),
            final(self).spec_state(button) == spec_on_event(
                old(self).spec_state(button),
                pressed,
                now_ms,
            ),
            forall|b: u32|
                b != button ==> #[trigger] final(self).spec_state(b) == old(self).spec_state(b),
    {
        let found = self.find_idx(button);
        match found {
            Some(i) => {
                let ghost pre = *self;
                let new_state = match self.buttons[i].1 {
                    ButtonState::Pressed(_) => {
                        if !pressed {
                            Some(ButtonState::Released)
                        } else {
                            None
                        }
                    },
                    ButtonState::Held(_) => {
                        if !pressed {
                            Some(ButtonState::Released)
                        } else {
                            None
                        }
                    },
                    ButtonState::Released => {
                        if pressed {
                            Some(ButtonState::Pressed(now_ms))
                        } else {
                            None
                        }
                    },
                };
                match new_state {
                    Some(st) => {
                        self.buttons[i].1 = st;
                        proof {
                            lemma_button_update(pre, *self, i as int, button);
                        }
                    },
                    None => {
                        proof {
                            assert(self.buttons@ =~= pre.buttons@.update(
                                i as int,
                                pre.buttons@[i as int],
                            ));
                            lemma_button_update(pre, *self, i as int, button);
                        }
                    },
                }
            },
            None => {
                if pressed {
                    let ghost pre = *self;
                    self.buttons.push((button, ButtonState::Pressed(now_ms)));
                    proof {
                        lemma_button_push(pre, *self, button);
                    }
                }
            },
        }
    }

    /// End-of-frame clear: every press becomes a hold.
    pub fn clear_presses(&mut self)
        requires
            old(self).wf(),
        ensures
            final(self).wf(),
            forall|b: u32|
                #[trigger] final(self).spec_state(b) == (match old(self).spec_state(b) {
                    Some(s) => Some(spec_on_clear(s)),
                    None => None,
                }),
    {
        let n = self.buttons.len();
        let mut i: usize = 0;
        while i < n
            invariant
                0 <= i <= n,
                self.buttons@.len() == n,
                forall|j: int|
                    0 <= j < n ==> (#[trigger] self.buttons@[j]).0 == old(self).buttons@[j].0,
                forall|j: int|
                    0 <= j < i ==> (#[trigger] self.buttons@[j]).1 == spec_on_clear(
                        old(self).buttons@[j].1,
                    ),
                forall|j: int|
                    i <= j < n ==> (#[trigger] self.buttons@[j]).1 == old(self).buttons@[j].1,
            decreases n - i,
        {
            let st = self.buttons[i].1;
            match st {
                ButtonState::Pressed(t) => {
                    self.buttons[i].1 = ButtonState::Held(t);
                },
                _ => {},
            }
            i += 1;
        }
        proof {
            assert(old(self).wf());
            assert forall|b: u32| #[trigger] final(self).spec_state(b) == (
            match old(self).spec_state(b) {
                Some(s) => Some(spec_on_clear(s)),
                None => None,
            }) by {
                if exists|j: int| 0 <= j < old(self).buttons@.len() && (
                #[trigger] old(self).buttons@[j]).0 == b {
                    let j = choose|j: int|
                        0 <= j < old(self).buttons@.len() && (#[trigger] old(
                            self,
                        ).buttons@[j]).0 == b;
                    assert(self.buttons@[j].0 == b);
                    let j2 = choose|j2: int|
                        0 <= j2 < self.buttons@.len() && (#[trigger] self.buttons@[j2]).0 == b;
                    assert(old(self).buttons@[j2].0 == b);
                    assert(j2 == j);
                } else {
                    assert forall|j: int| 0 <= j < self.buttons@.len()
                        implies (#[trigger] self.buttons@[j]).0 != b by {
                        assert(old(self).buttons@[j].0 == self.buttons@[j].0);
                    }
                }
            }
        }
    }

    /// Whether the button was pressed this frame.
    pub fn is_button_pressed(&self, button: u32) -> (r: bool)
        requires
            self.wf(),
        ensures
            r == (self.spec_state(button) matches Some(ButtonState::Pressed(_))),
    {
        match self.find_idx(button) {
            Some(i) => match self.buttons[i].1 {
                ButtonState::Pressed(_) => true,
                _ => false,
            },
            None => false,
        }
    }

    /// How long the button has been held, when it is held.
    pub fn is_button_held(&self, button: u32, now_ms: u64) -> (r: Option<u64>)
        requires
            self.wf(),
        ensures
            match self.spec_state(button) {
                Some(ButtonState::Held(t)) => r == Some(
                    if now_ms >= t {
                        (now_ms - t) as u64
                    } else {
                        0u64
                    },
                ),
                _ => r is None,
            },
    {
        match self.find_idx(button) {
            Some(i) => match self.buttons[i].1 {
                ButtonState::Held(t) => {
                    if now_ms >= t {
                        Some(now_ms - t)
                    } else {
                        Some(0)
                    }
                },
                _ => None,
            },
            None => None,
        }
    }
}

/// Updating the slot at an index (code unchanged) changes lookups only
/// at that code.
proof fn lemma_button_update(pre: ButtonTracker, post: ButtonTracker, i: int, button: u32)
    requires
        pre.wf(),
        0 <= i < pre.buttons@.len(),
        pre.buttons@[i].0 == button,
        post.buttons@ == pre.buttons@.update(i, post.buttons@[i]),
        post.buttons@[i].0 == button,
    ensures
        post.wf(),
        post.spec_state(button) == Some(post.buttons@[i].1),
        forall|b: u32| b != button ==> #[trigger] post.spec_state(b) == pre.spec_state(b),
{
    assert forall|b: u32| b != button implies #[trigger] post.spec_state(b) == pre.spec_state(
        b,
    ) by {
        if exists|j: int| 0 <= j < pre.buttons@.len() && (#[trigger] pre.buttons@[j]).0 == b {
            let j = choose|j: int|
                0 <= j < pre.buttons@.len() && (#[trigger] pre.buttons@[j]).0 == b;
            assert(j != i);
            assert(post.buttons@[j].0 == b);
            let j2 = choose|j2: int|
                0 <= j2 < post.buttons@.len() && (#[trigger] post.buttons@[j2]).0 == b;
            assert(j2 != i ==> post.buttons@[j2] == pre.buttons@[j2]);
            assert(j2 == j);
        } else {
            assert forall|j: int| 0 <= j < post.buttons@.len()
                implies (#[trigger] post.buttons@[j]).0 != b by {
                if j != i {
                    assert(post.buttons@[j] == pre.buttons@[j]);
                }
            }
        }
    }
    let j2 = choose|j2: int|
        0 <= j2 < post.buttons@.len() && (#[trigger] post.buttons@[j2]).0 == button;
    assert(post.buttons@[i].0 == button);
    assert(j2 == i || pre.buttons@[j2].0 == button);
    assert(j2 == i);
}

/// Appending a slot for a new code changes lookups only at that code.
proof fn lemma_button_push(pre: ButtonTracker, post: ButtonTracker, button: u32)
    requires
        pre.wf(),
        pre.spec_state(button) is None,
        post.buttons@ == pre.buttons@.push(post.buttons@.last()),
        post.buttons@.last().0 == button,
    ensures
        post.wf(),
        post.spec_state(button) == Some(post.buttons@.last().1),
        forall|b: u32| b != button ==> #[trigger] post.spec_state(b) == pre.spec_state(b),
{
    let n = pre.buttons@.len() as int;
    assert(forall|j: int| 0 <= j < n ==> post.buttons@[j] == pre.buttons@[j]);
    assert forall|i: int, j: int| 0 <= i < j < post.buttons@.len()
        implies (#[trigger] post.buttons@[i]).0 != (#[trigger] post.buttons@[j]).0 by {
        if j == n {
            if pre.buttons@[i].0 == button {
                assert(exists|m: int|
                    0 <= m < pre.buttons@.len() && (#[trigger] pre.buttons@[m]).0 == button);
            }
        }
    }
    assert(post.buttons@[n].0 == button);
    let j2 = choose|j2: int|
        0 <= j2 < post.buttons@.len() && (#[trigger] post.buttons@[j2]).0 == button;
    assert(j2 == n) by {
        if j2 < n {
            assert(pre.buttons@[j2].0 == button);
        }
    }
    assert forall|b: u32| b != button implies #[trigger] post.spec_state(b) == pre.spec_state(
        b,
    ) by {
        if exists|j: int| 0 <= j < pre.buttons@.len() && (#[trigger] pre.buttons@[j]).0 == b {
            let j = choose|j: int|
                0 <= j < pre.buttons@.len() && (#[trigger] pre.buttons@[j]).0 == b;
            assert(post.buttons@[j].0 == b);
            let m = choose|m: int|
                0 <= m < post.buttons@.len() && (#[trigger] post.buttons@[m]).0 == b;
            assert(m < n);
            assert(m == j);
        } else {
            assert forall|j: int| 0 <= j < post.buttons@.len()
                implies (#[trigger] post.buttons@[j]).0 != b by {
                if j < n {
                    assert(post.buttons@[j] == pre.buttons@[j]);
                }
            }
        }
    }
}

} // verus!
