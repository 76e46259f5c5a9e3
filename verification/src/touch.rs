//! Decoding the touchscreen's evdev multitouch events (protocol B):
//! which slot an event is about, when a finger goes down or up, and when
//! a frame ends with a finger moving. Reading the device and mapping
//! positions to the screen stay with the caller.

use vstd::prelude::*;

verus! {

pub const EV_SYN: u16 = 0;
pub const EV_ABS: u16 = 3;
pub const SYN_REPORT: u16 = 0;
pub const ABS_MT_SLOT: u16 = 47;
pub const ABS_MT_POSITION_X: u16 = 53;
pub const ABS_MT_POSITION_Y: u16 = 54;
pub const ABS_MT_TRACKING_ID: u16 = 57;

/// The number of touch slots tracked.
pub const MAX_SLOTS: usize = 32;

/// What an event asks of the caller.
#[derive(Clone, Copy, PartialEq, Eq, Debug, Structural)]
pub enum TouchOut {
    /// store the raw X position for this slot
    PosX(usize),
    /// store the raw Y position for this slot
    PosY(usize),
    /// a tracking id for this slot: note the slot's position for the
    /// frame, and report a finger going down (`Some(true)`) or up
    /// (`Some(false)`)
    Track(usize, Option<bool>),
    /// the frame ended with this slot's finger down: report it moving
    Motion(usize),
}

/// The decoder's state: the current slot, which slots have a finger
/// down, and the slot whose tracking id came in this frame.
pub struct TouchDecoder {
    cur: usize,
    down: Vec<bool>,
    frame: Option<usize>,
}

pub struct TouchView {
    pub cur: int,
    pub down: Seq<bool>,
    pub frame: Option<int>,
}

/// The slot an `ABS_MT_SLOT` value selects.
pub open spec fn slot_of(value: i32) -> int {
    (value as usize) as int % (MAX_SLOTS as int)
}

/// One event (type, code, value) applied to the decoder state: the new
/// state and what the caller is asked to do.
pub open spec fn touch_step(s: TouchView, ty: u16, code: u16, value: i32) -> (TouchView, Option<TouchOut>) {
    if ty == EV_ABS && code == ABS_MT_SLOT {
        (TouchView { cur: slot_of(value), ..s }, None)
    } else if ty == EV_ABS && code == ABS_MT_POSITION_X {
        (s, Some(TouchOut::PosX(s.cur as usize)))
    } else if ty == EV_ABS && code == ABS_MT_POSITION_Y {
        (s, Some(TouchOut::PosY(s.cur as usize)))
    } else if ty == EV_ABS && code == ABS_MT_TRACKING_ID {
        let c = s.cur;
        if value >= 0 && !s.down[c] {
            (
                TouchView { down: s.down.update(c, true), frame: Some(c), ..s },
                Some(TouchOut::Track(c as usize, Some(true))),
            )
        } else if value < 0 && s.down[c] {
            (
                TouchView { down: s.down.update(c, false), frame: Some(c), ..s },
                Some(TouchOut::Track(c as usize, Some(false))),
            )
        } else {
            (TouchView { frame: Some(c), ..s }, Some(TouchOut::Track(c as usize, None)))
        }
    } else if ty == EV_SYN && code == SYN_REPORT {
        match s.frame {
            Some(f) => (
                TouchView { frame: None, ..s },
                if s.down[f] {
                    Some(TouchOut::Motion(f as usize))
                } else {
                    None
                },
            ),
            None => (s, None),
        }
    } else {
        (s, None)
    }
}

impl View for TouchDecoder {
    type V = TouchView;

    closed spec fn view(&self) -> TouchView {
        TouchView {
            cur: self.cur as int,
            down: self.down@,
            frame: match self.frame {
                Some(f) => Some(f as int),
                None => None,
            },
        }
    }
}

/// The slots stay in range.
pub open spec fn touch_ok(s: TouchView) -> bool {
    &&& 0 <= s.cur < MAX_SLOTS
    &&& s.down.len() == MAX_SLOTS
    &&& s.frame matches Some(f) ==> 0 <= f < MAX_SLOTS
}

impl TouchDecoder {
    #[verifier::type_invariant]
    spec fn inv(self) -> bool {
        touch_ok(self@)
    }

    pub fn new() -> (d: Self)
        ensures
            d@.cur == 0,
            d@.down == Seq::new(MAX_SLOTS as nat, |i: int| false),
            d@.frame is None,
    {
        let mut down: Vec<bool> = Vec::new();
        let mut i: usize = 0;
        while i < MAX_SLOTS
            invariant
                i <= MAX_SLOTS,
                down@ == Seq::new(i as nat, |k: int| false),
            decreases MAX_SLOTS - i,
        {
            down.push(false);
            assert(down@ =~= Seq::new((i + 1) as nat, |k: int| false));
            i = i + 1;
        }
        let d = TouchDecoder { cur: 0, down, frame: None };
        assert(d@.down =~= Seq::new(MAX_SLOTS as nat, |i: int| false));
        d
    }

    /// Whether a finger is down in `slot`.
    pub fn is_down(&self, slot: usize) -> (r: bool)
        ensures
            r == (slot < MAX_SLOTS && self@.down[slot as int]),
    {
        proof {
            use_type_invariant(self);
        }
        slot < MAX_SLOTS && self.down[slot]
    }

    /// Feed one event.
    pub fn step(&mut self, ty: u16, code: u16, value: i32) -> (r: Option<TouchOut>)
        ensures
            (final(self)@, r) == touch_step(old(self)@, ty, code, value),
    {
        proof {
            use_type_invariant(&*self);
        }
        if ty == EV_ABS && code == ABS_MT_SLOT {
            self.cur = (value as usize) % MAX_SLOTS;
            None
        } else if ty == EV_ABS && code == ABS_MT_POSITION_X {
            Some(TouchOut::PosX(self.cur))
        } else if ty == EV_ABS && code == ABS_MT_POSITION_Y {
            Some(TouchOut::PosY(self.cur))
        } else if ty == EV_ABS && code == ABS_MT_TRACKING_ID {
            let c = self.cur;
            let was = self.down[c];
            self.frame = Some(c);
            if value >= 0 && !was {
                self.set_down(c, true);
                Some(TouchOut::Track(c, Some(true)))
            } else if value < 0 && was {
                self.set_down(c, false);
                Some(TouchOut::Track(c, Some(false)))
            } else {
                Some(TouchOut::Track(c, None))
            }
        } else if ty == EV_SYN && code == SYN_REPORT {
            match self.frame {
                Some(f) => {
                    let moving = self.down[f];
                    self.frame = None;
                    if moving {
                        Some(TouchOut::Motion(f))
                    } else {
                        None
                    }
                },
                None => None,
            }
        } else {
            None
        }
    }

    fn set_down(&mut self, slot: usize, v: bool)
        requires
            slot < MAX_SLOTS,
        ensures
            final(self)@ == (TouchView { down: old(self)@.down.update(slot as int, v), ..old(self)@ }),
    {
        proof {
            use_type_invariant(&*self);
        }
        let ghost want = self.down@.update(slot as int, v);
        let mut nd: Vec<bool> = Vec::new();
        let mut i: usize = 0;
        while i < self.down.len()
            invariant
                i <= self.down@.len(),
                self.down@.len() == MAX_SLOTS,
                slot < MAX_SLOTS,
                want == self.down@.update(slot as int, v),
                nd@ == want.take(i as int),
            decreases self.down@.len() - i,
        {
            let b = if i == slot {
                v
            } else {
                self.down[i]
            };
            nd.push(b);
            assert(nd@ =~= want.take(i + 1));
            i = i + 1;
        }
        assert(nd@ =~= want);
        self.down = nd;
    }
}

/// A finger is reported down only in a slot that was up, and up only in
/// a slot that was down; a move is reported only for a finger that is
/// down; and every slot reported is in range.
pub proof fn law_touch_transitions(s: TouchView, ty: u16, code: u16, value: i32)
    requires
        touch_ok(s),
    ensures
        touch_ok(touch_step(s, ty, code, value).0),
        touch_step(s, ty, code, value).1 matches Some(TouchOut::Track(c, Some(true))) ==> !s.down[c as int]
            && touch_step(s, ty, code, value).0.down[c as int],
        touch_step(s, ty, code, value).1 matches Some(TouchOut::Track(c, Some(false))) ==> s.down[c as int]
            && !touch_step(s, ty, code, value).0.down[c as int],
        touch_step(s, ty, code, value).1 matches Some(TouchOut::Motion(c)) ==> s.down[c as int]
            && touch_step(s, ty, code, value).0.down[c as int],
{
}

} // verus!
