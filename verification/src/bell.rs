//! The terminal bell: a sound, or a blink of the terminal that a timer plays out in a
//! fixed number of steps.
use vstd::prelude::*;
use crate::config::BellType;

verus! {

/// How many timer steps a blink lasts.
pub const BLINK_STEPS: u8 = 5;

/// The state of a blink: whether the terminal is shown, and how many timer steps are
/// left to play.
#[derive(Clone, Copy, Debug, PartialEq, Eq, Structural)]
pub struct BellBlink {
    pub visible: bool,
    pub remaining: u8,
}

/// The blink after one timer step: each step flips the terminal, and the last step
/// leaves it shown. Without steps left, nothing changes.
pub open spec fn step(b: BellBlink) -> BellBlink {
    if b.remaining == 0 {
        b
    } else if b.remaining == 1 {
        BellBlink { visible: true, remaining: 0 }
    } else {
        BellBlink { visible: !b.visible, remaining: (b.remaining - 1) as u8 }
    }
}

/// The blink after `n` timer steps.
pub open spec fn steps(b: BellBlink, n: nat) -> BellBlink
    decreases n,
{
    if n == 0 { b } else { steps(step(b), (n - 1) as nat) }
}

/// The blink after the bell rang: a blink starts over with the terminal hidden; with
/// the other settings the blink is left as it was.
pub open spec fn rung(b: BellBlink, bell: BellType) -> BellBlink {
    match bell {
        BellType::Blink => BellBlink { visible: false, remaining: BLINK_STEPS },
        _ => b,
    }
}

impl BellBlink {
    /// A settled blink always shows the terminal.
    pub open spec fn wf(&self) -> bool {
        self.remaining == 0 ==> self.visible
    }

    /// No blink under way; the terminal is shown.
    pub fn new() -> (b: BellBlink)
        ensures
            b.visible,
            b.remaining == 0,
            b.wf(),
    {
        BellBlink { visible: true, remaining: 0 }
    }

    /// Ring the bell with the configured behaviour; gives whether a sound is to be
    /// played.
    pub fn ring(&mut self, bell: BellType) -> (sound: bool)
        ensures
            *final(self) == rung(*old(self), bell),
            sound == (bell == BellType::Audio),
            old(self).wf() ==> final(self).wf(),
    {
        match bell {
            BellType::Blink => {
                self.visible = false;
                self.remaining = BLINK_STEPS;
                false
            },
            BellType::Audio => true,
            BellType::Off => false,
        }
    }

    /// One step of the blink timer.
    pub fn tick(&mut self)
        ensures
            *final(self) == step(*old(self)),
            old(self).wf() ==> final(self).wf(),
    {
        if self.remaining > 0 {
            self.remaining = self.remaining - 1;
            self.visible = !self.visible;
            if self.remaining == 0 {
                self.visible = true;
            }
        }
    }

    /// Whether the blink timer has to run.
    pub fn ticking(&self) -> (r: bool)
        ensures
            r == (self.remaining > 0),
    {
        self.remaining > 0
    }
}

/// A blink, whatever the state before the bell rang, hides the terminal for the first
/// step, flips it at each step after, and settles with the terminal shown after exactly
/// `BLINK_STEPS` steps; further steps change nothing.
pub proof fn law_blink_settles(b: BellBlink, extra: nat)
    ensures
        rung(b, BellType::Blink).visible == false,
        steps(rung(b, BellType::Blink), 1).visible,
        !steps(rung(b, BellType::Blink), 2).visible,
        steps(rung(b, BellType::Blink), 3).visible,
        !steps(rung(b, BellType::Blink), 4).visible,
        forall|k: nat| k < BLINK_STEPS ==> #[trigger] steps(rung(b, BellType::Blink), k).remaining > 0,
        steps(rung(b, BellType::Blink), BLINK_STEPS as nat) == BellBlink::new_spec(),
        steps(steps(rung(b, BellType::Blink), BLINK_STEPS as nat), extra) == BellBlink::new_spec(),
{
    let s0 = rung(b, BellType::Blink);
    reveal_with_fuel(steps, 6);
    assert(steps(s0, 1) == BellBlink { visible: true, remaining: 4 });
    assert(steps(s0, 2) == BellBlink { visible: false, remaining: 3 });
    assert(steps(s0, 3) == BellBlink { visible: true, remaining: 2 });
    assert(steps(s0, 4) == BellBlink { visible: false, remaining: 1 });
    assert(steps(s0, 5) == BellBlink::new_spec());
    assert forall|k: nat| k < BLINK_STEPS implies #[trigger] steps(s0, k).remaining > 0 by {
        if k == 0 {
        } else if k == 1 {
        } else if k == 2 {
        } else if k == 3 {
        } else {
            assert(k == 4);
        }
    }
    lemma_settled_stays(extra);
}

proof fn lemma_settled_stays(n: nat)
    ensures
        steps(BellBlink::new_spec(), n) == BellBlink::new_spec(),
    decreases n,
{
    if n > 0 {
        lemma_settled_stays((n - 1) as nat);
    }
}

impl BellBlink {
    pub open spec fn new_spec() -> BellBlink {
        BellBlink { visible: true, remaining: 0 }
    }
}

} // verus!
