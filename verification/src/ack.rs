use vstd::prelude::*;

verus! {

/// Window-acknowledgement bookkeeping for one direction: the window
/// size, the running count of bytes received, and how many
/// Acknowledgement messages have been sent. An acknowledgement falls
/// due each time the byte count crosses a multiple of the window; a
/// window change can only make more fall due at once, never fewer, so
/// `acks_sent` grows by exactly the due counts these methods return.
pub struct AckCounter {
    pub window: u32,
    pub received: u64,
    pub acks_sent: u64,
}

impl AckCounter {
    /// The counter never falls behind the cadence: at least one
    /// acknowledgement per full window received.
    pub open spec fn wf(self) -> bool {
        &&& 1 <= self.window
        &&& self.acks_sent >= self.received as int / self.window as int
    }

    pub fn new(window: u32) -> (r: AckCounter)
        requires
            window >= 1,
        ensures
            r.wf(),
            r.window == window,
            r.received == 0,
            r.acks_sent == 0,
    {
        AckCounter { window, received: 0, acks_sent: 0 }
    }

    /// Records `n` more inbound bytes and returns how many
    /// acknowledgements fall due now; each carries the running total
    /// in `received`.
    pub fn on_bytes(&mut self, n: u32) -> (due: u64)
        requires
            old(self).wf(),
            old(self).received + n <= u64::MAX,
        ensures
            final(self).wf(),
            final(self).window == old(self).window,
            final(self).received == old(self).received + n,
            final(self).acks_sent == old(self).acks_sent + due,
    {
        proof {
            vstd::arithmetic::div_mod::lemma_div_nonincreasing(
                (old(self).received + n) as int,
                old(self).window as int,
            );
            vstd::arithmetic::div_mod::lemma_div_pos_is_pos(
                (old(self).received + n) as int,
                old(self).window as int,
            );
        }
        self.received = self.received + n as u64;
        let total_due = self.received / (self.window as u64);
        let due = if total_due > self.acks_sent {
            total_due - self.acks_sent
        } else {
            0
        };
        self.acks_sent = self.acks_sent + due;
        due
    }

    /// Applies a Window Acknowledgement Size message: the cadence
    /// continues against the new window, and any shortfall against it
    /// falls due at once.
    pub fn set_window(&mut self, w: u32) -> (due: u64)
        requires
            old(self).wf(),
            w >= 1,
        ensures
            final(self).wf(),
            final(self).window == w,
            final(self).received == old(self).received,
            final(self).acks_sent == old(self).acks_sent + due,
    {
        proof {
            vstd::arithmetic::div_mod::lemma_div_nonincreasing(
                self.received as int,
                w as int,
            );
            vstd::arithmetic::div_mod::lemma_div_pos_is_pos(self.received as int, w as int);
        }
        self.window = w;
        let total_due = self.received / (self.window as u64);
        let due = if total_due > self.acks_sent {
            total_due - self.acks_sent
        } else {
            0
        };
        self.acks_sent = self.acks_sent + due;
        due
    }
}

/// After `received` bytes inbound against window `window`, at least
/// ⌊received / window⌋ acknowledgements have been sent.
pub proof fn lemma_ack_cadence(c: AckCounter)
    requires
        c.wf(),
    ensures
        c.acks_sent >= c.received as int / c.window as int,
{
}

} // verus!
