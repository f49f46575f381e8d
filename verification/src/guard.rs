//! States that end by themselves: what is lost sight of cannot stay on for ever.

use vstd::prelude::*;

verus! {

/// Time since an instant; 0 where it lies ahead.
pub open spec fn age(now: u64, since_ms: u64) -> u64 {
    if now >= since_ms {
        (now - since_ms) as u64
    } else {
        0
    }
}

/// A gate that is armed for a while at most.
#[derive(Clone, Copy, PartialEq, Eq, Structural, Debug)]
pub struct Gate {
    pub armed: bool,
    pub since_ms: u64,
    /// For how long, in milliseconds, it stays open.
    pub cap_ms: u64,
}

/// Whether a gate is open: armed, and not for too long.
pub open spec fn open_gate(g: Gate, now: u64) -> bool {
    g.armed && age(now, g.since_ms) < g.cap_ms
}

impl Gate {
    /// A gate that is not armed.
    pub fn new(cap_ms: u64) -> (r: Gate)
        ensures
            r == (Gate { armed: false, since_ms: 0, cap_ms }),
    {
        Gate { armed: false, since_ms: 0, cap_ms }
    }

    /// Arm it.
    pub fn arm(&mut self, now: u64)
        ensures
            *final(self) == (Gate { armed: true, since_ms: now, ..*old(self) }),
    {
        self.armed = true;
        self.since_ms = now;
    }

    /// Disarm it. Returns whether it was armed.
    pub fn disarm(&mut self) -> (r: bool)
        ensures
            r == old(self).armed,
            *final(self) == (Gate { armed: false, ..*old(self) }),
    {
        let was: bool = self.armed;
        self.armed = false;
        was
    }

    /// Whether it is open.
    pub fn is_open(&self, now: u64) -> (r: bool)
        ensures
            r == open_gate(*self, now),
    {
        self.armed && now.saturating_sub(self.since_ms) < self.cap_ms
    }

    /// Whether it is armed, for however long.
    pub fn raw(&self) -> (r: bool)
        ensures
            r == self.armed,
    {
        self.armed
    }

    /// Disarm a gate that was armed for too long. Returns whether it was.
    pub fn reap(&mut self, now: u64) -> (r: bool)
        ensures
            r == (old(self).armed && !open_gate(*old(self), now)),
            *final(self) == (Gate { armed: old(self).armed && !r, ..*old(self) }),
    {
        if self.armed && !self.is_open(now) {
            self.armed = false;
            true
        } else {
            false
        }
    }
}

/// A gate closes by itself, whatever is lost.
pub proof fn lemma_gate_expires(g: Gate, now: u64)
    requires
        now >= g.since_ms + g.cap_ms,
    ensures
        !open_gate(g, now),
{
}

/// An age is the time since; nothing has an age before it began. A gate is open while it is armed and
/// younger than its limit.
pub proof fn lemma_gate_open(g: Gate, now: u64)
    ensures
        g.since_ms <= now ==> age(now, g.since_ms) == now - g.since_ms,
        now < g.since_ms ==> age(now, g.since_ms) == 0,
        !g.armed ==> !open_gate(g, now),
        g.armed && g.since_ms <= now ==> (open_gate(g, now) <==> now < g.since_ms + g.cap_ms),
        g.armed && now < g.since_ms && g.cap_ms > 0 ==> open_gate(g, now),
{
}

} // verus!
