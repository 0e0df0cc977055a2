use vstd::prelude::*;
use std::collections::VecDeque;

verus! {

/// Capacity of a particle's trail: the number of past positions kept for
/// display, most recent first.
pub const TRAIL_CAP: usize = 50;

/// Bit pattern of the default particle mass (ten, as an IEEE 754 double).
pub const MASS_DEFAULT_BITS: u64 = 0x4024000000000000;

/// One simulated body.  Every scalar is carried as the bit pattern of an
/// IEEE 754 double-precision value; the core never interprets the pattern
/// arithmetically, it only moves it, compares it for equality, and tests it
/// against the two encodings of zero.
pub struct Particle {
    /// Bit pattern of the world-space x coordinate.
    pub x: u64,
    /// Bit pattern of the world-space y coordinate.
    pub y: u64,
    /// Bit pattern of the per-tick x displacement.
    pub xv: u64,
    /// Bit pattern of the per-tick y displacement.
    pub yv: u64,
    /// An anchor is excluded from integration but still exerts force.
    pub anchor: bool,
    /// Bit pattern of the mass.
    pub mass: u64,
    /// Past positions, most recent at the front, at most `TRAIL_CAP` entries.
    pub trail: VecDeque<(u64, u64)>,
}

/// The persisted shape of a particle: every field except the trail, which is
/// display-only derived state and is never written to a snapshot.
#[derive(Clone, Copy, PartialEq, Eq, Structural, Debug)]
pub struct PersistedParticle {
    pub x: u64,
    pub y: u64,
    pub xv: u64,
    pub yv: u64,
    pub stationary: bool,
    pub mass: u64,
}

impl Particle {
    /// A particle is well formed when its trail respects the capacity bound
    /// and anchors carry no trail at all.
    pub open spec fn wf(self) -> bool {
        &&& self.trail@.len() <= TRAIL_CAP
        &&& self.anchor ==> self.trail@.len() == 0
    }

    /// The persisted fields of this particle.
    pub open spec fn persisted(self) -> PersistedParticle {
        PersistedParticle {
            x: self.x,
            y: self.y,
            xv: self.xv,
            yv: self.yv,
            stationary: self.anchor,
            mass: self.mass,
        }
    }

    /// A fresh particle at the given position: at rest, default mass, not an
    /// anchor, empty trail.
    pub fn new(x: u64, y: u64) -> (p: Particle)
        ensures
            p.x == x,
            p.y == y,
            p.xv == 0,
            p.yv == 0,
            !p.anchor,
            p.mass == MASS_DEFAULT_BITS,
            p.trail@ =~= Seq::<(u64, u64)>::empty(),
            p.wf(),
    {
        Particle {
            x,
            y,
            xv: 0,
            yv: 0,
            anchor: false,
            mass: MASS_DEFAULT_BITS,
            trail: VecDeque::new(),
        }
    }

    /// The particle a snapshot record stands for: the persisted fields, and an
    /// empty trail.
    pub fn from_persisted(r: PersistedParticle) -> (p: Particle)
        ensures
            p.persisted() == r,
            p.trail@ =~= Seq::<(u64, u64)>::empty(),
            p.wf(),
    {
        Particle {
            x: r.x,
            y: r.y,
            xv: r.xv,
            yv: r.yv,
            anchor: r.stationary,
            mass: r.mass,
            trail: VecDeque::new(),
        }
    }

    /// The persisted fields, as a value.
    pub fn to_persisted(&self) -> (r: PersistedParticle)
        ensures
            r == self.persisted(),
    {
        PersistedParticle {
            x: self.x,
            y: self.y,
            xv: self.xv,
            yv: self.yv,
            stationary: self.anchor,
            mass: self.mass,
        }
    }
}

/// Two particles agree on every field, the trail compared by its contents.
pub open spec fn same_particle(a: Particle, b: Particle) -> bool {
    &&& a.x == b.x
    &&& a.y == b.y
    &&& a.xv == b.xv
    &&& a.yv == b.yv
    &&& a.anchor == b.anchor
    &&& a.mass == b.mass
    &&& a.trail@ == b.trail@
}

/// The trail after one recorded position: the new position at the front, the
/// oldest entry evicted when the buffer is full.
pub open spec fn trail_push(t: Seq<(u64, u64)>, pos: (u64, u64)) -> Seq<(u64, u64)> {
    if t.len() >= TRAIL_CAP {
        seq![pos] + t.subrange(0, TRAIL_CAP - 1)
    } else {
        seq![pos] + t
    }
}

impl Particle {
    /// Record the current position at the front of the trail, evicting the
    /// oldest entry when the buffer is at capacity.
    pub fn record_trail(&mut self)
        requires
            old(self).wf(),
        ensures
            final(self).trail@ == trail_push(old(self).trail@, (old(self).x, old(self).y)),
            final(self).x == old(self).x,
            final(self).y == old(self).y,
            final(self).xv == old(self).xv,
            final(self).yv == old(self).yv,
            final(self).anchor == old(self).anchor,
            final(self).mass == old(self).mass,
            final(self).trail@.len() <= TRAIL_CAP,
    {
        if self.trail.len() == TRAIL_CAP {
            self.trail.pop_back();
        }
        self.trail.push_front((self.x, self.y));
        proof {
            assert(self.trail@ =~= trail_push(old(self).trail@, (old(self).x, old(self).y)));
        }
    }
}

} // verus!
