use vstd::prelude::*;

use crate::particle::{Particle, PersistedParticle, MASS_DEFAULT_BITS};

verus! {

/// A freshly created, empty particle: the persisted fields as given and no
/// trail yet.
pub open spec fn fresh_particle(p: Particle, r: PersistedParticle) -> bool {
    &&& p.persisted() == r
    &&& p.trail@ == Seq::<(u64, u64)>::empty()
}

/// The whole simulation: the ordered particle list, the placement defaults
/// applied to the next particle, and the running flag.
pub struct SimulationState {
    /// Insertion-ordered particle list; the order is display order only.
    pub particles: Vec<Particle>,
    /// Whether the next placed particle is an anchor.
    pub pending_anchor: bool,
    /// Bit pattern of the x velocity given to the next placed particle.
    pub pending_xv: u64,
    /// Bit pattern of the y velocity given to the next placed particle.
    pub pending_yv: u64,
    /// Bit pattern of the mass given to the next placed particle.
    pub pending_mass: u64,
    /// When false, physics steps leave the state untouched.
    pub running: bool,
}

impl SimulationState {
    /// Every particle in the state is well formed.
    pub open spec fn wf(self) -> bool {
        forall|i: int| 0 <= i < self.particles@.len() ==> (#[trigger] self.particles@[i]).wf()
    }

    /// The empty simulation: no particles, default placement values, running.
    pub fn new() -> (s: SimulationState)
        ensures
            s.particles@ =~= Seq::<Particle>::empty(),
            !s.pending_anchor,
            s.pending_xv == 0,
            s.pending_yv == 0,
            s.pending_mass == MASS_DEFAULT_BITS,
            s.running,
            s.wf(),
    {
        SimulationState {
            particles: Vec::new(),
            pending_anchor: false,
            pending_xv: 0,
            pending_yv: 0,
            pending_mass: MASS_DEFAULT_BITS,
            running: true,
        }
    }

    /// Append a new particle with the given fields and an empty trail.  No
    /// validation is applied to the mass: a negative or zero pattern is the
    /// caller's responsibility, not an error.
    pub fn add_particle(&mut self, x: u64, y: u64, xv: u64, yv: u64, mass: u64, anchor: bool)
        requires
            old(self).wf(),
        ensures
            final(self).particles@.len() == old(self).particles@.len() + 1,
            forall|i: int|
                0 <= i < old(self).particles@.len() ==> final(self).particles@[i] == old(
                    self,
                ).particles@[i],
            fresh_particle(
                final(self).particles@.last(),
                PersistedParticle { x, y, xv, yv, stationary: anchor, mass },
            ),
            final(self).pending_anchor == old(self).pending_anchor,
            final(self).pending_xv == old(self).pending_xv,
            final(self).pending_yv == old(self).pending_yv,
            final(self).pending_mass == old(self).pending_mass,
            final(self).running == old(self).running,
            final(self).wf(),
    {
        let p = Particle::from_persisted(
            PersistedParticle { x, y, xv, yv, stationary: anchor, mass },
        );
        self.particles.push(p);
    }

    /// Place a particle at the given position using the pending defaults, as
    /// the placement command does.
    pub fn place_at(&mut self, x: u64, y: u64)
        requires
            old(self).wf(),
        ensures
            final(self).particles@.len() == old(self).particles@.len() + 1,
            forall|i: int|
                0 <= i < old(self).particles@.len() ==> final(self).particles@[i] == old(
                    self,
                ).particles@[i],
            fresh_particle(
                final(self).particles@.last(),
                PersistedParticle {
                    x,
                    y,
                    xv: old(self).pending_xv,
                    yv: old(self).pending_yv,
                    stationary: old(self).pending_anchor,
                    mass: old(self).pending_mass,
                },
            ),
            final(self).pending_anchor == old(self).pending_anchor,
            final(self).pending_xv == old(self).pending_xv,
            final(self).pending_yv == old(self).pending_yv,
            final(self).pending_mass == old(self).pending_mass,
            final(self).running == old(self).running,
            final(self).wf(),
    {
        let xv = self.pending_xv;
        let yv = self.pending_yv;
        let mass = self.pending_mass;
        let anchor = self.pending_anchor;
        self.add_particle(x, y, xv, yv, mass, anchor);
    }

    /// Remove every particle unconditionally.
    pub fn clear(&mut self)
        ensures
            final(self).particles@ =~= Seq::<Particle>::empty(),
            final(self).pending_anchor == old(self).pending_anchor,
            final(self).pending_xv == old(self).pending_xv,
            final(self).pending_yv == old(self).pending_yv,
            final(self).pending_mass == old(self).pending_mass,
            final(self).running == old(self).running,
            final(self).wf(),
    {
        self.particles.clear();
    }

    /// Set the running flag.
    pub fn set_running(&mut self, running: bool)
        ensures
            *final(self) == (SimulationState { running, ..*old(self) }),
    {
        self.running = running;
    }

    /// Flip the running flag.
    pub fn toggle_running(&mut self)
        ensures
            *final(self) == (SimulationState { running: !old(self).running, ..*old(self) }),
    {
        self.running = !self.running;
    }

    /// Flip the anchor placement mode.
    pub fn toggle_anchor_mode(&mut self)
        ensures
            *final(self) == (SimulationState {
                pending_anchor: !old(self).pending_anchor,
                ..*old(self)
            }),
    {
        self.pending_anchor = !self.pending_anchor;
    }

    /// Reset the pending mass and velocity to their defaults.  The anchor
    /// placement mode is deliberately left untouched.
    pub fn reset_pending_defaults(&mut self)
        ensures
            *final(self) == (SimulationState {
                pending_xv: 0,
                pending_yv: 0,
                pending_mass: MASS_DEFAULT_BITS,
                ..*old(self)
            }),
    {
        self.pending_xv = 0;
        self.pending_yv = 0;
        self.pending_mass = MASS_DEFAULT_BITS;
    }

    /// Nudge the pending velocity by the given deltas, using the supplied
    /// addition on double bit patterns.
    pub fn adjust_pending_velocity<FAdd: Fn(u64, u64) -> u64>(
        &mut self,
        dx: u64,
        dy: u64,
        fadd: &FAdd,
    )
        requires
            forall|a: u64, b: u64| call_requires(*fadd, (a, b)),
        ensures
            call_ensures(*fadd, (old(self).pending_xv, dx), final(self).pending_xv),
            call_ensures(*fadd, (old(self).pending_yv, dy), final(self).pending_yv),
            *final(self) == (SimulationState {
                pending_xv: final(self).pending_xv,
                pending_yv: final(self).pending_yv,
                ..*old(self)
            }),
    {
        self.pending_xv = fadd(self.pending_xv, dx);
        self.pending_yv = fadd(self.pending_yv, dy);
    }

    /// Nudge the pending mass by the given delta, using the supplied addition
    /// on double bit patterns.
    pub fn adjust_pending_mass<FAdd: Fn(u64, u64) -> u64>(&mut self, dm: u64, fadd: &FAdd)
        requires
            forall|a: u64, b: u64| call_requires(*fadd, (a, b)),
        ensures
            call_ensures(*fadd, (old(self).pending_mass, dm), final(self).pending_mass),
            *final(self) == (SimulationState {
                pending_mass: final(self).pending_mass,
                ..*old(self)
            }),
    {
        self.pending_mass = fadd(self.pending_mass, dm);
    }

    /// Replace the whole particle list with the particles the given snapshot
    /// records stand for — each with an empty trail — and pause the
    /// simulation: after a load the user must explicitly resume.
    pub fn replace_particles(&mut self, records: &Vec<PersistedParticle>)
        ensures
            final(self).particles@.len() == records@.len(),
            forall|i: int|
                0 <= i < records@.len() ==> fresh_particle(
                    #[trigger] final(self).particles@[i],
                    records@[i],
                ),
            !final(self).running,
            final(self).pending_anchor == old(self).pending_anchor,
            final(self).pending_xv == old(self).pending_xv,
            final(self).pending_yv == old(self).pending_yv,
            final(self).pending_mass == old(self).pending_mass,
            final(self).wf(),
    {
        let mut fresh: Vec<Particle> = Vec::new();
        let mut i: usize = 0;
        while i < records.len()
            invariant
                i <= records@.len(),
                fresh@.len() == i,
                forall|k: int|
                    0 <= k < i as int ==> fresh_particle(#[trigger] fresh@[k], records@[k]),
            decreases records@.len() - i,
        {
            fresh.push(Particle::from_persisted(records[i]));
            i = i + 1;
        }
        self.particles = fresh;
        self.running = false;
    }

    /// Serialize the current particle list as a snapshot; trails are never
    /// persisted.  The caller writes the bytes out.
    pub fn save_snapshot(&self) -> (out: Vec<u8>)
        ensures
            out@ == crate::codec::encode_spec(crate::codec::persist_seq(self.particles@)),
    {
        crate::codec::encode(&self.particles)
    }

    /// Apply the outcome of reading a snapshot.  `None` stands for a read
    /// that could not be made (a missing file, a cancelled picker) and yields
    /// `IoError`; bytes outside the grammar yield `ParseError`; in either
    /// case the state is left exactly as it was.  On success the particle
    /// list is replaced wholesale — trails empty — and the simulation is
    /// paused until the user explicitly resumes.
    pub fn load_snapshot(&mut self, data: Option<&[u8]>) -> (r: Result<
        (),
        crate::codec::SnapshotError,
    >)
        ensures
            data is None ==> r == Err::<(), crate::codec::SnapshotError>(
                crate::codec::SnapshotError::IoError,
            ) && *final(self) == *old(self),
            data matches Some(d) ==> match crate::codec::spec_decode(d@) {
                None => r == Err::<(), crate::codec::SnapshotError>(
                    crate::codec::SnapshotError::ParseError,
                ) && *final(self) == *old(self),
                Some(rs) => {
                    &&& r == Ok::<(), crate::codec::SnapshotError>(())
                    &&& final(self).particles@.len() == rs.len()
                    &&& forall|i: int|
                        0 <= i < rs.len() ==> fresh_particle(
                            #[trigger] final(self).particles@[i],
                            rs[i],
                        )
                    &&& !final(self).running
                    &&& final(self).pending_anchor == old(self).pending_anchor
                    &&& final(self).pending_xv == old(self).pending_xv
                    &&& final(self).pending_yv == old(self).pending_yv
                    &&& final(self).pending_mass == old(self).pending_mass
                    &&& final(self).wf()
                },
            },
    {
        match data {
            None => Err(crate::codec::SnapshotError::IoError),
            Some(d) => {
                match crate::codec::decode(d) {
                    Err(e) => Err(e),
                    Ok(records) => {
                        self.replace_particles(&records);
                        Ok(())
                    },
                }
            },
        }
    }
}

} // verus!
