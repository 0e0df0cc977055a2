use vstd::prelude::*;

use crate::particle::{same_particle, trail_push, Particle, TRAIL_CAP};
use crate::state::SimulationState;

verus! {

/// The pre-tick scalars a force evaluation reads: both positions and both
/// masses, as double bit patterns.
#[derive(Clone, Copy, PartialEq, Eq, Structural, Debug)]
pub struct PairInput {
    pub xi: u64,
    pub yi: u64,
    pub xj: u64,
    pub yj: u64,
    pub mi: u64,
    pub mj: u64,
}

/// What a force evaluation hands back: the pair's distance and the velocity
/// contribution along each axis, as double bit patterns.
#[derive(Clone, Copy, PartialEq, Eq, Structural, Debug)]
pub struct PairAccel {
    pub dist: u64,
    pub dvx: u64,
    pub dvy: u64,
}

/// The two bit patterns of a double-precision zero.
pub open spec fn bits_zero(b: u64) -> bool {
    b == 0u64 || b == 0x8000000000000000u64
}

/// Whether the given bit pattern is one of the two encodings of zero.
pub fn is_zero_bits(b: u64) -> (r: bool)
    ensures
        r == bits_zero(b),
{
    b == 0 || b == 0x8000000000000000
}

/// Two particles sit at the identical coordinate.
pub open spec fn coincident(p: Particle, q: Particle) -> bool {
    p.x == q.x && p.y == q.y
}

/// A pair is skipped before any arithmetic runs: coincident particles exert no
/// force on each other, and a zero mass would divide by zero in the force
/// formula.
pub open spec fn pair_guarded(p: Particle, q: Particle) -> bool {
    coincident(p, q) || bits_zero(p.mass)
}

/// The scalars handed to the force evaluation for the ordered pair `(i, j)`.
pub open spec fn pair_input(s: Seq<Particle>, i: int, j: int) -> PairInput {
    PairInput { xi: s[i].x, yi: s[i].y, xj: s[j].x, yj: s[j].y, mi: s[i].mass, mj: s[j].mass }
}

/// One step of the force accumulation for particle `i` against particle `j`:
/// a skipped pair leaves the running velocity `v` unchanged; otherwise `t` is
/// an evaluation of the pair, a zero distance is skipped as well, and the
/// contributions are added onto `v` to give `w`.
pub open spec fn pair_step<FPair: Fn(PairInput) -> PairAccel, FAdd: Fn(u64, u64) -> u64>(
    pa: FPair,
    fadd: FAdd,
    s: Seq<Particle>,
    i: int,
    j: int,
    t: PairAccel,
    v: (u64, u64),
    w: (u64, u64),
) -> bool {
    if j == i || pair_guarded(s[i], s[j]) {
        w == v
    } else {
        &&& call_ensures(pa, (pair_input(s, i, j),), t)
        &&& (bits_zero(t.dist) ==> w == v)
        &&& (!bits_zero(t.dist) ==> call_ensures(fadd, (v.0, t.dvx), w.0) && call_ensures(
            fadd,
            (v.1, t.dvy),
            w.1,
        ))
    }
}

/// A full force-accumulation transcript for particle `i`: `tr` records one
/// evaluation per candidate pair, and `vels` the running velocity, starting
/// from the pre-tick velocity of `i` and advancing by `pair_step` over every
/// `j` in order.  Every value read is pre-tick state: the accumulation of a
/// tick is conceptually simultaneous.
pub open spec fn vel_transcript<FPair: Fn(PairInput) -> PairAccel, FAdd: Fn(u64, u64) -> u64>(
    pa: FPair,
    fadd: FAdd,
    s: Seq<Particle>,
    i: int,
    tr: Seq<PairAccel>,
    vels: Seq<(u64, u64)>,
) -> bool {
    &&& tr.len() == s.len()
    &&& vels.len() == s.len() + 1
    &&& vels[0] == (s[i].xv, s[i].yv)
    &&& forall|j: int|
        0 <= j < s.len() ==> pair_step(pa, fadd, s, i, j, #[trigger] tr[j], vels[j], vels[j + 1])
}

/// The velocity `v` is a possible post-accumulation velocity of particle `i`:
/// some transcript of the pair loop ends in it.
pub open spec fn vel_rel<FPair: Fn(PairInput) -> PairAccel, FAdd: Fn(u64, u64) -> u64>(
    pa: FPair,
    fadd: FAdd,
    s: Seq<Particle>,
    i: int,
    v: (u64, u64),
) -> bool {
    exists|tr: Seq<PairAccel>, vels: Seq<(u64, u64)>|
        #[trigger] vel_transcript(pa, fadd, s, i, tr, vels) && vels[s.len() as int] == v
}

/// How one particle of the post-tick state relates to the pre-tick state: an
/// anchor is left entirely alone; any other particle keeps its mass, records
/// its pre-tick position on the trail, accumulates its velocity over the pair
/// loop, and then moves by its new velocity.
pub open spec fn step_particle<FPair: Fn(PairInput) -> PairAccel, FAdd: Fn(u64, u64) -> u64>(
    pa: FPair,
    fadd: FAdd,
    pre: Seq<Particle>,
    i: int,
    q: Particle,
) -> bool {
    if pre[i].anchor {
        same_particle(q, pre[i])
    } else {
        &&& !q.anchor
        &&& q.mass == pre[i].mass
        &&& q.trail@ == trail_push(pre[i].trail@, (pre[i].x, pre[i].y))
        &&& vel_rel(pa, fadd, pre, i, (q.xv, q.yv))
        &&& call_ensures(fadd, (pre[i].x, q.xv), q.x)
        &&& call_ensures(fadd, (pre[i].y, q.yv), q.y)
    }
}

/// The whole transition of one physics tick on the particle list.
pub open spec fn tick_rel<FPair: Fn(PairInput) -> PairAccel, FAdd: Fn(u64, u64) -> u64>(
    pa: FPair,
    fadd: FAdd,
    pre: Seq<Particle>,
    post: Seq<Particle>,
) -> bool {
    &&& post.len() == pre.len()
    &&& forall|i: int| 0 <= i < pre.len() ==> step_particle(pa, fadd, pre, i, #[trigger] post[i])
}

/// The placement defaults and the running flag agree.
pub open spec fn same_settings(a: SimulationState, b: SimulationState) -> bool {
    &&& a.pending_anchor == b.pending_anchor
    &&& a.pending_xv == b.pending_xv
    &&& a.pending_yv == b.pending_yv
    &&& a.pending_mass == b.pending_mass
    &&& a.running == b.running
}

/// Phase one leaves everything but the velocities alone.
pub(crate) open spec fn phase1_frame(pre: Seq<Particle>, k: int, q: Particle) -> bool {
    &&& q.x == pre[k].x
    &&& q.y == pre[k].y
    &&& q.anchor == pre[k].anchor
    &&& q.mass == pre[k].mass
    &&& q.trail@ == pre[k].trail@
}

/// A particle the accumulation phase has finished with: an anchor keeps its
/// velocity, any other particle ends a transcript of the pair loop.
pub(crate) open spec fn phase1_done<FPair: Fn(PairInput) -> PairAccel, FAdd: Fn(u64, u64) -> u64>(
    pa: FPair,
    fadd: FAdd,
    pre: Seq<Particle>,
    k: int,
    q: Particle,
) -> bool {
    if pre[k].anchor {
        q.xv == pre[k].xv && q.yv == pre[k].yv
    } else {
        vel_rel(pa, fadd, pre, k, (q.xv, q.yv))
    }
}

/// A particle the integration phase has finished with, where `m` is its value
/// after the accumulation phase.
pub(crate) open spec fn phase2_done<FAdd: Fn(u64, u64) -> u64>(
    fadd: FAdd,
    pre: Seq<Particle>,
    m: Seq<Particle>,
    k: int,
    q: Particle,
) -> bool {
    if pre[k].anchor {
        q == m[k]
    } else {
        &&& q.xv == m[k].xv
        &&& q.yv == m[k].yv
        &&& q.anchor == m[k].anchor
        &&& q.mass == m[k].mass
        &&& q.trail@ == trail_push(pre[k].trail@, (pre[k].x, pre[k].y))
        &&& call_ensures(fadd, (pre[k].x, q.xv), q.x)
        &&& call_ensures(fadd, (pre[k].y, q.yv), q.y)
    }
}

/// One physics tick.  When the simulation is paused the state is left
/// untouched.  Otherwise the particle list steps to a state related to the old
/// one by `tick_rel`: forces are accumulated pairwise from pre-tick positions
/// and masses — coincident pairs, zero distances and zero masses contribute
/// nothing — and every non-anchor particle records its position on its trail
/// and moves by its accumulated velocity.  The numeric evaluations themselves
/// are supplied by the caller: `pa` evaluates the force formula for one pair,
/// `fadd` adds two doubles, both on bit patterns.
#[verifier::loop_isolation(false)]
pub fn tick<FPair: Fn(PairInput) -> PairAccel, FAdd: Fn(u64, u64) -> u64>(
    state: &mut SimulationState,
    pa: &FPair,
    fadd: &FAdd,
)
    requires
        old(state).wf(),
        forall|inp: PairInput| call_requires(*pa, (inp,)),
        forall|a: u64, b: u64| call_requires(*fadd, (a, b)),
    ensures
        final(state).wf(),
        same_settings(*final(state), *old(state)),
        !old(state).running ==> *final(state) == *old(state),
        old(state).running ==> tick_rel(
            *pa,
            *fadd,
            old(state).particles@,
            final(state).particles@,
        ),
{
    if !state.running {
        return ;
    }
    let ghost pre = state.particles@;
    let n = state.particles.len();
    // Phase one: accumulate velocities, reading pre-tick positions and masses
    // only.
    let mut i: usize = 0;
    while i < n
        invariant
            i <= n,
            state.particles@.len() == n,
            pre.len() == n,
            same_settings(*state, *old(state)),
            state.running,
            forall|k: int| 0 <= k < n ==> phase1_frame(pre, k, #[trigger] state.particles@[k]),
            forall|k: int|
                0 <= k < i as int ==> phase1_done(*pa, *fadd, pre, k, #[trigger] state.particles@[k]),
            forall|k: int|
                i as int <= k < n ==> (#[trigger] state.particles@[k]).xv == pre[k].xv
                    && state.particles@[k].yv == pre[k].yv,
        decreases n - i,
    {
        if !state.particles[i].anchor {
            let xi = state.particles[i].x;
            let yi = state.particles[i].y;
            let mi = state.particles[i].mass;
            let mut vx = state.particles[i].xv;
            let mut vy = state.particles[i].yv;
            let ghost mut tr: Seq<PairAccel> = Seq::<PairAccel>::empty();
            let ghost mut vels: Seq<(u64, u64)> = seq![(vx, vy)];
            let mut j: usize = 0;
            while j < n
                invariant
                    j <= n,
                    tr.len() == j as int,
                    vels.len() == j as int + 1,
                    vels[0] == (pre[i as int].xv, pre[i as int].yv),
                    vels[j as int] == (vx, vy),
                    forall|jj: int|
                        0 <= jj < j as int ==> pair_step(
                            *pa,
                            *fadd,
                            pre,
                            i as int,
                            jj,
                            #[trigger] tr[jj],
                            vels[jj],
                            vels[jj + 1],
                        ),
                decreases n - j,
            {
                if j != i {
                    let xj = state.particles[j].x;
                    let yj = state.particles[j].y;
                    let mj = state.particles[j].mass;
                    if !((xi == xj && yi == yj) || is_zero_bits(mi)) {
                        let t = pa(PairInput { xi, yi, xj, yj, mi, mj });
                        if !is_zero_bits(t.dist) {
                            vx = fadd(vx, t.dvx);
                            vy = fadd(vy, t.dvy);
                        }
                        proof {
                            tr = tr.push(t);
                            vels = vels.push((vx, vy));
                        }
                    } else {
                        proof {
                            tr = tr.push(PairAccel { dist: 0, dvx: 0, dvy: 0 });
                            vels = vels.push((vx, vy));
                        }
                    }
                } else {
                    proof {
                        tr = tr.push(PairAccel { dist: 0, dvx: 0, dvy: 0 });
                        vels = vels.push((vx, vy));
                    }
                }
                j = j + 1;
            }
            state.particles[i].xv = vx;
            state.particles[i].yv = vy;
            proof {
                assert(vel_transcript(*pa, *fadd, pre, i as int, tr, vels));
                assert(vel_rel(*pa, *fadd, pre, i as int, (vx, vy)));
            }
        }
        i = i + 1;
    }
    // Phase two: record trails and integrate positions of non-anchors.
    let ghost mid = state.particles@;
    let mut i: usize = 0;
    while i < n
        invariant
            i <= n,
            state.particles@.len() == n,
            mid.len() == n,
            same_settings(*state, *old(state)),
            forall|k: int| i as int <= k < n ==> #[trigger] state.particles@[k] == mid[k],
            forall|k: int|
                0 <= k < i as int ==> phase2_done(*fadd, pre, mid, k, #[trigger] state.particles@[k]),
        decreases n - i,
    {
        if !state.particles[i].anchor {
            let p = &mut state.particles[i];
            p.record_trail();
            let nx = fadd(p.x, p.xv);
            let ny = fadd(p.y, p.yv);
            p.x = nx;
            p.y = ny;
        }
        i = i + 1;
    }
    proof {
        assert forall|k: int| 0 <= k < n implies step_particle(
            *pa,
            *fadd,
            pre,
            k,
            #[trigger] state.particles@[k],
        ) by {
            assert(phase1_frame(pre, k, mid[k]));
            assert(phase1_done(*pa, *fadd, pre, k, mid[k]));
            assert(phase2_done(*fadd, pre, mid, k, state.particles@[k]));
        }
        assert(tick_rel(*pa, *fadd, pre, state.particles@));
    }
}

/// A run of the simulation: consecutive particle lists are related by one
/// tick each.
pub open spec fn run_rel<FPair: Fn(PairInput) -> PairAccel, FAdd: Fn(u64, u64) -> u64>(
    pa: FPair,
    fadd: FAdd,
    states: Seq<Seq<Particle>>,
) -> bool {
    forall|t: int|
        0 <= t < states.len() - 1 ==> tick_rel(pa, fadd, #[trigger] states[t], states[t + 1])
}

/// The trail length after `n` recorded positions, capped at the capacity.
pub open spec fn capped(n: int) -> int {
    if n < TRAIL_CAP as int {
        n
    } else {
        TRAIL_CAP as int
    }
}

/// An anchor particle is frozen: along any run, its position, velocity, mass
/// and trail at every tick equal what they were at the start, no matter what
/// forces act on it.
pub proof fn lemma_anchor_frozen<FPair: Fn(PairInput) -> PairAccel, FAdd: Fn(u64, u64) -> u64>(
    pa: FPair,
    fadd: FAdd,
    states: Seq<Seq<Particle>>,
    i: int,
    t: int,
)
    requires
        run_rel(pa, fadd, states),
        0 <= t < states.len(),
        0 <= i < states[0].len(),
        states[0][i].anchor,
    ensures
        states[t].len() == states[0].len(),
        same_particle(states[t][i], states[0][i]),
    decreases t,
{
    if t > 0 {
        lemma_anchor_frozen(pa, fadd, states, i, t - 1);
        assert(tick_rel(pa, fadd, states[t - 1], states[t]));
        assert(step_particle(pa, fadd, states[t - 1], i, states[t][i]));
    }
}

/// Along any run, a non-anchor particle stays a non-anchor, and its trail
/// grows by one recorded position per tick until it reaches the capacity;
/// from the first tick on, the front entry is the particle's position exactly
/// one tick prior.
pub proof fn lemma_trail_growth<FPair: Fn(PairInput) -> PairAccel, FAdd: Fn(u64, u64) -> u64>(
    pa: FPair,
    fadd: FAdd,
    states: Seq<Seq<Particle>>,
    i: int,
    t: int,
)
    requires
        run_rel(pa, fadd, states),
        0 <= t < states.len(),
        0 <= i < states[0].len(),
        !states[0][i].anchor,
        states[0][i].trail@.len() <= TRAIL_CAP,
    ensures
        states[t].len() == states[0].len(),
        !states[t][i].anchor,
        states[t][i].trail@.len() == capped(states[0][i].trail@.len() + t),
        t >= 1 ==> states[t][i].trail@[0] == (states[t - 1][i].x, states[t - 1][i].y),
    decreases t,
{
    if t > 0 {
        lemma_trail_growth(pa, fadd, states, i, t - 1);
        assert(tick_rel(pa, fadd, states[t - 1], states[t]));
        assert(step_particle(pa, fadd, states[t - 1], i, states[t][i]));
    }
}

/// After more than `TRAIL_CAP` ticks, a non-anchor particle's trail length is
/// exactly the capacity, and its front entry is the position one tick prior.
pub proof fn lemma_trail_bound<FPair: Fn(PairInput) -> PairAccel, FAdd: Fn(u64, u64) -> u64>(
    pa: FPair,
    fadd: FAdd,
    states: Seq<Seq<Particle>>,
    i: int,
)
    requires
        run_rel(pa, fadd, states),
        states.len() > TRAIL_CAP + 1,
        0 <= i < states[0].len(),
        !states[0][i].anchor,
        states[0][i].trail@.len() <= TRAIL_CAP,
    ensures
        states[states.len() - 1][i].trail@.len() == TRAIL_CAP,
        states[states.len() - 1][i].trail@[0] == (
            states[states.len() - 2][i].x,
            states[states.len() - 2][i].y,
        ),
{
    lemma_trail_growth(pa, fadd, states, i, states.len() - 1);
}

proof fn lemma_const_transcript<FPair: Fn(PairInput) -> PairAccel, FAdd: Fn(u64, u64) -> u64>(
    pa: FPair,
    fadd: FAdd,
    s: Seq<Particle>,
    i: int,
    tr: Seq<PairAccel>,
    vels: Seq<(u64, u64)>,
    j: int,
)
    requires
        vel_transcript(pa, fadd, s, i, tr, vels),
        0 <= i < s.len(),
        forall|k: int| 0 <= k < s.len() && k != i ==> pair_guarded(s[i], #[trigger] s[k]),
        0 <= j <= s.len(),
    ensures
        vels[j] == vels[0],
    decreases j,
{
    if j > 0 {
        lemma_const_transcript(pa, fadd, s, i, tr, vels, j - 1);
        assert(pair_step(pa, fadd, s, i, j - 1, tr[j - 1], vels[j - 1], vels[j]));
    }
}

/// A particle every other particle coincides with receives no force that
/// tick: its velocity is unchanged by the step.  In particular two particles
/// placed at the identical coordinate exert no force on each other.
pub proof fn lemma_coincident_keeps_velocity<
    FPair: Fn(PairInput) -> PairAccel,
    FAdd: Fn(u64, u64) -> u64,
>(pa: FPair, fadd: FAdd, pre: Seq<Particle>, post: Seq<Particle>, i: int)
    requires
        tick_rel(pa, fadd, pre, post),
        0 <= i < pre.len(),
        !pre[i].anchor,
        forall|k: int| 0 <= k < pre.len() && k != i ==> coincident(pre[i], #[trigger] pre[k]),
    ensures
        post[i].xv == pre[i].xv,
        post[i].yv == pre[i].yv,
{
    assert(step_particle(pa, fadd, pre, i, post[i]));
    assert(vel_rel(pa, fadd, pre, i, (post[i].xv, post[i].yv)));
    let (tr, vels) = choose|tr: Seq<PairAccel>, vels: Seq<(u64, u64)>|
        #[trigger] vel_transcript(pa, fadd, pre, i, tr, vels) && vels[pre.len() as int] == (
            post[i].xv,
            post[i].yv,
        );
    lemma_const_transcript(pa, fadd, pre, i, tr, vels, pre.len() as int);
}

} // verus!
