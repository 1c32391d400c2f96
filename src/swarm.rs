use vstd::prelude::*;
use rand::rngs::StdRng;
use rand::{Rng, SeedableRng};
use crate::models::{Position, ProblemSpec};
use crate::scoring::{
    on_stage, placement_cost, placement_cost_exec, solo_cost, solo_cost_exec, trunc_div,
    lemma_musician_instrument_known,
};

verus! {

/// Scale of the swarm coefficients: a coefficient of `COEFF_SCALE` is 1.0.
pub const COEFF_SCALE: i128 = 1000;

/// Random factors are drawn as `0..DRAW_SCALE` and read as thousandths of one.
pub const DRAW_SCALE: i64 = 1000;

/// Coordinates of a particle are kept within this magnitude.
pub const POSITION_LIMIT: i64 = 2_147_483_648;

/// Velocities of a particle are kept within this magnitude.
pub const VELOCITY_LIMIT: i64 = 4_294_967_296;

#[verifier::external_type_specification]
#[verifier::external_body]
pub struct ExStdRng(StdRng);

/// Relies on rand's `SeedableRng::seed_from_u64`: a generator whose stream
/// is fixed by the seed.
#[verifier::external_body]
pub(crate) fn seeded_rng(seed: u64) -> StdRng {
    StdRng::seed_from_u64(seed)
}

/// Relies on rand's `Rng::gen_range` over an inclusive range: a value in
/// `lo..=hi` (it panics on an empty range, which `requires` rules out).
#[verifier::external_body]
pub(crate) fn draw(rng: &mut StdRng, lo: i64, hi: i64) -> (r: i64)
    requires
        lo <= hi,
    ensures
        lo <= r <= hi,
{
    rng.gen_range(lo..=hi)
}

/// Tuning of a swarm search. The four coefficients are in thousandths
/// (`omega: 1000` is an inertia weight of 1.0).
#[derive(Clone, Copy, Debug)]
pub struct SwarmConfig {
    pub pop_size: usize,
    pub omega: u32,
    pub phi_p: u32,
    pub phi_g: u32,
    pub learning_rate: u32,
    pub iteration: usize,
}

/// What a search minimises: a whole placement, or one performer beside
/// positions already committed.
#[derive(Clone, Debug)]
pub enum Objective {
    Joint,
    Solo { musician: usize, committed: Vec<Position> },
}

/// The placement a particle vector stands for: pairs `(x, y)` in performer order.
pub open spec fn decode(v: Seq<i64>) -> Seq<Position> {
    Seq::new(v.len() / 2, |k: int| Position { x: v[2 * k], y: v[2 * k + 1] })
}

impl Objective {
    pub open spec fn valid_for(&self, p: ProblemSpec) -> bool {
        match self {
            Objective::Joint => true,
            Objective::Solo { musician, committed } => {
                &&& *musician < p.musicians@.len()
                &&& forall|j: int| 0 <= j < committed@.len() ==> on_stage(p, #[trigger] committed@[j])
            },
        }
    }

    /// Length of a particle vector.
    pub open spec fn dimension(&self, p: ProblemSpec) -> nat {
        match self {
            Objective::Joint => 2 * p.musicians@.len(),
            Objective::Solo { .. } => 2,
        }
    }

    pub open spec fn cost(&self, p: ProblemSpec, v: Seq<i64>) -> int {
        match self {
            Objective::Joint => placement_cost(p, decode(v)),
            Objective::Solo { musician, committed } => solo_cost(
                p,
                p.musicians@[*musician as int],
                Position { x: v[0], y: v[1] },
                committed@,
            ),
        }
    }
}

/// Reads a particle vector as one position per performer.
pub fn decode_vector(v: &Vec<i64>) -> (r: Vec<Position>)
    ensures
        r@ == decode(v@),
{
    let len = v.len();
    let n = len / 2;
    let mut r: Vec<Position> = Vec::new();
    let mut k: usize = 0;
    while k < n
        invariant
            len == v@.len(),
            n == v@.len() / 2,
            k <= n,
            r@ == decode(v@).subrange(0, k as int),
        decreases n - k,
    {
        assert(2 * k + 1 < v@.len()) by (nonlinear_arith)
            requires
                k < n,
                n == v@.len() / 2,
        ;
        r.push(Position { x: v[2 * k], y: v[2 * k + 1] });
        k += 1;
        assert(r@ =~= decode(v@).subrange(0, k as int));
    }
    assert(r@ =~= decode(v@));
    r
}

/// The cost of a particle vector under `obj`.
pub fn objective_cost(p: &ProblemSpec, obj: &Objective, v: &Vec<i64>) -> (r: i128)
    requires
        p.well_formed(),
        obj.valid_for(*p),
        v@.len() == obj.dimension(*p),
    ensures
        r == obj.cost(*p, v@),
{
    match obj {
        Objective::Joint => {
            let ms = decode_vector(v);
            placement_cost_exec(p, &ms)
        },
        Objective::Solo { musician, committed } => {
            proof {
                lemma_musician_instrument_known(*p, *musician as int);
            }
            solo_cost_exec(p, p.musicians[*musician], Position { x: v[0], y: v[1] }, committed)
        },
    }
}

pub open spec fn clamp(v: int, lim: int) -> int {
    if v < -lim {
        -lim
    } else if v > lim {
        lim
    } else {
        v
    }
}

/// The velocity after one update: inertia plus the pulls towards the
/// personal and the global best, each pull scaled by a random draw.
pub open spec fn next_velocity(c: SwarmConfig, x: int, v: int, pb: int, gb: int, rp: int, rg: int) -> int {
    clamp(
        trunc_div(c.omega * v, COEFF_SCALE as int)
            + trunc_div(c.phi_p * rp * (pb - x), COEFF_SCALE * DRAW_SCALE)
            + trunc_div(c.phi_g * rg * (gb - x), COEFF_SCALE * DRAW_SCALE),
        VELOCITY_LIMIT as int,
    )
}

/// The coordinate after one update: a learning-rate step along the new velocity.
pub open spec fn next_position(c: SwarmConfig, x: int, v_next: int) -> int {
    clamp(x + trunc_div(c.learning_rate * v_next, COEFF_SCALE as int), POSITION_LIMIT as int)
}

pub open spec fn within(v: Seq<i64>, lim: int) -> bool {
    forall|i: int| 0 <= i < v.len() ==> -lim <= #[trigger] v[i] <= lim
}

proof fn lemma_trunc_div_shrinks(a: int, d: int)
    requires
        1 <= d,
    ensures
        a >= 0 ==> 0 <= trunc_div(a, d) <= a,
        a < 0 ==> a <= trunc_div(a, d) <= 0,
{
    if a >= 0 {
        assert(0 <= a / d <= a) by (nonlinear_arith)
            requires a >= 0, d >= 1;
    } else {
        let b = -a;
        assert(0 <= b / d <= b) by (nonlinear_arith)
            requires b >= 0, d >= 1;
    }
}

fn div_toward_zero(n: i128, d: i128) -> (r: i128)
    requires
        0 < d,
        -0x4000_0000_0000_0000_0000_0000_0000_0000 <= n <= 0x4000_0000_0000_0000_0000_0000_0000_0000,
    ensures
        r == trunc_div(n as int, d as int),
{
    proof {
        lemma_trunc_div_shrinks(n as int, d as int);
    }
    if n >= 0 {
        n / d
    } else {
        -((-n) / d)
    }
}

fn clamp_exec(v: i128, lim: i128) -> (r: i128)
    requires
        0 <= lim,
    ensures
        r == clamp(v as int, lim as int),
{
    if v < -lim {
        -lim
    } else if v > lim {
        lim
    } else {
        v
    }
}

/// One coordinate of one particle moved by one update, given the two random
/// draws `rp` and `rg` (thousandths in `0..DRAW_SCALE`). Returns the new
/// coordinate and the new velocity.
pub fn advance_coordinate(c: &SwarmConfig, x: i64, v: i64, pb: i64, gb: i64, rp: i64, rg: i64) -> (r: (i64, i64))
    requires
        -POSITION_LIMIT <= x <= POSITION_LIMIT,
        -POSITION_LIMIT <= pb <= POSITION_LIMIT,
        -POSITION_LIMIT <= gb <= POSITION_LIMIT,
        -VELOCITY_LIMIT <= v <= VELOCITY_LIMIT,
        0 <= rp < DRAW_SCALE,
        0 <= rg < DRAW_SCALE,
    ensures
        r.1 == next_velocity(*c, x as int, v as int, pb as int, gb as int, rp as int, rg as int),
        r.0 == next_position(*c, x as int, r.1 as int),
{
    let omega = c.omega as i128;
    let phi_p = c.phi_p as i128;
    let phi_g = c.phi_g as i128;
    let lr = c.learning_rate as i128;
    let vv = v as i128;
    let dp: i128 = pb as i128 - x as i128;
    let dg: i128 = gb as i128 - x as i128;
    proof {
        assert(-0x1_0000_0000_0000_0000 <= omega * vv <= 0x1_0000_0000_0000_0000) by (nonlinear_arith)
            requires 0 <= omega <= 0xffff_ffff, -0x1_0000_0000 <= vv <= 0x1_0000_0000;
        assert(0 <= phi_p * (rp as i128) <= 0x400_0000_0000) by (nonlinear_arith)
            requires 0 <= phi_p <= 0xffff_ffff, 0 <= rp < 1000;
        assert(0 <= phi_g * (rg as i128) <= 0x400_0000_0000) by (nonlinear_arith)
            requires 0 <= phi_g <= 0xffff_ffff, 0 <= rg < 1000;
    }
    let wp: i128 = phi_p * rp as i128;
    let wg: i128 = phi_g * rg as i128;
    proof {
        assert(-0x1_0000_0000_0000_0000_0000 <= wp * dp <= 0x1_0000_0000_0000_0000_0000) by (nonlinear_arith)
            requires 0 <= wp <= 0x400_0000_0000, -0x1_0000_0000 <= dp <= 0x1_0000_0000;
        assert(-0x1_0000_0000_0000_0000_0000 <= wg * dg <= 0x1_0000_0000_0000_0000_0000) by (nonlinear_arith)
            requires 0 <= wg <= 0x400_0000_0000, -0x1_0000_0000 <= dg <= 0x1_0000_0000;
        assert(phi_p * rp * (pb - x) == wp * dp);
        assert(phi_g * rg * (gb - x) == wg * dg);
        lemma_trunc_div_shrinks(omega * vv, 1000);
        lemma_trunc_div_shrinks(wp * dp, 1_000_000);
        lemma_trunc_div_shrinks(wg * dg, 1_000_000);
    }
    let inertia = div_toward_zero(omega * vv, COEFF_SCALE);
    let pull_p = div_toward_zero(wp * dp, COEFF_SCALE * DRAW_SCALE as i128);
    let pull_g = div_toward_zero(wg * dg, COEFF_SCALE * DRAW_SCALE as i128);
    let nv = clamp_exec(inertia + pull_p + pull_g, VELOCITY_LIMIT as i128);
    proof {
        assert(-0x1_0000_0000_0000_0000 <= lr * nv <= 0x1_0000_0000_0000_0000) by (nonlinear_arith)
            requires 0 <= lr <= 0xffff_ffff, -0x1_0000_0000 <= nv <= 0x1_0000_0000;
        lemma_trunc_div_shrinks(lr * nv, 1000);
    }
    let step = div_toward_zero(lr * nv, COEFF_SCALE);
    let nx = clamp_exec(x as i128 + step, POSITION_LIMIT as i128);
    (nx as i64, nv as i64)
}

/// One member of the swarm.
#[derive(Clone, Debug)]
pub struct Particle {
    pub position: Vec<i64>,
    pub velocity: Vec<i64>,
    pub best_known_position: Vec<i64>,
    pub best_cost: i128,
}

impl Particle {
    /// Vectors of the search's dimension, within the limits, and the personal
    /// best's cost recorded.
    pub open spec fn fits(&self, p: ProblemSpec, obj: Objective) -> bool {
        let n = obj.dimension(p);
        &&& self.position@.len() == n
        &&& self.velocity@.len() == n
        &&& self.best_known_position@.len() == n
        &&& within(self.position@, POSITION_LIMIT as int)
        &&& within(self.velocity@, VELOCITY_LIMIT as int)
        &&& within(self.best_known_position@, POSITION_LIMIT as int)
        &&& self.best_cost == obj.cost(p, self.best_known_position@)
    }
}

fn copy_vector(v: &Vec<i64>) -> (r: Vec<i64>)
    ensures
        r@ == v@,
{
    let mut r: Vec<i64> = Vec::new();
    let mut i: usize = 0;
    while i < v.len()
        invariant
            i <= v@.len(),
            r@ == v@.subrange(0, i as int),
        decreases v@.len() - i,
    {
        r.push(v[i]);
        i += 1;
        assert(r@ =~= v@.subrange(0, i as int));
    }
    assert(r@ =~= v@);
    r
}

fn zero_vector(n: usize) -> (r: Vec<i64>)
    ensures
        r@.len() == n,
        forall|i: int| 0 <= i < n ==> r@[i] == 0,
{
    let mut r: Vec<i64> = Vec::new();
    let mut i: usize = 0;
    while i < n
        invariant
            i <= n,
            r@.len() == i,
            forall|j: int| 0 <= j < i ==> r@[j] == 0,
        decreases n - i,
    {
        r.push(0);
        i += 1;
    }
    r
}

pub open spec fn seq_views(vs: Seq<Vec<i64>>) -> Seq<Seq<i64>> {
    Seq::new(vs.len(), |i: int| vs[i]@)
}

/// What a particle is made of: position, velocity, personal best and its cost.
pub type ParticleState = (Seq<i64>, Seq<i64>, Seq<i64>, int);

pub open spec fn state_of(part: Particle) -> ParticleState {
    (part.position@, part.velocity@, part.best_known_position@, part.best_cost as int)
}

/// One update of a particle, given the global best `gb` and one pair of
/// random draws per coordinate: every coordinate moves by `next_velocity` and
/// `next_position`, and the personal best moves there if it costs less.
pub open spec fn step_state(
    p: ProblemSpec,
    obj: Objective,
    c: SwarmConfig,
    s: ParticleState,
    gb: Seq<i64>,
    draws: Seq<(i64, i64)>,
) -> ParticleState {
    let v = Seq::new(
        s.0.len(),
        |d: int| next_velocity(c, s.0[d] as int, s.1[d] as int, s.2[d] as int, gb[d] as int, draws[d].0 as int, draws[d].1 as int) as i64,
    );
    let x = Seq::new(s.0.len(), |d: int| next_position(c, s.0[d] as int, v[d] as int) as i64);
    let cost = obj.cost(p, x);
    if cost < s.3 {
        (x, v, x, cost)
    } else {
        (x, v, s.2, s.3)
    }
}

pub open spec fn draws_ok(draws: Seq<(i64, i64)>, n: nat) -> bool {
    &&& draws.len() == n
    &&& forall|d: int| 0 <= d < n ==> 0 <= (#[trigger] draws[d]).0 < DRAW_SCALE && 0 <= draws[d].1 < DRAW_SCALE
}

/// Moves one particle by one update with the given draws and keeps its
/// personal best.
pub fn step_particle_with(
    p: &ProblemSpec,
    obj: &Objective,
    c: &SwarmConfig,
    part: &Particle,
    global_best: &Vec<i64>,
    draws: &Vec<(i64, i64)>,
) -> (r: Particle)
    requires
        p.well_formed(),
        obj.valid_for(*p),
        part.fits(*p, *obj),
        global_best@.len() == obj.dimension(*p),
        within(global_best@, POSITION_LIMIT as int),
        draws_ok(draws@, obj.dimension(*p)),
    ensures
        r.fits(*p, *obj),
        state_of(r) == step_state(*p, *obj, *c, state_of(*part), global_best@, draws@),
        r.best_cost <= part.best_cost,
{
    let n = part.position.len();
    let ghost target = step_state(*p, *obj, *c, state_of(*part), global_best@, draws@);
    let mut position: Vec<i64> = Vec::new();
    let mut velocity: Vec<i64> = Vec::new();
    let mut d: usize = 0;
    while d < n
        invariant
            part.fits(*p, *obj),
            n == obj.dimension(*p),
            global_best@.len() == n,
            within(global_best@, POSITION_LIMIT as int),
            draws_ok(draws@, obj.dimension(*p)),
            target == step_state(*p, *obj, *c, state_of(*part), global_best@, draws@),
            d <= n,
            position@.len() == d,
            velocity@.len() == d,
            within(position@, POSITION_LIMIT as int),
            within(velocity@, VELOCITY_LIMIT as int),
            forall|i: int| 0 <= i < d ==> #[trigger] velocity@[i] == target.1[i],
            forall|i: int| 0 <= i < d ==> #[trigger] position@[i] == target.0[i],
        decreases n - d,
    {
        let (rp, rg) = draws[d];
        let (x, v) = advance_coordinate(
            c,
            part.position[d],
            part.velocity[d],
            part.best_known_position[d],
            global_best[d],
            rp,
            rg,
        );
        position.push(x);
        velocity.push(v);
        d += 1;
    }
    assert(position@ =~= target.0);
    assert(velocity@ =~= target.1);
    let cost = objective_cost(p, obj, &position);
    if cost < part.best_cost {
        let best = copy_vector(&position);
        Particle { position, velocity, best_known_position: best, best_cost: cost }
    } else {
        let best = copy_vector(&part.best_known_position);
        Particle { position, velocity, best_known_position: best, best_cost: part.best_cost }
    }
}

/// `k` particles of one round updated in order: each sees the global best
/// left by the ones before it, and replaces it when its personal best costs
/// less. Returns the particles, the global best and its cost.
pub open spec fn round_state(
    p: ProblemSpec,
    obj: Objective,
    c: SwarmConfig,
    parts: Seq<ParticleState>,
    gb: Seq<i64>,
    gcost: int,
    draws: Seq<Seq<(i64, i64)>>,
    k: int,
) -> (Seq<ParticleState>, Seq<i64>, int)
    decreases k,
{
    if k <= 0 {
        (parts, gb, gcost)
    } else {
        let prev = round_state(p, obj, c, parts, gb, gcost, draws, k - 1);
        let next = step_state(p, obj, c, prev.0[k - 1], prev.1, draws[k - 1]);
        let moved = prev.0.update(k - 1, next);
        if next.3 < prev.2 {
            (moved, next.2, next.3)
        } else {
            (moved, prev.1, prev.2)
        }
    }
}

proof fn lemma_round_state_rest(
    p: ProblemSpec,
    obj: Objective,
    c: SwarmConfig,
    parts: Seq<ParticleState>,
    gb: Seq<i64>,
    gcost: int,
    draws: Seq<Seq<(i64, i64)>>,
    k: int,
)
    requires
        0 <= k <= parts.len(),
    ensures
        round_state(p, obj, c, parts, gb, gcost, draws, k).0.len() == parts.len(),
        forall|j: int| k <= j < parts.len() ==> #[trigger] round_state(p, obj, c, parts, gb, gcost, draws, k).0[j] == parts[j],
    decreases k,
{
    if k > 0 {
        lemma_round_state_rest(p, obj, c, parts, gb, gcost, draws, k - 1);
    }
}

pub open spec fn states_of(parts: Seq<Particle>) -> Seq<ParticleState> {
    Seq::new(parts.len(), |i: int| state_of(parts[i]))
}

/// One round of the swarm with the given draws (`draws[k]` for particle `k`).
pub fn swarm_round(
    p: &ProblemSpec,
    obj: &Objective,
    c: &SwarmConfig,
    particles: &mut Vec<Particle>,
    global_best: &mut Vec<i64>,
    global_cost: &mut i128,
    draws: &Vec<Vec<(i64, i64)>>,
)
    requires
        p.well_formed(),
        obj.valid_for(*p),
        forall|j: int| 0 <= j < old(particles)@.len() ==> (#[trigger] old(particles)@[j]).fits(*p, *obj),
        old(global_best)@.len() == obj.dimension(*p),
        within(old(global_best)@, POSITION_LIMIT as int),
        *old(global_cost) == obj.cost(*p, old(global_best)@),
        draws@.len() == old(particles)@.len(),
        forall|j: int| 0 <= j < draws@.len() ==> draws_ok((#[trigger] draws@[j])@, obj.dimension(*p)),
    ensures
        (states_of(final(particles)@), final(global_best)@, *final(global_cost) as int) == round_state(
            *p,
            *obj,
            *c,
            states_of(old(particles)@),
            old(global_best)@,
            *old(global_cost) as int,
            Seq::new(draws@.len(), |j: int| draws@[j]@),
            old(particles)@.len() as int,
        ),
        forall|j: int| 0 <= j < final(particles)@.len() ==> (#[trigger] final(particles)@[j]).fits(*p, *obj),
        final(global_best)@.len() == obj.dimension(*p),
        within(final(global_best)@, POSITION_LIMIT as int),
        *final(global_cost) == obj.cost(*p, final(global_best)@),
        *final(global_cost) <= *old(global_cost),
{
    let ghost start = states_of(particles@);
    let ghost gb0 = global_best@;
    let ghost gc0 = *global_cost as int;
    let ghost dv = Seq::new(draws@.len(), |j: int| draws@[j]@);
    let n = particles.len();
    let mut k: usize = 0;
    while k < n
        invariant
            p.well_formed(),
            obj.valid_for(*p),
            n == particles@.len(),
            n == draws@.len(),
            start.len() == n,
            dv == Seq::new(draws@.len(), |j: int| draws@[j]@),
            forall|j: int| 0 <= j < draws@.len() ==> draws_ok((#[trigger] draws@[j])@, obj.dimension(*p)),
            k <= n,
            forall|j: int| 0 <= j < particles@.len() ==> (#[trigger] particles@[j]).fits(*p, *obj),
            global_best@.len() == obj.dimension(*p),
            within(global_best@, POSITION_LIMIT as int),
            *global_cost == obj.cost(*p, global_best@),
            *global_cost <= gc0,
            (states_of(particles@), global_best@, *global_cost as int) == round_state(*p, *obj, *c, start, gb0, gc0, dv, k as int),
        decreases n - k,
    {
        proof {
            lemma_round_state_rest(*p, *obj, *c, start, gb0, gc0, dv, k as int);
            assert(states_of(particles@)[k as int] == state_of(particles@[k as int]));
        }
        let next = step_particle_with(p, obj, c, &particles[k], global_best, &draws[k]);
        if next.best_cost < *global_cost {
            *global_best = copy_vector(&next.best_known_position);
            *global_cost = next.best_cost;
        }
        particles.set(k, next);
        k += 1;
        proof {
            let prev = round_state(*p, *obj, *c, start, gb0, gc0, dv, k - 1);
            assert(states_of(particles@) =~= prev.0.update(k - 1, state_of(next)));
        }
    }
}

/// Draws a pair of random factors for every coordinate of every particle.
fn draw_round(rng: &mut StdRng, particles: usize, n: usize) -> (r: Vec<Vec<(i64, i64)>>)
    ensures
        r@.len() == particles,
        forall|j: int| 0 <= j < particles ==> draws_ok((#[trigger] r@[j])@, n as nat),
{
    let mut r: Vec<Vec<(i64, i64)>> = Vec::new();
    let mut j: usize = 0;
    while j < particles
        invariant
            j <= particles,
            r@.len() == j,
            forall|i: int| 0 <= i < j ==> draws_ok((#[trigger] r@[i])@, n as nat),
        decreases particles - j,
    {
        let mut row: Vec<(i64, i64)> = Vec::new();
        let mut d: usize = 0;
        while d < n
            invariant
                d <= n,
                draws_ok(row@, d as nat),
            decreases n - d,
        {
            let rp = draw(rng, 0, DRAW_SCALE - 1);
            let rg = draw(rng, 0, DRAW_SCALE - 1);
            row.push((rp, rg));
            d += 1;
        }
        r.push(row);
        j += 1;
    }
    r
}

/// The particles a search starts from: one at rest at each starting point,
/// its personal best there.
pub open spec fn start_states(p: ProblemSpec, obj: Objective, initial: Seq<Seq<i64>>) -> Seq<ParticleState> {
    Seq::new(
        initial.len(),
        |i: int| (initial[i], Seq::new(initial[i].len(), |d: int| 0i64), initial[i], obj.cost(p, initial[i])),
    )
}

/// The first of the cheapest among the first `k` starting points (at least one), and its cost.
pub open spec fn start_best(p: ProblemSpec, obj: Objective, initial: Seq<Seq<i64>>, k: int) -> (Seq<i64>, int)
    decreases k,
{
    if k <= 1 {
        (initial[0], obj.cost(p, initial[0]))
    } else {
        let prev = start_best(p, obj, initial, k - 1);
        let cost = obj.cost(p, initial[k - 1]);
        if cost < prev.1 {
            (initial[k - 1], cost)
        } else {
            prev
        }
    }
}

/// The swarm after one `round_state` per entry of `history`, each with that
/// entry's draws.
pub open spec fn rounds_state(
    p: ProblemSpec,
    obj: Objective,
    c: SwarmConfig,
    parts: Seq<ParticleState>,
    gb: Seq<i64>,
    gcost: int,
    history: Seq<Seq<Seq<(i64, i64)>>>,
) -> (Seq<ParticleState>, Seq<i64>, int)
    decreases history.len(),
{
    if history.len() == 0 {
        (parts, gb, gcost)
    } else {
        let prev = rounds_state(p, obj, c, parts, gb, gcost, history.drop_last());
        round_state(p, obj, c, prev.0, prev.1, prev.2, history.last(), prev.0.len() as int)
    }
}

/// Particle swarm search: starts one particle at rest at each of `initial`
/// and runs `c.iteration` rounds of updates. The result is the global best:
/// it costs no more than any starting point.
pub fn swarm_search(
    p: &ProblemSpec,
    obj: &Objective,
    c: &SwarmConfig,
    initial: &Vec<Vec<i64>>,
    rng: &mut StdRng,
) -> (best: Vec<i64>)
    requires
        p.well_formed(),
        obj.valid_for(*p),
        initial@.len() > 0,
        forall|i: int| 0 <= i < initial@.len() ==> (#[trigger] initial@[i])@.len() == obj.dimension(*p),
        forall|i: int| 0 <= i < initial@.len() ==> within((#[trigger] initial@[i])@, POSITION_LIMIT as int),
    ensures
        best@.len() == obj.dimension(*p),
        within(best@, POSITION_LIMIT as int),
        forall|i: int| 0 <= i < initial@.len() ==> obj.cost(*p, best@) <= obj.cost(*p, (#[trigger] initial@[i])@),
        exists|history: Seq<Seq<Seq<(i64, i64)>>>|
            {
                &&& history.len() == c.iteration
                &&& forall|t: int, j: int|
                    0 <= t < history.len() && 0 <= j < history[t].len() ==> draws_ok(
                        #[trigger] history[t][j],
                        obj.dimension(*p),
                    )
                &&& best@ == rounds_state(
                    *p,
                    *obj,
                    *c,
                    start_states(*p, *obj, seq_views(initial@)),
                    start_best(*p, *obj, seq_views(initial@), initial@.len() as int).0,
                    start_best(*p, *obj, seq_views(initial@), initial@.len() as int).1,
                    history,
                ).1
            },
{
    let ghost init = seq_views(initial@);
    let n = initial[0].len();
    let mut global_best = copy_vector(&initial[0]);
    let mut global_cost = objective_cost(p, obj, &global_best);
    let mut particles: Vec<Particle> = Vec::new();
    let mut i: usize = 0;
    while i < initial.len()
        invariant
            p.well_formed(),
            obj.valid_for(*p),
            n == obj.dimension(*p),
            forall|i: int| 0 <= i < initial@.len() ==> (#[trigger] initial@[i])@.len() == n,
            forall|i: int| 0 <= i < initial@.len() ==> within((#[trigger] initial@[i])@, POSITION_LIMIT as int),
            i <= initial@.len(),
            particles@.len() == i,
            forall|j: int| 0 <= j < i ==> (#[trigger] particles@[j]).fits(*p, *obj),
            global_best@.len() == n,
            within(global_best@, POSITION_LIMIT as int),
            global_cost == obj.cost(*p, global_best@),
            forall|j: int| 0 <= j < i ==> global_cost <= obj.cost(*p, (#[trigger] initial@[j])@),
            initial@.len() > 0,
            global_cost <= obj.cost(*p, initial@[0]@),
            init == seq_views(initial@),
            states_of(particles@) == start_states(*p, *obj, init).take(i as int),
            (global_best@, global_cost as int) == start_best(*p, *obj, init, if i == 0 { 1 } else { i as int }),
        decreases initial@.len() - i,
    {
        let start = &initial[i];
        let cost = objective_cost(p, obj, start);
        let part = Particle {
            position: copy_vector(start),
            velocity: zero_vector(n),
            best_known_position: copy_vector(start),
            best_cost: cost,
        };
        if cost < global_cost {
            global_best = copy_vector(start);
            global_cost = cost;
        }
        particles.push(part);
        i += 1;
        proof {
            assert(part.velocity@ =~= Seq::new(init[i - 1].len(), |d: int| 0i64));
            assert(states_of(particles@) =~= start_states(*p, *obj, init).take(i as int));
        }
    }
    assert(start_states(*p, *obj, init).take(initial@.len() as int) =~= start_states(*p, *obj, init));
    let ghost parts0 = states_of(particles@);
    let ghost gb0 = global_best@;
    let ghost gc0 = global_cost as int;
    let ghost mut history: Seq<Seq<Seq<(i64, i64)>>> = Seq::empty();
    let mut t: usize = 0;
    while t < c.iteration
        invariant
            p.well_formed(),
            obj.valid_for(*p),
            n == obj.dimension(*p),
            forall|j: int| 0 <= j < particles@.len() ==> (#[trigger] particles@[j]).fits(*p, *obj),
            global_best@.len() == n,
            within(global_best@, POSITION_LIMIT as int),
            global_cost == obj.cost(*p, global_best@),
            forall|j: int| 0 <= j < initial@.len() ==> global_cost <= obj.cost(*p, (#[trigger] initial@[j])@),
            t <= c.iteration,
            history.len() == t,
            forall|u: int, j: int|
                0 <= u < history.len() && 0 <= j < history[u].len() ==> draws_ok(#[trigger] history[u][j], n as nat),
            (states_of(particles@), global_best@, global_cost as int) == rounds_state(*p, *obj, *c, parts0, gb0, gc0, history),
        decreases c.iteration - t,
    {
        let draws = draw_round(rng, particles.len(), n);
        let ghost before = states_of(particles@);
        swarm_round(p, obj, c, &mut particles, &mut global_best, &mut global_cost, &draws);
        proof {
            let dv = Seq::new(draws@.len(), |j: int| draws@[j]@);
            let old_history = history;
            history = history.push(dv);
            assert(history.drop_last() =~= old_history);
            assert(before.len() == draws@.len());
        }
        t += 1;
    }
    proof {
        assert(parts0 == start_states(*p, *obj, init));
        assert(history.len() == c.iteration);
        assert(global_best@ == rounds_state(
            *p,
            *obj,
            *c,
            start_states(*p, *obj, seq_views(initial@)),
            start_best(*p, *obj, seq_views(initial@), initial@.len() as int).0,
            start_best(*p, *obj, seq_views(initial@), initial@.len() as int).1,
            history,
        ).1);
    }
    global_best
}

} // verus!
