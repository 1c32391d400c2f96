use vstd::prelude::*;
use rand::rngs::StdRng;
use crate::models::{Position, ProblemSpec, Solution, PlacementError, MARGIN};
use crate::scoring::{
    feasible, on_stage, too_close, solo_feasible, solo_feasible_exec,
    INFEASIBLE_COST, lemma_score_in_range, lemma_dist_sq_symmetric, lemma_solo_cost_in_range,
    lemma_musician_instrument_known,
};
use crate::swarm::{
    decode, decode_vector, draw, seeded_rng, swarm_search, within, Objective, SwarmConfig,
    POSITION_LIMIT,
};

verus! {

/// A performer: its index in the problem's list of instruments.
#[derive(Clone, Copy, Debug, PartialEq, Eq, Structural)]
pub struct MusicianId(pub usize);

/// An attendee: its index in the problem's audience.
#[derive(Clone, Copy, Debug, PartialEq, Eq, Structural)]
pub struct AttendeeId(pub usize);

/// How many positions are drawn for one performer before the stage counts as full.
pub const MAX_DRAWS: usize = 1000;

/// The inset stage is not empty.
pub open spec fn stage_has_room(p: ProblemSpec) -> bool {
    p.stage_width >= 2 * MARGIN && p.stage_height >= 2 * MARGIN
}

/// The positions are on the inset stage and pairwise more than 10.5 apart.
pub open spec fn spaced(p: ProblemSpec, ms: Seq<Position>) -> bool {
    &&& forall|k: int| 0 <= k < ms.len() ==> on_stage(p, #[trigger] ms[k])
    &&& forall|j: int, k: int|
        0 <= j < ms.len() && 0 <= k < ms.len() && j != k ==> !too_close(#[trigger] ms[j], #[trigger] ms[k])
}

/// Draws positions on the inset stage until one is clear of `claimed`, at
/// most `MAX_DRAWS` times.
fn sample_clear_position(p: &ProblemSpec, claimed: &Vec<Position>, rng: &mut StdRng) -> (r: Option<Position>)
    requires
        p.well_formed(),
        stage_has_room(*p),
        forall|j: int| 0 <= j < claimed@.len() ==> on_stage(*p, #[trigger] claimed@[j]),
    ensures
        r matches Some(pos) ==> solo_feasible(*p, pos, claimed@),
        claimed@.len() == 0 ==> r is Some,
{
    let bl = p.stage_bottom_left;
    let lo_x = bl.x + MARGIN;
    let hi_x = bl.x + p.stage_width - MARGIN;
    let lo_y = bl.y + MARGIN;
    let hi_y = bl.y + p.stage_height - MARGIN;
    let mut tries: usize = 0;
    while tries < MAX_DRAWS
        invariant
            p.well_formed(),
            forall|j: int| 0 <= j < claimed@.len() ==> on_stage(*p, #[trigger] claimed@[j]),
            lo_x == p.stage_bottom_left.x + MARGIN,
            hi_x == p.stage_bottom_left.x + p.stage_width - MARGIN,
            lo_y == p.stage_bottom_left.y + MARGIN,
            hi_y == p.stage_bottom_left.y + p.stage_height - MARGIN,
            lo_x <= hi_x,
            lo_y <= hi_y,
            claimed@.len() > 0 || tries == 0,
        decreases MAX_DRAWS - tries,
    {
        let x = draw(rng, lo_x, hi_x);
        let y = draw(rng, lo_y, hi_y);
        let pos = Position { x, y };
        if solo_feasible_exec(p, pos, claimed) {
            return Some(pos);
        }
        tries += 1;
    }
    None
}

proof fn lemma_spaced_push(p: ProblemSpec, ms: Seq<Position>, pos: Position)
    requires
        spaced(p, ms),
        solo_feasible(p, pos, ms),
    ensures
        spaced(p, ms.push(pos)),
{
    let ext = ms.push(pos);
    assert forall|j: int, k: int| 0 <= j < ext.len() && 0 <= k < ext.len() && j != k implies !too_close(
        #[trigger] ext[j],
        #[trigger] ext[k],
    ) by {
        if k == ms.len() {
            assert(!too_close(pos, ms[j]));
            lemma_dist_sq_symmetric(pos, ms[j]);
        } else if j == ms.len() {
            assert(!too_close(pos, ms[k]));
        } else {
            assert(ext[j] == ms[j] && ext[k] == ms[k]);
        }
    }
    assert forall|k: int| 0 <= k < ext.len() implies on_stage(p, #[trigger] ext[k]) by {
        if k < ms.len() {
            assert(ext[k] == ms[k]);
        }
    }
}

/// One position per performer, drawn so that no two are too close.
fn initial_placement(p: &ProblemSpec, rng: &mut StdRng) -> (r: Option<Vec<Position>>)
    requires
        p.well_formed(),
        stage_has_room(*p),
    ensures
        r matches Some(ms) ==> feasible(*p, ms@),
        p.musicians@.len() == 1 ==> r is Some,
{
    let mut claimed: Vec<Position> = Vec::new();
    let mut k: usize = 0;
    while k < p.musicians.len()
        invariant
            p.well_formed(),
            stage_has_room(*p),
            k <= p.musicians@.len(),
            claimed@.len() == k,
            spaced(*p, claimed@),
        decreases p.musicians@.len() - k,
    {
        match sample_clear_position(p, &claimed, rng) {
            Some(pos) => {
                proof {
                    lemma_spaced_push(*p, claimed@, pos);
                }
                claimed.push(pos);
            },
            None => {
                return None;
            },
        }
        k += 1;
    }
    Some(claimed)
}

/// The particle vector of a placement: `(x, y)` pairs in performer order.
fn encode(ms: &Vec<Position>) -> (v: Vec<i64>)
    requires
        forall|k: int| 0 <= k < ms@.len() ==> -POSITION_LIMIT <= (#[trigger] ms@[k]).x <= POSITION_LIMIT
            && -POSITION_LIMIT <= ms@[k].y <= POSITION_LIMIT,
    ensures
        v@.len() == 2 * ms@.len(),
        decode(v@) == ms@,
        within(v@, POSITION_LIMIT as int),
{
    let mut v: Vec<i64> = Vec::new();
    let mut k: usize = 0;
    while k < ms.len()
        invariant
            forall|k: int| 0 <= k < ms@.len() ==> -POSITION_LIMIT <= (#[trigger] ms@[k]).x <= POSITION_LIMIT
                && -POSITION_LIMIT <= ms@[k].y <= POSITION_LIMIT,
            k <= ms@.len(),
            v@.len() == 2 * k,
            forall|i: int| 0 <= i < k ==> v@[2 * i] == (#[trigger] ms@[i]).x && v@[2 * i + 1] == ms@[i].y,
            within(v@, POSITION_LIMIT as int),
        decreases ms@.len() - k,
    {
        let pos = ms[k];
        v.push(pos.x);
        v.push(pos.y);
        k += 1;
    }
    assert(decode(v@) =~= ms@);
    v
}

proof fn lemma_on_stage_in_limits(p: ProblemSpec, ms: Seq<Position>)
    requires
        p.well_formed(),
        forall|k: int| 0 <= k < ms.len() ==> on_stage(p, #[trigger] ms[k]),
    ensures
        forall|k: int| 0 <= k < ms.len() ==> -POSITION_LIMIT <= (#[trigger] ms[k]).x <= POSITION_LIMIT
            && -POSITION_LIMIT <= ms[k].y <= POSITION_LIMIT,
{
    assert forall|k: int| 0 <= k < ms.len() implies -POSITION_LIMIT <= (#[trigger] ms[k]).x <= POSITION_LIMIT
        && -POSITION_LIMIT <= ms[k].y <= POSITION_LIMIT by {
        assert(on_stage(p, ms[k]));
    }
}

/// What both optimizers promise of their outcome.
pub open spec fn run_outcome(p: ProblemSpec, r: Result<Solution, PlacementError>) -> bool {
    &&& (r == Err::<Solution, PlacementError>(PlacementError::MalformedProblem) <==> !p.well_formed())
    &&& (p.well_formed() && !stage_has_room(p)
        ==> r == Err::<Solution, PlacementError>(PlacementError::InfeasibleRegion))
    &&& (r matches Ok(s) ==> feasible(p, s.placements@))
    &&& (r matches Err(e) ==> e != PlacementError::SolverFailure)
    &&& (p.well_formed() && stage_has_room(p) && p.musicians@.len() == 1 ==> r is Ok)
}

/// Joint placement: one swarm search over the concatenated coordinates of
/// all performers, scored with occlusion. Every particle starts from a
/// placement drawn with the performers spaced apart; a stage that cannot
/// take them within `MAX_DRAWS` draws per performer gives `InfeasibleRegion`.
pub fn particle_swarm_optimizer(problem: &ProblemSpec, config: &SwarmConfig, seed: u64) -> (r: Result<
    Solution,
    PlacementError,
>)
    requires
        config.pop_size > 0,
    ensures
        run_outcome(*problem, r),
{
    if let Err(e) = problem.validate() {
        return Err(e);
    }
    if problem.stage_width < 2 * MARGIN || problem.stage_height < 2 * MARGIN {
        return Err(PlacementError::InfeasibleRegion);
    }
    let mut rng = seeded_rng(seed);
    let obj = Objective::Joint;
    let mut initial: Vec<Vec<i64>> = Vec::new();
    let mut i: usize = 0;
    while i < config.pop_size
        invariant
            problem.well_formed(),
            stage_has_room(*problem),
            obj == Objective::Joint,
            i <= config.pop_size,
            initial@.len() == i,
            forall|j: int| 0 <= j < i ==> (#[trigger] initial@[j])@.len() == obj.dimension(*problem),
            forall|j: int| 0 <= j < i ==> within((#[trigger] initial@[j])@, POSITION_LIMIT as int),
            forall|j: int| 0 <= j < i ==> obj.cost(*problem, (#[trigger] initial@[j])@) < INFEASIBLE_COST,
        decreases config.pop_size - i,
    {
        match initial_placement(problem, &mut rng) {
            Some(ms) => {
                proof {
                    lemma_on_stage_in_limits(*problem, ms@);
                }
                let v = encode(&ms);
                proof {
                    lemma_score_in_range(*problem, ms@);
                }
                initial.push(v);
            },
            None => {
                return Err(PlacementError::InfeasibleRegion);
            },
        }
        i += 1;
    }
    let best = swarm_search(problem, &obj, config, &initial, &mut rng);
    let placements = decode_vector(&best);
    proof {
        assert(obj.cost(*problem, best@) <= obj.cost(*problem, initial@[0]@));
        lemma_score_in_range(*problem, decode(best@));
    }
    Ok(Solution { placements })
}

fn copy_positions(v: &Vec<Position>) -> (r: Vec<Position>)
    ensures
        r@ == v@,
{
    let mut r: Vec<Position> = Vec::new();
    let mut i: usize = 0;
    while i < v.len()
        invariant
            i <= v@.len(),
            r@ == v@.subrange(0, i as int),
        decreases v@.len() - i,
    {
        r.push(v[i]);
        i += 1;
        assert(r@ =~= v@.subrange(0, i as int));
    }
    assert(r@ =~= v@);
    r
}

/// Independent placement: performers are placed one at a time, in index
/// order, each by its own swarm search against the attendees and the
/// performers already placed (without occlusion). Starting points are drawn
/// clear of the placed performers; a performer for which `MAX_DRAWS` draws
/// find no room gives `InfeasibleRegion`.
pub fn independent_optimizer(problem: &ProblemSpec, config: &SwarmConfig, seed: u64) -> (r: Result<
    Solution,
    PlacementError,
>)
    requires
        config.pop_size > 0,
    ensures
        run_outcome(*problem, r),
{
    if let Err(e) = problem.validate() {
        return Err(e);
    }
    if problem.stage_width < 2 * MARGIN || problem.stage_height < 2 * MARGIN {
        return Err(PlacementError::InfeasibleRegion);
    }
    let mut rng = seeded_rng(seed);
    let mut committed: Vec<Position> = Vec::new();
    let mut k: usize = 0;
    while k < problem.musicians.len()
        invariant
            problem.well_formed(),
            stage_has_room(*problem),
            config.pop_size > 0,
            k <= problem.musicians@.len(),
            committed@.len() == k,
            spaced(*problem, committed@),
        decreases problem.musicians@.len() - k,
    {
        let obj = Objective::Solo { musician: k, committed: copy_positions(&committed) };
        let mut initial: Vec<Vec<i64>> = Vec::new();
        let mut i: usize = 0;
        while i < config.pop_size
            invariant
                problem.well_formed(),
                stage_has_room(*problem),
                spaced(*problem, committed@),
                k < problem.musicians@.len(),
                committed@.len() == k,
                obj == (Objective::Solo { musician: k, committed: obj->committed }),
                obj->committed@ == committed@,
                i <= config.pop_size,
                initial@.len() == i,
                forall|j: int| 0 <= j < i ==> (#[trigger] initial@[j])@.len() == 2,
                forall|j: int| 0 <= j < i ==> within((#[trigger] initial@[j])@, POSITION_LIMIT as int),
                forall|j: int| 0 <= j < i ==> obj.cost(*problem, (#[trigger] initial@[j])@) < INFEASIBLE_COST,
            decreases config.pop_size - i,
        {
            match sample_clear_position(problem, &committed, &mut rng) {
                Some(pos) => {
                    let mut v: Vec<i64> = Vec::new();
                    v.push(pos.x);
                    v.push(pos.y);
                    proof {
                        assert(on_stage(*problem, pos));
                        assert(Position { x: v@[0], y: v@[1] } == pos);
                        lemma_musician_instrument_known(*problem, k as int);
                        lemma_solo_cost_in_range(*problem, problem.musicians@[k as int], pos, committed@);
                    }
                    initial.push(v);
                },
                None => {
                    return Err(PlacementError::InfeasibleRegion);
                },
            }
            i += 1;
        }
        let best = swarm_search(problem, &obj, config, &initial, &mut rng);
        let pos = Position { x: best[0], y: best[1] };
        proof {
            assert(obj.cost(*problem, best@) <= obj.cost(*problem, initial@[0]@));
            lemma_musician_instrument_known(*problem, k as int);
            lemma_solo_cost_in_range(*problem, problem.musicians@[k as int], pos, committed@);
            lemma_spaced_push(*problem, committed@, pos);
        }
        committed.push(pos);
        k += 1;
    }
    Ok(Solution { placements: committed })
}

} // verus!
