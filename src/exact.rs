use vstd::prelude::*;
use crate::models::{Attendee, Position, ProblemSpec, Solution, PlacementError, MARGIN, SCORE_SCALE, attendee_ok};
use crate::optimizer::{AttendeeId, MusicianId};
use crate::scoring::{dist_sq, impact, on_stage, on_stage_exec, trunc_div};

verus! {

/// Bounds on one performer's two decision variables.
#[derive(Clone, Copy, Debug, PartialEq, Eq, Structural)]
pub struct VariableBox {
    pub musician: MusicianId,
    pub x_min: i64,
    pub x_max: i64,
    pub y_min: i64,
    pub y_max: i64,
}

/// One term of the objective to maximise: `weight` divided by the squared
/// distance from the performer's variables to `target`.
#[derive(Clone, Copy, Debug, PartialEq, Eq, Structural)]
pub struct ObjectiveTerm {
    pub musician: MusicianId,
    pub attendee: AttendeeId,
    pub weight: i128,
    pub target: Position,
}

/// The constraint-optimization model handed to an exact solver: one box per
/// performer, and one row of objective terms per attendee. Occlusion is not
/// part of it.
#[derive(Clone, Debug)]
pub struct ExactModel {
    pub boxes: Vec<VariableBox>,
    pub terms: Vec<Vec<ObjectiveTerm>>,
}

/// What the exact solver answered.
#[derive(Clone, Debug)]
pub enum SolverOutcome {
    /// The optimal assignment, one position per performer.
    Optimal(Vec<Position>),
    Unsatisfiable,
    Unknown,
    Failed,
}

/// What a term adds to the objective when its performer stands at `at`: the
/// weight over the squared distance to the target, rounded towards zero, and
/// nothing at distance zero. The model's objective is the sum of its terms.
pub open spec fn term_value(t: ObjectiveTerm, at: Position) -> int {
    let d2 = dist_sq(t.target, at);
    if d2 == 0 { 0 } else { trunc_div(t.weight as int, d2) }
}

/// Performer `k`'s box: the stage inset by the margin.
pub open spec fn box_of(p: ProblemSpec, k: int) -> VariableBox {
    VariableBox {
        musician: MusicianId(k as usize),
        x_min: (p.stage_bottom_left.x + MARGIN) as i64,
        x_max: (p.stage_bottom_left.x + p.stage_width - MARGIN) as i64,
        y_min: (p.stage_bottom_left.y + MARGIN) as i64,
        y_max: (p.stage_bottom_left.y + p.stage_height - MARGIN) as i64,
    }
}

/// The term for attendee `a` and performer `k`: their taste for the
/// performer's instrument, scaled.
pub open spec fn term_of(p: ProblemSpec, a: int, k: int) -> ObjectiveTerm {
    ObjectiveTerm {
        musician: MusicianId(k as usize),
        attendee: AttendeeId(a as usize),
        weight: (SCORE_SCALE * p.attendees@[a].tastes@[p.musicians@[k].0 as int]) as i128,
        target: p.attendees@[a].position,
    }
}

fn attendee_row(p: &ProblemSpec, a: usize) -> (row: Vec<ObjectiveTerm>)
    requires
        p.well_formed(),
        a < p.attendees@.len(),
    ensures
        row@.len() == p.musicians@.len(),
        forall|k: int| 0 <= k < row@.len() ==> #[trigger] row@[k] == term_of(*p, a as int, k),
{
    let att: &Attendee = &p.attendees[a];
    assert(attendee_ok(p.attendees@[a as int], p.musicians@));
    let mut row: Vec<ObjectiveTerm> = Vec::new();
    let mut k: usize = 0;
    while k < p.musicians.len()
        invariant
            p.well_formed(),
            a < p.attendees@.len(),
            *att == p.attendees@[a as int],
            attendee_ok(*att, p.musicians@),
            k <= p.musicians@.len(),
            row@.len() == k,
            forall|i: int| 0 <= i < k ==> #[trigger] row@[i] == term_of(*p, a as int, i),
        decreases p.musicians@.len() - k,
    {
        assert(p.musicians@[k as int].0 < att.tastes@.len());
        let taste = att.tastes[p.musicians[k].0];
        row.push(
            ObjectiveTerm {
                musician: MusicianId(k),
                attendee: AttendeeId(a),
                weight: SCORE_SCALE * taste as i128,
                target: att.position,
            },
        );
        k += 1;
    }
    row
}

/// Builds the exact model of a problem: a box per performer from the inset
/// stage, and a term per attendee and performer.
pub fn exact_model(p: &ProblemSpec) -> (m: ExactModel)
    requires
        p.well_formed(),
    ensures
        m.boxes@.len() == p.musicians@.len(),
        forall|k: int| 0 <= k < m.boxes@.len() ==> #[trigger] m.boxes@[k] == box_of(*p, k),
        m.terms@.len() == p.attendees@.len(),
        forall|a: int| 0 <= a < m.terms@.len() ==> (#[trigger] m.terms@[a])@.len() == p.musicians@.len(),
        forall|a: int, k: int|
            0 <= a < m.terms@.len() && 0 <= k < p.musicians@.len() ==> #[trigger] m.terms@[a]@[k] == term_of(*p, a, k),
        forall|a: int, k: int, at: Position|
            0 <= a < m.terms@.len() && 0 <= k < p.musicians@.len() ==> #[trigger] term_value(m.terms@[a]@[k], at)
                == impact(
                p.attendees@[a].tastes@[p.musicians@[k].0 as int] as int,
                dist_sq(p.attendees@[a].position, at),
            ),
{
    let bl = p.stage_bottom_left;
    let mut boxes: Vec<VariableBox> = Vec::new();
    let mut k: usize = 0;
    while k < p.musicians.len()
        invariant
            p.well_formed(),
            bl == p.stage_bottom_left,
            k <= p.musicians@.len(),
            boxes@.len() == k,
            forall|i: int| 0 <= i < k ==> #[trigger] boxes@[i] == box_of(*p, i),
        decreases p.musicians@.len() - k,
    {
        boxes.push(
            VariableBox {
                musician: MusicianId(k),
                x_min: bl.x + MARGIN,
                x_max: bl.x + p.stage_width - MARGIN,
                y_min: bl.y + MARGIN,
                y_max: bl.y + p.stage_height - MARGIN,
            },
        );
        k += 1;
    }
    let mut terms: Vec<Vec<ObjectiveTerm>> = Vec::new();
    let mut a: usize = 0;
    while a < p.attendees.len()
        invariant
            p.well_formed(),
            a <= p.attendees@.len(),
            terms@.len() == a,
            forall|i: int| 0 <= i < a ==> (#[trigger] terms@[i])@.len() == p.musicians@.len(),
            forall|i: int, k: int|
                0 <= i < a && 0 <= k < p.musicians@.len() ==> #[trigger] terms@[i]@[k] == term_of(*p, i, k),
        decreases p.attendees@.len() - a,
    {
        let row = attendee_row(p, a);
        terms.push(row);
        a += 1;
    }
    ExactModel { boxes, terms }
}

/// The solver's assignment is complete and respects every box.
pub open spec fn assignment_fits(p: ProblemSpec, v: Seq<Position>) -> bool {
    &&& v.len() == p.musicians@.len()
    &&& forall|k: int| 0 <= k < v.len() ==> on_stage(p, #[trigger] v[k])
}

/// Reads back the exact solver's answer to the model of `exact_model`: an
/// optimal assignment that fills every box is the solution; anything else
/// is a `SolverFailure`, never a partial solution.
pub fn optimize(p: &ProblemSpec, outcome: SolverOutcome) -> (r: Result<Solution, PlacementError>)
    ensures
        !p.well_formed() ==> r == Err::<Solution, PlacementError>(PlacementError::MalformedProblem),
        p.well_formed() ==> (r is Ok <==> (outcome matches SolverOutcome::Optimal(v) && assignment_fits(*p, v@))),
        r matches Ok(s) ==> (outcome matches SolverOutcome::Optimal(v) && s.placements@ == v@),
        p.well_formed() && r is Err ==> r == Err::<Solution, PlacementError>(PlacementError::SolverFailure),
{
    if let Err(e) = p.validate() {
        return Err(e);
    }
    match outcome {
        SolverOutcome::Optimal(v) => {
            if v.len() == p.musicians.len() && all_on_stage(p, &v) {
                Ok(Solution { placements: v })
            } else {
                Err(PlacementError::SolverFailure)
            }
        },
        _ => Err(PlacementError::SolverFailure),
    }
}

fn all_on_stage(p: &ProblemSpec, v: &Vec<Position>) -> (r: bool)
    requires
        p.well_formed(),
    ensures
        r == forall|k: int| 0 <= k < v@.len() ==> on_stage(*p, #[trigger] v@[k]),
{
    let mut k: usize = 0;
    while k < v.len()
        invariant
            p.well_formed(),
            k <= v@.len(),
            forall|i: int| 0 <= i < k ==> on_stage(*p, #[trigger] v@[i]),
        decreases v@.len() - k,
    {
        if !on_stage_exec(p, v[k]) {
            return false;
        }
        k += 1;
    }
    true
}

} // verus!
