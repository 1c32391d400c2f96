use vstd::prelude::*;

verus! {

/// Inset, on each side of the stage, that a performer must keep from its edge.
pub const MARGIN: i64 = 10;

/// Four times the square of the least distance (10.5) two performers must
/// keep: a pair is too close when `4 * distance² <= SPACING_SQ_QUARTERS`.
pub const SPACING_SQ_QUARTERS: i128 = 441;

/// Radius of the disc around a performer that blocks lines of sight.
pub const OCCLUSION_RADIUS: i64 = 5;

/// Factor applied to a taste before it is divided by the squared distance.
pub const SCORE_SCALE: i128 = 1_000_000;

/// Largest magnitude of a room dimension or an attendee coordinate.
pub const COORD_LIMIT: i64 = 1_073_741_824;

/// Most performers a problem may name.
pub const MAX_MUSICIANS: usize = 1_048_576;

/// Most attendees a problem may name.
pub const MAX_ATTENDEES: usize = 1_048_576;

/// A performer category: an index into every attendee's tastes.
#[derive(Clone, Copy, Debug, PartialEq, Eq, Structural)]
pub struct Instrument(pub usize);

/// A point in room coordinates.
#[derive(Clone, Copy, Debug, PartialEq, Eq, Structural)]
pub struct Position {
    pub x: i64,
    pub y: i64,
}

/// A member of the audience and how much they like each instrument.
#[derive(Clone, Debug)]
pub struct Attendee {
    pub position: Position,
    pub tastes: Vec<i64>,
}

/// The room, its stage, the performers' instruments and the audience.
#[derive(Clone, Debug)]
pub struct ProblemSpec {
    pub room_height: i64,
    pub room_width: i64,
    pub stage_height: i64,
    pub stage_width: i64,
    pub stage_bottom_left: Position,
    pub musicians: Vec<Instrument>,
    pub attendees: Vec<Attendee>,
}

/// The placement handed to the caller: index `k` is performer `k`.
#[derive(Clone, Debug)]
pub struct Solution {
    pub placements: Vec<Position>,
}

/// Why a run produced no placement.
#[derive(Clone, Copy, Debug, PartialEq, Eq, Structural)]
pub enum PlacementError {
    /// The problem breaks a structural invariant.
    MalformedProblem,
    /// The inset stage could not take the performers at their spacing.
    InfeasibleRegion,
    /// The exact-solver delegate gave no optimal model.
    SolverFailure,
}

pub open spec fn coord_ok(v: int) -> bool {
    -COORD_LIMIT <= v <= COORD_LIMIT
}

/// An attendee lies in coordinate range and has a taste for every instrument played.
pub open spec fn attendee_ok(a: Attendee, instruments: Seq<Instrument>) -> bool {
    &&& coord_ok(a.position.x as int)
    &&& coord_ok(a.position.y as int)
    &&& forall|k: int| 0 <= k < instruments.len() ==> (#[trigger] instruments[k]).0 < a.tastes@.len()
}

impl ProblemSpec {
    /// The structural invariant every optimizer relies on.
    pub open spec fn well_formed(&self) -> bool {
        &&& 0 < self.room_width <= COORD_LIMIT
        &&& 0 < self.room_height <= COORD_LIMIT
        &&& 0 <= self.stage_width
        &&& 0 <= self.stage_height
        &&& 0 <= self.stage_bottom_left.x
        &&& 0 <= self.stage_bottom_left.y
        &&& self.stage_bottom_left.x + self.stage_width <= self.room_width
        &&& self.stage_bottom_left.y + self.stage_height <= self.room_height
        &&& 0 < self.musicians@.len() <= MAX_MUSICIANS
        &&& self.attendees@.len() <= MAX_ATTENDEES
        &&& forall|a: int| 0 <= a < self.attendees@.len()
            ==> attendee_ok(#[trigger] self.attendees@[a], self.musicians@)
    }

    /// Checks the structural invariant once, before any optimization.
    pub fn validate(&self) -> (r: Result<(), PlacementError>)
        ensures
            r is Ok <==> self.well_formed(),
            r is Err ==> r == Err::<(), PlacementError>(PlacementError::MalformedProblem),
    {
        let bl = self.stage_bottom_left;
        if !(0 < self.room_width && self.room_width <= COORD_LIMIT && 0 < self.room_height
            && self.room_height <= COORD_LIMIT && 0 <= self.stage_width && 0 <= self.stage_height
            && 0 <= bl.x && 0 <= bl.y && self.stage_width <= self.room_width - bl.x
            && self.stage_height <= self.room_height - bl.y) {
            return Err(PlacementError::MalformedProblem);
        }
        if self.musicians.len() == 0 || self.musicians.len() > MAX_MUSICIANS
            || self.attendees.len() > MAX_ATTENDEES {
            return Err(PlacementError::MalformedProblem);
        }
        let mut a: usize = 0;
        while a < self.attendees.len()
            invariant
                a <= self.attendees@.len(),
                forall|i: int| 0 <= i < a ==> attendee_ok(#[trigger] self.attendees@[i], self.musicians@),
            decreases self.attendees@.len() - a,
        {
            if !attendee_fits(&self.attendees[a], &self.musicians) {
                return Err(PlacementError::MalformedProblem);
            }
            a += 1;
        }
        Ok(())
    }
}

fn attendee_fits(a: &Attendee, instruments: &Vec<Instrument>) -> (r: bool)
    ensures
        r == attendee_ok(*a, instruments@),
{
    let p = a.position;
    if !(-COORD_LIMIT <= p.x && p.x <= COORD_LIMIT && -COORD_LIMIT <= p.y && p.y <= COORD_LIMIT) {
        return false;
    }
    let mut k: usize = 0;
    while k < instruments.len()
        invariant
            k <= instruments@.len(),
            forall|j: int| 0 <= j < k ==> (#[trigger] instruments@[j]).0 < a.tastes@.len(),
        decreases instruments@.len() - k,
    {
        if instruments[k].0 >= a.tastes.len() {
            return false;
        }
        k += 1;
    }
    true
}

} // verus!
