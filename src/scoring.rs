use vstd::prelude::*;
use vstd::seq_lib::to_multiset_remove;
use crate::models::{
    Attendee, Instrument, Position, ProblemSpec, MARGIN, OCCLUSION_RADIUS, SCORE_SCALE,
    SPACING_SQ_QUARTERS, MAX_MUSICIANS, MAX_ATTENDEES, coord_ok, attendee_ok,
};

verus! {

/// The cost of a placement that breaks the stage or spacing constraints: no
/// feasible placement costs as much.
pub const INFEASIBLE_COST: i128 = 170141183460469231731687303715884105727;

/// Bound on the magnitude of one attendee-performer contribution (2^83).
pub const IMPACT_BOUND: i128 = 9671406556917033397649408;

/// Bound on the magnitude of one attendee's score (2^103): `MAX_MUSICIANS`
/// contributions.
pub const ATTENDEE_BOUND: i128 = 10141204801825835211973625643008;

pub open spec fn dist_sq(a: Position, b: Position) -> int {
    (a.x - b.x) * (a.x - b.x) + (a.y - b.y) * (a.y - b.y)
}

/// The two points are at most 10.5 units apart.
pub open spec fn too_close(a: Position, b: Position) -> bool {
    4 * dist_sq(a, b) <= SPACING_SQ_QUARTERS
}

/// `pos` lies in the stage rectangle inset by the margin on every side.
pub open spec fn on_stage(p: ProblemSpec, pos: Position) -> bool {
    &&& p.stage_bottom_left.x + MARGIN <= pos.x
    &&& pos.x <= p.stage_bottom_left.x + p.stage_width - MARGIN
    &&& p.stage_bottom_left.y + MARGIN <= pos.y
    &&& pos.y <= p.stage_bottom_left.y + p.stage_height - MARGIN
}

/// One position per performer, each on the inset stage, no two too close.
pub open spec fn feasible(p: ProblemSpec, ms: Seq<Position>) -> bool {
    &&& ms.len() == p.musicians@.len()
    &&& forall|k: int| 0 <= k < ms.len() ==> on_stage(p, #[trigger] ms[k])
    &&& forall|j: int, k: int|
        0 <= j < ms.len() && 0 <= k < ms.len() && j != k ==> !too_close(#[trigger] ms[j], #[trigger] ms[k])
}

pub open spec fn min_of(a: int, b: int) -> int {
    if a <= b { a } else { b }
}

pub open spec fn max_of(a: int, b: int) -> int {
    if a <= b { b } else { a }
}

/// The bounding box of the segment `from`-`to` meets the bounding box of the
/// occlusion disc centred at `other`.
pub open spec fn sight_blocked(from: Position, to: Position, other: Position) -> bool {
    &&& min_of(from.x as int, to.x as int) <= other.x + OCCLUSION_RADIUS
    &&& other.x - OCCLUSION_RADIUS <= max_of(from.x as int, to.x as int)
    &&& min_of(from.y as int, to.y as int) <= other.y + OCCLUSION_RADIUS
    &&& other.y - OCCLUSION_RADIUS <= max_of(from.y as int, to.y as int)
}

/// Some performer other than `k` blocks the view from `from` to performer `k`.
pub open spec fn occluded(ms: Seq<Position>, k: int, from: Position) -> bool {
    exists|j: int| 0 <= j < ms.len() && j != k && sight_blocked(from, ms[k], #[trigger] ms[j])
}

/// Division rounded towards zero.
pub open spec fn trunc_div(a: int, d: int) -> int {
    if a >= 0 { a / d } else { -((-a) / d) }
}

/// Enjoyment of `taste` at squared distance `d2`: zero at distance zero.
pub open spec fn impact(taste: int, d2: int) -> int {
    if d2 == 0 { 0 } else { trunc_div(SCORE_SCALE * taste, d2) }
}

/// What attendee `a` gets from performer `k`, with occlusion.
pub open spec fn contribution(instruments: Seq<Instrument>, ms: Seq<Position>, k: int, a: Attendee) -> int {
    if occluded(ms, k, a.position) {
        0
    } else {
        impact(a.tastes@[instruments[k].0 as int] as int, dist_sq(a.position, ms[k]))
    }
}

/// What attendee `a` gets from the first `n` performers.
pub open spec fn attendee_score(instruments: Seq<Instrument>, ms: Seq<Position>, a: Attendee, n: int) -> int
    decreases n,
{
    if n <= 0 {
        0
    } else {
        attendee_score(instruments, ms, a, n - 1) + contribution(instruments, ms, n - 1, a)
    }
}

/// Sum of the attendees' scores.
pub open spec fn audience_score(instruments: Seq<Instrument>, ms: Seq<Position>, atts: Seq<Attendee>) -> int
    decreases atts.len(),
{
    if atts.len() == 0 {
        0
    } else {
        audience_score(instruments, ms, atts.drop_last())
            + attendee_score(instruments, ms, atts.last(), ms.len() as int)
    }
}

pub open spec fn placement_score(p: ProblemSpec, ms: Seq<Position>) -> int {
    audience_score(p.musicians@, ms, p.attendees@)
}

/// The cost the search minimises: the negated score, or the sentinel.
pub open spec fn placement_cost(p: ProblemSpec, ms: Seq<Position>) -> int {
    if feasible(p, ms) { -placement_score(p, ms) } else { INFEASIBLE_COST as int }
}

/// `pos` is on the inset stage and clear of every committed performer.
pub open spec fn solo_feasible(p: ProblemSpec, pos: Position, committed: Seq<Position>) -> bool {
    &&& on_stage(p, pos)
    &&& forall|j: int| 0 <= j < committed.len() ==> !too_close(pos, #[trigger] committed[j])
}

/// What the attendees get from one performer of instrument `inst` at `pos`,
/// without occlusion.
pub open spec fn solo_score(inst: Instrument, pos: Position, atts: Seq<Attendee>) -> int
    decreases atts.len(),
{
    if atts.len() == 0 {
        0
    } else {
        solo_score(inst, pos, atts.drop_last())
            + impact(atts.last().tastes@[inst.0 as int] as int, dist_sq(atts.last().position, pos))
    }
}

pub open spec fn solo_cost(p: ProblemSpec, inst: Instrument, pos: Position, committed: Seq<Position>) -> int {
    if solo_feasible(p, pos, committed) {
        -solo_score(inst, pos, p.attendees@)
    } else {
        INFEASIBLE_COST as int
    }
}

proof fn lemma_dist_sq_bounds(a: Position, b: Position)
    requires
        coord_ok(a.x as int),
        coord_ok(a.y as int),
        coord_ok(b.x as int),
        coord_ok(b.y as int),
    ensures
        0 <= (a.x - b.x) * (a.x - b.x) <= 0x4000_0000_0000_0000,
        0 <= (a.y - b.y) * (a.y - b.y) <= 0x4000_0000_0000_0000,
        0 <= dist_sq(a, b) <= 0x8000_0000_0000_0000,
{
    let dx = a.x - b.x;
    let dy = a.y - b.y;
    assert(0 <= dx * dx <= 0x4000_0000_0000_0000) by (nonlinear_arith)
        requires -0x8000_0000 <= dx <= 0x8000_0000;
    assert(0 <= dy * dy <= 0x4000_0000_0000_0000) by (nonlinear_arith)
        requires -0x8000_0000 <= dy <= 0x8000_0000;
}

proof fn lemma_dist_sq_nonneg(a: Position, b: Position)
    ensures
        0 <= dist_sq(a, b),
{
    let dx = a.x - b.x;
    let dy = a.y - b.y;
    assert(0 <= dx * dx + dy * dy) by (nonlinear_arith);
}

/// Distance does not depend on which end it is measured from.
pub proof fn lemma_dist_sq_symmetric(a: Position, b: Position)
    ensures
        dist_sq(a, b) == dist_sq(b, a),
        too_close(a, b) == too_close(b, a),
{
    let dx = a.x - b.x;
    let dy = a.y - b.y;
    assert(dx * dx == (-dx) * (-dx)) by (nonlinear_arith);
    assert(dy * dy == (-dy) * (-dy)) by (nonlinear_arith);
}

proof fn lemma_impact_bound(taste: int, d2: int)
    requires
        i64::MIN <= taste <= i64::MAX,
        0 <= d2,
    ensures
        -IMPACT_BOUND <= impact(taste, d2) <= IMPACT_BOUND,
{
    if d2 != 0 {
        let a = SCORE_SCALE * taste;
        assert(-9223372036854775808000000 <= a <= 9223372036854775807000000);
        if a >= 0 {
            assert(0 <= a / d2 <= a) by (nonlinear_arith)
                requires a >= 0, d2 >= 1;
        } else {
            let b = -a;
            assert(0 <= b / d2 <= b) by (nonlinear_arith)
                requires b >= 0, d2 >= 1;
        }
    }
}

proof fn lemma_contribution_bound(instruments: Seq<Instrument>, ms: Seq<Position>, k: int, a: Attendee)
    requires
        0 <= k < ms.len(),
        0 <= k < instruments.len(),
        attendee_ok(a, instruments),
    ensures
        -IMPACT_BOUND <= contribution(instruments, ms, k, a) <= IMPACT_BOUND,
{
    lemma_dist_sq_nonneg(a.position, ms[k]);
    assert(instruments[k].0 < a.tastes@.len());
    lemma_impact_bound(a.tastes@[instruments[k].0 as int] as int, dist_sq(a.position, ms[k]));
}

proof fn lemma_attendee_score_bound(instruments: Seq<Instrument>, ms: Seq<Position>, a: Attendee, n: int)
    requires
        0 <= n <= ms.len(),
        ms.len() == instruments.len(),
        attendee_ok(a, instruments),
    ensures
        -n * IMPACT_BOUND <= attendee_score(instruments, ms, a, n) <= n * IMPACT_BOUND,
    decreases n,
{
    if n > 0 {
        lemma_attendee_score_bound(instruments, ms, a, n - 1);
        lemma_contribution_bound(instruments, ms, n - 1, a);
    }
}

proof fn lemma_audience_score_bound(p: ProblemSpec, ms: Seq<Position>, atts: Seq<Attendee>)
    requires
        p.well_formed(),
        ms.len() == p.musicians@.len(),
        atts.len() <= MAX_ATTENDEES,
        forall|i: int| 0 <= i < atts.len() ==> attendee_ok(#[trigger] atts[i], p.musicians@),
    ensures
        -atts.len() * ATTENDEE_BOUND <= audience_score(p.musicians@, ms, atts)
            <= atts.len() * ATTENDEE_BOUND,
    decreases atts.len(),
{
    if atts.len() > 0 {
        let rest = atts.drop_last();
        assert forall|i: int| 0 <= i < rest.len() implies attendee_ok(#[trigger] rest[i], p.musicians@) by {
            assert(rest[i] == atts[i]);
        }
        lemma_audience_score_bound(p, ms, rest);
        assert(attendee_ok(atts[atts.len() - 1], p.musicians@));
        lemma_attendee_score_bound(p.musicians@, ms, atts.last(), ms.len() as int);
        let m = ms.len() as int;
        assert(m * IMPACT_BOUND <= ATTENDEE_BOUND) by (nonlinear_arith)
            requires m <= MAX_MUSICIANS;
    }
}

/// A placement's score is far from the sentinel, so a feasible placement
/// always costs less than an infeasible one.
pub proof fn lemma_score_in_range(p: ProblemSpec, ms: Seq<Position>)
    requires
        p.well_formed(),
        ms.len() == p.musicians@.len(),
    ensures
        -0x8000_0000_0000_0000_0000_0000_0000_0000 < placement_score(p, ms) < 0x8000_0000_0000_0000_0000_0000_0000_0000,
        placement_cost(p, ms) < INFEASIBLE_COST <==> feasible(p, ms),
{
    lemma_audience_score_bound(p, ms, p.attendees@);
    let n = p.attendees@.len() as int;
    assert(n * ATTENDEE_BOUND <= 0x800_0000_0000_0000_0000_0000_0000_0000) by (nonlinear_arith)
        requires 0 <= n <= MAX_ATTENDEES;
}

fn dist_sq_exec(a: Position, b: Position) -> (r: i128)
    requires
        coord_ok(a.x as int),
        coord_ok(a.y as int),
        coord_ok(b.x as int),
        coord_ok(b.y as int),
    ensures
        r == dist_sq(a, b),
        0 <= r <= 0x8000_0000_0000_0000,
{
    let dx: i128 = a.x as i128 - b.x as i128;
    let dy: i128 = a.y as i128 - b.y as i128;
    proof {
        lemma_dist_sq_bounds(a, b);
    }
    dx * dx + dy * dy
}

/// Whether `pos` lies on the stage inset by the margin.
pub fn on_stage_exec(p: &ProblemSpec, pos: Position) -> (r: bool)
    requires
        p.well_formed(),
    ensures
        r == on_stage(*p, pos),
{
    let bl = p.stage_bottom_left;
    bl.x + MARGIN <= pos.x && pos.x <= bl.x + p.stage_width - MARGIN && bl.y + MARGIN <= pos.y
        && pos.y <= bl.y + p.stage_height - MARGIN
}

/// Whether two performers at these points stand at most 10.5 units apart.
pub fn too_close_exec(a: Position, b: Position) -> (r: bool)
    requires
        coord_ok(a.x as int),
        coord_ok(a.y as int),
        coord_ok(b.x as int),
        coord_ok(b.y as int),
    ensures
        r == too_close(a, b),
{
    4 * dist_sq_exec(a, b) <= SPACING_SQ_QUARTERS
}

fn sight_blocked_exec(from: Position, to: Position, other: Position) -> (r: bool)
    ensures
        r == sight_blocked(from, to, other),
{
    let lo_x: i128 = if from.x <= to.x { from.x as i128 } else { to.x as i128 };
    let hi_x: i128 = if from.x <= to.x { to.x as i128 } else { from.x as i128 };
    let lo_y: i128 = if from.y <= to.y { from.y as i128 } else { to.y as i128 };
    let hi_y: i128 = if from.y <= to.y { to.y as i128 } else { from.y as i128 };
    let r: i128 = OCCLUSION_RADIUS as i128;
    lo_x <= other.x as i128 + r && other.x as i128 - r <= hi_x && lo_y <= other.y as i128 + r
        && other.y as i128 - r <= hi_y
}

fn occluded_exec(ms: &Vec<Position>, k: usize, from: Position) -> (r: bool)
    requires
        k < ms@.len(),
    ensures
        r == occluded(ms@, k as int, from),
{
    let target = ms[k];
    let mut j: usize = 0;
    while j < ms.len()
        invariant
            k < ms@.len(),
            target == ms@[k as int],
            j <= ms@.len(),
            forall|i: int| 0 <= i < j && i != k ==> !sight_blocked(from, target, #[trigger] ms@[i]),
        decreases ms@.len() - j,
    {
        if j != k && sight_blocked_exec(from, target, ms[j]) {
            assert(sight_blocked(from, ms@[k as int], ms@[j as int]));
            return true;
        }
        j += 1;
    }
    false
}

fn impact_exec(taste: i64, d2: i128) -> (r: i128)
    requires
        0 <= d2,
    ensures
        r == impact(taste as int, d2 as int),
        -IMPACT_BOUND <= r <= IMPACT_BOUND,
{
    proof {
        lemma_impact_bound(taste as int, d2 as int);
    }
    if d2 == 0 {
        return 0;
    }
    let num: i128 = SCORE_SCALE * taste as i128;
    if num >= 0 {
        num / d2
    } else {
        -((-num) / d2)
    }
}

fn attendee_total(instruments: &Vec<Instrument>, ms: &Vec<Position>, a: &Attendee) -> (r: i128)
    requires
        ms@.len() == instruments@.len() <= MAX_MUSICIANS,
        forall|k: int| 0 <= k < ms@.len() ==> stage_coord_ok_pos(#[trigger] ms@[k]),
        attendee_ok(*a, instruments@),
    ensures
        r == attendee_score(instruments@, ms@, *a, ms@.len() as int),
{
    let mut acc: i128 = 0;
    let mut k: usize = 0;
    while k < ms.len()
        invariant
            ms@.len() == instruments@.len() <= MAX_MUSICIANS,
            forall|k: int| 0 <= k < ms@.len() ==> stage_coord_ok_pos(#[trigger] ms@[k]),
            attendee_ok(*a, instruments@),
            k <= ms@.len(),
            acc == attendee_score(instruments@, ms@, *a, k as int),
            -k * IMPACT_BOUND <= acc <= k * IMPACT_BOUND,
        decreases ms@.len() - k,
    {
        proof {
            lemma_contribution_bound(instruments@, ms@, k as int, *a);
        }
        let c: i128 = if occluded_exec(ms, k, a.position) {
            0
        } else {
            assert(instruments@[k as int].0 < a.tastes@.len());
            let taste = a.tastes[instruments[k].0];
            let pos = ms[k];
            assert(stage_coord_ok_pos(pos));
            let d2 = dist_sq_exec(a.position, pos);
            proof {
                lemma_dist_sq_nonneg(a.position, pos);
            }
            impact_exec(taste, d2)
        };
        acc = acc + c;
        k += 1;
    }
    acc
}

pub open spec fn stage_coord_ok_pos(pos: Position) -> bool {
    coord_ok(pos.x as int) && coord_ok(pos.y as int)
}

/// Whether the placement is feasible: one position per performer, each on
/// the inset stage, no two within 10.5 units.
pub fn is_feasible(p: &ProblemSpec, ms: &Vec<Position>) -> (r: bool)
    requires
        p.well_formed(),
    ensures
        r == feasible(*p, ms@),
{
    if ms.len() != p.musicians.len() {
        return false;
    }
    let mut k: usize = 0;
    while k < ms.len()
        invariant
            p.well_formed(),
            k <= ms@.len(),
            forall|i: int| 0 <= i < k ==> on_stage(*p, #[trigger] ms@[i]),
        decreases ms@.len() - k,
    {
        if !on_stage_exec(p, ms[k]) {
            return false;
        }
        k += 1;
    }
    let mut j: usize = 0;
    while j < ms.len()
        invariant
            p.well_formed(),
            j <= ms@.len(),
            forall|i: int| 0 <= i < ms@.len() ==> on_stage(*p, #[trigger] ms@[i]),
            forall|a: int, b: int|
                0 <= a < j && 0 <= b < ms@.len() && a != b ==> !too_close(#[trigger] ms@[a], #[trigger] ms@[b]),
        decreases ms@.len() - j,
    {
        let mut i: usize = 0;
        while i < ms.len()
            invariant
                p.well_formed(),
                j < ms@.len(),
                i <= ms@.len(),
                forall|i: int| 0 <= i < ms@.len() ==> on_stage(*p, #[trigger] ms@[i]),
                forall|a: int, b: int|
                    0 <= a < j && 0 <= b < ms@.len() && a != b ==> !too_close(#[trigger] ms@[a], #[trigger] ms@[b]),
                forall|b: int| 0 <= b < i && j != b ==> !too_close(ms@[j as int], #[trigger] ms@[b]),
            decreases ms@.len() - i,
        {
            if i != j {
                assert(on_stage(*p, ms@[i as int]) && on_stage(*p, ms@[j as int]));
                if too_close_exec(ms[j], ms[i]) {
                    return false;
                }
            }
            i += 1;
        }
        j += 1;
    }
    true
}

/// Scores a placement with occlusion: `None` when it is infeasible.
pub fn evaluate(p: &ProblemSpec, ms: &Vec<Position>) -> (r: Option<i128>)
    requires
        p.well_formed(),
    ensures
        r is Some <==> feasible(*p, ms@),
        r matches Some(s) ==> s == placement_score(*p, ms@),
{
    if !is_feasible(p, ms) {
        return None;
    }
    proof {
        lemma_audience_score_bound(*p, ms@, p.attendees@);
    }
    let ghost instruments = p.musicians@;
    let mut acc: i128 = 0;
    let mut a: usize = 0;
    while a < p.attendees.len()
        invariant
            p.well_formed(),
            feasible(*p, ms@),
            instruments == p.musicians@,
            a <= p.attendees@.len(),
            acc == audience_score(instruments, ms@, p.attendees@.subrange(0, a as int)),
            -a * ATTENDEE_BOUND <= acc <= a * ATTENDEE_BOUND,
        decreases p.attendees@.len() - a,
    {
        let ghost prefix = p.attendees@.subrange(0, a as int + 1);
        assert(prefix.drop_last() =~= p.attendees@.subrange(0, a as int));
        assert(attendee_ok(p.attendees@[a as int], instruments));
        assert forall|k: int| 0 <= k < ms@.len() implies stage_coord_ok_pos(#[trigger] ms@[k]) by {
            assert(on_stage(*p, ms@[k]));
        }
        let t = attendee_total(&p.musicians, ms, &p.attendees[a]);
        proof {
            lemma_attendee_score_bound(instruments, ms@, p.attendees@[a as int], ms@.len() as int);
            let m = ms@.len() as int;
            assert(m * IMPACT_BOUND <= ATTENDEE_BOUND) by (nonlinear_arith)
                requires m <= MAX_MUSICIANS;
        }
        acc = acc + t;
        a += 1;
    }
    assert(p.attendees@.subrange(0, p.attendees@.len() as int) =~= p.attendees@);
    Some(acc)
}

/// The cost the search minimises: the negated score of a feasible placement,
/// `INFEASIBLE_COST` otherwise.
pub fn placement_cost_exec(p: &ProblemSpec, ms: &Vec<Position>) -> (r: i128)
    requires
        p.well_formed(),
    ensures
        r == placement_cost(*p, ms@),
{
    match evaluate(p, ms) {
        Some(s) => {
            proof {
                lemma_score_in_range(*p, ms@);
            }
            -s
        },
        None => INFEASIBLE_COST,
    }
}

/// The contribution that attendee `a` gets from performer `k`, occlusion included.
pub fn attendee_contribution(p: &ProblemSpec, ms: &Vec<Position>, k: usize, a: usize) -> (r: i128)
    requires
        p.well_formed(),
        ms@.len() == p.musicians@.len(),
        forall|i: int| 0 <= i < ms@.len() ==> stage_coord_ok_pos(#[trigger] ms@[i]),
        k < ms@.len(),
        a < p.attendees@.len(),
    ensures
        r == contribution(p.musicians@, ms@, k as int, p.attendees@[a as int]),
{
    let att = &p.attendees[a];
    assert(attendee_ok(p.attendees@[a as int], p.musicians@));
    if occluded_exec(ms, k, att.position) {
        0
    } else {
        assert(p.musicians@[k as int].0 < att.tastes@.len());
        let pos = ms[k];
        assert(stage_coord_ok_pos(pos));
        let d2 = dist_sq_exec(att.position, pos);
        impact_exec(att.tastes[p.musicians[k].0], d2)
    }
}

/// Every attendee has a taste for this instrument.
pub open spec fn instrument_known(p: ProblemSpec, inst: Instrument) -> bool {
    forall|a: int| 0 <= a < p.attendees@.len() ==> inst.0 < (#[trigger] p.attendees@[a]).tastes@.len()
}

/// Every performer's instrument is known to every attendee of a well-formed problem.
pub proof fn lemma_musician_instrument_known(p: ProblemSpec, k: int)
    requires
        p.well_formed(),
        0 <= k < p.musicians@.len(),
    ensures
        instrument_known(p, p.musicians@[k]),
{
    assert forall|a: int| 0 <= a < p.attendees@.len() implies p.musicians@[k].0 < (#[trigger] p.attendees@[a]).tastes@.len() by {
        assert(attendee_ok(p.attendees@[a], p.musicians@));
    }
}

proof fn lemma_solo_score_bound(p: ProblemSpec, inst: Instrument, pos: Position, atts: Seq<Attendee>)
    requires
        atts.len() <= MAX_ATTENDEES,
        forall|a: int| 0 <= a < atts.len() ==> inst.0 < (#[trigger] atts[a]).tastes@.len(),
    ensures
        -atts.len() * IMPACT_BOUND <= solo_score(inst, pos, atts) <= atts.len() * IMPACT_BOUND,
    decreases atts.len(),
{
    if atts.len() > 0 {
        let rest = atts.drop_last();
        assert forall|a: int| 0 <= a < rest.len() implies inst.0 < (#[trigger] rest[a]).tastes@.len() by {
            assert(rest[a] == atts[a]);
        }
        lemma_solo_score_bound(p, inst, pos, rest);
        let last = atts.last();
        assert(inst.0 < atts[atts.len() - 1].tastes@.len());
        lemma_dist_sq_nonneg(last.position, pos);
        lemma_impact_bound(last.tastes@[inst.0 as int] as int, dist_sq(last.position, pos));
    }
}

/// A single performer's cost is the sentinel exactly when it is infeasible.
pub proof fn lemma_solo_cost_in_range(p: ProblemSpec, inst: Instrument, pos: Position, committed: Seq<Position>)
    requires
        p.well_formed(),
        instrument_known(p, inst),
    ensures
        solo_cost(p, inst, pos, committed) < INFEASIBLE_COST <==> solo_feasible(p, pos, committed),
{
    lemma_solo_score_bound(p, inst, pos, p.attendees@);
    let n = p.attendees@.len() as int;
    assert(n * IMPACT_BOUND <= ATTENDEE_BOUND) by (nonlinear_arith)
        requires 0 <= n <= MAX_ATTENDEES;
}

/// Whether one performer at `pos` is on the inset stage and clear of every committed one.
pub fn solo_feasible_exec(p: &ProblemSpec, pos: Position, committed: &Vec<Position>) -> (r: bool)
    requires
        p.well_formed(),
        forall|j: int| 0 <= j < committed@.len() ==> on_stage(*p, #[trigger] committed@[j]),
    ensures
        r == solo_feasible(*p, pos, committed@),
{
    if !on_stage_exec(p, pos) {
        return false;
    }
    let mut j: usize = 0;
    while j < committed.len()
        invariant
            p.well_formed(),
            on_stage(*p, pos),
            forall|j: int| 0 <= j < committed@.len() ==> on_stage(*p, #[trigger] committed@[j]),
            j <= committed@.len(),
            forall|i: int| 0 <= i < j ==> !too_close(pos, #[trigger] committed@[i]),
        decreases committed@.len() - j,
    {
        assert(on_stage(*p, committed@[j as int]));
        if too_close_exec(pos, committed[j]) {
            return false;
        }
        j += 1;
    }
    true
}

fn solo_total(p: &ProblemSpec, inst: Instrument, pos: Position) -> (r: i128)
    requires
        p.well_formed(),
        instrument_known(*p, inst),
        on_stage(*p, pos),
    ensures
        r == solo_score(inst, pos, p.attendees@),
{
    proof {
        lemma_solo_score_bound(*p, inst, pos, p.attendees@);
    }
    let mut acc: i128 = 0;
    let mut a: usize = 0;
    while a < p.attendees.len()
        invariant
            p.well_formed(),
            instrument_known(*p, inst),
            on_stage(*p, pos),
            a <= p.attendees@.len(),
            acc == solo_score(inst, pos, p.attendees@.subrange(0, a as int)),
            -a * IMPACT_BOUND <= acc <= a * IMPACT_BOUND,
        decreases p.attendees@.len() - a,
    {
        let ghost prefix = p.attendees@.subrange(0, a as int + 1);
        assert(prefix.drop_last() =~= p.attendees@.subrange(0, a as int));
        let att = &p.attendees[a];
        assert(attendee_ok(p.attendees@[a as int], p.musicians@));
        assert(inst.0 < p.attendees@[a as int].tastes@.len());
        let d2 = dist_sq_exec(att.position, pos);
        let c = impact_exec(att.tastes[inst.0], d2);
        acc = acc + c;
        a += 1;
    }
    assert(p.attendees@.subrange(0, p.attendees@.len() as int) =~= p.attendees@);
    acc
}

/// The cost of one performer of instrument `inst` at `pos` beside the
/// `committed` ones: its negated score without occlusion, or the sentinel.
pub fn solo_cost_exec(p: &ProblemSpec, inst: Instrument, pos: Position, committed: &Vec<Position>) -> (r: i128)
    requires
        p.well_formed(),
        instrument_known(*p, inst),
        forall|j: int| 0 <= j < committed@.len() ==> on_stage(*p, #[trigger] committed@[j]),
    ensures
        r == solo_cost(*p, inst, pos, committed@),
{
    if !solo_feasible_exec(p, pos, committed) {
        return INFEASIBLE_COST;
    }
    proof {
        lemma_solo_cost_in_range(*p, inst, pos, committed@);
    }
    let s = solo_total(p, inst, pos);
    -s
}

proof fn lemma_audience_remove(instruments: Seq<Instrument>, ms: Seq<Position>, atts: Seq<Attendee>, j: int)
    requires
        0 <= j < atts.len(),
    ensures
        audience_score(instruments, ms, atts) == audience_score(instruments, ms, atts.remove(j))
            + attendee_score(instruments, ms, atts[j], ms.len() as int),
    decreases atts.len(),
{
    if j == atts.len() - 1 {
        assert(atts.remove(j) =~= atts.drop_last());
    } else {
        let rest = atts.drop_last();
        lemma_audience_remove(instruments, ms, rest, j);
        assert(rest.remove(j) =~= atts.remove(j).drop_last());
        assert(atts.remove(j).last() == atts.last());
        assert(rest[j] == atts[j]);
    }
}

/// The score is a sum over the audience: two audiences that hold the same
/// attendees, in any order, give every placement the same score.
pub proof fn lemma_audience_order_irrelevant(
    instruments: Seq<Instrument>,
    ms: Seq<Position>,
    atts: Seq<Attendee>,
    reordered: Seq<Attendee>,
)
    requires
        atts.to_multiset() == reordered.to_multiset(),
    ensures
        audience_score(instruments, ms, atts) == audience_score(instruments, ms, reordered),
    decreases atts.len(),
{
    broadcast use vstd::seq_lib::group_to_multiset_ensures;

    if atts.len() == 0 {
        vstd::seq_lib::to_multiset_len(reordered);
        vstd::seq_lib::to_multiset_len(atts);
        assert(reordered.len() == 0);
    } else {
        let x = atts.last();
        assert(atts.to_multiset().count(x) > 0) by {
            assert(atts.contains(x)) by {
                assert(atts[atts.len() - 1] == x);
            }
        }
        assert(reordered.contains(x));
        let j = choose|j: int| 0 <= j < reordered.len() && reordered[j] == x;
        to_multiset_remove(atts, atts.len() - 1);
        to_multiset_remove(reordered, j);
        assert(atts.remove(atts.len() - 1) =~= atts.drop_last());
        lemma_audience_order_irrelevant(instruments, ms, atts.drop_last(), reordered.remove(j));
        lemma_audience_remove(instruments, ms, reordered, j);
    }
}

/// Reordering the attendees of a problem changes neither the score nor the
/// cost of any placement.
pub proof fn lemma_score_ignores_attendee_order(p: ProblemSpec, q: ProblemSpec, ms: Seq<Position>)
    requires
        p.room_width == q.room_width,
        p.room_height == q.room_height,
        p.stage_width == q.stage_width,
        p.stage_height == q.stage_height,
        p.stage_bottom_left == q.stage_bottom_left,
        p.musicians@ == q.musicians@,
        p.attendees@.to_multiset() == q.attendees@.to_multiset(),
    ensures
        placement_score(p, ms) == placement_score(q, ms),
        placement_cost(p, ms) == placement_cost(q, ms),
{
    lemma_audience_order_irrelevant(p.musicians@, ms, p.attendees@, q.attendees@);
}

/// Two performers at most 10.5 units apart make the whole placement infeasible.
pub proof fn lemma_close_pair_infeasible(p: ProblemSpec, ms: Seq<Position>, j: int, k: int)
    requires
        0 <= j < ms.len(),
        0 <= k < ms.len(),
        j != k,
        4 * dist_sq(ms[j], ms[k]) <= SPACING_SQ_QUARTERS,
    ensures
        !feasible(p, ms),
        placement_cost(p, ms) == INFEASIBLE_COST,
{
}

/// A placement whose performers are all on the inset stage and pairwise more
/// than 10.5 units apart is feasible: its cost is its negated score.
pub proof fn lemma_spaced_placement_passes(p: ProblemSpec, ms: Seq<Position>)
    requires
        p.well_formed(),
        ms.len() == p.musicians@.len(),
        forall|k: int| 0 <= k < ms.len() ==> on_stage(p, #[trigger] ms[k]),
        forall|j: int, k: int|
            0 <= j < ms.len() && 0 <= k < ms.len() && j != k
                ==> 4 * dist_sq(#[trigger] ms[j], #[trigger] ms[k]) > SPACING_SQ_QUARTERS,
    ensures
        feasible(p, ms),
        placement_cost(p, ms) == -placement_score(p, ms),
        placement_cost(p, ms) < INFEASIBLE_COST,
{
    lemma_score_in_range(p, ms);
}

/// The corner of the inset stage is a feasible spot; one unit beyond any
/// side of the inset stage is not.
pub proof fn lemma_stage_margin_edges(p: ProblemSpec, pos: Position)
    requires
        p.well_formed(),
        p.stage_width >= 2 * MARGIN,
        p.stage_height >= 2 * MARGIN,
    ensures
        on_stage(p, Position { x: (p.stage_bottom_left.x + MARGIN) as i64, y: (p.stage_bottom_left.y + MARGIN) as i64 }),
        pos.x == p.stage_bottom_left.x + MARGIN - 1 ==> !on_stage(p, pos),
        pos.x == p.stage_bottom_left.x + p.stage_width - MARGIN + 1 ==> !on_stage(p, pos),
        pos.y == p.stage_bottom_left.y + MARGIN - 1 ==> !on_stage(p, pos),
        pos.y == p.stage_bottom_left.y + p.stage_height - MARGIN + 1 ==> !on_stage(p, pos),
        !on_stage(p, pos) ==> forall|ms: Seq<Position>, k: int|
            #![trigger placement_cost(p, ms), ms[k]]
            0 <= k < ms.len() && ms[k] == pos ==> placement_cost(p, ms) == INFEASIBLE_COST,
{
}

} // verus!
