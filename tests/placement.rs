use concert_placement::exact::{exact_model, ObjectiveTerm, SolverOutcome, VariableBox};
use concert_placement::optimizer::{AttendeeId, MusicianId};
use concert_placement::scoring::{attendee_contribution, evaluate, is_feasible, placement_cost_exec, solo_cost_exec, INFEASIBLE_COST};
use concert_placement::swarm::{advance_coordinate, decode_vector, step_particle_with, swarm_round, Objective, Particle, SwarmConfig};
use concert_placement::{
    independent_optimizer, optimize, particle_swarm_optimizer, Attendee, Instrument, PlacementError, Position,
    ProblemSpec, Solution,
};

fn pos(x: i64, y: i64) -> Position {
    Position { x, y }
}

fn attendee(x: i64, y: i64, tastes: Vec<i64>) -> Attendee {
    Attendee { position: pos(x, y), tastes }
}

fn problem(stage: (i64, i64, i64, i64), musicians: Vec<usize>, attendees: Vec<Attendee>) -> ProblemSpec {
    ProblemSpec {
        room_height: 5000,
        room_width: 2000,
        stage_height: stage.3,
        stage_width: stage.2,
        stage_bottom_left: pos(stage.0, stage.1),
        musicians: musicians.into_iter().map(Instrument).collect(),
        attendees,
    }
}

fn example_problem() -> ProblemSpec {
    problem(
        (500, 0, 1000, 200),
        vec![0, 1, 0],
        vec![
            attendee(100, 500, vec![1000, -1000]),
            attendee(200, 1000, vec![200, 200]),
            attendee(1100, 800, vec![800, 1500]),
        ],
    )
}

fn small_config() -> SwarmConfig {
    SwarmConfig { pop_size: 8, omega: 1000, phi_p: 100, phi_g: 200, learning_rate: 600, iteration: 20 }
}

#[test]
fn render_problem() {
    let p = example_problem();
    assert_eq!(p.validate(), Ok(()));
    assert_eq!(p.room_width, 2000);
    assert_eq!(p.room_height, 5000);
    assert_eq!(p.attendees.len(), 3);
}

#[test]
fn occlusion_blocks_the_far_performer() {
    // the attendee at (0, 100), performers at (100, 100) and (50, 100): the
    // whole scene sits 100 units up so that the stage lies inside the room
    let p = problem((0, 50, 200, 200), vec![0, 0], vec![attendee(0, 100, vec![3])]);
    let blocked = vec![pos(100, 100), pos(50, 100)];
    assert_eq!(attendee_contribution(&p, &blocked, 0, 0), 0);
    assert_eq!(attendee_contribution(&p, &blocked, 1, 0), 1_000_000 * 3 / 2500);
    assert_eq!(evaluate(&p, &blocked), Some(1200));
    let clear = vec![pos(100, 100), pos(50, 150)];
    assert_eq!(attendee_contribution(&p, &clear, 0, 0), 1_000_000 * 3 / 10_000);
    assert_eq!(attendee_contribution(&p, &clear, 1, 0), 1_000_000 * 3 / 5000);
    assert_eq!(evaluate(&p, &clear), Some(300 + 600));
}

#[test]
fn spacing_limit_at_ten_and_a_half() {
    let p = problem((0, 0, 1000, 200), vec![0, 0], vec![attendee(500, 500, vec![1])]);
    assert_eq!(evaluate(&p, &vec![pos(100, 100), pos(110, 100)]), None);
    assert_eq!(placement_cost_exec(&p, &vec![pos(100, 100), pos(110, 100)]), INFEASIBLE_COST);
    assert_eq!(evaluate(&p, &vec![pos(100, 100), pos(107, 107)]), None);
    assert!(evaluate(&p, &vec![pos(100, 100), pos(111, 100)]).is_some());
    assert!(evaluate(&p, &vec![pos(100, 100), pos(107, 108)]).is_some());
    assert!(placement_cost_exec(&p, &vec![pos(100, 100), pos(111, 100)]) < INFEASIBLE_COST);
}

#[test]
fn stage_margin_edges() {
    let p = problem((300, 40, 100, 60), vec![0], vec![attendee(0, 0, vec![1])]);
    assert!(is_feasible(&p, &vec![pos(310, 50)]));
    assert!(is_feasible(&p, &vec![pos(390, 90)]));
    assert!(!is_feasible(&p, &vec![pos(309, 50)]));
    assert!(!is_feasible(&p, &vec![pos(310, 49)]));
    assert!(!is_feasible(&p, &vec![pos(391, 50)]));
    assert!(!is_feasible(&p, &vec![pos(310, 91)]));
    assert!(!is_feasible(&p, &vec![]));
}

#[test]
fn score_rounds_towards_zero() {
    let p = problem((0, 0, 100, 100), vec![0], vec![attendee(13, 10, vec![-1]), attendee(10, 13, vec![7])]);
    // distance 3: 1e6 / 9 = 111111.1 and 7e6 / 9 = 777777.7
    assert_eq!(evaluate(&p, &vec![pos(10, 10)]), Some(-111_111 + 777_777));
    // an attendee on the performer contributes nothing
    let q = problem((0, 0, 100, 100), vec![0], vec![attendee(10, 10, vec![5])]);
    assert_eq!(evaluate(&q, &vec![pos(10, 10)]), Some(0));
}

#[test]
fn attendee_order_does_not_change_score() {
    let p = example_problem();
    let mut q = example_problem();
    q.attendees.reverse();
    let ms = vec![pos(600, 100), pos(800, 100), pos(1000, 100)];
    assert_eq!(evaluate(&p, &ms), evaluate(&q, &ms));
    assert!(evaluate(&p, &ms).is_some());
}

#[test]
fn solo_cost_ignores_occlusion_and_checks_committed() {
    let p = problem((0, 0, 1000, 200), vec![0, 0], vec![attendee(500, 300, vec![4])]);
    let committed = vec![pos(500, 150)];
    // 1e6 * 4 / 200^2 = 100, the committed performer in between does not block
    assert_eq!(solo_cost_exec(&p, Instrument(0), pos(500, 100), &committed), -100);
    assert_eq!(solo_cost_exec(&p, Instrument(0), pos(505, 155), &committed), INFEASIBLE_COST);
    assert_eq!(solo_cost_exec(&p, Instrument(0), pos(5, 100), &vec![]), INFEASIBLE_COST);
}

#[test]
fn end_to_end_joint_single_performer() {
    let p = problem((0, 0, 1000, 200), vec![0], vec![attendee(500, 50, vec![1])]);
    let s = particle_swarm_optimizer(&p, &small_config(), 7).unwrap();
    assert_eq!(s.placements.len(), 1);
    let m = s.placements[0];
    assert!(10 <= m.x && m.x <= 990 && 10 <= m.y && m.y <= 190);
    assert!(placement_cost_exec(&p, &s.placements) < INFEASIBLE_COST);
}

#[test]
fn joint_placement_is_feasible() {
    let p = example_problem();
    let s = particle_swarm_optimizer(&p, &small_config(), 11).unwrap();
    assert!(is_feasible(&p, &s.placements));
    assert!(evaluate(&p, &s.placements).is_some());
}

#[test]
fn independent_placement_is_feasible() {
    let p = example_problem();
    let s = independent_optimizer(&p, &small_config(), 3).unwrap();
    assert_eq!(s.placements.len(), 3);
    assert!(is_feasible(&p, &s.placements));
}

#[test]
fn independent_placement_is_deterministic() {
    let p = example_problem();
    let a = independent_optimizer(&p, &small_config(), 42).unwrap();
    let b = independent_optimizer(&p, &small_config(), 42).unwrap();
    assert_eq!(a.placements, b.placements);
}

#[test]
fn malformed_problems_are_rejected() {
    let empty = problem((0, 0, 1000, 200), vec![], vec![]);
    assert_eq!(particle_swarm_optimizer(&empty, &small_config(), 1).unwrap_err(), PlacementError::MalformedProblem);
    let outside = problem((1500, 0, 1000, 200), vec![0], vec![]);
    assert_eq!(independent_optimizer(&outside, &small_config(), 1).unwrap_err(), PlacementError::MalformedProblem);
    let no_taste = problem((0, 0, 1000, 200), vec![2], vec![attendee(0, 0, vec![1, 1])]);
    assert_eq!(no_taste.validate(), Err(PlacementError::MalformedProblem));
}

#[test]
fn crowded_stage_is_an_infeasible_region() {
    let tiny = problem((0, 0, 15, 300), vec![0], vec![]);
    assert_eq!(particle_swarm_optimizer(&tiny, &small_config(), 1).unwrap_err(), PlacementError::InfeasibleRegion);
    let one_spot = problem((0, 0, 20, 20), vec![0, 0], vec![]);
    assert_eq!(independent_optimizer(&one_spot, &small_config(), 1).unwrap_err(), PlacementError::InfeasibleRegion);
    assert_eq!(particle_swarm_optimizer(&one_spot, &small_config(), 1).unwrap_err(), PlacementError::InfeasibleRegion);
    let single = problem((0, 0, 20, 20), vec![0], vec![]);
    assert_eq!(independent_optimizer(&single, &small_config(), 1).unwrap().placements, vec![pos(10, 10)]);
}

#[test]
fn coordinate_update_formula() {
    let c = SwarmConfig { pop_size: 1, omega: 1000, phi_p: 100, phi_g: 200, learning_rate: 600, iteration: 1 };
    assert_eq!(advance_coordinate(&c, 0, 10, 100, 200, 500, 500), (21, 35));
    assert_eq!(advance_coordinate(&c, 0, -10, -100, -200, 500, 500), (-21, -35));
    assert_eq!(advance_coordinate(&c, 50, 0, 50, 50, 999, 999), (50, 0));
}

#[test]
fn decode_pairs_in_order() {
    assert_eq!(decode_vector(&vec![1, 2, 3, 4]), vec![pos(1, 2), pos(3, 4)]);
    assert_eq!(decode_vector(&vec![]), vec![]);
}

#[test]
fn exact_model_terms_and_boxes() {
    let p = example_problem();
    let m = exact_model(&p);
    assert_eq!(m.boxes.len(), 3);
    assert_eq!(m.boxes[1], VariableBox { musician: MusicianId(1), x_min: 510, x_max: 1490, y_min: 10, y_max: 190 });
    assert_eq!(m.terms.len(), 3);
    assert_eq!(
        m.terms[0][1],
        ObjectiveTerm { musician: MusicianId(1), attendee: AttendeeId(0), weight: -1_000_000_000, target: pos(100, 500) }
    );
    assert_eq!(m.terms[2][2].weight, 800_000_000);
}

#[test]
fn exact_read_back() {
    let p = example_problem();
    let good = vec![pos(510, 10), pos(700, 100), pos(1490, 190)];
    let s: Solution = optimize(&p, SolverOutcome::Optimal(good.clone())).unwrap();
    assert_eq!(s.placements, good);
    assert_eq!(optimize(&p, SolverOutcome::Unsatisfiable).unwrap_err(), PlacementError::SolverFailure);
    assert_eq!(optimize(&p, SolverOutcome::Unknown).unwrap_err(), PlacementError::SolverFailure);
    assert_eq!(optimize(&p, SolverOutcome::Failed).unwrap_err(), PlacementError::SolverFailure);
    let outside = vec![pos(505, 10), pos(700, 100), pos(1490, 190)];
    assert_eq!(optimize(&p, SolverOutcome::Optimal(outside)).unwrap_err(), PlacementError::SolverFailure);
    let short = vec![pos(510, 10)];
    assert_eq!(optimize(&p, SolverOutcome::Optimal(short)).unwrap_err(), PlacementError::SolverFailure);
}

#[test]
fn solution_json_round_trip() {
    let s = Solution { placements: vec![pos(510, 10), pos(-3, 7)] };
    let items: Vec<serde_json::Value> = s
        .placements
        .iter()
        .map(|p| {
            let mut o = serde_json::Map::new();
            o.insert("x".to_string(), serde_json::Value::from(p.x as f64));
            o.insert("y".to_string(), serde_json::Value::from(p.y as f64));
            serde_json::Value::Object(o)
        })
        .collect();
    let mut root = serde_json::Map::new();
    root.insert("placements".to_string(), serde_json::Value::Array(items));
    let text = serde_json::Value::Object(root).to_string();
    let back: serde_json::Value = serde_json::from_str(&text).unwrap();
    let read: Vec<Position> = back["placements"]
        .as_array()
        .unwrap()
        .iter()
        .map(|v| pos(v["x"].as_f64().unwrap().round() as i64, v["y"].as_f64().unwrap().round() as i64))
        .collect();
    assert_eq!(read, s.placements);
}

fn particle_at(p: &ProblemSpec, x: i64, y: i64, vx: i64) -> Particle {
    let best_cost = placement_cost_exec(p, &vec![pos(x, y)]);
    Particle { position: vec![x, y], velocity: vec![vx, 0], best_known_position: vec![x, y], best_cost }
}

#[test]
fn particle_step_with_given_draws() {
    let p = problem((0, 0, 1000, 200), vec![0], vec![attendee(112, 300, vec![1])]);
    let c = small_config();
    let part = particle_at(&p, 100, 100, 10);
    assert_eq!(part.best_cost, -24);
    let next = step_particle_with(&p, &Objective::Joint, &c, &part, &vec![200, 100], &vec![(500, 500), (0, 0)]);
    assert_eq!(next.velocity, vec![20, 0]);
    assert_eq!(next.position, vec![112, 100]);
    assert_eq!(next.best_known_position, vec![112, 100]);
    assert_eq!(next.best_cost, -25);
    // a step that costs more keeps the old personal best
    let back = step_particle_with(&p, &Objective::Joint, &c, &next, &vec![112, 100], &vec![(0, 0), (0, 0)]);
    assert_eq!(back.position, vec![124, 100]);
    assert_eq!(back.best_known_position, vec![112, 100]);
    assert_eq!(back.best_cost, -25);
}

#[test]
fn swarm_round_updates_in_order() {
    let p = problem((0, 0, 1000, 200), vec![0], vec![attendee(112, 300, vec![1])]);
    let c = small_config();
    let mut particles = vec![particle_at(&p, 100, 100, 10), particle_at(&p, 500, 100, 0)];
    assert_eq!(particles[1].best_cost, -5);
    let mut global_best = vec![100, 100];
    let mut global_cost: i128 = -24;
    let draws = vec![vec![(0, 0), (0, 0)], vec![(999, 999), (0, 0)]];
    swarm_round(&p, &Objective::Joint, &c, &mut particles, &mut global_best, &mut global_cost, &draws);
    assert_eq!(particles[0].position, vec![106, 100]);
    assert_eq!(particles[0].best_known_position, vec![100, 100]);
    assert_eq!(particles[1].velocity, vec![-79, 0]);
    assert_eq!(particles[1].position, vec![453, 100]);
    assert_eq!(particles[1].best_cost, -6);
    assert_eq!(global_best, vec![100, 100]);
    assert_eq!(global_cost, -24);
    // the same round from the same state with the same draws gives the same swarm
    let mut again = vec![particle_at(&p, 100, 100, 10), particle_at(&p, 500, 100, 0)];
    let mut gb2 = vec![100, 100];
    let mut gc2: i128 = -24;
    swarm_round(&p, &Objective::Joint, &c, &mut again, &mut gb2, &mut gc2, &draws);
    assert_eq!(again[1].position, particles[1].position);
    assert_eq!(gb2, global_best);
}

#[test]
fn single_performer_always_placed() {
    let p = problem((0, 0, 20, 20), vec![0], vec![attendee(500, 500, vec![2])]);
    assert_eq!(particle_swarm_optimizer(&p, &small_config(), 9).unwrap().placements, vec![pos(10, 10)]);
}
