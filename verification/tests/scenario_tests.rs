use ant_mania::parse_world_from_str;
use ant_mania::Ant;
use ant_mania::CollisionDetector;
use ant_mania::DestructionEvent;
use ant_mania::SimulationEngine;
use ant_mania::World;

fn id_of(world: &World, name: &str) -> u32 {
    world
        .names
        .iter()
        .position(|n| n == name)
        .expect("name not found") as u32
}

fn world_of(src: &str) -> World {
    let (names, nodes) = parse_world_from_str(src).unwrap();
    World::new(names, nodes)
}

#[test]
fn single_colony_two_ants_zero_survivors() {
    // Two ants on the only colony: it falls at time zero.
    let mut w = world_of("X\n");
    let x = id_of(&w, "X");
    let mut ants = vec![Ant::new(0, x), Ant::new(1, x)];
    let mut events: Vec<DestructionEvent> = Vec::new();
    let mut rng = fastrand::Rng::with_seed(123);

    let mut engine = SimulationEngine::new(&w, ants.len());
    let ticks = engine.run_simulation(&mut w, &mut ants, 10_000, &mut rng, &mut events);

    assert_eq!(w.count_survivors(), 0);
    assert!(!ants[0].is_alive() && !ants[1].is_alive());
    assert_eq!(events.len(), 1);
    assert_eq!(events[0].colony, x);
    assert_eq!(ticks, 0);
}

#[test]
fn isolated_colony_traps_single_ant() {
    // One ant on a colony with no exits: trapped at once, one survivor.
    let mut w = world_of("Iso\n");
    let iso = id_of(&w, "Iso");

    let mut rng = fastrand::Rng::with_seed(7);
    let (next, trapped) = w.choose_next_position(iso, &mut rng);
    assert_eq!((next, trapped), (iso, true));

    let mut ants = vec![Ant::new(0, iso)];
    let mut events: Vec<DestructionEvent> = Vec::new();
    let mut engine = SimulationEngine::new(&w, ants.len());
    engine.run_simulation(&mut w, &mut ants, 10_000, &mut rng, &mut events);

    assert!(w.nodes[iso as usize].is_alive());
    assert_eq!(w.count_survivors(), 1);
    assert!(ants[0].is_alive());
    assert!(ants[0].is_trapped());
    assert!(events.is_empty());
}

#[test]
fn forced_move_then_trapped_at_dead_end() {
    // A east=B, B has no exits: an ant at A must move to B and become
    // trapped there on the following decision; both colonies survive.
    let mut w = world_of("A east=B\n");
    let a = id_of(&w, "A");
    let b = id_of(&w, "B");

    let mut rng = fastrand::Rng::with_seed(42);
    let (first, trapped_first) = w.choose_next_position(a, &mut rng);
    assert_eq!(first, b);
    assert!(!trapped_first);
    let (second, trapped_second) = w.choose_next_position(first, &mut rng);
    assert_eq!(second, b);
    assert!(trapped_second);

    let mut ants = vec![Ant::new(0, a)];
    let mut events: Vec<DestructionEvent> = Vec::new();
    let mut engine = SimulationEngine::new(&w, ants.len());
    engine.run_simulation(&mut w, &mut ants, 10_000, &mut rng, &mut events);

    assert!(w.nodes[a as usize].is_alive());
    assert!(w.nodes[b as usize].is_alive());
    assert_eq!(w.count_survivors(), 2);
    assert_eq!(ants[0].pos, b);
    assert!(ants[0].is_alive());
    assert!(events.is_empty());
}

#[test]
fn converging_paths_destroy_shared_colony() {
    // Both exits lead to C: the two ants must meet there on the first
    // tick; one destruction is recorded and the rest of the map survives.
    let mut w = world_of("A east=C\nB west=C\n");
    let a = id_of(&w, "A");
    let b = id_of(&w, "B");
    let c = id_of(&w, "C");

    let mut ants = vec![Ant::new(0, a), Ant::new(1, b)];
    let mut events: Vec<DestructionEvent> = Vec::new();
    let mut rng = fastrand::Rng::with_seed(9);
    let mut engine = SimulationEngine::new(&w, ants.len());
    let ticks = engine.run_simulation(&mut w, &mut ants, 10_000, &mut rng, &mut events);

    assert_eq!(ticks, 1);
    assert_eq!(events.len(), 1);
    assert_eq!(events[0].colony, c);
    let responsible = [events[0].first, events[0].second];
    assert!(responsible.contains(&0) && responsible.contains(&1));
    assert!(!w.nodes[c as usize].is_alive());
    assert!(w.nodes[a as usize].is_alive());
    assert!(w.nodes[b as usize].is_alive());
    assert_eq!(w.count_survivors(), 2);
    assert!(!ants[0].is_alive() && !ants[1].is_alive());
}

#[test]
fn stationary_stock_collides_through_detector() {
    // A trapped ant already holds colony A; an arriving ant collides with
    // it through the arrival pass, and both leave the colony destroyed.
    let mut w = world_of("A\nB\n");
    let a = id_of(&w, "A");

    let ants = vec![Ant::new(100, a), Ant::new(7, a)];
    let mut detector = CollisionDetector::new(w.nodes.len());
    detector.add_stationary_ant(a as usize, 100);

    let active = vec![1usize];
    let next_positions = vec![a, a];
    let mut events: Vec<DestructionEvent> = Vec::new();
    detector.process_collisions(&mut w, &ants, &active, &next_positions, &mut events);

    assert!(!w.nodes[a as usize].is_alive());
    assert_eq!(events.len(), 1);
    assert_eq!(events[0].colony, a);
    assert_eq!(events[0].first, 100);
    assert_eq!(events[0].second, 7);
}

#[test]
fn move_limit_stops_agents() {
    // Two ants circling a two-colony loop in step never meet; they stop
    // after exactly the configured number of moves.
    let mut w = world_of("A east=B\nB west=A\n");
    let a = id_of(&w, "A");
    let b = id_of(&w, "B");

    let mut ants = vec![Ant::new(0, a), Ant::new(1, b)];
    let mut events: Vec<DestructionEvent> = Vec::new();
    let mut rng = fastrand::Rng::with_seed(3);
    let mut engine = SimulationEngine::new(&w, ants.len());
    let ticks = engine.run_simulation(&mut w, &mut ants, 5, &mut rng, &mut events);

    assert_eq!(ticks, 5);
    assert_eq!(ants[0].moves, 5);
    assert_eq!(ants[1].moves, 5);
    assert!(ants[0].is_alive() && ants[1].is_alive());
    assert!(!ants[0].is_trapped() && !ants[1].is_trapped());
    assert_eq!(w.count_survivors(), 2);
    assert!(events.is_empty());
}

#[test]
fn format_world_lists_live_exits_only() {
    let mut w = world_of("A east=B north=C\nB west=A\nC\n");
    let c = id_of(&w, "C");
    w.nodes[c as usize].destroy();
    let out = w.format_world();
    assert_eq!(out, "A east=B\nB west=A\n");
}

#[test]
fn zero_ants_leave_world_untouched() {
    let mut w = world_of("A east=B\nB west=A\n");
    let mut ants: Vec<Ant> = Vec::new();
    let mut events: Vec<DestructionEvent> = Vec::new();
    let mut rng = fastrand::Rng::with_seed(1);
    let mut engine = SimulationEngine::new(&w, 0);
    let ticks = engine.run_simulation(&mut w, &mut ants, 10_000, &mut rng, &mut events);
    assert_eq!(ticks, 0);
    assert_eq!(w.count_survivors(), 2);
    assert!(events.is_empty());
}

#[test]
fn stationary_agent_dies_when_colony_falls() {
    // An agent trapped at C holds it as stationary stock; a second agent
    // arrives one tick later, C falls, and both agents die with it.
    let mut w = world_of("A east=B\nB east=C\nC\n");
    let a = id_of(&w, "A");
    let c = id_of(&w, "C");

    let mut ants = vec![Ant::new(0, c), Ant::new(1, a)];
    let mut events: Vec<DestructionEvent> = Vec::new();
    let mut rng = fastrand::Rng::with_seed(11);
    let mut engine = SimulationEngine::new(&w, ants.len());
    let ticks = engine.run_simulation(&mut w, &mut ants, 10_000, &mut rng, &mut events);

    assert_eq!(ticks, 2);
    assert!(!w.nodes[c as usize].is_alive());
    assert_eq!(w.count_survivors(), 2);
    assert_eq!(events.len(), 1);
    assert_eq!(events[0].colony, c);
    assert!(!ants[0].is_alive() && !ants[0].is_trapped());
    assert!(!ants[1].is_alive());
}
