use ant_mania::Ant;

#[test]
fn test_ant_creation() {
    let ant = Ant::new(42, 100);

    assert_eq!(ant.id, 42);
    assert_eq!(ant.pos, 100);
    assert_eq!(ant.moves, 0);
    assert!(ant.is_alive());
    assert!(!ant.is_trapped());
}

#[test]
fn test_ant_state_management() {
    let mut ant = Ant::new(1, 10);

    // Initial state
    assert!(ant.is_alive());
    assert!(!ant.is_trapped());

    // Set trapped
    ant.set_trapped(true);
    assert!(ant.is_trapped());
    assert!(ant.is_alive()); // Should still be alive

    // Set not alive
    ant.set_alive(false);
    assert!(!ant.is_alive());
    assert!(ant.is_trapped()); // Trapped state should be unchanged

    // Reset states
    ant.set_alive(true);
    ant.set_trapped(false);
    assert!(ant.is_alive());
    assert!(!ant.is_trapped());
}

#[test]
fn test_ant_movement() {
    let mut ant = Ant::new(1, 10);

    assert_eq!(ant.moves, 0);
    assert_eq!(ant.pos, 10);

    ant.move_to(20);
    assert_eq!(ant.pos, 20);
    assert_eq!(ant.moves, 1);

    ant.move_to(30);
    assert_eq!(ant.pos, 30);
    assert_eq!(ant.moves, 2);
}

#[test]
fn test_ant_max_moves() {
    let mut ant = Ant::new(1, 10);

    assert!(!ant.has_max_moves(10));

    // Move ant 5 times
    for _ in 0..5 {
        ant.move_to(ant.pos + 1);
    }

    assert!(!ant.has_max_moves(10));
    assert!(ant.has_max_moves(5));
    assert!(ant.has_max_moves(3));
}
