use std::str::FromStr;

use ant_mania::Direction;

#[test]
fn test_direction_parsing() {
    assert_eq!(Direction::from_str("north").unwrap(), Direction::North);
    assert_eq!(Direction::from_str("south").unwrap(), Direction::South);
    assert_eq!(Direction::from_str("east").unwrap(), Direction::East);
    assert_eq!(Direction::from_str("west").unwrap(), Direction::West);

    assert!(Direction::from_str("invalid").is_err());
    assert!(Direction::from_str("North").is_err()); // Case sensitive
}

#[test]
fn test_direction_index() {
    assert_eq!(Direction::North.index(), 0);
    assert_eq!(Direction::South.index(), 1);
    assert_eq!(Direction::East.index(), 2);
    assert_eq!(Direction::West.index(), 3);
}

#[test]
fn test_direction_as_str() {
    assert_eq!(Direction::North.as_str(), "north");
    assert_eq!(Direction::South.as_str(), "south");
    assert_eq!(Direction::East.as_str(), "east");
    assert_eq!(Direction::West.as_str(), "west");
}

#[test]
fn test_all_directions() {
    assert_eq!(Direction::ALL.len(), 4);
    assert!(Direction::ALL.contains(&Direction::North));
    assert!(Direction::ALL.contains(&Direction::South));
    assert!(Direction::ALL.contains(&Direction::East));
    assert!(Direction::ALL.contains(&Direction::West));
}

#[test]
fn test_invalid_direction_error_keeps_token() {
    let err = ant_mania::direction::parse_direction("up").unwrap_err();
    match err {
        ant_mania::ParseError::InvalidDirection(tok) => assert_eq!(tok, "up"),
        other => panic!("unexpected error: {:?}", other),
    }
}
