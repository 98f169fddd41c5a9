use ant_mania::parse_world_from_str;
use ant_mania::Direction;

#[test]
fn test_parse_basic_map() {
    let src = "A north=B\nB south=A\n";
    let (names, nodes) = parse_world_from_str(src).unwrap();

    assert_eq!(names.len(), 2);
    assert!(names.contains(&"A".to_string()));
    assert!(names.contains(&"B".to_string()));

    assert_eq!(nodes.len(), 2);
}

#[test]
fn test_parse_empty_lines() {
    let src = "A north=B\n\nB south=A\n";
    let (names, _) = parse_world_from_str(src).unwrap();

    assert_eq!(names.len(), 2);
}

#[test]
fn test_parse_multiple_directions() {
    let src = "A north=B east=C west=D\n";
    let (names, nodes) = parse_world_from_str(src).unwrap();

    assert_eq!(names.len(), 4);

    let a_idx = names.iter().position(|n| n == "A").unwrap();
    let b_idx = names.iter().position(|n| n == "B").unwrap();
    let c_idx = names.iter().position(|n| n == "C").unwrap();
    let d_idx = names.iter().position(|n| n == "D").unwrap();

    assert_eq!(nodes[a_idx].get_neighbor(Direction::North.index()), Some(b_idx as u32));
    assert_eq!(nodes[a_idx].get_neighbor(Direction::East.index()), Some(c_idx as u32));
    assert_eq!(nodes[a_idx].get_neighbor(Direction::West.index()), Some(d_idx as u32));
}

#[test]
fn test_parse_bad_direction_is_error() {
    let err = parse_world_from_str("A up=B\n").unwrap_err();
    match err {
        ant_mania::ParseError::InvalidDirection(tok) => assert_eq!(tok, "up"),
        other => panic!("unexpected error: {:?}", other),
    }
}

#[test]
fn test_parse_duplicate_source_lines_share_one_colony() {
    let (names, nodes) = parse_world_from_str("A north=B\nA south=C\n").unwrap();
    assert_eq!(names.len(), 3);
    let a_idx = names.iter().position(|n| n == "A").unwrap();
    let b_idx = names.iter().position(|n| n == "B").unwrap();
    let c_idx = names.iter().position(|n| n == "C").unwrap();
    assert_eq!(nodes[a_idx].get_neighbor(Direction::North.index()), Some(b_idx as u32));
    assert_eq!(nodes[a_idx].get_neighbor(Direction::South.index()), Some(c_idx as u32));
}

#[test]
fn test_parse_empty_input() {
    let (names, nodes) = parse_world_from_str("").unwrap();
    assert!(names.is_empty());
    assert!(nodes.is_empty());
}
