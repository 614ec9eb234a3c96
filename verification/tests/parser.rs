use rover_sim::rover::{Command, Grid, Orientation, Rover};
use rover_sim::vector::Vector;

#[test]
fn parse_grid() {
    let input = "4 8";
    let expected = Grid { m: 4, n: 8 };

    assert_eq!(expected, rover_sim::parser::parse_grid(input).unwrap());
}

#[test]
fn parse_rover() {
    let input = "(2, 3, E)";
    let expected = Rover::new(Vector::new(2, 3), Orientation::E);

    assert_eq!(expected, rover_sim::parser::parse_rover(input).unwrap());
}

#[test]
fn parse_commands() {
    let input = "LFRFF";
    let expected = vec![
        Command::Left,
        Command::Forward,
        Command::Right,
        Command::Forward,
        Command::Forward,
    ];

    assert_eq!(expected, rover_sim::parser::parse_commands(input).unwrap());
}

#[test]
fn parse_input() {
    let input = "\
            4 8
            (2, 3, E) LFRFF
            (0, 2, N) FFLFRFF";

    let expected = (
        Grid { m: 4, n: 8 },
        vec![
            (
                Rover::new(Vector::new(2, 3), Orientation::E),
                vec![
                    Command::Left,
                    Command::Forward,
                    Command::Right,
                    Command::Forward,
                    Command::Forward,
                ],
            ),
            (
                Rover::new(Vector::new(0, 2), Orientation::N),
                vec![
                    Command::Forward,
                    Command::Forward,
                    Command::Left,
                    Command::Forward,
                    Command::Right,
                    Command::Forward,
                    Command::Forward,
                ],
            ),
        ],
    );

    assert_eq!(expected, rover_sim::parser::parse_input(input).unwrap());
}

#[test]
fn parse_input_twice_yields_equal_programs() {
    let input = "4 8\n(2, 3, E) LFRFF\n(0, 2, N) FFLFRFF";
    let first = rover_sim::parser::parse_input(input).unwrap();
    let second = rover_sim::parser::parse_input(input).unwrap();
    assert_eq!(first, second);
}

#[test]
fn grid_only_input_is_valid() {
    let (grid, entries) = rover_sim::parser::parse_input("4 8\n").unwrap();
    assert_eq!(Grid { m: 4, n: 8 }, grid);
    assert!(entries.is_empty());

    let (grid, entries) = rover_sim::parser::parse_input("4 8").unwrap();
    assert_eq!(Grid { m: 4, n: 8 }, grid);
    assert!(entries.is_empty());
}

#[test]
fn blank_lines_between_entries_are_ignored() {
    let (grid, entries) = rover_sim::parser::parse_input("4 8\n\n(2, 3, E) LFRFF\n\n").unwrap();
    assert_eq!(Grid { m: 4, n: 8 }, grid);
    assert_eq!(1, entries.len());
    assert_eq!(Rover::new(Vector::new(2, 3), Orientation::E), entries[0].0);
}

#[test]
fn entry_with_no_commands_is_valid() {
    let (_, entries) = rover_sim::parser::parse_input("4 8\n(1, 1, S)").unwrap();
    assert_eq!(1, entries.len());
    assert_eq!(Rover::new(Vector::new(1, 1), Orientation::S), entries[0].0);
    assert!(entries[0].1.is_empty());
}

#[test]
fn signed_integers_parse() {
    assert_eq!(
        Grid { m: -2147483648, n: 2147483647 },
        rover_sim::parser::parse_grid("-2147483648 2147483647").unwrap()
    );
    assert_eq!(Grid { m: 4, n: 8 }, rover_sim::parser::parse_grid("+4 8").unwrap());
}
