use rover_sim::rover::{Command, Grid, Orientation, Rover, RoverStatus};
use rover_sim::vector::Vector;

#[test]
fn rover_follows_commands_operational() {
    let grid = Grid { m: 4, n: 8 };
    let mut rover = Rover::new(Vector::new(2, 3), Orientation::E);
    let commands = [
        Command::Left,
        Command::Forward,
        Command::Right,
        Command::Forward,
        Command::Forward,
    ];

    rover.follow_commands(&commands, &grid);

    assert_eq!(RoverStatus::Operational, rover.status);
    assert_eq!(Vector::new(4, 4), rover.position);
    assert_eq!(Orientation::E, Orientation::from_unit_vector(rover.orientation));
}

#[test]
fn rover_follows_commands_lost() {
    let grid = Grid { m: 4, n: 8 };
    let mut rover = Rover::new(Vector::new(0, 2), Orientation::N);
    let commands = [
        Command::Forward,
        Command::Forward,
        Command::Left,
        Command::Forward,
        Command::Right,
        Command::Forward,
        Command::Forward,
    ];

    rover.follow_commands(&commands, &grid);

    assert_eq!(RoverStatus::Lost, rover.status);
    assert_eq!(Vector::new(0, 4), rover.position);
    assert_eq!(Orientation::W, Orientation::from_unit_vector(rover.orientation));
}

#[test]
fn lost_is_sticky_under_appended_commands() {
    let grid = Grid { m: 4, n: 8 };
    let base = vec![
        Command::Forward,
        Command::Forward,
        Command::Left,
        Command::Forward,
        Command::Right,
        Command::Forward,
        Command::Forward,
    ];
    let mut extended = base.clone();
    extended.extend([Command::Right, Command::Forward, Command::Left, Command::Forward]);

    let mut first = Rover::new(Vector::new(0, 2), Orientation::N);
    first.follow_commands(&base, &grid);
    assert_eq!(RoverStatus::Lost, first.status);

    let mut second = Rover::new(Vector::new(0, 2), Orientation::N);
    second.follow_commands(&extended, &grid);

    assert_eq!(first, second);
}

#[test]
fn turns_do_not_move_the_rover() {
    let grid = Grid { m: 4, n: 8 };
    let mut rover = Rover::new(Vector::new(2, 3), Orientation::N);
    rover.follow_commands(&[Command::Left, Command::Left, Command::Right], &grid);
    assert_eq!(Vector::new(2, 3), rover.position);
    assert_eq!(RoverStatus::Operational, rover.status);
    assert_eq!(Orientation::W, Orientation::from_unit_vector(rover.orientation));
}

#[test]
fn forward_off_the_origin_corner_is_lost() {
    let grid = Grid { m: 4, n: 8 };
    let mut rover = Rover::new(Vector::new(0, 0), Orientation::S);
    rover.follow_commands(&[Command::Forward], &grid);
    assert_eq!(RoverStatus::Lost, rover.status);
    assert_eq!(Vector::new(0, 0), rover.position);
}

#[test]
fn orientation_round_trips_through_unit_vectors() {
    for o in [Orientation::N, Orientation::E, Orientation::S, Orientation::W] {
        assert_eq!(o, Orientation::from_unit_vector(o.to_unit_vector()));
    }
}
