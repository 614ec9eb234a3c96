use rover_sim::rover::{Orientation, RoverStatus};
use rover_sim::vector::Vector;

#[test]
fn boundary_scenario_ends_operational() {
    let (grid, entries) = rover_sim::parser::parse_input("4 8\n(2, 3, E) LFRFF").unwrap();
    assert_eq!(1, entries.len());
    let (mut rover, commands) = entries.into_iter().next().unwrap();
    rover.follow_commands(&commands, &grid);
    assert_eq!(RoverStatus::Operational, rover.status);
    assert_eq!(Vector::new(4, 4), rover.position);
    assert_eq!(Orientation::E, Orientation::from_unit_vector(rover.orientation));
}

#[test]
fn loss_scenario_ends_lost_at_last_valid_position() {
    let (grid, entries) = rover_sim::parser::parse_input("4 8\n(0, 2, N) FFLFRFF").unwrap();
    assert_eq!(1, entries.len());
    let (mut rover, commands) = entries.into_iter().next().unwrap();
    rover.follow_commands(&commands, &grid);
    assert_eq!(RoverStatus::Lost, rover.status);
    assert_eq!(Vector::new(0, 4), rover.position);
    assert_eq!(Orientation::W, Orientation::from_unit_vector(rover.orientation));
}

#[test]
fn rovers_run_independently_in_input_order() {
    let (grid, entries) =
        rover_sim::parser::parse_input("4 8\n(2, 3, E) LFRFF\n(0, 2, N) FFLFRFF").unwrap();
    assert_eq!(2, entries.len());
    let mut results = Vec::new();
    for (mut rover, commands) in entries {
        rover.follow_commands(&commands, &grid);
        results.push(rover);
    }
    assert_eq!(Vector::new(4, 4), results[0].position);
    assert_eq!(RoverStatus::Operational, results[0].status);
    assert_eq!(Vector::new(0, 4), results[1].position);
    assert_eq!(RoverStatus::Lost, results[1].status);
}
