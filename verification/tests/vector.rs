use rover_sim::vector::Vector;

#[test]
fn rotate_left() {
    let north = Vector::new(0, 1);
    let east = Vector::new(1, 0);
    let south = Vector::new(0, -1);
    let west = Vector::new(-1, 0);

    assert_eq!(west, north.rotate_left());
    assert_eq!(south, west.rotate_left());
    assert_eq!(east, south.rotate_left());
    assert_eq!(north, east.rotate_left());
}

#[test]
fn rotate_right() {
    let north = Vector::new(0, 1);
    let east = Vector::new(1, 0);
    let south = Vector::new(0, -1);
    let west = Vector::new(-1, 0);

    assert_eq!(east, north.rotate_right());
    assert_eq!(south, east.rotate_right());
    assert_eq!(west, south.rotate_right());
    assert_eq!(north, west.rotate_right());
}

#[test]
fn rotations_are_inverse_and_cyclic() {
    let units = [
        Vector::new(0, 1),
        Vector::new(1, 0),
        Vector::new(0, -1),
        Vector::new(-1, 0),
    ];
    for v in units {
        assert!(v.rotate_left().is_unit());
        assert!(v.rotate_right().is_unit());
        assert_eq!(v, v.rotate_left().rotate_right());
        assert_eq!(v, v.rotate_right().rotate_left());
        assert_eq!(v, v.rotate_left().rotate_left().rotate_left().rotate_left());
    }
}

#[test]
fn vector_addition() {
    assert_eq!(Vector::new(3, 5), Vector::new(1, 2).add(Vector::new(2, 3)));
    assert_eq!(Vector::new(0, 0), Vector::new(4, -7).add(Vector::new(-4, 7)));
}
