use takeiteasy::{Coordinate, Field};

fn field(column: i32, row: i32) -> Field {
    Field {
        column: Coordinate::from_int(column).unwrap(),
        row: Coordinate::from_int(row).unwrap(),
    }
}

fn check_new_valid_field(col: i32, row: i32) {
    assert_eq!(
        Field::new(
            Coordinate::from_int(col).unwrap(),
            Coordinate::from_int(row).unwrap(),
        ),
        Ok(field(col, row))
    );
}

fn check_new_invalid_field(col: i32, row: i32, msg: &str) {
    assert_eq!(
        Field::new(
            Coordinate::from_int(col).unwrap(),
            Coordinate::from_int(row).unwrap()
        ),
        Err(msg.to_string())
    );
}

#[test]
fn test_field_construction() {
    // first column
    check_new_valid_field(1, 1);
    check_new_valid_field(1, 2);
    check_new_valid_field(1, 3);
    check_new_invalid_field(1, 4, "invalid coordinates: 1, 4");
    check_new_invalid_field(1, 5, "invalid coordinates: 1, 5");

    // second column
    check_new_valid_field(2, 1);
    check_new_valid_field(2, 2);
    check_new_valid_field(2, 3);
    check_new_valid_field(2, 4);
    check_new_invalid_field(2, 5, "invalid coordinates: 2, 5");

    // third column
    check_new_valid_field(3, 1);
    check_new_valid_field(3, 2);
    check_new_valid_field(3, 3);
    check_new_valid_field(3, 4);
    check_new_valid_field(3, 5);

    // fourth column
    check_new_valid_field(4, 1);
    check_new_valid_field(4, 2);
    check_new_valid_field(4, 3);
    check_new_valid_field(4, 4);
    check_new_invalid_field(4, 5, "invalid coordinates: 4, 5");

    // fifth column
    check_new_valid_field(5, 1);
    check_new_valid_field(5, 2);
    check_new_valid_field(5, 3);
    check_new_invalid_field(5, 4, "invalid coordinates: 5, 4");
    check_new_invalid_field(5, 5, "invalid coordinates: 5, 5");
}

#[test]
fn test_coordinate_from_int_range() {
    assert_eq!(Coordinate::from_int(0), Err(()));
    assert_eq!(Coordinate::from_int(1), Ok(Coordinate::C1));
    assert_eq!(Coordinate::from_int(2), Ok(Coordinate::C2));
    assert_eq!(Coordinate::from_int(3), Ok(Coordinate::C3));
    assert_eq!(Coordinate::from_int(4), Ok(Coordinate::C4));
    assert_eq!(Coordinate::from_int(5), Ok(Coordinate::C5));
    assert_eq!(Coordinate::from_int(6), Err(()));
    assert_eq!(Coordinate::from_int(-1), Err(()));
    assert_eq!(Coordinate::C4.number(), 4);
}

#[test]
fn test_check_agrees_with_new() {
    assert_eq!(field(2, 4).check(), Ok(()));
    assert_eq!(
        field(5, 4).check(),
        Err("invalid coordinates: 5, 4".to_string())
    );
}

#[test]
fn test_positions_follow_the_columns() {
    assert_eq!(field(1, 1).position(), 0);
    assert_eq!(field(1, 3).position(), 2);
    assert_eq!(field(2, 1).position(), 3);
    assert_eq!(field(3, 1).position(), 7);
    assert_eq!(field(3, 5).position(), 11);
    assert_eq!(field(4, 4).position(), 15);
    assert_eq!(field(5, 3).position(), 18);
}
