use fifteen::get_starting_index;

#[test]
fn test_get_starting_index() {
    assert_eq!(get_starting_index(4, 0, 0), 15);
    assert_eq!(get_starting_index(4, 3, 3), 0);
}

#[test]
fn starting_index_values() {
    assert_eq!(get_starting_index(4, 1, 2), 9);
    assert_eq!(get_starting_index(3, 0, 0), 8);
    assert_eq!(get_starting_index(16, 0, 0), 255);
    assert_eq!(get_starting_index(16, 15, 15), 0);
    assert_eq!(get_starting_index(1, 0, 0), 0);
}
