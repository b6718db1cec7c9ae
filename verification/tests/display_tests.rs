use queue_sim::display::{display_table, Cell};

#[test]
fn plain_table_shows_values() {
    let plan = display_table(2, 3, false, None);
    assert_eq!(plan, vec![vec![Cell::Value; 3], vec![Cell::Value; 3]]);
}

#[test]
fn ordered_table_numbers_its_rows() {
    let plan = display_table(3, 2, true, None);
    for row in &plan {
        assert_eq!(row, &vec![Cell::NumberedValue, Cell::Value]);
    }
    assert_eq!(plan.len(), 3);
}

#[test]
fn intervals_shown_in_the_column_of_the_last_row() {
    let end = vec![1..25, 26..65, 66..85, 86..100];
    let plan = display_table(4, 4, false, Some(&end));
    assert_eq!(plan[0], vec![Cell::Value, Cell::Value, Cell::Value, Cell::Interval(1, 25)]);
    assert_eq!(plan[2][3], Cell::Interval(66, 85));
    assert_eq!(plan[3][3], Cell::OpenInterval(86));
}

#[test]
fn intervals_unused_when_no_such_column() {
    let end = vec![1..2];
    let plan = display_table(5, 3, false, Some(&end));
    assert!(plan.iter().all(|r| r.iter().all(|c| *c == Cell::Value)));
}

#[test]
fn single_row_shows_no_interval() {
    let end = vec![3..9];
    let plan = display_table(1, 2, true, Some(&end));
    assert_eq!(plan, vec![vec![Cell::NumberedValue, Cell::Value]]);
}

#[test]
fn empty_table_has_no_rows() {
    assert!(display_table(0, 4, true, None).is_empty());
}
