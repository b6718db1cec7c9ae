use queue_sim::queue::{assign_server, copy_service_column, find_min_order, server_columns};

#[test]
fn first_free_server_is_found() {
    assert_eq!(find_min_order(&vec![false, true, true]), 1);
    assert_eq!(find_min_order(&vec![true, false]), 0);
}

#[test]
fn no_free_server_gives_zero() {
    assert_eq!(find_min_order(&vec![false, false, false]), 0);
    assert_eq!(find_min_order(&vec![]), 0);
}

#[test]
fn customer_served_at_once_by_first_server_free_before_arrival() {
    assert_eq!(assign_server(&vec![false, true, true], &vec![false, true, true]), (1, true));
}

#[test]
fn customer_waits_for_server_zero_when_none_is_free() {
    assert_eq!(assign_server(&vec![false, false], &vec![false, false]), (0, false));
}

#[test]
fn server_finishing_at_the_arrival_makes_the_customer_wait() {
    // The first server free by the arrival finished exactly at it.
    assert_eq!(assign_server(&vec![false, true, true], &vec![false, false, true]), (0, false));
}

#[test]
fn columns_of_each_server() {
    assert_eq!(server_columns(0), (2, 3, 4));
    assert_eq!(server_columns(2), (8, 9, 10));
}

#[test]
fn service_column_copied_to_each_server() {
    let mut sol = vec![
        vec![1, 2, 30, 0, 0, 0, 0, 0, 0, 0],
        vec![3, 4, 50, 0, 0, 0, 0, 0, 0, 0],
        vec![7, 7, 70, 7, 7, 7, 7, 7, 7, 7],
    ];
    copy_service_column(&mut sol, 2, 2);
    assert_eq!(sol[0], vec![1, 2, 30, 0, 0, 30, 0, 0, 0, 0]);
    assert_eq!(sol[1], vec![3, 4, 50, 0, 0, 50, 0, 0, 0, 0]);
    assert_eq!(sol[2], vec![7, 7, 70, 7, 7, 7, 7, 7, 7, 7]);
}

#[test]
fn service_copy_twice_is_once() {
    let mut sol = vec![vec![0.0f32, 1.0, 4.0, 0.0, 0.0, 9.0, 0.0, 0.0, 8.0, 0.0]];
    copy_service_column(&mut sol, 3, 1);
    let once = sol.clone();
    copy_service_column(&mut sol, 3, 1);
    assert_eq!(sol, once);
    assert_eq!(once[0], vec![0.0, 1.0, 4.0, 0.0, 0.0, 4.0, 0.0, 0.0, 4.0, 0.0]);
}
