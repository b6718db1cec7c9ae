use queue_sim::grid::{input_table, size_mat, size_table};

fn texts(rows: &[&[&str]]) -> Vec<Vec<String>> {
    rows.iter().map(|r| r.iter().map(|s| s.to_string()).collect()).collect()
}

#[test]
fn size_mat_grows_an_empty_table() {
    let mut m: Vec<Vec<i32>> = vec![];
    size_mat(&mut m, 3, 2, 0);
    assert_eq!(m, vec![vec![0, 0], vec![0, 0], vec![0, 0]]);
}

#[test]
fn size_mat_keeps_cells_inside_both_shapes() {
    let mut m = vec![vec![1, 2, 3], vec![4]];
    size_mat(&mut m, 3, 2, 9);
    assert_eq!(m, vec![vec![1, 2], vec![4, 9], vec![9, 9]]);
}

#[test]
fn size_mat_shrinks_rows_and_columns() {
    let mut m = vec![vec![1, 2, 3], vec![4, 5, 6], vec![7, 8, 9]];
    size_mat(&mut m, 2, 1, 0);
    assert_eq!(m, vec![vec![1], vec![4]]);
}

#[test]
fn size_mat_to_zero_rows() {
    let mut m = vec![vec![1.5f32, 2.5]];
    size_mat(&mut m, 0, 4, 0.0);
    assert!(m.is_empty());
}

#[test]
fn size_mat_works_on_floats() {
    let mut m = vec![vec![0.25f32]];
    size_mat(&mut m, 2, 2, 0.0);
    assert_eq!(m, vec![vec![0.25, 0.0], vec![0.0, 0.0]]);
}

#[test]
fn size_mat_twice_is_once() {
    let mut a = vec![vec![1, 2, 3], vec![4]];
    size_mat(&mut a, 3, 2, 7);
    let once = a.clone();
    size_mat(&mut a, 3, 2, 7);
    assert_eq!(a, once);
}

#[test]
fn input_table_pads_with_zero_texts() {
    let mut t = texts(&[&["1", "0.25"], &["2"]]);
    input_table(4, &mut t);
    assert_eq!(
        t,
        texts(&[&["1", "0.25"], &["2", "0"], &["0", "0"], &["0", "0"]])
    );
}

#[test]
fn input_table_cuts_rows_and_columns() {
    let mut t = texts(&[&["1", "0.25", "x"], &["2", "0.4"], &["3", "0.2"]]);
    input_table(2, &mut t);
    assert_eq!(t, texts(&[&["1", "0.25"], &["2", "0.4"]]));
}

#[test]
fn input_table_every_frame_keeps_the_user_text() {
    let mut t = texts(&[&["5", "0.1"]]);
    input_table(3, &mut t);
    let once = t.clone();
    input_table(3, &mut t);
    assert_eq!(t, once);
}

#[test]
fn size_table_gives_empty_lists_to_new_cells() {
    let mut t: Vec<Vec<Vec<String>>> = vec![vec![vec!["2".to_string(), "0.3".to_string()]]];
    size_table(&mut t, 2, 3);
    assert_eq!(t.len(), 2);
    assert_eq!(t[0][0], vec!["2".to_string(), "0.3".to_string()]);
    assert!(t[0][1].is_empty() && t[0][2].is_empty());
    assert!(t[1].iter().all(|c| c.is_empty()));
    assert_eq!(t[1].len(), 3);
}

#[test]
fn size_table_drops_servers_beyond_the_count() {
    let mut t: Vec<Vec<Vec<u8>>> = vec![vec![vec![1]], vec![vec![2]], vec![vec![3]]];
    size_table(&mut t, 1, 1);
    assert_eq!(t, vec![vec![vec![1]]]);
}
