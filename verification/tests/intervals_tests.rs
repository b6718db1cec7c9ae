use queue_sim::intervals::{make_range, one_num_check};

#[test]
fn intervals_from_cumulative_percentages() {
    let mut b = vec![1..5, 1..5];
    make_range(&vec![25, 65, 85, 100], &vec![26, 66, 86, 101], &mut b);
    assert_eq!(b, vec![1..25, 26..65, 66..85, 86..100]);
}

#[test]
fn no_rows_give_no_intervals() {
    let mut b = vec![1..5];
    make_range(&vec![], &vec![], &mut b);
    assert!(b.is_empty());
}

#[test]
fn random_number_finds_its_row() {
    let b = vec![1..25, 26..65, 66..85, 86..100];
    assert_eq!(one_num_check(&b, 26), Some(1));
    assert_eq!(one_num_check(&b, 1), Some(0));
    assert_eq!(one_num_check(&b, 99), Some(3));
}

#[test]
fn bounds_of_the_intervals_match_nothing() {
    let b = vec![1..25, 26..65, 66..85, 86..100];
    assert_eq!(one_num_check(&b, 25), None);
    assert_eq!(one_num_check(&b, 0), None);
    assert_eq!(one_num_check(&b, 100), None);
}

#[test]
fn overlapping_intervals_give_the_first() {
    let b = vec![5..10, 1..20];
    assert_eq!(one_num_check(&b, 7), Some(0));
    assert_eq!(one_num_check(&b, 12), Some(1));
}

#[test]
fn made_intervals_do_not_overlap() {
    let mut b = vec![];
    make_range(&vec![30, 30, 70], &vec![31, 31, 71], &mut b);
    for key in 0..=255u8 {
        let holders: Vec<usize> = (0..b.len()).filter(|&i| b[i].contains(&key)).collect();
        assert!(holders.len() <= 1);
        if let Some(&i) = holders.first() {
            assert_eq!(one_num_check(&b, key), Some(i));
        }
    }
}
