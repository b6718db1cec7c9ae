use queue_sim::headings::make_headnig;

fn strings(v: &[&str]) -> Vec<String> {
    v.iter().map(|s| s.to_string()).collect()
}

#[test]
fn headings_for_two_servers() {
    let mut headings = strings(&["Customer ", "Interarrival time", "Arrival clock"]);
    let mut repeated = strings(&["service", "start", "end"]);
    let end = strings(&["Waiting time in queue", "Time of customer in system"]);
    make_headnig(&mut headings, &mut repeated, &end, 2);
    assert_eq!(
        headings,
        strings(&[
            "Customer ",
            "Interarrival time",
            "Arrival clock",
            "service",
            "start",
            "end",
            "service",
            "start",
            "end",
            "Waiting time in queue",
            "Time of customer in system",
        ])
    );
    assert_eq!(repeated, strings(&["service", "start", "end"]));
}

#[test]
fn headings_for_no_server_need_no_repeated_names() {
    let mut headings = strings(&["a"]);
    let mut repeated: Vec<String> = vec![];
    let end = strings(&["wq", "ws"]);
    make_headnig(&mut headings, &mut repeated, &end, 0);
    assert_eq!(headings, strings(&["a", "", "", "wq", "ws"]));
}

#[test]
fn headings_shrink_when_servers_go_away() {
    let mut headings = strings(&["c", "i", "a"]);
    let mut repeated = strings(&["s", "b", "e"]);
    let end = strings(&["wq", "ws"]);
    make_headnig(&mut headings, &mut repeated, &end, 3);
    assert_eq!(headings.len(), 14);
    make_headnig(&mut headings, &mut repeated, &end, 1);
    assert_eq!(headings, strings(&["c", "i", "a", "s", "b", "e", "wq", "ws"]));
}

#[test]
fn headings_laid_out_twice_are_the_same() {
    let mut headings = strings(&["c", "i", "a", "old"]);
    let mut repeated = strings(&["s", "b", "e"]);
    let end = strings(&["wq", "ws"]);
    make_headnig(&mut headings, &mut repeated, &end, 2);
    let once = headings.clone();
    make_headnig(&mut headings, &mut repeated, &end, 2);
    assert_eq!(headings, once);
}
