use procargs::ancestry::{header_line, AncestorWalk, ROOT_PID, UNKNOWN_STATE};

fn stat_text(pid: u32) -> Option<&'static str> {
    match pid {
        10 => Some("10 (leaf) R 5 10 10 0"),
        5 => Some("5 (middle one) S 1 5 5 0"),
        1 => Some("1 (init) S 0 1 1 0"),
        40 => Some("40 (orphan) S 30 40 40 0"),
        30 => Some("30 (ghost) Z 20 30 30 0"),
        _ => None,
    }
}

fn walk_from(start: u32) -> AncestorWalk {
    let mut walk = AncestorWalk::start(start);
    let mut lookups = 0;
    while let Some(pid) = walk.pending() {
        walk.advance(stat_text(pid));
        lookups += 1;
        assert!(lookups < 100);
    }
    walk
}

#[test]
fn walk_reaches_the_root() {
    let walk = walk_from(10);
    assert_eq!(walk.chain(), vec![10, 5, 1]);
    assert_eq!(walk.pending(), None);
}

#[test]
fn walk_is_shown_root_first() {
    let walk = walk_from(10);
    assert_eq!(walk.display_order(), vec![1, 5, 10]);

    let headers: Vec<String> =
        walk.display_order().iter().map(|pid| header_line(*pid, stat_text(*pid))).collect();
    assert_eq!(headers, vec!["\npid 1 [S]:\n", "\npid 5 [S]:\n", "\npid 10 [R]:\n"]);
}

#[test]
fn walk_stops_at_the_first_unresolvable_parent() {
    let walk = walk_from(40);
    assert_eq!(walk.chain(), vec![40, 30, 20]);
    assert_eq!(walk.display_order(), vec![20, 30, 40]);
    assert_eq!(walk.pending(), None);
    assert_eq!(walk.current(), 20);
}

#[test]
fn walk_from_an_unresolvable_process_holds_only_that_process() {
    let walk = walk_from(999);
    assert_eq!(walk.chain(), vec![999]);
    assert_eq!(walk.display_order(), vec![999]);
}

#[test]
fn walk_from_the_root_looks_nothing_up() {
    let walk = AncestorWalk::start(ROOT_PID);
    assert_eq!(walk.pending(), None);
    assert_eq!(walk.chain(), vec![1]);
}

#[test]
fn walk_names_the_process_to_look_up_next() {
    let mut walk = AncestorWalk::start(10);
    assert_eq!(walk.pending(), Some(10));
    walk.advance(stat_text(10));
    assert_eq!(walk.pending(), Some(5));
    assert_eq!(walk.current(), 5);
    walk.advance(stat_text(5));
    assert_eq!(walk.pending(), None);
    assert_eq!(walk.current(), 1);
}

#[test]
fn a_finished_walk_takes_no_notice_of_further_lookups() {
    let mut walk = walk_from(10);
    walk.advance(Some("1 (init) S 0 1"));
    walk.advance(None);
    assert_eq!(walk.chain(), vec![10, 5, 1]);

    let mut stopped = walk_from(40);
    stopped.advance(Some("20 (late) S 1 20"));
    assert_eq!(stopped.chain(), vec![40, 30, 20]);
    assert_eq!(stopped.pending(), None);
}

#[test]
fn a_malformed_status_line_ends_the_walk() {
    let mut walk = AncestorWalk::start(10);
    walk.advance(Some("10 (leaf) R five"));
    assert_eq!(walk.pending(), None);
    assert_eq!(walk.chain(), vec![10]);
}

#[test]
fn header_shows_pid_and_state() {
    assert_eq!(header_line(123, Some("123 (my proc) S 456 ...")), "\npid 123 [S]:\n");
    assert_eq!(header_line(0, Some("0 (x) R 0 ")), "\npid 0 [R]:\n");
    assert_eq!(header_line(4294967295, Some("1 (x) T 0 ")), "\npid 4294967295 [T]:\n");
    assert_eq!(header_line(1000, Some("1 (x) \u{e9}t\u{e9} 0 ")), "\npid 1000 [\u{e9}]:\n");
}

#[test]
fn header_shows_a_question_mark_for_an_unresolvable_process() {
    assert_eq!(UNKNOWN_STATE, '?');
    assert_eq!(header_line(20, None), "\npid 20 [?]:\n");
    assert_eq!(header_line(20, Some("not a status line")), "\npid 20 [?]:\n");
}
