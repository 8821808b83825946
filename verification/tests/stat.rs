use procargs::error::ProcError;
use procargs::stat::ProcStat;

#[test]
fn parse_reads_name_state_and_parent() {
    let stat = ProcStat::parse(123, "123 (my proc) S 456 123 123 0 -1 4194304").unwrap();
    assert_eq!(stat.comm, "my proc");
    assert_eq!(stat.pid, 123);
    assert_eq!(stat.state, 'S');
    assert_eq!(stat.ppid, 456);
}

#[test]
fn parse_takes_the_last_closing_parenthesis() {
    let stat = ProcStat::parse(5, "5 (a(b)) R 1 5 5 0").unwrap();
    assert_eq!(stat.comm, "a(b)");
    assert_eq!(stat.state, 'R');
    assert_eq!(stat.ppid, 1);
}

#[test]
fn parse_takes_the_first_opening_parenthesis() {
    let stat = ProcStat::parse(9, "9 ((sd-pam)) S 8 9").unwrap();
    assert_eq!(stat.comm, "(sd-pam)");
    assert_eq!(stat.ppid, 8);
}

#[test]
fn parse_accepts_a_real_status_line() {
    let line = "1 (systemd) S 0 1 1 0 -1 4194560 94083 6440169 95 3153 203 415 20433 9644 20 0 1 0 4 \
                171601920 3229 18446744073709551615 1 1 0 0 0 0 671173123 4096 1260 0 0 0 17 3 0 0 0 0 0 \
                0 0 0 0 0 0 0 0\n";
    let stat = ProcStat::parse(1, line).unwrap();
    assert_eq!(stat.comm, "systemd");
    assert_eq!(stat.state, 'S');
    assert_eq!(stat.ppid, 0);
    assert_eq!(stat.pid, 1);
}

#[test]
fn parse_keeps_the_pid_it_was_given() {
    let stat = ProcStat::parse(77, "1 (x) S 2 ").unwrap();
    assert_eq!(stat.pid, 77);
}

#[test]
fn parse_accepts_an_empty_name() {
    let stat = ProcStat::parse(3, "3 () Z 2 3").unwrap();
    assert_eq!(stat.comm, "");
    assert_eq!(stat.state, 'Z');
}

#[test]
fn parse_keeps_non_ascii_names() {
    let stat = ProcStat::parse(4, "4 (caf\u{e9} \u{1f600}) D 3 ").unwrap();
    assert_eq!(stat.comm, "caf\u{e9} \u{1f600}");
    assert_eq!(stat.state, 'D');
    assert_eq!(stat.ppid, 3);
}

#[test]
fn parse_takes_only_the_first_character_of_the_state_field() {
    let stat = ProcStat::parse(4, "4 (x) Sleeping 3 ").unwrap();
    assert_eq!(stat.state, 'S');
}

#[test]
fn parse_does_not_inspect_the_character_after_the_name() {
    let stat = ProcStat::parse(4, "4 (x)_R 3 rest").unwrap();
    assert_eq!(stat.state, 'R');
    assert_eq!(stat.ppid, 3);
}

#[test]
fn parse_accepts_a_parent_at_the_end_of_the_line() {
    let stat = ProcStat::parse(4, "4 (x) R 3").unwrap();
    assert_eq!(stat.ppid, 3);
}

#[test]
fn parse_accepts_signed_and_padded_parents() {
    assert_eq!(ProcStat::parse(4, "4 (x) R +12 ").unwrap().ppid, 12);
    assert_eq!(ProcStat::parse(4, "4 (x) R 0012 ").unwrap().ppid, 12);
    assert_eq!(ProcStat::parse(4, "4 (x) R 4294967295 ").unwrap().ppid, 4294967295);
}

fn unavailable(line: &str) -> bool {
    matches!(ProcStat::parse(1, line), Err(ProcError::Unavailable))
}

#[test]
fn parse_fails_without_parentheses() {
    assert!(unavailable(""));
    assert!(unavailable("1 systemd S 0 1"));
    assert!(unavailable("1 (systemd S 0 1"));
    assert!(unavailable("1 systemd) S 0 1"));
}

#[test]
fn parse_fails_on_parentheses_out_of_order() {
    assert!(unavailable("1 )systemd( S 0 1"));
}

#[test]
fn parse_fails_where_nothing_follows_the_name() {
    assert!(unavailable("1 (systemd)"));
    assert!(unavailable("1 (systemd) "));
}

#[test]
fn parse_fails_on_an_empty_state_field() {
    assert!(unavailable("1 (systemd)  0 1"));
}

#[test]
fn parse_fails_on_a_missing_parent() {
    assert!(unavailable("1 (systemd) S"));
    assert!(unavailable("1 (systemd) S "));
    assert!(unavailable("1 (systemd) S  0"));
}

#[test]
fn parse_fails_on_a_parent_that_is_no_number() {
    assert!(unavailable("1 (systemd) S x 1"));
    assert!(unavailable("1 (systemd) S -1 1"));
    assert!(unavailable("1 (systemd) S 1x 1"));
    assert!(unavailable("1 (systemd) S + 1"));
    assert!(unavailable("1 (systemd) S 0\n"));
    assert!(unavailable("1 (systemd) S \u{661} 1"));
}

#[test]
fn parse_fails_on_a_parent_beyond_32_bits() {
    assert!(unavailable("1 (systemd) S 4294967296 1"));
    assert!(unavailable("1 (systemd) S 99999999999999999999 1"));
}

#[test]
fn read_pid_gives_the_record_of_a_readable_file() {
    let stat = ProcStat::read_pid(123, Some("123 (my proc) S 456 ...")).unwrap();
    assert_eq!(stat.comm, "my proc");
    assert_eq!(stat.state, 'S');
    assert_eq!(stat.ppid, 456);
    assert_eq!(stat.pid, 123);
}

#[test]
fn read_pid_handles_a_parenthesis_in_the_name() {
    let stat = ProcStat::read_pid(5, Some("5 (a(b)) R 1 ...")).unwrap();
    assert_eq!(stat.comm, "a(b)");
    assert_eq!(stat.state, 'R');
    assert_eq!(stat.ppid, 1);
}

#[test]
fn read_pid_gives_nothing_for_an_unreadable_file() {
    assert!(ProcStat::read_pid(123, None).is_none());
}

#[test]
fn read_pid_gives_nothing_for_a_malformed_line() {
    assert!(ProcStat::read_pid(123, Some("garbage")).is_none());
    assert!(ProcStat::read_pid(123, Some("123 (x) S notanumber")).is_none());
}
