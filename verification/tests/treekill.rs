use cirno_rs::tree::ProcEntry;
use cirno_rs::tree::kill_list;
use cirno_rs::tree::parse_stat_ppid;

fn entry(pid: i32, ppid: i32) -> ProcEntry {
    ProcEntry { pid, ppid }
}

#[test]
fn kill_list_follows_parent_chains() {
    let table = vec![entry(2, 1), entry(3, 2), entry(4, 7), entry(7, 9)];
    let r = kill_list(&table, 1);
    assert!(r.contains(&1));
    assert!(r.contains(&2));
    assert!(r.contains(&3));
    assert!(!r.contains(&4));
    assert!(!r.contains(&7));
    assert_eq!(r.len(), 3);
}

#[test]
fn kill_list_root_alone() {
    let table: Vec<ProcEntry> = Vec::new();
    let r = kill_list(&table, 5);
    assert_eq!(r, vec![5]);
}

#[test]
fn kill_list_ignores_unrelated_forest() {
    let table = vec![entry(10, 1), entry(11, 10), entry(20, 2), entry(21, 20)];
    let r = kill_list(&table, 2);
    assert!(r.contains(&2));
    assert!(r.contains(&20));
    assert!(r.contains(&21));
    assert!(!r.contains(&10));
    assert!(!r.contains(&11));
    assert!(!r.contains(&1));
}

#[test]
fn kill_list_survives_parent_cycles() {
    let table = vec![entry(2, 3), entry(3, 2)];
    let r = kill_list(&table, 2);
    assert!(r.contains(&2));
    assert!(r.contains(&3));
    assert!(!r.contains(&4));
}

#[test]
fn stat_ppid_reads_fourth_field() {
    assert_eq!(parse_stat_ppid("1234 (cat) R 77 1234 1234 0"), Some(77));
}

#[test]
fn stat_ppid_zero_means_no_parent() {
    assert_eq!(parse_stat_ppid("1 (init) S 0 1 1 0"), None);
}

#[test]
fn stat_ppid_rejects_malformed_records() {
    assert_eq!(parse_stat_ppid(""), None);
    assert_eq!(parse_stat_ppid("1234 (cat) R"), None);
    assert_eq!(parse_stat_ppid("abc (cat) R 77"), None);
    assert_eq!(parse_stat_ppid("1234 (cat) R xx"), None);
}

#[test]
fn stat_ppid_spaced_command_name() {
    // The command field is the parenthesized text and may hold spaces;
    // the parent pid is still read from after the record's last `)`.
    assert_eq!(parse_stat_ppid("12 (my prog) R 5"), Some(5));
}

#[test]
fn stat_ppid_parens_inside_command_name() {
    assert_eq!(parse_stat_ppid("42 (w (x) y) S 7 1"), Some(7));
}

#[test]
fn stat_ppid_needs_parenthesized_command() {
    assert_eq!(parse_stat_ppid("1234 cat R 77"), None);
}
