use agent_evaluation::process_tree::{kill_order, parse_ppid};
use agent_evaluation::text::parse_u32;

#[test]
fn kill_order_is_root_then_descendants_breadth_first() {
    // (pid, ppid) in listing order.
    let procs = vec![(1, 0), (10, 1), (11, 10), (12, 10), (20, 11), (13, 10), (30, 99), (21, 12)];
    assert_eq!(kill_order(10, &procs), vec![10, 11, 12, 13, 20, 21]);
}

#[test]
fn kill_order_takes_every_entry_under_a_collected_process() {
    // Each process listed once, no cycle: every entry whose parent is collected
    // adds exactly one process, as a walk without a visited record would.
    let procs = vec![(1, 0), (10, 1), (11, 10), (12, 10), (20, 11), (13, 10), (30, 99), (21, 12)];
    let r = kill_order(10, &procs);
    let under: usize = procs.iter().filter(|(_, pp)| r.contains(pp)).count();
    assert_eq!(r.len(), 1 + under);
}

#[test]
fn kill_order_of_a_leaf_is_itself() {
    let procs = vec![(1, 0), (5, 1)];
    assert_eq!(kill_order(5, &procs), vec![5]);
    assert_eq!(kill_order(42, &Vec::new()), vec![42]);
}

#[test]
fn kill_order_stops_on_a_cycle() {
    let procs = vec![(2, 3), (3, 2)];
    assert_eq!(kill_order(2, &procs), vec![2, 3]);
}

#[test]
fn ppid_is_read_from_status_text() {
    let status = "Name:\tbash\nUmask:\t0022\nState:\tS (sleeping)\nTgid:\t4242\nPid:\t4242\nPPid:\t4170\nTracerPid:\t0\n";
    assert_eq!(parse_ppid(status), Some(4170));
}

#[test]
fn ppid_line_with_carriage_return_and_spaces() {
    assert_eq!(parse_ppid("PPid:   7 \r\n"), Some(7));
    assert_eq!(parse_ppid("PPid:7"), None);
    assert_eq!(parse_ppid("PPid:\n"), None);
    assert_eq!(parse_ppid("Pid: 3\n"), None);
    assert_eq!(parse_ppid(""), None);
    assert_eq!(parse_ppid("PPid:\tx\nPPid:\t5\n"), None);
    assert_eq!(parse_ppid("Name: a\nPPidX: 9\n"), None);
    assert_eq!(parse_ppid("Name: a\nPPid:x 9\n"), Some(9));
}

#[test]
fn ppid_agrees_with_line_based_reading() {
    let reference = |s: &str| -> Option<u32> {
        s.lines()
            .find(|l| l.starts_with("PPid:"))?
            .split_whitespace()
            .nth(1)?
            .parse()
            .ok()
    };
    for s in [
        "PPid:\t1\n",
        "a\nPPid: 2 3\n",
        "PPid:\t\t\n",
        "x\r\nPPid:\t88\r\n",
        "PPid:\u{3000}9",
        "PPid: +4",
        "PPid: 4294967296",
    ] {
        assert_eq!(parse_ppid(s), reference(s), "input {:?}", s);
    }
}

#[test]
fn proc_entry_names_parse_as_pids() {
    assert_eq!(parse_u32("1234"), Some(1234));
    assert_eq!(parse_u32("self"), None);
    assert_eq!(parse_u32("thread-self"), None);
}
