use process_wrapper_worker::flags::Phase;
use process_wrapper_worker::inflight::{ChildStatus, CrateInFlight, StateMap, StderrLine, Wake};

#[test]
fn nothing_is_known_at_first() {
    let mut c = CrateInFlight::new();
    assert_eq!(c.wait_rmeta(), None);
    assert_eq!(c.wait_rlib(), None);
    assert!(!c.both_consumed());
    assert!(c.settle(Phase::Metadata).is_none());
    assert!(c.settle(Phase::Link).is_none());
}

#[test]
fn first_signal_counts() {
    let mut c = CrateInFlight::new();
    assert!(c.signal_rmeta(None));
    assert!(!c.signal_rmeta(Some("late".to_string())));
    assert_eq!(c.wait_rmeta(), Some(Ok(())));
    assert!(c.signal_rlib(Some("first".to_string())));
    assert!(!c.signal_rlib(None));
    assert_eq!(c.wait_rlib(), Some(Err("first".to_string())));
}

#[test]
fn verdict_can_be_taken_again() {
    let mut c = CrateInFlight::new();
    c.signal_rmeta(Some("e".to_string()));
    assert_eq!(c.wait_rmeta(), Some(Err("e".to_string())));
    assert_eq!(c.wait_rmeta(), Some(Err("e".to_string())));
    assert!(!c.both_consumed());
}

#[test]
fn both_are_consumed_after_both_waits() {
    let mut c = CrateInFlight::new();
    c.signal_rmeta(None);
    c.signal_rlib(None);
    assert!(!c.both_consumed());
    c.wait_rlib();
    assert!(!c.both_consumed());
    c.wait_rmeta();
    assert!(c.both_consumed());
}

#[test]
fn metadata_outlives_a_failure() {
    let mut c = CrateInFlight::new();
    assert!(c.stderr_line("{}", true, StderrLine::Skip));
    assert!(!c.stderr_line("{}", true, StderrLine::Skip));
    let wake = c.child_exited(ChildStatus::Failed(Some(101)));
    assert_eq!(wake, Wake { rmeta: false, rlib: true });
    assert_eq!(c.wait_rmeta(), Some(Ok(())));
    assert_eq!(c.wait_rlib(), Some(Err("rustc exited with status Some(101)".to_string())));
}

#[test]
fn end_of_rustc_in_words() {
    let cases = [
        (ChildStatus::Success, Ok(())),
        (ChildStatus::Failed(Some(1)), Err("rustc exited with status Some(1)")),
        (ChildStatus::Failed(Some(-7)), Err("rustc exited with status Some(-7)")),
        (ChildStatus::Failed(None), Err("rustc exited with status None")),
        (ChildStatus::WaitError("gone".to_string()), Err("rustc wait error: gone")),
    ];
    for (status, verdict) in cases {
        let mut c = CrateInFlight::new();
        assert_eq!(c.child_exited(status), Wake { rmeta: true, rlib: true });
        let verdict = verdict.map_err(|e: &str| e.to_string());
        assert_eq!(c.wait_rmeta(), Some(verdict.clone()));
        assert_eq!(c.wait_rlib(), Some(verdict));
    }
}

#[test]
fn diagnostics_are_collected() {
    let mut c = CrateInFlight::new();
    assert!(!c.stderr_line("1", false, StderrLine::Message("one".to_string())));
    assert!(!c.stderr_line("2", false, StderrLine::Message("two\n".to_string())));
    assert!(!c.stderr_line("3", false, StderrLine::Skip));
    assert!(!c.stderr_line("4", false, StderrLine::Terminate));
    assert!(!c.stderr_line("plain", false, StderrLine::Unparsed));
    assert!(!c.stderr_line("6", false, StderrLine::Message(String::new())));
    c.child_exited(ChildStatus::Success);
    let s = c.settle(Phase::Link).unwrap();
    assert_eq!(s.stderr, "one\ntwo\nplain\n\n");
    assert_eq!(s.result, Ok(()));
    assert!(!s.retire);
    assert!(c.settle(Phase::Metadata).unwrap().retire);
}

#[test]
fn metadata_is_settled_before_the_end() {
    let mut c = CrateInFlight::new();
    c.stderr_line("w", false, StderrLine::Message("warning".to_string()));
    c.stderr_line("a", true, StderrLine::Terminate);
    let s = c.settle(Phase::Metadata).unwrap();
    assert_eq!(s.stderr, "warning\n");
    assert!(!s.retire);
    assert!(c.settle(Phase::Link).is_none());
}

#[test]
fn one_rustc_per_key() {
    let mut map: StateMap<&str> = StateMap::new();
    assert_eq!(map.lookup(7), None);
    assert!(map.enter(7, "first"));
    assert!(!map.enter(7, "second"));
    assert_eq!(map.lookup(7), Some(&"first"));
    assert!(map.enter(8, "other"));
    assert_eq!(map.lookup(7), Some(&"first"));
    map.remove(7);
    assert_eq!(map.lookup(7), None);
    assert_eq!(map.lookup(8), Some(&"other"));
    map.remove(7);
    assert!(map.enter(7, "again"));
}

#[test]
fn failed_start_leaves_no_trace() {
    let mut map: StateMap<u8> = StateMap::new();
    map.enter(1, 10);
    assert!(map.enter(2, 20));
    map.remove(2);
    assert_eq!(map.lookup(2), None);
    assert_eq!(map.lookup(1), Some(&10));
}

#[test]
fn waiting_and_lines_leave_the_library_pending() {
    let mut c = CrateInFlight::new();
    c.stderr_line("a", true, StderrLine::Message("m".to_string()));
    c.wait_rmeta();
    c.settle(Phase::Metadata);
    assert_eq!(c.wait_rlib(), None);
    c.child_exited(ChildStatus::Failed(Some(1)));
    c.child_exited(ChildStatus::Success);
    assert_eq!(c.wait_rlib(), Some(Err("rustc exited with status Some(1)".to_string())));
}
