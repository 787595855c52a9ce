use wizardry_host::bridge::{
    malformed_outcome, outcome_from_report, Bridge, CommandInvocation, CommandOutcome,
    ProcessReport, Reception,
};
use wizardry_host::wire::{decimal, encode_outcome};

fn invocation(id: &str, command: &[&str]) -> CommandInvocation {
    CommandInvocation {
        id: id.to_string(),
        command: command.iter().map(|s| s.to_string()).collect(),
    }
}

fn exited(stdout: &[u8], stderr: &[u8], code: Option<i32>) -> ProcessReport {
    ProcessReport::Exited { stdout: stdout.to_vec(), stderr: stderr.to_vec(), code }
}

fn rejected(r: Reception) -> CommandOutcome {
    match r {
        Reception::Rejected(o) => o,
        Reception::Dispatched(_) => panic!("expected a rejection"),
    }
}

#[test]
fn echo_invocation_round_trip() {
    let mut bridge = Bridge::new();
    let d = match bridge.receive(invocation("a1", &["echo", "hi"])) {
        Reception::Dispatched(d) => d,
        Reception::Rejected(_) => panic!("expected dispatch"),
    };
    assert_eq!(d.id, "a1");
    assert_eq!(d.program, "echo");
    assert_eq!(d.args, vec!["hi".to_string()]);
    assert!(bridge.is_pending("a1"));
    let o = bridge.complete("a1", exited(b"hi\n", b"", Some(0))).unwrap();
    assert_eq!(
        encode_outcome(&o),
        "{\"id\":\"a1\",\"stdout\":\"hi\\n\",\"stderr\":\"\",\"exit_code\":0,\"error\":null}"
    );
    assert_eq!(bridge.pending_count(), 0);
}

#[test]
fn empty_command_is_refused_without_dispatch() {
    let mut bridge = Bridge::new();
    let o = rejected(bridge.receive(invocation("e1", &[])));
    assert_eq!(o.id, "e1");
    assert_eq!(o.exit_code, 1);
    assert_eq!(o.error.as_deref(), Some("Empty command"));
    assert_eq!(o.stderr, "Command array is empty");
    assert_eq!(o.stdout, "");
    assert_eq!(bridge.pending_count(), 0);
    assert!(bridge.complete("e1", exited(b"", b"", Some(0))).is_none());
}

#[test]
fn spawn_failure_reports_minus_one() {
    let mut bridge = Bridge::new();
    assert!(matches!(
        bridge.receive(invocation("n1", &["no-such-program-xyz"])),
        Reception::Dispatched(_)
    ));
    let reason = "No such file or directory (os error 2)".to_string();
    let o = bridge.complete("n1", ProcessReport::SpawnFailed { reason: reason.clone() }).unwrap();
    assert_eq!(o.id, "n1");
    assert_eq!(o.exit_code, -1);
    assert_eq!(o.stdout, "");
    assert_eq!(o.stderr, "");
    assert_eq!(o.error, Some(reason));
}

#[test]
fn each_token_is_answered_once() {
    let mut bridge = Bridge::new();
    assert!(matches!(bridge.receive(invocation("t", &["true"])), Reception::Dispatched(_)));
    assert!(bridge.complete("t", exited(b"", b"", Some(0))).is_some());
    assert!(bridge.complete("t", exited(b"", b"", Some(0))).is_none());
    assert!(!bridge.is_pending("t"));
}

#[test]
fn unknown_token_yields_nothing() {
    let mut bridge = Bridge::new();
    assert!(bridge.complete("ghost", exited(b"x", b"", Some(0))).is_none());
    assert_eq!(bridge.pending_count(), 0);
}

#[test]
fn concurrent_tokens_complete_out_of_order() {
    let mut bridge = Bridge::new();
    assert!(matches!(bridge.receive(invocation("a", &["echo", "one"])), Reception::Dispatched(_)));
    assert!(matches!(bridge.receive(invocation("b", &["echo", "two"])), Reception::Dispatched(_)));
    assert_eq!(bridge.pending_count(), 2);
    let ob = bridge.complete("b", exited(b"two\n", b"", Some(0))).unwrap();
    assert!(bridge.is_pending("a"));
    let oa = bridge.complete("a", exited(b"one\n", b"", Some(0))).unwrap();
    assert_eq!(ob.id, "b");
    assert_eq!(ob.stdout, "two\n");
    assert_eq!(oa.id, "a");
    assert_eq!(oa.stdout, "one\n");
    assert_eq!(bridge.pending_count(), 0);
}

#[test]
fn live_duplicate_token_is_refused() {
    let mut bridge = Bridge::new();
    assert!(matches!(bridge.receive(invocation("d", &["sleep", "1"])), Reception::Dispatched(_)));
    let o = rejected(bridge.receive(invocation("d", &["ls"])));
    assert_eq!(o.id, "d");
    assert_eq!(o.exit_code, 1);
    assert_eq!(o.error.as_deref(), Some("Duplicate id"));
    assert_eq!(bridge.pending_count(), 1);
    assert!(bridge.complete("d", exited(b"", b"", Some(0))).is_some());
    assert!(matches!(bridge.receive(invocation("d", &["ls"])), Reception::Dispatched(_)));
}

#[test]
fn missing_token_is_refused() {
    let mut bridge = Bridge::new();
    let o = rejected(bridge.receive(invocation("", &["ls"])));
    assert_eq!(o.exit_code, 1);
    assert_eq!(o.error.as_deref(), Some("Missing id"));
    assert_eq!(bridge.pending_count(), 0);
}

#[test]
fn empty_program_is_refused() {
    let mut bridge = Bridge::new();
    let o = rejected(bridge.receive(invocation("p", &["", "x"])));
    assert_eq!(o.exit_code, 1);
    assert_eq!(o.error.as_deref(), Some("Empty program"));
    assert_eq!(bridge.pending_count(), 0);
}

#[test]
fn arguments_stay_discrete() {
    let mut bridge = Bridge::new();
    match bridge.receive(invocation("s", &["printf", "%s", "a b; rm -rf /"])) {
        Reception::Dispatched(d) => {
            assert_eq!(d.program, "printf");
            assert_eq!(d.args, vec!["%s".to_string(), "a b; rm -rf /".to_string()]);
        }
        Reception::Rejected(_) => panic!("expected dispatch"),
    }
}

#[test]
fn signal_termination_gives_minus_one() {
    let o = outcome_from_report("k".to_string(), exited(b"", b"killed", None));
    assert_eq!(o.exit_code, -1);
    assert_eq!(o.stderr, "killed");
    assert_eq!(o.error, None);
}

#[test]
fn invalid_utf8_is_replaced() {
    let o = outcome_from_report("u".to_string(), exited(&[0x66, 0xff, 0x6f], b"", Some(3)));
    assert_eq!(o.stdout, "f\u{FFFD}o");
    assert_eq!(o.exit_code, 3);
}

#[test]
fn malformed_message_outcome() {
    let o = malformed_outcome("expected value at line 1 column 1".to_string());
    assert_eq!(o.id, "");
    assert_eq!(o.exit_code, 1);
    assert_eq!(o.error.as_deref(), Some("expected value at line 1 column 1"));
}

#[test]
fn outcome_strings_are_escaped() {
    let o = CommandOutcome {
        id: "q\"1".to_string(),
        stdout: "tab\there".to_string(),
        stderr: "back\\slash".to_string(),
        exit_code: -1,
        error: Some("boom".to_string()),
    };
    assert_eq!(
        encode_outcome(&o),
        "{\"id\":\"q\\\"1\",\"stdout\":\"tab\\there\",\"stderr\":\"back\\\\slash\",\"exit_code\":-1,\"error\":\"boom\"}"
    );
}

#[test]
fn decimal_text() {
    assert_eq!(decimal(0), "0");
    assert_eq!(decimal(7), "7");
    assert_eq!(decimal(120), "120");
    assert_eq!(decimal(-42), "-42");
    assert_eq!(decimal(i32::MAX), "2147483647");
    assert_eq!(decimal(i32::MIN), "-2147483648");
}

#[test]
fn shutdown_drops_every_pending_entry() {
    let mut bridge = Bridge::new();
    assert!(matches!(bridge.receive(invocation("x", &["sleep", "5"])), Reception::Dispatched(_)));
    assert!(matches!(bridge.receive(invocation("y", &["sleep", "5"])), Reception::Dispatched(_)));
    let mut abandoned = bridge.shutdown();
    abandoned.sort();
    assert_eq!(abandoned, vec!["x".to_string(), "y".to_string()]);
    assert_eq!(bridge.pending_count(), 0);
    assert!(bridge.complete("x", exited(b"", b"", Some(0))).is_none());
}

#[test]
fn control_characters_are_escaped_in_hex() {
    let o = CommandOutcome {
        id: "c".to_string(),
        stdout: "\u{1}\u{1f}\u{8}\u{c}\r".to_string(),
        stderr: "/é".to_string(),
        exit_code: 0,
        error: None,
    };
    assert_eq!(
        encode_outcome(&o),
        "{\"id\":\"c\",\"stdout\":\"\\u0001\\u001f\\b\\f\\r\",\"stderr\":\"/é\",\"exit_code\":0,\"error\":null}"
    );
}
