use quicktrad::headless::{headless_command, HeadlessCommand};

fn args(list: &[&str]) -> Vec<String> {
    list.iter().map(|s| s.to_string()).collect()
}

#[test]
fn query_takes_the_next_argument() {
    match headless_command(&args(&["quicktrad", "--query", "bom dia"])) {
        Some(HeadlessCommand::Query(t)) => assert_eq!(t, "bom dia"),
        other => panic!("unexpected {:?}", other),
    }
}

#[test]
fn query_without_text_is_empty() {
    match headless_command(&args(&["quicktrad", "--query"])) {
        Some(HeadlessCommand::Query(t)) => assert_eq!(t, ""),
        other => panic!("unexpected {:?}", other),
    }
}

#[test]
fn query_wins_over_other_commands() {
    match headless_command(&args(&["--swap", "--query", "a", "--query", "b"])) {
        Some(HeadlessCommand::Query(t)) => assert_eq!(t, "a"),
        other => panic!("unexpected {:?}", other),
    }
}

#[test]
fn swap_status_usage_order() {
    assert!(matches!(headless_command(&args(&["--status", "--swap"])), Some(HeadlessCommand::Swap)));
    assert!(matches!(headless_command(&args(&["--usage", "--status"])), Some(HeadlessCommand::Status)));
    assert!(matches!(headless_command(&args(&["--usage"])), Some(HeadlessCommand::Usage)));
    assert!(headless_command(&args(&["quicktrad", "--toggle", "--pt"])).is_none());
}
