use duomic::protocol::{
    add_command, is_pong, parse_device_list, parse_response, remove_command, DeviceInfo,
};
use duomic::reconcile::plan_sync;

#[test]
fn test_parse_response_ok() {
    assert!(parse_response("OK").is_ok());
    assert!(parse_response("OK:success").is_ok());
    assert!(parse_response("PONG").is_ok());
}

#[test]
fn test_parse_response_error() {
    let result = parse_response("ERROR:Device not found");
    assert!(result.is_err());
}

#[test]
fn response_payloads_are_trimmed() {
    assert_eq!(parse_response("OK:success").unwrap(), "success");
    assert_eq!(parse_response("OK: two mics \n").unwrap(), "two mics");
    assert_eq!(parse_response("OK").unwrap(), "");
    assert_eq!(
        parse_response("ERROR:Device not found").unwrap_err(),
        "Device not found"
    );
    assert_eq!(parse_response("PONG").unwrap(), "PONG");
    // Anything unrecognized passes through as a success, verbatim.
    assert_eq!(parse_response("weird reply").unwrap(), "weird reply");
}

#[test]
fn pong_matches_modulo_whitespace() {
    assert!(is_pong("PONG"));
    assert!(is_pong(" PONG\n"));
    assert!(!is_pong("PING"));
    assert!(!is_pong(""));
}

#[test]
fn lenient_list_parse_defaults_bad_channels_to_zero() {
    let records = parse_device_list("mic1:0,mic2:1\nmic3:bad");
    assert_eq!(records.len(), 3);
    assert_eq!(records[0].name, "mic1");
    assert_eq!(records[0].channel, 0);
    assert_eq!(records[1].name, "mic2");
    assert_eq!(records[1].channel, 1);
    assert_eq!(records[2].name, "mic3");
    assert_eq!(records[2].channel, 0);
}

#[test]
fn list_parse_edge_cases() {
    assert!(parse_device_list("").is_empty());
    assert!(parse_device_list("OK").is_empty());
    // Entries without a colon and blank entries are skipped.
    let records = parse_device_list(" left:2 , nocolon ,, right:+3 ");
    assert_eq!(records.len(), 2);
    assert_eq!(records[0].name, "left");
    assert_eq!(records[0].channel, 2);
    assert_eq!(records[1].name, "right");
    assert_eq!(records[1].channel, 3);
    // A channel too large for 32 bits falls back to zero.
    let records = parse_device_list("wide:99999999999");
    assert_eq!(records.len(), 1);
    assert_eq!(records[0].channel, 0);
}

#[test]
fn command_lines_are_exact() {
    assert_eq!(add_command("Desk Mic", 3), "ADD Desk Mic:3");
    assert_eq!(add_command("m", 4294967295), "ADD m:4294967295");
    assert_eq!(remove_command("Desk Mic"), "REMOVE Desk Mic");
}

fn rec(name: &str, channel: u32) -> DeviceInfo {
    DeviceInfo { name: name.to_string(), channel }
}

#[test]
fn sync_plan_converges_on_the_desired_set() {
    let current = vec![rec("A", 0), rec("B", 1)];
    let desired = vec![rec("B", 1), rec("C", 2)];
    let plan = plan_sync(&current, &desired);
    assert_eq!(plan.removals, vec!["A".to_string()]);
    assert_eq!(plan.additions.len(), 1);
    assert_eq!(plan.additions[0].name, "C");
    assert_eq!(plan.additions[0].channel, 2);
}

#[test]
fn sync_plan_is_empty_once_sets_match() {
    // Right after a successful pass the consumer lists the desired names;
    // the second pass issues nothing.
    let desired = vec![rec("B", 1), rec("C", 2)];
    let listed = vec![rec("C", 2), rec("B", 1)];
    let plan = plan_sync(&listed, &desired);
    assert!(plan.removals.is_empty());
    assert!(plan.additions.is_empty());
}

#[test]
fn sync_plan_removes_everything_for_an_empty_desired_set() {
    let current = vec![rec("A", 0), rec("B", 1)];
    let plan = plan_sync(&current, &vec![]);
    assert_eq!(plan.removals, vec!["A".to_string(), "B".to_string()]);
    assert!(plan.additions.is_empty());
}
