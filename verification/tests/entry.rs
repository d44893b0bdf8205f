use codex_trace::json::Json;
use codex_trace::parser::entry::{event_msg_type, parse_timestamp_secs, wrap_seconds, RawEntry};

#[test]
fn parse_new_session_meta() {
    let line = r#"{"timestamp":"2026-04-25T10:00:00Z","type":"session_meta","payload":{"id":"abc","cwd":"/tmp"}}"#;
    let e = RawEntry::parse(line).unwrap();
    assert_eq!(e.entry_type, "session_meta");
    assert_eq!(e.payload.get_str("id"), Some("abc"));
}

#[test]
fn parse_state_placeholder_returns_none() {
    let line = r#"{"record_type":"state"}"#;
    assert!(RawEntry::parse(line).is_none());
}

#[test]
fn parse_event_msg() {
    let line = r#"{"timestamp":"2026-04-25T10:00:00Z","type":"event_msg","payload":{"type":"user_message","message":"hello"}}"#;
    let e = RawEntry::parse(line).unwrap();
    assert_eq!(e.entry_type, "event_msg");
    assert_eq!(event_msg_type(&e.payload), Some("user_message"));
}

#[test]
fn parse_timestamp() {
    assert!(parse_timestamp_secs("2026-04-25T10:00:00Z").is_some());
}

#[test]
fn response_item_payload_types_parsed_from_jsonl_not_cli_subcommand() {
    let cases = [
        (
            r#"{"timestamp":"2026-04-25T10:00:00Z","type":"response_item","payload":{"type":"function_call","name":"exec_command","call_id":"c1"}}"#,
            "function_call",
        ),
        (
            r#"{"timestamp":"2026-04-25T10:00:01Z","type":"response_item","payload":{"type":"function_call_output","call_id":"c1","output":"ok"}}"#,
            "function_call_output",
        ),
        (
            r#"{"timestamp":"2026-04-25T10:00:02Z","type":"response_item","payload":{"type":"message","role":"assistant","content":"hello"}}"#,
            "message",
        ),
        (
            r#"{"timestamp":"2026-04-25T10:00:03Z","type":"response_item","payload":{"type":"reasoning","encrypted_content":"..."}}"#,
            "reasoning",
        ),
    ];
    for (line, expected_payload_type) in cases {
        let e = RawEntry::parse(line).unwrap();
        assert_eq!(e.entry_type, "response_item");
        assert_eq!(e.payload.get_str("type"), Some(expected_payload_type));
    }
}

#[test]
fn codex_cli_flags_read_as_jsonl_data_not_invoked() {
    let line = r#"{"timestamp":"2026-04-30T12:00:00Z","type":"session_meta","payload":{"id":"s1","cwd":"/home/user","permission_profile":"full-auto"}}"#;
    let e = RawEntry::parse(line).unwrap();
    assert_eq!(e.entry_type, "session_meta");
    assert_eq!(e.payload.get_str("permission_profile"), Some("full-auto"));
}


#[test]
fn view_mode_unloaded_returns_none() {
    let line = r#"{"timestamp":"2026-05-08T10:00:00Z","type":"response_item","view_mode":"unloaded","payload":{"type":"function_call","name":"exec_command","call_id":"c1"}}"#;
    assert!(RawEntry::parse(line).is_none());
}

#[test]
fn view_mode_summary_returns_none() {
    let line = r#"{"timestamp":"2026-05-08T10:00:00Z","type":"response_item","view_mode":"summary","payload":{"type":"message","role":"assistant","content":"partial"}}"#;
    assert!(RawEntry::parse(line).is_none());
}

#[test]
fn view_mode_full_is_parsed_normally() {
    let line = r#"{"timestamp":"2026-05-08T10:00:00Z","type":"response_item","view_mode":"full","payload":{"type":"function_call","name":"exec_command","call_id":"c2"}}"#;
    let e = RawEntry::parse(line).expect("view_mode:full must parse");
    assert_eq!(e.entry_type, "response_item");
    assert_eq!(e.payload.get_str("name"), Some("exec_command"));
}

#[test]
fn absent_view_mode_is_parsed_normally() {
    let line = r#"{"timestamp":"2026-05-08T10:00:00Z","type":"response_item","payload":{"type":"message","role":"assistant","content":"hello"}}"#;
    let e = RawEntry::parse(line).expect("legacy entry without view_mode must parse");
    assert_eq!(e.entry_type, "response_item");
}

#[test]
fn log_db_log_writer_refactor_does_not_affect_jsonl_session_parser() {
    let lines = [
        r#"{"timestamp":"2026-04-30T10:00:00Z","type":"session_meta","payload":{"id":"v0128-session","timestamp":"2026-04-30T10:00:00Z","cwd":"/tmp","cli_version":"0.128.0","model_provider":"openai"}}"#,
        r#"{"timestamp":"2026-04-30T10:00:01Z","type":"event_msg","payload":{"type":"task_started","turn_id":"turn-1"}}"#,
        r#"{"timestamp":"2026-04-30T10:00:02Z","type":"response_item","payload":{"type":"message","role":"assistant","content":"Hello"}}"#,
        r#"{"timestamp":"2026-04-30T10:00:03Z","type":"turn_context","payload":{"model":"gpt-5.4","cwd":"/tmp"}}"#,
        r#"{"timestamp":"2026-04-30T10:00:04Z","type":"event_msg","payload":{"type":"task_complete","turn_id":"turn-1","completed_at":1746007204.0}}"#,
    ];
    let expected_types = [
        "session_meta",
        "event_msg",
        "response_item",
        "turn_context",
        "event_msg",
    ];
    for (line, expected) in lines.iter().zip(expected_types.iter()) {
        let entry = RawEntry::parse(line).expect("parse failed");
        assert_eq!(entry.entry_type, *expected, "wrong type for: {line}");
    }
    let meta = RawEntry::parse(lines[0]).unwrap();
    assert_eq!(meta.payload.get_str("cli_version"), Some("0.128.0"));
}

#[test]
fn text_that_is_no_json_is_no_entry() {
    assert!(RawEntry::parse("not json").is_none());
    assert!(RawEntry::parse("").is_none());
}

#[test]
fn entries_keep_their_whole_line() {
    let line = r#"{"type":"x","payload":{"a":[1,true,null]},"timestamp":"t"}"#;
    let e = RawEntry::parse(line).unwrap();
    assert_eq!(e.timestamp, Some("t".to_string()));
    assert_eq!(e.raw, Json::parse(line).unwrap());
    assert_eq!(e.payload, Json::parse(r#"{"a":[1,true,null]}"#).unwrap());
}

#[test]
fn a_missing_payload_is_null() {
    let e = RawEntry::parse(r#"{"type":"x"}"#).unwrap();
    assert_eq!(e.payload, Json::Null);
    assert_eq!(e.timestamp, None);
}

#[test]
fn older_formats_are_told_by_their_members() {
    let cases = [
        (r#"{"payload":{}}"#, "session_meta"),
        (r#"{"id":"i","timestamp":"t"}"#, "session_meta_root"),
        (r#"{"call_id":"c","arguments":"{}","name":"n"}"#, "function_call"),
        (r#"{"call_id":"c","output":"o"}"#, "function_call_output"),
        (r#"{"role":"user","content":"c"}"#, "message"),
        (r#"{"encrypted_content":"x"}"#, "reasoning"),
        (r#"{"call_id":"c"}"#, "unknown"),
        (r#"{"type":7}"#, "unknown"),
        ("[]", "unknown"),
    ];
    for (line, expected) in cases {
        assert_eq!(RawEntry::parse(line).unwrap().entry_type, expected);
    }
}

#[test]
fn a_view_mode_that_is_no_text_is_ignored() {
    assert!(RawEntry::parse(r#"{"type":"x","view_mode":1}"#).is_some());
}

#[test]
fn timestamps_are_read_exactly() {
    assert_eq!(parse_timestamp_secs("2026-04-25T10:00:00Z"), Some(1_777_111_200));
    assert_eq!(parse_timestamp_secs("1970-01-01T00:00:01+00:00"), Some(1));
    assert_eq!(parse_timestamp_secs("yesterday"), None);
}

#[test]
fn times_before_1970_wrap_around() {
    assert_eq!(parse_timestamp_secs("1969-12-31T23:59:59Z"), Some(u64::MAX));
    assert_eq!(wrap_seconds(-1), u64::MAX);
    assert_eq!(wrap_seconds(5), 5);
}

#[test]
fn events_have_the_type_of_their_payload() {
    assert_eq!(event_msg_type(&Json::parse(r#"{"type":"task_started"}"#).unwrap()), Some("task_started"));
    assert_eq!(event_msg_type(&Json::Null), None);
}
