use sudo39::policy::{
    confirm_add_program_phrase, confirm_reload_policy_phrase, confirm_remove_program_phrase,
    confirm_unsafe_phrase, Policy,
};
use sudo39::request::{normalize_program, CommandRequest, ErrorKind};

#[test]
fn normalizes_program() {
    let request = CommandRequest::new(" id ".to_string(), None).unwrap();
    assert_eq!(request.program, "id");
    assert!(request.args.is_empty());
}

#[test]
fn rejects_whitespace_in_program() {
    let error = CommandRequest::new("echo hello".to_string(), None).unwrap_err();
    assert!(error.message.contains("single program path"));
}

#[test]
fn confirmation_phrases_are_exact() {
    assert_eq!(confirm_add_program_phrase("id"), "ADD PROGRAM id");
    assert_eq!(confirm_remove_program_phrase("id"), "REMOVE PROGRAM id");
    assert_eq!(confirm_unsafe_phrase(true), "ENABLE UNSAFE");
    assert_eq!(confirm_unsafe_phrase(false), "DISABLE UNSAFE");
    assert_eq!(confirm_reload_policy_phrase(), "RELOAD POLICY FROM ENV");
}

#[test]
fn policy_describe_sorts_allowed_programs() {
    let policy = Policy::from_programs(vec!["whoami".to_string(), "id".to_string()], false);

    assert_eq!(
        policy.describe(),
        "allow_unsafe: false\nallowed_programs: [\"id\", \"whoami\"]"
    );
}

#[test]
fn empty_program_is_refused() {
    let error = normalize_program("   ".to_string()).unwrap_err();
    assert_eq!(error.kind, ErrorKind::InvalidParams);
    assert_eq!(error.message, "program must not be empty");
    let error = normalize_program(String::new()).unwrap_err();
    assert_eq!(error.message, "program must not be empty");
}

#[test]
fn whitespace_error_message_is_exact() {
    let error = normalize_program("echo\thello".to_string()).unwrap_err();
    assert_eq!(error.kind, ErrorKind::InvalidParams);
    assert_eq!(
        error.message,
        "program must be a single program path without whitespace"
    );
}

#[test]
fn unicode_white_space_is_trimmed() {
    // U+3000 ideographic space and U+00A0 no-break space are white space.
    let program = normalize_program("\u{3000}\u{a0}/usr/bin/id\n".to_string()).unwrap();
    assert_eq!(program, "/usr/bin/id");
    let error = normalize_program("a\u{2028}b".to_string()).unwrap_err();
    assert_eq!(error.kind, ErrorKind::InvalidParams);
}

#[test]
fn normalizing_twice_changes_nothing() {
    let once = normalize_program("  systemctl \r\n".to_string()).unwrap();
    let twice = normalize_program(once.clone()).unwrap();
    assert_eq!(once, "systemctl");
    assert_eq!(twice, once);
}

#[test]
fn request_keeps_arguments() {
    let request = CommandRequest::new(
        "systemctl".to_string(),
        Some(vec!["restart".to_string(), "nginx".to_string()]),
    )
    .unwrap();
    assert_eq!(request.program, "systemctl");
    assert_eq!(request.args, vec!["restart".to_string(), "nginx".to_string()]);
}

#[test]
fn non_ascii_program_paths_are_kept() {
    let program = normalize_program(" /opt/café/bin ".to_string()).unwrap();
    assert_eq!(program, "/opt/café/bin");
}
