use sudo39::policy::{
    authorize_add, authorize_remove, require_confirmation, validate_request, Policy,
};
use sudo39::request::{CommandRequest, ErrorKind};

fn request(program: &str) -> CommandRequest {
    CommandRequest::new(program.to_string(), None).unwrap()
}

#[test]
fn default_policy_denies_everything() {
    let policy = Policy::from_env_values(None, None);
    assert_eq!(policy.describe(), "allow_unsafe: false\nallowed_programs: []");
    let error = validate_request(&policy, &request("id")).unwrap_err();
    assert_eq!(error.kind, ErrorKind::PermissionDenied);
    assert_eq!(
        error.message,
        "program is not allowed; set SUDO39_ALLOWED_PROGRAMS or SUDO39_ALLOW_UNSAFE=1"
    );
}

#[test]
fn allowlist_setting_is_split_and_trimmed() {
    let policy = Policy::from_env_values(Some(" id, whoami ,,systemctl , "), None);
    assert!(policy.is_allowed("id"));
    assert!(policy.is_allowed("whoami"));
    assert!(policy.is_allowed("systemctl"));
    assert!(!policy.is_allowed(""));
    assert!(!policy.is_allowed(" id"));
    assert_eq!(
        policy.describe(),
        "allow_unsafe: false\nallowed_programs: [\"id\", \"systemctl\", \"whoami\"]"
    );
    assert!(validate_request(&policy, &request("whoami")).is_ok());
    assert!(validate_request(&policy, &request("reboot")).is_err());
}

#[test]
fn allowlist_entries_keep_inner_spaces() {
    let policy = Policy::from_env_values(Some("a b,c"), None);
    assert!(policy.is_allowed("a b"));
    assert!(policy.is_allowed("c"));
    assert!(!policy.is_allowed("a"));
}

#[test]
fn unsafe_switch_needs_exactly_one() {
    assert!(Policy::from_env_values(None, Some("1")).describe().starts_with("allow_unsafe: true\n"));
    for value in ["true", " 1", "1 ", "yes", "0", ""] {
        let policy = Policy::from_env_values(None, Some(value));
        assert!(policy.describe().starts_with("allow_unsafe: false\n"), "{value:?}");
    }
}

#[test]
fn unsafe_mode_permits_any_program() {
    let policy = Policy::from_env_values(None, Some("1"));
    assert!(validate_request(&policy, &request("/bin/anything")).is_ok());
}

#[test]
fn accepted_add_then_run_is_permitted() {
    let mut policy = Policy::new(false);
    let update = policy.add_allowed_program(" id ".to_string(), "ADD PROGRAM id").unwrap();
    assert_eq!(update.action, "add_allowed_program");
    assert_eq!(update.value, "id");
    assert_eq!(update.reply, "allowed program added: id");
    assert!(validate_request(&policy, &request(" id ")).is_ok());
}

#[test]
fn refused_add_leaves_policy_unchanged() {
    let mut policy = Policy::from_programs(vec!["whoami".to_string()], false);
    let before = policy.describe();
    let error = policy.add_allowed_program("id".to_string(), "add program id").unwrap_err();
    assert_eq!(error.kind, ErrorKind::PermissionDenied);
    assert_eq!(error.message, "confirmation mismatch; expected \"ADD PROGRAM id\"");
    assert_eq!(policy.describe(), before);
    let error = policy.add_allowed_program("a b".to_string(), "ADD PROGRAM a b").unwrap_err();
    assert_eq!(error.kind, ErrorKind::InvalidParams);
    assert_eq!(policy.describe(), before);
}

#[test]
fn adding_twice_is_adding_once() {
    let mut policy = Policy::new(false);
    policy.add_allowed_program("id".to_string(), "ADD PROGRAM id").unwrap();
    let once = policy.describe();
    policy.add_allowed_program("id".to_string(), "ADD PROGRAM id").unwrap();
    assert_eq!(policy.describe(), once);
    assert_eq!(once, "allow_unsafe: false\nallowed_programs: [\"id\"]");
}

#[test]
fn remove_undoes_add() {
    let mut policy = Policy::from_programs(vec!["whoami".to_string()], false);
    let before = policy.describe();
    policy.add_allowed_program("id".to_string(), "ADD PROGRAM id").unwrap();
    let update = policy
        .remove_allowed_program("id".to_string(), "REMOVE PROGRAM id")
        .unwrap();
    assert_eq!(update.action, "remove_allowed_program");
    assert_eq!(update.reply, "allowed program removed: id");
    assert_eq!(policy.describe(), before);
    assert!(validate_request(&policy, &request("id")).is_err());
}

#[test]
fn removing_an_absent_program_changes_nothing() {
    let mut policy = Policy::from_programs(vec!["whoami".to_string()], false);
    policy
        .remove_allowed_program("id".to_string(), "REMOVE PROGRAM id")
        .unwrap();
    assert_eq!(policy.describe(), "allow_unsafe: false\nallowed_programs: [\"whoami\"]");
}

#[test]
fn phrase_of_one_program_does_not_confirm_another() {
    let mut policy = Policy::new(false);
    let error = policy.add_allowed_program("sh".to_string(), "ADD PROGRAM id").unwrap_err();
    assert_eq!(error.message, "confirmation mismatch; expected \"ADD PROGRAM sh\"");
    let error = policy
        .remove_allowed_program("id".to_string(), "ADD PROGRAM id")
        .unwrap_err();
    assert_eq!(error.message, "confirmation mismatch; expected \"REMOVE PROGRAM id\"");
}

#[test]
fn unsafe_switch_needs_its_phrase() {
    let mut policy = Policy::new(false);
    let error = policy.set_allow_unsafe(true, "DISABLE UNSAFE").unwrap_err();
    assert_eq!(error.message, "confirmation mismatch; expected \"ENABLE UNSAFE\"");
    assert!(validate_request(&policy, &request("id")).is_err());
    let update = policy.set_allow_unsafe(true, "ENABLE UNSAFE").unwrap();
    assert_eq!(update.action, "set_allow_unsafe");
    assert_eq!(update.value, "true");
    assert_eq!(update.reply, "allow unsafe set to true");
    assert!(validate_request(&policy, &request("id")).is_ok());
    let update = policy.set_allow_unsafe(false, "DISABLE UNSAFE").unwrap();
    assert_eq!(update.reply, "allow unsafe set to false");
    assert!(validate_request(&policy, &request("id")).is_err());
}

#[test]
fn reload_replaces_the_policy() {
    let mut policy = Policy::from_programs(vec!["id".to_string()], true);
    let reloaded = Policy::from_env_values(Some("whoami"), None);
    let update = policy.reload(reloaded, "RELOAD POLICY FROM ENV").unwrap();
    assert_eq!(update.action, "reload_from_env");
    assert_eq!(update.value, "SUDO39_ALLOWED_PROGRAMS,SUDO39_ALLOW_UNSAFE");
    assert_eq!(
        update.reply,
        "policy reloaded from environment\nallow_unsafe: false\nallowed_programs: [\"whoami\"]"
    );
    assert!(validate_request(&policy, &request("id")).is_err());
    assert!(validate_request(&policy, &request("whoami")).is_ok());
}

#[test]
fn refused_reload_keeps_the_policy() {
    let mut policy = Policy::from_programs(vec!["id".to_string()], true);
    let error = policy
        .reload(Policy::new(false), "reload policy from env")
        .unwrap_err();
    assert_eq!(error.kind, ErrorKind::PermissionDenied);
    assert_eq!(
        error.message,
        "confirmation mismatch; expected \"RELOAD POLICY FROM ENV\""
    );
    assert_eq!(policy.describe(), "allow_unsafe: true\nallowed_programs: [\"id\"]");
}

#[test]
fn authorization_normalizes_before_checking_the_phrase() {
    assert_eq!(authorize_add(" id\n".to_string(), "ADD PROGRAM id").unwrap(), "id");
    assert_eq!(
        authorize_remove("\tid".to_string(), "REMOVE PROGRAM id").unwrap(),
        "id"
    );
    let error = authorize_add("".to_string(), "ADD PROGRAM ").unwrap_err();
    assert_eq!(error.message, "program must not be empty");
}

#[test]
fn mismatch_message_quotes_the_phrase() {
    let error = require_confirmation("x", "A \"quoted\" phrase").unwrap_err();
    assert_eq!(
        error.message,
        "confirmation mismatch; expected \"A \\\"quoted\\\" phrase\""
    );
    assert!(require_confirmation("same", "same").is_ok());
}

#[test]
fn describe_sorts_by_code_point() {
    let policy = Policy::from_programs(
        vec![
            "b".to_string(),
            "B".to_string(),
            "ab".to_string(),
            "a".to_string(),
            "é".to_string(),
        ],
        false,
    );
    assert_eq!(
        policy.describe(),
        "allow_unsafe: false\nallowed_programs: [\"B\", \"a\", \"ab\", \"b\", \"é\"]"
    );
}

#[test]
fn describe_escapes_like_debug() {
    let policy = Policy::from_programs(vec!["tab\there".to_string(), "q\"".to_string()], false);
    let mut expected = vec!["tab\there".to_string(), "q\"".to_string()];
    expected.sort();
    assert_eq!(
        policy.describe(),
        format!("allow_unsafe: false\nallowed_programs: {:?}", expected)
    );
}
