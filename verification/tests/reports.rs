use sudo39::elevation::{ElevationMode, Launcher};
use sudo39::output::{
    absorb_chunk, audit_policy_update_line, audit_request_line, configured_u64, format_output,
    parse_u64, timeout_message, ReadProgress, RunEvent, RunOutput,
};
use sudo39::output::{fallback_outcome, fallback_step, FallbackStep, output_limit_bytes, run_end_event, timeout_secs, wait_step, WaitStep};
use sudo39::policy::Policy;
use sudo39::protocol::into_mcp_error;
use sudo39::request::{normalize_program, CommandRequest, ErrorKind};
use sudo39::tools::{
    admit_run, confirm_add_allowed_program_prompt, confirm_reload_policy_from_env_prompt,
    confirm_remove_allowed_program_prompt, confirm_set_allow_unsafe_prompt, parse_enabled,
    RunAdmission,
};

fn request(program: &str, args: &[&str]) -> CommandRequest {
    CommandRequest::new(
        program.to_string(),
        Some(args.iter().map(|a| a.to_string()).collect()),
    )
    .unwrap()
}

#[test]
fn report_of_a_finished_run() {
    let req = request("id", &["-u"]);
    let out = RunOutput {
        launcher: Launcher::Sudo,
        status: Some(0),
        stdout: b"0\n".to_vec(),
        stderr: vec![],
        stdout_truncated: false,
        stderr_truncated: true,
    };
    assert_eq!(
        format_output(&req, ElevationMode::Auto, &out),
        "program: id\nargs: [\"-u\"]\nmode: auto\nlauncher: sudo\nlauncher_exit_status: 0\nstdout:\n0\n\nstderr:\n\n[truncated]"
    );
}

#[test]
fn report_of_a_signalled_run_with_invalid_utf8() {
    let req = request("x", &[]);
    let out = RunOutput {
        launcher: Launcher::Pkexec,
        status: None,
        stdout: vec![0x66, 0xff, 0x6f],
        stderr: b"err".to_vec(),
        stdout_truncated: true,
        stderr_truncated: false,
    };
    assert_eq!(
        format_output(&req, ElevationMode::Pkexec, &out),
        "program: x\nargs: []\nmode: pkexec\nlauncher: pkexec\nlauncher_exit_status: terminated by signal\nstdout:\nf\u{fffd}o\n[truncated]\nstderr:\nerr"
    );
}

#[test]
fn negative_exit_status() {
    let req = request("x", &[]);
    let out = RunOutput {
        launcher: Launcher::PowershellStartProcess,
        status: Some(-2147483648),
        stdout: vec![],
        stderr: vec![],
        stdout_truncated: false,
        stderr_truncated: false,
    };
    let text = format_output(&req, ElevationMode::WindowsUac, &out);
    assert!(text.contains("launcher: powershell_start_process\nlauncher_exit_status: -2147483648\n"));
}

#[test]
fn timeout_message_shows_partial_output() {
    assert_eq!(timeout_message(30, b"", b""), "timed out after 30 seconds");
    assert_eq!(
        timeout_message(5, b"half", b"oops"),
        "timed out after 5 seconds\npartial stdout:\nhalf\npartial stderr:\noops"
    );
    assert_eq!(
        timeout_message(18446744073709551615, b"", b"e"),
        "timed out after 18446744073709551615 seconds\npartial stderr:\ne"
    );
}

#[test]
fn capture_stops_at_the_limit() {
    let mut out = Vec::new();
    assert_eq!(absorb_chunk(&mut out, 4, b"abc"), ReadProgress::More);
    assert_eq!(absorb_chunk(&mut out, 4, b"defg"), ReadProgress::More);
    assert_eq!(out, b"abcd");
    assert_eq!(absorb_chunk(&mut out, 4, b"h"), ReadProgress::Finished(true));
    assert_eq!(out, b"abcd");
}

#[test]
fn capture_ends_at_end_of_stream() {
    let mut out = Vec::new();
    assert_eq!(absorb_chunk(&mut out, 10, b"hello"), ReadProgress::More);
    assert_eq!(absorb_chunk(&mut out, 10, b""), ReadProgress::Finished(false));
    assert_eq!(out, b"hello");
    let mut full = b"abcd".to_vec();
    assert_eq!(absorb_chunk(&mut full, 4, b""), ReadProgress::Finished(false));
}

#[test]
fn capture_keeps_the_first_bytes() {
    let chunks: [&[u8]; 4] = [b"ab", b"cde", b"", b"fg"];
    let mut out = Vec::new();
    for chunk in chunks.iter().filter(|c| !c.is_empty()) {
        if absorb_chunk(&mut out, 6, chunk) != ReadProgress::More {
            break;
        }
    }
    assert_eq!(out, b"abcdef");
}

#[test]
fn numbers_parse_like_std() {
    for text in ["0", "42", "+7", "007", "18446744073709551615", "18446744073709551616", "", "+", "-1", " 1", "1 ", "1_000", "٣"] {
        assert_eq!(parse_u64(text), text.parse::<u64>().ok(), "{text:?}");
    }
}

#[test]
fn settings_fall_back_to_defaults() {
    assert_eq!(configured_u64(None, 30), 30);
    assert_eq!(configured_u64(Some("5"), 30), 5);
    assert_eq!(configured_u64(Some("0"), 30), 30);
    assert_eq!(configured_u64(Some("abc"), 4096), 4096);
    assert_eq!(configured_u64(Some("+8192"), 4096), 8192);
}

#[test]
fn audit_lines() {
    let req = request("id", &["-u"]);
    assert_eq!(
        audit_request_line(RunEvent::Finish, 1700000000, ElevationMode::Sudo, &req, Some(-1)),
        "sudo39_audit event=finish unix_ts=1700000000 mode=sudo program=\"id\" args=[\"-u\"] status=Some(-1)"
    );
    assert_eq!(
        audit_request_line(RunEvent::Deny, 0, ElevationMode::Auto, &req, None),
        "sudo39_audit event=deny unix_ts=0 mode=auto program=\"id\" args=[\"-u\"] status=None"
    );
    assert_eq!(
        audit_policy_update_line(12, "set_allow_unsafe", "true"),
        "sudo39_audit event=policy_update unix_ts=12 action=set_allow_unsafe value=\"true\""
    );
}

#[test]
fn admission_checks_in_order() {
    let policy = Policy::from_env_values(Some("id"), None);
    match admit_run(&policy, " ".to_string(), None, Some("bogus")) {
        RunAdmission::Refused(e) => assert_eq!(e.message, "program must not be empty"),
        other => panic!("unexpected {other:?}"),
    }
    match admit_run(&policy, "id".to_string(), None, Some("bogus")) {
        RunAdmission::Refused(e) => assert_eq!(e.kind, ErrorKind::InvalidParams),
        other => panic!("unexpected {other:?}"),
    }
    match admit_run(&policy, "whoami".to_string(), None, None) {
        RunAdmission::Denied(req, mode, e) => {
            assert_eq!(req.program, "whoami");
            assert_eq!(mode, ElevationMode::Auto);
            assert_eq!(e.kind, ErrorKind::PermissionDenied);
        }
        other => panic!("unexpected {other:?}"),
    }
    match admit_run(
        &policy,
        " id".to_string(),
        Some(vec!["-u".to_string()]),
        Some("pkexec"),
    ) {
        RunAdmission::Admitted(req, mode) => {
            assert_eq!(req.program, "id");
            assert_eq!(req.args, vec!["-u".to_string()]);
            assert_eq!(mode, ElevationMode::Pkexec);
        }
        other => panic!("unexpected {other:?}"),
    }
}

#[test]
fn prompts_name_the_phrase() {
    assert_eq!(
        confirm_add_allowed_program_prompt(" id "),
        "To allow \"id\" for this running sudo39 server, call sudo39_add_allowed_program with confirmation exactly: ADD PROGRAM id"
    );
    assert_eq!(
        confirm_remove_allowed_program_prompt("id"),
        "To remove \"id\" from this running sudo39 server, call sudo39_remove_allowed_program with confirmation exactly: REMOVE PROGRAM id"
    );
    assert_eq!(
        confirm_set_allow_unsafe_prompt(" yes "),
        "To set runtime unsafe mode to true, call sudo39_set_allow_unsafe with confirmation exactly: ENABLE UNSAFE"
    );
    assert_eq!(
        confirm_set_allow_unsafe_prompt("TRUE"),
        "To set runtime unsafe mode to false, call sudo39_set_allow_unsafe with confirmation exactly: DISABLE UNSAFE"
    );
    assert_eq!(
        confirm_reload_policy_from_env_prompt(),
        "To replace the runtime policy with the process environment, call sudo39_reload_policy_from_env with confirmation exactly: RELOAD POLICY FROM ENV"
    );
}

#[test]
fn enabled_values() {
    for v in ["true", "1", "on", "yes", "  on\n"] {
        assert!(parse_enabled(v), "{v:?}");
    }
    for v in ["false", "0", "off", "", "Yes", "y"] {
        assert!(!parse_enabled(v), "{v:?}");
    }
}

#[test]
fn settings_defaults() {
    assert_eq!(timeout_secs(None), 30);
    assert_eq!(timeout_secs(Some("0")), 30);
    assert_eq!(timeout_secs(Some("120")), 120);
    assert_eq!(output_limit_bytes(None), 4096);
    assert_eq!(output_limit_bytes(Some("x")), 4096);
    assert_eq!(output_limit_bytes(Some("10")), 10);
}

#[test]
fn refusals_become_protocol_errors() {
    let refusal = CommandRequest::new("echo hello".to_string(), None).unwrap_err();
    let error = into_mcp_error(refusal);
    assert_eq!(format!("{:?}", error.kind), "InvalidParams");
    assert_eq!(error.message, "program must be a single program path without whitespace");
    let denied = sudo39::policy::require_confirmation("a", "b").unwrap_err();
    let error = into_mcp_error(denied);
    assert_eq!(format!("{:?}", error.kind), "PermissionDenied");
    assert_eq!(error.message, "confirmation mismatch; expected \"b\"");
    let internal = sudo39::request::ToolError {
        kind: ErrorKind::Internal,
        message: "policy lock poisoned".to_string(),
    };
    let error = into_mcp_error(internal);
    assert_eq!(format!("{:?}", error.kind), "Internal");
    assert_eq!(error.message, "policy lock poisoned");
}

#[test]
fn launcher_is_timed_out_at_the_deadline() {
    assert_eq!(wait_step(Some(Some(0)), 0, 30), WaitStep::Exited(Some(0)));
    assert_eq!(wait_step(Some(None), u128::MAX, 30), WaitStep::Exited(None));
    assert_eq!(wait_step(None, 29_999_999_999, 30), WaitStep::Poll);
    assert_eq!(wait_step(None, 30_000_000_000, 30), WaitStep::TimedOut);
    assert_eq!(wait_step(None, 0, 0), WaitStep::TimedOut);
    assert_eq!(wait_step(None, u128::MAX, u64::MAX), WaitStep::TimedOut);
    assert_eq!(wait_step(None, 1, u64::MAX), WaitStep::Poll);
}

#[test]
fn run_end_audit_event() {
    let out = RunOutput {
        launcher: Launcher::Sudo,
        status: Some(3),
        stdout: vec![],
        stderr: vec![],
        stdout_truncated: false,
        stderr_truncated: false,
    };
    assert_eq!(run_end_event(Some(&out)), (RunEvent::Finish, Some(3)));
    assert_eq!(run_end_event(None), (RunEvent::Error, None));
}

#[test]
fn every_unicode_white_space_is_trimmed() {
    let spaces = [
        '\u{9}', '\u{a}', '\u{b}', '\u{c}', '\u{d}', ' ', '\u{85}', '\u{a0}', '\u{1680}',
        '\u{2000}', '\u{2005}', '\u{200a}', '\u{2028}', '\u{2029}', '\u{202f}', '\u{205f}',
        '\u{3000}',
    ];
    for c in spaces {
        assert!(c.is_whitespace());
        let program = normalize_program(format!("{c}id{c}")).unwrap();
        assert_eq!(program, "id", "{c:?}");
    }
    for c in ['\u{200b}', '\u{180e}', '\u{feff}', 'x'] {
        assert!(!c.is_whitespace());
        assert_eq!(normalize_program(format!("{c}id")).unwrap(), format!("{c}id"));
    }
}

#[test]
fn protocol_error_kinds_and_messages() {
    let cases = [
        (ErrorKind::InvalidParams, "InvalidParams"),
        (ErrorKind::PermissionDenied, "PermissionDenied"),
        (ErrorKind::Internal, "Internal"),
    ];
    for (kind, name) in cases {
        let error = into_mcp_error(sudo39::request::ToolError {
            kind,
            message: format!("m {name}"),
        });
        assert_eq!(format!("{:?}", error.kind), name);
        assert_eq!(error.message, format!("m {name}"));
    }
}

#[test]
fn fallback_runs_second_only_after_first_fails() {
    let out = || RunOutput {
        launcher: Launcher::Sudo,
        status: Some(0),
        stdout: vec![],
        stderr: vec![],
        stdout_truncated: false,
        stderr_truncated: false,
    };
    let req = request("id", &[]);
    let second = match ElevationMode::Auto.plan(sudo39::elevation::HostOs::Linux, &req, false) {
        sudo39::elevation::ElevationPlan::LaunchWithFallback(_, second) => second,
        other => panic!("unexpected {other:?}"),
    };
    match fallback_step(Ok(out()), second) {
        FallbackStep::Done(o) => assert_eq!(o.status, Some(0)),
        other => panic!("unexpected {other:?}"),
    }
    let second = match ElevationMode::Auto.plan(sudo39::elevation::HostOs::Linux, &req, false) {
        sudo39::elevation::ElevationPlan::LaunchWithFallback(_, second) => second,
        other => panic!("unexpected {other:?}"),
    };
    match fallback_step(Err("sudo failed: no tty".to_string()), second) {
        FallbackStep::LaunchSecond(spec, first_error) => {
            assert_eq!(spec.launcher, Launcher::Pkexec);
            assert_eq!(first_error, "sudo failed: no tty");
            assert_eq!(
                fallback_outcome(&first_error, Err("pkexec failed: denied".to_string())).unwrap_err(),
                "sudo failed: sudo failed: no tty; pkexec failed: pkexec failed: denied"
            );
            assert_eq!(fallback_outcome(&first_error, Ok(out())).unwrap().status, Some(0));
        }
        other => panic!("unexpected {other:?}"),
    }
}

#[test]
fn audit_lines_stay_on_one_line() {
    let req = CommandRequest { program: "x\ry".to_string(), args: vec!["l1\nl2".to_string()] };
    let line = audit_request_line(RunEvent::Start, 1, ElevationMode::Auto, &req, None);
    assert!(!line.contains('\n') && !line.contains('\r'), "{line}");
    let line = audit_policy_update_line(1, "add_allowed_program", "p\nq");
    assert!(!line.contains('\n') && !line.contains('\r'), "{line}");
}

#[test]
fn empty_streams_give_empty_sections() {
    let req = request("id", &[]);
    let out = RunOutput {
        launcher: Launcher::Pkexec,
        status: Some(1),
        stdout: vec![],
        stderr: vec![],
        stdout_truncated: false,
        stderr_truncated: false,
    };
    assert!(format_output(&req, ElevationMode::Pkexec, &out).ends_with("stdout:\n\nstderr:\n"));
}
