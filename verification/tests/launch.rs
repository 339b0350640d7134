use sudo39::elevation::{
    apple_script_string, fallback_failure_message, powershell_single_quote, shell_join,
    shell_single_quote, ElevationMode, ElevationPlan, HostOs, LaunchSpec, Launcher,
};
use sudo39::request::{CommandRequest, ErrorKind};

fn request(program: &str, args: &[&str]) -> CommandRequest {
    CommandRequest::new(
        program.to_string(),
        Some(args.iter().map(|a| a.to_string()).collect()),
    )
    .unwrap()
}

fn single(plan: ElevationPlan) -> LaunchSpec {
    match plan {
        ElevationPlan::Launch(spec) => spec,
        other => panic!("expected one launch, got {other:?}"),
    }
}

#[test]
fn modes_parse_by_name() {
    assert_eq!(ElevationMode::parse(None).unwrap(), ElevationMode::Auto);
    for mode in [
        ElevationMode::Auto,
        ElevationMode::Sudo,
        ElevationMode::Pkexec,
        ElevationMode::MacosOsascript,
        ElevationMode::WindowsUac,
    ] {
        assert_eq!(ElevationMode::parse(Some(mode.as_str())).unwrap(), mode);
    }
    assert_eq!(ElevationMode::Pkexec.as_str(), "pkexec");
}

#[test]
fn unknown_mode_is_refused() {
    let error = ElevationMode::parse(Some("doas")).unwrap_err();
    assert_eq!(error.kind, ErrorKind::InvalidParams);
    assert_eq!(
        error.message,
        "unsupported elevation mode \"doas\"; use auto, sudo, pkexec, macos_osascript, or windows_uac"
    );
    assert!(ElevationMode::parse(Some("Auto")).is_err());
    assert!(ElevationMode::parse(Some(" sudo")).is_err());
}

#[test]
fn sudo_without_askpass_never_prompts() {
    let req = request("systemctl", &["restart", "nginx"]);
    let spec = single(ElevationMode::Sudo.plan(HostOs::Linux, &req, false));
    assert_eq!(spec.launcher, Launcher::Sudo);
    assert_eq!(spec.args, vec!["-n", "--", "systemctl", "restart", "nginx"]);
    assert!(!spec.use_askpass);
}

#[test]
fn sudo_with_askpass_uses_the_helper() {
    let req = request("id", &[]);
    let spec = single(ElevationMode::Sudo.plan(HostOs::MacOs, &req, true));
    assert_eq!(spec.args, vec!["-A", "--", "id"]);
    assert!(spec.use_askpass);
    assert_eq!(spec.launcher.program(), "sudo");
    assert_eq!(spec.launcher.label(), "sudo");
}

#[test]
fn auto_on_linux_falls_back_to_pkexec() {
    let req = request("id", &["-u"]);
    match ElevationMode::Auto.plan(HostOs::Linux, &req, false) {
        ElevationPlan::LaunchWithFallback(first, second) => {
            assert_eq!(first.launcher, Launcher::Sudo);
            assert_eq!(first.args, vec!["-n", "--", "id", "-u"]);
            assert_eq!(second.launcher, Launcher::Pkexec);
            assert_eq!(second.args, vec!["id", "-u"]);
            assert!(!second.use_askpass);
        }
        other => panic!("unexpected plan {other:?}"),
    }
}

#[test]
fn modes_unavailable_on_other_hosts() {
    let req = request("id", &[]);
    let message = |plan: ElevationPlan| match plan {
        ElevationPlan::Unavailable(m) => m,
        other => panic!("unexpected plan {other:?}"),
    };
    assert_eq!(
        message(ElevationMode::Sudo.plan(HostOs::Windows, &req, false)),
        "sudo mode is only available on Linux and macOS"
    );
    assert_eq!(
        message(ElevationMode::Pkexec.plan(HostOs::MacOs, &req, false)),
        "pkexec mode is only available on Linux"
    );
    assert_eq!(
        message(ElevationMode::MacosOsascript.plan(HostOs::Linux, &req, false)),
        "macos_osascript mode is only available on macOS"
    );
    assert_eq!(
        message(ElevationMode::WindowsUac.plan(HostOs::Linux, &req, false)),
        "windows_uac mode is only available on Windows"
    );
    assert_eq!(
        message(ElevationMode::Auto.plan(HostOs::Other, &req, false)),
        "auto elevation is only implemented for Linux, macOS, and Windows"
    );
}

#[test]
fn osascript_script_quotes_every_word() {
    let req = request("/bin/echo", &["it's", "a \"b\""]);
    assert_eq!(shell_join(&req), "'/bin/echo' 'it'\\''s' 'a \"b\"'");
    let spec = single(ElevationMode::Auto.plan(HostOs::MacOs, &req, true));
    assert_eq!(spec.launcher, Launcher::Osascript);
    assert!(!spec.use_askpass);
    assert_eq!(
        spec.args,
        vec![
            "-e".to_string(),
            "do shell script \"'/bin/echo' 'it'\\\\''s' 'a \\\"b\\\"'\" with administrator privileges"
                .to_string(),
        ]
    );
}

#[test]
fn quoting_helpers() {
    assert_eq!(shell_single_quote("a'b"), "'a'\\''b'");
    assert_eq!(shell_single_quote(""), "''");
    assert_eq!(apple_script_string("a\\b\"c"), "\"a\\\\b\\\"c\"");
    assert_eq!(powershell_single_quote("it's"), "it''s");
}

#[test]
fn windows_uac_script() {
    let req = request("C:\\Tools\\x.exe", &["a'b", "c"]);
    let spec = single(ElevationMode::WindowsUac.plan(HostOs::Windows, &req, false));
    assert_eq!(spec.launcher, Launcher::PowershellStartProcess);
    assert_eq!(spec.launcher.program(), "powershell.exe");
    assert_eq!(spec.launcher.label(), "powershell_start_process");
    assert_eq!(
        spec.args,
        vec![
            "-NoProfile".to_string(),
            "-NonInteractive".to_string(),
            "-Command".to_string(),
            "Start-Process -FilePath 'C:\\Tools\\x.exe' -ArgumentList @('a''b', 'c') -Verb RunAs -Wait"
                .to_string(),
        ]
    );
    let empty = request("x", &[]);
    let spec = single(ElevationMode::Auto.plan(HostOs::Windows, &empty, false));
    assert_eq!(spec.args[3], "Start-Process -FilePath 'x' -Verb RunAs -Wait");
}

#[test]
fn failure_messages() {
    assert_eq!(Launcher::Sudo.failure_message("boom"), "sudo failed: boom");
    assert_eq!(
        Launcher::PowershellStartProcess.failure_message("x"),
        "powershell UAC failed: x"
    );
    assert_eq!(Launcher::Osascript.failure_message("x"), "osascript failed: x");
    assert_eq!(
        fallback_failure_message("sudo failed: a", "pkexec failed: b"),
        "sudo failed: sudo failed: a; pkexec failed: pkexec failed: b"
    );
}

#[test]
fn uac_without_arguments_passes_no_argument_list() {
    let req = request("id", &[]);
    let spec = single(ElevationMode::Auto.plan(HostOs::Windows, &req, false));
    assert_eq!(spec.args[3], "Start-Process -FilePath 'id' -Verb RunAs -Wait");
}

#[test]
fn powershell_quote_marks_are_all_doubled() {
    assert_eq!(
        powershell_single_quote("a\u{2018}b\u{2019}c\u{201a}d\u{201b}e'f"),
        "a\u{2018}\u{2018}b\u{2019}\u{2019}c\u{201a}\u{201a}d\u{201b}\u{201b}e''f"
    );
    let req = request("C:\\x\u{2019}.exe", &["\u{2019}; Remove-Item C:\\"]);
    let spec = single(ElevationMode::WindowsUac.plan(HostOs::Windows, &req, false));
    assert_eq!(
        spec.args[3],
        "Start-Process -FilePath 'C:\\x\u{2019}\u{2019}.exe' -ArgumentList @('\u{2019}\u{2019}; Remove-Item C:\\') -Verb RunAs -Wait"
    );
}

#[test]
fn double_quotes_are_left_alone_by_powershell_quoting() {
    assert_eq!(powershell_single_quote("say \"hi\" \u{201c}x\u{201d}"), "say \"hi\" \u{201c}x\u{201d}");
}
