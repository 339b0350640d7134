//! Elevation modes and the launcher command that each mode runs on each
//! host system, with the quoting that the launchers need.
use vstd::prelude::*;

use crate::request::{is_error, CommandRequest, ErrorKind, ToolError};
use crate::text::{chars_of, debug_quoted, debug_str, join, push_char, same_text, texts};

verus! {

/// How a command is elevated.
#[derive(Clone, Copy, Debug, PartialEq, Eq, Structural)]
pub enum ElevationMode {
    Auto,
    Sudo,
    Pkexec,
    MacosOsascript,
    WindowsUac,
}

/// The system the server runs on.
#[derive(Clone, Copy, Debug, PartialEq, Eq, Structural)]
pub enum HostOs {
    Linux,
    MacOs,
    Windows,
    Other,
}

/// The program that performs the elevation.
#[derive(Clone, Copy, Debug, PartialEq, Eq, Structural)]
pub enum Launcher {
    Sudo,
    Pkexec,
    Osascript,
    PowershellStartProcess,
}

/// One launcher command: the launcher, its arguments, and whether the
/// askpass helper is handed to it.
#[derive(Debug)]
pub struct LaunchSpec {
    pub launcher: Launcher,
    pub args: Vec<String>,
    pub use_askpass: bool,
}

/// What running a request in a mode comes to on a host: one launcher
/// command, a command with a second one to try when the first fails, or a
/// refusal with its message.
#[derive(Debug)]
pub enum ElevationPlan {
    Launch(LaunchSpec),
    LaunchWithFallback(LaunchSpec, LaunchSpec),
    Unavailable(String),
}

/// The value of an `ElevationPlan`: launchers with their argument texts.
pub enum PlanView {
    Launch(Launcher, Seq<Seq<char>>, bool),
    LaunchWithFallback(Launcher, Seq<Seq<char>>, bool, Launcher, Seq<Seq<char>>, bool),
    Unavailable(Seq<char>),
}

/// The quoting rules of the launchers' command languages.
#[derive(Clone, Copy, Debug, PartialEq, Eq, Structural)]
pub enum Quoting {
    /// Inside single quotes of a POSIX shell, `'` becomes `'\''`.
    Shell,
    /// Inside an AppleScript string, `\` and `"` get a backslash.
    AppleScript,
    /// Inside single quotes of PowerShell, each single quote mark (`'` and
    /// U+2018 to U+201B) is doubled.
    PowerShell,
}

/// The name of a mode, as requests and reports spell it.
pub open spec fn mode_name(m: ElevationMode) -> Seq<char> {
    match m {
        ElevationMode::Auto => "auto"@,
        ElevationMode::Sudo => "sudo"@,
        ElevationMode::Pkexec => "pkexec"@,
        ElevationMode::MacosOsascript => "macos_osascript"@,
        ElevationMode::WindowsUac => "windows_uac"@,
    }
}

/// The mode that a name spells, if any.
pub open spec fn mode_named(s: Seq<char>) -> Option<ElevationMode> {
    if s == "auto"@ {
        Some(ElevationMode::Auto)
    } else if s == "sudo"@ {
        Some(ElevationMode::Sudo)
    } else if s == "pkexec"@ {
        Some(ElevationMode::Pkexec)
    } else if s == "macos_osascript"@ {
        Some(ElevationMode::MacosOsascript)
    } else if s == "windows_uac"@ {
        Some(ElevationMode::WindowsUac)
    } else {
        None
    }
}

pub open spec fn unsupported_mode_message(s: Seq<char>) -> Seq<char> {
    "unsupported elevation mode "@ + debug_str(s)
        + "; use auto, sudo, pkexec, macos_osascript, or windows_uac"@
}

/// The characters that open and close a PowerShell single-quoted string:
/// `'` and U+2018, U+2019, U+201A, U+201B.
pub open spec fn is_powershell_quote(c: char) -> bool {
    c == '\'' || c == '\u{2018}' || c == '\u{2019}' || c == '\u{201a}' || c == '\u{201b}'
}

/// The escape of one character under a quoting rule.
pub open spec fn escape_char(q: Quoting, c: char) -> Seq<char> {
    match q {
        Quoting::Shell => if c == '\'' {
            seq!['\'', '\\', '\'', '\'']
        } else {
            seq![c]
        },
        Quoting::AppleScript => if c == '\\' {
            seq!['\\', '\\']
        } else if c == '"' {
            seq!['\\', '"']
        } else {
            seq![c]
        },
        Quoting::PowerShell => if is_powershell_quote(c) {
            seq![c, c]
        } else {
            seq![c]
        },
    }
}

/// Each character of `s` escaped under `q`.
pub open spec fn escaped(q: Quoting, s: Seq<char>) -> Seq<char>
    decreases s.len(),
{
    if s.len() == 0 {
        Seq::empty()
    } else {
        escaped(q, s.drop_last()) + escape_char(q, s.last())
    }
}

/// One shell word: `s` in single quotes.
pub open spec fn shell_word(s: Seq<char>) -> Seq<char> {
    seq!['\''] + escaped(Quoting::Shell, s) + seq!['\'']
}

/// An AppleScript string literal holding `s`.
pub open spec fn apple_string(s: Seq<char>) -> Seq<char> {
    seq!['"'] + escaped(Quoting::AppleScript, s) + seq!['"']
}

/// A PowerShell single-quoted string holding `s`.
pub open spec fn powershell_word(s: Seq<char>) -> Seq<char> {
    seq!['\''] + escaped(Quoting::PowerShell, s) + seq!['\'']
}

/// The shell command line of a program and its arguments: each one a shell
/// word, separated by spaces.
pub open spec fn shell_command_line(program: Seq<char>, args: Seq<Seq<char>>) -> Seq<char> {
    join((seq![program] + args).map_values(|w: Seq<char>| shell_word(w)), seq![' '])
}

pub open spec fn sudo_args(program: Seq<char>, args: Seq<Seq<char>>, askpass: bool) -> Seq<
    Seq<char>,
> {
    seq![
        if askpass {
            "-A"@
        } else {
            "-n"@
        },
        "--"@,
        program,
    ] + args
}

pub open spec fn pkexec_args(program: Seq<char>, args: Seq<Seq<char>>) -> Seq<Seq<char>> {
    seq![program] + args
}

pub open spec fn osascript_script(program: Seq<char>, args: Seq<Seq<char>>) -> Seq<char> {
    "do shell script "@ + apple_string(shell_command_line(program, args))
        + " with administrator privileges"@
}

pub open spec fn osascript_args(program: Seq<char>, args: Seq<Seq<char>>) -> Seq<Seq<char>> {
    seq!["-e"@, osascript_script(program, args)]
}

/// The PowerShell command that starts the program elevated: the program as a
/// single-quoted literal and, where there are arguments, the list of them
/// as single-quoted literals.
pub open spec fn uac_script(program: Seq<char>, args: Seq<Seq<char>>) -> Seq<char> {
    "Start-Process -FilePath "@ + powershell_word(program) + (if args.len() == 0 {
        Seq::empty()
    } else {
        " -ArgumentList @("@ + join(args.map_values(|a: Seq<char>| powershell_word(a)), seq![',', ' '])
            + seq![')']
    }) + " -Verb RunAs -Wait"@
}

pub open spec fn uac_args(program: Seq<char>, args: Seq<Seq<char>>) -> Seq<Seq<char>> {
    seq!["-NoProfile"@, "-NonInteractive"@, "-Command"@, uac_script(program, args)]
}

/// The plan of each mode on each host.
pub open spec fn plan_for(
    mode: ElevationMode,
    os: HostOs,
    program: Seq<char>,
    args: Seq<Seq<char>>,
    askpass: bool,
) -> PlanView {
    let sudo = PlanView::Launch(Launcher::Sudo, sudo_args(program, args, askpass), askpass);
    let pkexec = PlanView::Launch(Launcher::Pkexec, pkexec_args(program, args), false);
    let osascript = PlanView::Launch(Launcher::Osascript, osascript_args(program, args), false);
    let uac = PlanView::Launch(Launcher::PowershellStartProcess, uac_args(program, args), false);
    match mode {
        ElevationMode::Auto => match os {
            HostOs::Linux => PlanView::LaunchWithFallback(
                Launcher::Sudo,
                sudo_args(program, args, askpass),
                askpass,
                Launcher::Pkexec,
                pkexec_args(program, args),
                false,
            ),
            HostOs::MacOs => osascript,
            HostOs::Windows => uac,
            HostOs::Other => PlanView::Unavailable(
                "auto elevation is only implemented for Linux, macOS, and Windows"@,
            ),
        },
        ElevationMode::Sudo => if os == HostOs::Linux || os == HostOs::MacOs {
            sudo
        } else {
            PlanView::Unavailable("sudo mode is only available on Linux and macOS"@)
        },
        ElevationMode::Pkexec => if os == HostOs::Linux {
            pkexec
        } else {
            PlanView::Unavailable("pkexec mode is only available on Linux"@)
        },
        ElevationMode::MacosOsascript => if os == HostOs::MacOs {
            osascript
        } else {
            PlanView::Unavailable("macos_osascript mode is only available on macOS"@)
        },
        ElevationMode::WindowsUac => if os == HostOs::Windows {
            uac
        } else {
            PlanView::Unavailable("windows_uac mode is only available on Windows"@)
        },
    }
}

/// A launch spec has the given value.
pub open spec fn launch_is(l: LaunchSpec, launcher: Launcher, args: Seq<Seq<char>>, askpass: bool) -> bool {
    l.launcher == launcher && texts(l.args@) == args && l.use_askpass == askpass
}

/// A plan has the given value.
pub open spec fn plan_is(p: ElevationPlan, v: PlanView) -> bool {
    match (p, v) {
        (ElevationPlan::Launch(l), PlanView::Launch(a, b, c)) => launch_is(l, a, b, c),
        (
            ElevationPlan::LaunchWithFallback(l1, l2),
            PlanView::LaunchWithFallback(a1, b1, c1, a2, b2, c2),
        ) => launch_is(l1, a1, b1, c1) && launch_is(l2, a2, b2, c2),
        (ElevationPlan::Unavailable(m), PlanView::Unavailable(n)) => m@ == n,
        _ => false,
    }
}

pub open spec fn launcher_program(l: Launcher) -> Seq<char> {
    match l {
        Launcher::Sudo => "sudo"@,
        Launcher::Pkexec => "pkexec"@,
        Launcher::Osascript => "osascript"@,
        Launcher::PowershellStartProcess => "powershell.exe"@,
    }
}

pub open spec fn launcher_label(l: Launcher) -> Seq<char> {
    match l {
        Launcher::Sudo => "sudo"@,
        Launcher::Pkexec => "pkexec"@,
        Launcher::Osascript => "osascript"@,
        Launcher::PowershellStartProcess => "powershell_start_process"@,
    }
}

pub open spec fn failure_prefix(l: Launcher) -> Seq<char> {
    match l {
        Launcher::Sudo => "sudo failed: "@,
        Launcher::Pkexec => "pkexec failed: "@,
        Launcher::Osascript => "osascript failed: "@,
        Launcher::PowershellStartProcess => "powershell UAC failed: "@,
    }
}

impl ElevationMode {
    /// Reads a mode name; an absent name means `auto`.
    pub fn parse(mode: Option<&str>) -> (r: Result<ElevationMode, ToolError>)
        ensures
            match mode {
                None => r matches Ok(m) && m == ElevationMode::Auto,
                Some(s) => match mode_named(s@) {
                    Some(m) => r matches Ok(x) && x == m,
                    None => r matches Err(e) && is_error(
                        e,
                        ErrorKind::InvalidParams,
                        unsupported_mode_message(s@),
                    ),
                },
            },
    {
        let s = match mode {
            None => return Ok(ElevationMode::Auto),
            Some(s) => s,
        };
        if same_text(s, "auto") {
            Ok(ElevationMode::Auto)
        } else if same_text(s, "sudo") {
            Ok(ElevationMode::Sudo)
        } else if same_text(s, "pkexec") {
            Ok(ElevationMode::Pkexec)
        } else if same_text(s, "macos_osascript") {
            Ok(ElevationMode::MacosOsascript)
        } else if same_text(s, "windows_uac") {
            Ok(ElevationMode::WindowsUac)
        } else {
            let mut message = String::from_str("unsupported elevation mode ");
            let quoted = debug_quoted(s);
            message.append(quoted.as_str());
            message.append("; use auto, sudo, pkexec, macos_osascript, or windows_uac");
            Err(ToolError { kind: ErrorKind::InvalidParams, message })
        }
    }

    /// The mode's name.
    pub fn as_str(self) -> (r: &'static str)
        ensures
            r@ == mode_name(self),
    {
        match self {
            ElevationMode::Auto => "auto",
            ElevationMode::Sudo => "sudo",
            ElevationMode::Pkexec => "pkexec",
            ElevationMode::MacosOsascript => "macos_osascript",
            ElevationMode::WindowsUac => "windows_uac",
        }
    }

    /// The launcher commands that run `request` in this mode on `os`;
    /// `has_askpass` tells whether an askpass helper is configured.
    pub fn plan(self, os: HostOs, request: &CommandRequest, has_askpass: bool) -> (r: ElevationPlan)
        ensures
            plan_is(
                r,
                plan_for(self, os, request.program@, texts(request.args@), has_askpass),
            ),
    {
        match self {
            ElevationMode::Auto => match os {
                HostOs::Linux => ElevationPlan::LaunchWithFallback(
                    sudo_launch(request, has_askpass),
                    pkexec_launch(request),
                ),
                HostOs::MacOs => ElevationPlan::Launch(osascript_launch(request)),
                HostOs::Windows => ElevationPlan::Launch(uac_launch(request)),
                HostOs::Other => ElevationPlan::Unavailable(
                    String::from_str(
                        "auto elevation is only implemented for Linux, macOS, and Windows",
                    ),
                ),
            },
            ElevationMode::Sudo => match os {
                HostOs::Linux | HostOs::MacOs => ElevationPlan::Launch(
                    sudo_launch(request, has_askpass),
                ),
                _ => ElevationPlan::Unavailable(
                    String::from_str("sudo mode is only available on Linux and macOS"),
                ),
            },
            ElevationMode::Pkexec => match os {
                HostOs::Linux => ElevationPlan::Launch(pkexec_launch(request)),
                _ => ElevationPlan::Unavailable(
                    String::from_str("pkexec mode is only available on Linux"),
                ),
            },
            ElevationMode::MacosOsascript => match os {
                HostOs::MacOs => ElevationPlan::Launch(osascript_launch(request)),
                _ => ElevationPlan::Unavailable(
                    String::from_str("macos_osascript mode is only available on macOS"),
                ),
            },
            ElevationMode::WindowsUac => match os {
                HostOs::Windows => ElevationPlan::Launch(uac_launch(request)),
                _ => ElevationPlan::Unavailable(
                    String::from_str("windows_uac mode is only available on Windows"),
                ),
            },
        }
    }
}

impl Launcher {
    /// The program to start.
    pub fn program(self) -> (r: &'static str)
        ensures
            r@ == launcher_program(self),
    {
        match self {
            Launcher::Sudo => "sudo",
            Launcher::Pkexec => "pkexec",
            Launcher::Osascript => "osascript",
            Launcher::PowershellStartProcess => "powershell.exe",
        }
    }

    /// The name that reports give the launcher.
    pub fn label(self) -> (r: &'static str)
        ensures
            r@ == launcher_label(self),
    {
        match self {
            Launcher::Sudo => "sudo",
            Launcher::Pkexec => "pkexec",
            Launcher::Osascript => "osascript",
            Launcher::PowershellStartProcess => "powershell_start_process",
        }
    }

    /// The message of a launch that failed with `error`.
    pub fn failure_message(self, error: &str) -> (r: String)
        ensures
            r@ == failure_prefix(self) + error@,
    {
        let mut r = String::from_str(
            match self {
                Launcher::Sudo => "sudo failed: ",
                Launcher::Pkexec => "pkexec failed: ",
                Launcher::Osascript => "osascript failed: ",
                Launcher::PowershellStartProcess => "powershell UAC failed: ",
            },
        );
        r.append(error);
        r
    }
}

/// The message when both `sudo` and, after it, `pkexec` failed.
pub fn fallback_failure_message(sudo_error: &str, pkexec_error: &str) -> (r: String)
    ensures
        r@ == "sudo failed: "@ + sudo_error@ + "; pkexec failed: "@ + pkexec_error@,
{
    let mut r = String::from_str("sudo failed: ");
    r.append(sudo_error);
    r.append("; pkexec failed: ");
    r.append(pkexec_error);
    r
}

/// Appends `s` with each character escaped under `q`.
pub fn push_escaped(out: &mut String, q: Quoting, s: &str)
    ensures
        final(out)@ == old(out)@ + escaped(q, s@),
{
    let cs = chars_of(s);
    let n = cs.len();
    let mut i: usize = 0;
    while i < n
        invariant
            n == cs@.len(),
            cs@ == s@,
            i <= n,
            out@ == old(out)@ + escaped(q, cs@.take(i as int)),
        decreases n - i,
    {
        let c = cs[i];
        match q {
            Quoting::Shell => {
                if c == '\'' {
                    push_char(out, '\'');
                    push_char(out, '\\');
                    push_char(out, '\'');
                    push_char(out, '\'');
                } else {
                    push_char(out, c);
                }
            },
            Quoting::AppleScript => {
                if c == '\\' {
                    push_char(out, '\\');
                    push_char(out, '\\');
                } else if c == '"' {
                    push_char(out, '\\');
                    push_char(out, '"');
                } else {
                    push_char(out, c);
                }
            },
            Quoting::PowerShell => {
                if c == '\'' || c == '\u{2018}' || c == '\u{2019}' || c == '\u{201a}' || c
                    == '\u{201b}' {
                    push_char(out, c);
                    push_char(out, c);
                } else {
                    push_char(out, c);
                }
            },
        }
        proof {
            assert(cs@.take(i + 1).drop_last() =~= cs@.take(i as int));
            assert(out@ =~= old(out)@ + escaped(q, cs@.take(i + 1)));
        }
        i = i + 1;
    }
    assert(cs@.take(n as int) =~= cs@);
}

/// `value` in single quotes for a POSIX shell, each `'` written `'\''`.
pub fn shell_single_quote(value: &str) -> (r: String)
    ensures
        r@ == shell_word(value@),
{
    let mut r = String::new();
    push_char(&mut r, '\'');
    push_escaped(&mut r, Quoting::Shell, value);
    push_char(&mut r, '\'');
    assert(r@ =~= shell_word(value@));
    r
}

/// `value` as an AppleScript string literal.
pub fn apple_script_string(value: &str) -> (r: String)
    ensures
        r@ == apple_string(value@),
{
    let mut r = String::new();
    push_char(&mut r, '"');
    push_escaped(&mut r, Quoting::AppleScript, value);
    push_char(&mut r, '"');
    assert(r@ =~= apple_string(value@));
    r
}

/// `value` with each single quote mark doubled, for a PowerShell
/// single-quoted string.
pub fn powershell_single_quote(value: &str) -> (r: String)
    ensures
        r@ == escaped(Quoting::PowerShell, value@),
{
    let mut r = String::new();
    push_escaped(&mut r, Quoting::PowerShell, value);
    assert(r@ =~= escaped(Quoting::PowerShell, value@));
    r
}

/// The program and arguments as one shell command line.
pub fn shell_join(request: &CommandRequest) -> (r: String)
    ensures
        r@ == shell_command_line(request.program@, texts(request.args@)),
{
    let ghost words = seq![request.program@] + texts(request.args@);
    let ghost quoted = words.map_values(|w: Seq<char>| shell_word(w));
    let mut r = shell_single_quote(request.program.as_str());
    let n = request.args.len();
    let mut i: usize = 0;
    assert(quoted.take(1) =~= seq![quoted[0]]);
    while i < n
        invariant
            n == request.args@.len(),
            i <= n,
            words == seq![request.program@] + texts(request.args@),
            quoted == words.map_values(|w: Seq<char>| shell_word(w)),
            r@ == join(quoted.take(i + 1), seq![' ']),
        decreases n - i,
    {
        push_char(&mut r, ' ');
        let w = shell_single_quote(request.args[i].as_str());
        r.append(w.as_str());
        proof {
            let next = quoted.take(i + 2);
            assert(next.drop_last() =~= quoted.take(i + 1));
            assert(next.last() == shell_word(request.args@[i as int]@));
            assert(r@ =~= join(next, seq![' ']));
        }
        i = i + 1;
    }
    assert(quoted.take(n + 1) =~= quoted);
    r
}

fn sudo_launch(request: &CommandRequest, has_askpass: bool) -> (r: LaunchSpec)
    ensures
        launch_is(
            r,
            Launcher::Sudo,
            sudo_args(request.program@, texts(request.args@), has_askpass),
            has_askpass,
        ),
{
    let mut args: Vec<String> = Vec::new();
    args.push(String::from_str(if has_askpass { "-A" } else { "-n" }));
    args.push(String::from_str("--"));
    args.push(request.program.clone());
    let ghost head = texts(args@);
    let n = request.args.len();
    let mut i: usize = 0;
    while i < n
        invariant
            n == request.args@.len(),
            i <= n,
            head.len() == 3,
            texts(args@) == head + texts(request.args@.take(i as int)),
        decreases n - i,
    {
        let ghost prev = args@;
        args.push(request.args[i].clone());
        proof {
            assert(texts(args@) =~= texts(prev).push(request.args@[i as int]@));
            assert(texts(request.args@.take(i + 1)) =~= texts(request.args@.take(i as int)).push(
                request.args@[i as int]@,
            ));
            assert(texts(args@) =~= head + texts(request.args@.take(i + 1)));
        }
        i = i + 1;
    }
    proof {
        assert(request.args@.take(n as int) =~= request.args@);
        assert(head =~= seq![
            if has_askpass {
                "-A"@
            } else {
                "-n"@
            },
            "--"@,
            request.program@,
        ]);
        assert(texts(args@) =~= sudo_args(request.program@, texts(request.args@), has_askpass));
    }
    LaunchSpec { launcher: Launcher::Sudo, args, use_askpass: has_askpass }
}

fn pkexec_launch(request: &CommandRequest) -> (r: LaunchSpec)
    ensures
        launch_is(r, Launcher::Pkexec, pkexec_args(request.program@, texts(request.args@)), false),
{
    let mut args: Vec<String> = Vec::new();
    args.push(request.program.clone());
    let n = request.args.len();
    let mut i: usize = 0;
    while i < n
        invariant
            n == request.args@.len(),
            i <= n,
            texts(args@) == seq![request.program@] + texts(request.args@.take(i as int)),
        decreases n - i,
    {
        let ghost prev = args@;
        args.push(request.args[i].clone());
        proof {
            assert(texts(args@) =~= texts(prev).push(request.args@[i as int]@));
            assert(texts(request.args@.take(i + 1)) =~= texts(request.args@.take(i as int)).push(
                request.args@[i as int]@,
            ));
            assert(texts(args@) =~= seq![request.program@] + texts(request.args@.take(i + 1)));
        }
        i = i + 1;
    }
    assert(request.args@.take(n as int) =~= request.args@);
    LaunchSpec { launcher: Launcher::Pkexec, args, use_askpass: false }
}

fn osascript_launch(request: &CommandRequest) -> (r: LaunchSpec)
    ensures
        launch_is(
            r,
            Launcher::Osascript,
            osascript_args(request.program@, texts(request.args@)),
            false,
        ),
{
    let line = shell_join(request);
    let quoted = apple_script_string(line.as_str());
    let mut script = String::from_str("do shell script ");
    script.append(quoted.as_str());
    script.append(" with administrator privileges");
    let mut args: Vec<String> = Vec::new();
    args.push(String::from_str("-e"));
    args.push(script);
    assert(texts(args@) =~= osascript_args(request.program@, texts(request.args@)));
    LaunchSpec { launcher: Launcher::Osascript, args, use_askpass: false }
}

fn uac_launch(request: &CommandRequest) -> (r: LaunchSpec)
    ensures
        launch_is(
            r,
            Launcher::PowershellStartProcess,
            uac_args(request.program@, texts(request.args@)),
            false,
        ),
{
    let ghost words = texts(request.args@).map_values(|a: Seq<char>| powershell_word(a));
    let mut arguments = String::new();
    let n = request.args.len();
    let mut i: usize = 0;
    assert(words.take(0) =~= Seq::<Seq<char>>::empty());
    while i < n
        invariant
            n == request.args@.len(),
            i <= n,
            words == texts(request.args@).map_values(|a: Seq<char>| powershell_word(a)),
            arguments@ == join(words.take(i as int), seq![',', ' ']),
        decreases n - i,
    {
        if i > 0 {
            push_char(&mut arguments, ',');
            push_char(&mut arguments, ' ');
        }
        push_char(&mut arguments, '\'');
        push_escaped(&mut arguments, Quoting::PowerShell, request.args[i].as_str());
        push_char(&mut arguments, '\'');
        proof {
            let next = words.take(i + 1);
            assert(next.drop_last() =~= words.take(i as int));
            assert(next.last() == powershell_word(request.args@[i as int]@));
            assert(arguments@ =~= join(next, seq![',', ' ']));
        }
        i = i + 1;
    }
    assert(words.take(n as int) =~= words);
    let mut script = String::from_str("Start-Process -FilePath ");
    push_char(&mut script, '\'');
    push_escaped(&mut script, Quoting::PowerShell, request.program.as_str());
    push_char(&mut script, '\'');
    if n > 0 {
        script.append(" -ArgumentList @(");
        script.append(arguments.as_str());
        push_char(&mut script, ')');
    }
    script.append(" -Verb RunAs -Wait");
    assert(texts(request.args@).len() == n);
    assert(script@ =~= uac_script(request.program@, texts(request.args@)));
    let mut args: Vec<String> = Vec::new();
    args.push(String::from_str("-NoProfile"));
    args.push(String::from_str("-NonInteractive"));
    args.push(String::from_str("-Command"));
    args.push(script);
    assert(texts(args@) =~= uac_args(request.program@, texts(request.args@)));
    LaunchSpec { launcher: Launcher::PowershellStartProcess, args, use_askpass: false }
}

/// Each mode's name reads back as that mode.
pub proof fn law_mode_name_roundtrip(m: ElevationMode)
    ensures
        mode_named(mode_name(m)) == Some(m),
{
    reveal_strlit("auto");
    reveal_strlit("sudo");
    reveal_strlit("pkexec");
    reveal_strlit("macos_osascript");
    reveal_strlit("windows_uac");
    assert("auto"@[0] != "sudo"@[0]);
    assert("auto"@[0] != "pkexec"@[0]);
    assert("auto"@[0] != "macos_osascript"@[0]);
    assert("auto"@[0] != "windows_uac"@[0]);
    assert("sudo"@[0] != "pkexec"@[0]);
    assert("sudo"@[0] != "macos_osascript"@[0]);
    assert("sudo"@[0] != "windows_uac"@[0]);
    assert("pkexec"@[0] != "macos_osascript"@[0]);
    assert("pkexec"@[0] != "windows_uac"@[0]);
    assert("macos_osascript"@[0] != "windows_uac"@[0]);
}

} // verus!
