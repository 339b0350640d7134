//! Laws that pin down what the library's operations are for, each stated
//! over all inputs and in terms of the values themselves.
use vstd::prelude::*;

use crate::elevation::{
    failure_prefix, launcher_label, launcher_program, mode_name, mode_named, plan_for, ElevationMode,
    HostOs, Launcher, PlanView,
};
use crate::output::{all_digits, configured, digits_value, is_digit, parsed_u64, status_text};
use crate::policy::{allowlist, comma_pieces};
use crate::text::{decimal, decimal_int, digit_char, is_white_space, join, trim, trim_end, trim_start};
use crate::tools::requested_args;

verus! {

/// Each mode launches its own launcher: on Linux, `pkexec` mode runs
/// `pkexec` with exactly the program and its arguments; `sudo` mode runs
/// `sudo` with `-n` (or `-A` with an askpass helper), `--`, the program and
/// its arguments; `auto` on Linux tries that `sudo` command and then that
/// `pkexec` command; `macos_osascript` (and `auto` on macOS) runs
/// `osascript -e <script>`; `windows_uac` (and `auto` on Windows) runs
/// PowerShell with its four arguments; a mode is unavailable off its hosts.
pub proof fn law_plan_uses_requested_launcher(
    program: Seq<char>,
    args: Seq<Seq<char>>,
    askpass: bool,
    os: HostOs,
)
    ensures
        plan_for(ElevationMode::Pkexec, HostOs::Linux, program, args, askpass) == PlanView::Launch(
            Launcher::Pkexec,
            seq![program] + args,
            false,
        ),
        os != HostOs::Linux ==> plan_for(
            ElevationMode::Pkexec,
            os,
            program,
            args,
            askpass,
        ) is Unavailable,
        os == HostOs::Linux || os == HostOs::MacOs ==> plan_for(
            ElevationMode::Sudo,
            os,
            program,
            args,
            askpass,
        ) == PlanView::Launch(
            Launcher::Sudo,
            seq![if askpass { "-A"@ } else { "-n"@ }, "--"@, program] + args,
            askpass,
        ),
        !(os == HostOs::Linux || os == HostOs::MacOs) ==> plan_for(
            ElevationMode::Sudo,
            os,
            program,
            args,
            askpass,
        ) is Unavailable,
        plan_for(ElevationMode::Auto, HostOs::Linux, program, args, askpass)
            == PlanView::LaunchWithFallback(
            Launcher::Sudo,
            seq![if askpass { "-A"@ } else { "-n"@ }, "--"@, program] + args,
            askpass,
            Launcher::Pkexec,
            seq![program] + args,
            false,
        ),
        plan_for(ElevationMode::MacosOsascript, HostOs::MacOs, program, args, askpass) matches PlanView::Launch(
            l,
            a,
            k,
        ) && l == Launcher::Osascript && a.len() == 2 && a[0] == "-e"@ && !k,
        plan_for(ElevationMode::Auto, HostOs::MacOs, program, args, askpass) == plan_for(
            ElevationMode::MacosOsascript,
            HostOs::MacOs,
            program,
            args,
            askpass,
        ),
        os != HostOs::MacOs ==> plan_for(
            ElevationMode::MacosOsascript,
            os,
            program,
            args,
            askpass,
        ) is Unavailable,
        plan_for(ElevationMode::WindowsUac, HostOs::Windows, program, args, askpass) matches PlanView::Launch(
            l,
            a,
            k,
        ) && l == Launcher::PowershellStartProcess && a.len() == 4 && a[0] == "-NoProfile"@ && a[1]
            == "-NonInteractive"@ && a[2] == "-Command"@ && !k,
        plan_for(ElevationMode::Auto, HostOs::Windows, program, args, askpass) == plan_for(
            ElevationMode::WindowsUac,
            HostOs::Windows,
            program,
            args,
            askpass,
        ),
        os != HostOs::Windows ==> plan_for(
            ElevationMode::WindowsUac,
            os,
            program,
            args,
            askpass,
        ) is Unavailable,
        plan_for(ElevationMode::Auto, HostOs::Other, program, args, askpass) is Unavailable,
{
}

/// Each of the five names reads as the mode it names, and nothing else
/// reads as that mode; each mode is spelled by its name.
pub proof fn law_mode_names(s: Seq<char>)
    ensures
        (mode_named(s) == Some(ElevationMode::Auto)) <==> s == "auto"@,
        (mode_named(s) == Some(ElevationMode::Sudo)) <==> s == "sudo"@,
        (mode_named(s) == Some(ElevationMode::Pkexec)) <==> s == "pkexec"@,
        (mode_named(s) == Some(ElevationMode::MacosOsascript)) <==> s == "macos_osascript"@,
        (mode_named(s) == Some(ElevationMode::WindowsUac)) <==> s == "windows_uac"@,
        mode_named(s) is None <==> (s != "auto"@ && s != "sudo"@ && s != "pkexec"@ && s
            != "macos_osascript"@ && s != "windows_uac"@),
        mode_name(ElevationMode::Auto) == "auto"@,
        mode_name(ElevationMode::Sudo) == "sudo"@,
        mode_name(ElevationMode::Pkexec) == "pkexec"@,
        mode_name(ElevationMode::MacosOsascript) == "macos_osascript"@,
        mode_name(ElevationMode::WindowsUac) == "windows_uac"@,
{
    reveal_strlit("auto");
    reveal_strlit("sudo");
    reveal_strlit("pkexec");
    reveal_strlit("macos_osascript");
    reveal_strlit("windows_uac");
    assert("auto"@[0] != "sudo"@[0]);
    assert("auto"@[0] != "pkexec"@[0]);
    assert("auto"@[0] != "macos_osascript"@[0]);
    assert("auto"@[0] != "windows_uac"@[0]);
    assert("sudo"@[0] != "pkexec"@[0]);
    assert("sudo"@[0] != "macos_osascript"@[0]);
    assert("sudo"@[0] != "windows_uac"@[0]);
    assert("pkexec"@[0] != "macos_osascript"@[0]);
    assert("pkexec"@[0] != "windows_uac"@[0]);
    assert("macos_osascript"@[0] != "windows_uac"@[0]);
}

proof fn lemma_join_push(ps: Seq<Seq<char>>, x: Seq<char>, sep: Seq<char>)
    requires
        ps.len() > 0,
    ensures
        join(ps.push(x), sep) == join(ps, sep) + sep + x,
{
    assert(ps.push(x).drop_last() =~= ps);
}

proof fn lemma_join_extend_last(ps: Seq<Seq<char>>, c: char, sep: Seq<char>)
    requires
        ps.len() > 0,
    ensures
        join(ps.update(ps.len() - 1, ps.last().push(c)), sep) == join(ps, sep).push(c),
{
    let qs = ps.update(ps.len() - 1, ps.last().push(c));
    if ps.len() == 1 {
        assert(join(qs, sep) == qs[0]);
        assert(join(ps, sep) == ps[0]);
    } else {
        assert(qs.drop_last() =~= ps.drop_last());
        assert(join(qs, sep) == join(qs.drop_last(), sep) + sep + qs.last());
        assert(join(ps, sep) == join(ps.drop_last(), sep) + sep + ps.last());
        assert(join(qs, sep) =~= join(ps, sep).push(c));
    }
}

/// The pieces of a setting split only at commas: joined again with commas
/// they give back the setting, and no piece holds a comma.
pub proof fn law_comma_pieces_split_at_commas(s: Seq<char>)
    ensures
        comma_pieces(s).len() >= 1,
        join(comma_pieces(s), seq![',']) == s,
        forall|i: int, j: int|
            0 <= i < comma_pieces(s).len() && 0 <= j < comma_pieces(s)[i].len() ==> #[trigger] comma_pieces(s)[i][j] != ',',
    decreases s.len(),
{
    if s.len() == 0 {
        assert(comma_pieces(s) =~= seq![Seq::<char>::empty()]);
        assert(join(comma_pieces(s), seq![',']) == Seq::<char>::empty());
        assert(s =~= Seq::<char>::empty());
    } else {
        let init = comma_pieces(s.drop_last());
        law_comma_pieces_split_at_commas(s.drop_last());
        let c = s.last();
        assert(s =~= s.drop_last().push(c));
        if c == ',' {
            lemma_join_push(init, Seq::empty(), seq![',']);
            assert(join(init, seq![',']) + seq![','] + Seq::<char>::empty() =~= s);
            let ps = comma_pieces(s);
            assert forall|i: int, j: int| 0 <= i < ps.len() && 0 <= j < ps[i].len() implies #[trigger] ps[i][j] != ',' by {
                assert(i < init.len());
                assert(ps[i] == init[i]);
            }
        } else {
            lemma_join_extend_last(init, c, seq![',']);
            let ps = comma_pieces(s);
            assert forall|i: int, j: int| 0 <= i < ps.len() && 0 <= j < ps[i].len() implies #[trigger] ps[i][j] != ',' by {
                if i < init.len() - 1 {
                    assert(ps[i] == init[i]);
                } else {
                    assert(ps[i] == init.last().push(c));
                    if j < init.last().len() {
                        assert(ps[i][j] == init[init.len() - 1][j]);
                    }
                }
            }
        }
    }
}

proof fn lemma_comma_pieces_without_comma(s: Seq<char>)
    requires
        forall|i: int| 0 <= i < s.len() ==> s[i] != ',',
    ensures
        comma_pieces(s) == seq![s],
    decreases s.len(),
{
    if s.len() == 0 {
        assert(s =~= Seq::<char>::empty());
        assert(comma_pieces(s) == seq![Seq::<char>::empty()]);
    } else {
        lemma_comma_pieces_without_comma(s.drop_last());
        let init = comma_pieces(s.drop_last());
        assert(s.last() == s[s.len() - 1]);
        assert(init.last() == s.drop_last());
        assert(init.last().push(s.last()) =~= s);
        assert(comma_pieces(s) == init.update(0, s));
        assert(init.update(0, s) =~= seq![s]);
    }
}

/// A setting without a comma names one program: its trimmed text, when that
/// is not empty (a path with slashes stays whole).
pub proof fn law_setting_without_comma(s: Seq<char>)
    requires
        forall|i: int| 0 <= i < s.len() ==> s[i] != ',',
    ensures
        allowlist(s) == (if trim(s).len() > 0 {
            Set::empty().insert(trim(s))
        } else {
            Set::<Seq<char>>::empty()
        }),
{
    lemma_comma_pieces_without_comma(s);
    let ps = comma_pieces(s);
    assert(ps[0] == s);
    if trim(s).len() > 0 {
        assert(allowlist(s) =~= Set::empty().insert(trim(s)));
    } else {
        assert(allowlist(s) =~= Set::<Seq<char>>::empty());
    }
}

/// A run request keeps every argument it was given, in order.
pub proof fn law_requested_args_kept(args: Vec<String>)
    ensures
        requested_args(Some(args)).len() == args@.len(),
        forall|i: int| 0 <= i < args@.len() ==> #[trigger] requested_args(Some(args))[i] == args@[i]@,
        requested_args(None) == Seq::<Seq<char>>::empty(),
{
}

proof fn lemma_decimal_digits(n: nat)
    ensures
        all_digits(decimal(n)),
        digits_value(decimal(n)) == n,
    decreases n,
{
    let d = digit_char(n % 10);
    assert(d as int == 48 + n % 10);
    if n < 10 {
        let s = decimal(n);
        assert(s.drop_last() =~= Seq::<char>::empty());
        assert(digits_value(s.drop_last()) == 0);
        assert(s.last() == d);
        assert(digits_value(s) == digits_value(s.drop_last()) * 10 + ((s.last() as int) - 48) as nat);
    } else {
        lemma_decimal_digits(n / 10);
        let s = decimal(n);
        assert(s.drop_last() =~= decimal(n / 10));
        assert(s.last() == d);
        assert(digits_value(s) == digits_value(s.drop_last()) * 10 + ((s.last() as int) - 48) as nat);
        assert(digits_value(s.drop_last()) == n / 10);
        assert((n / 10) * 10 + n % 10 == n);
        assert forall|i: int| 0 <= i < s.len() implies is_digit(#[trigger] s[i]) by {
            if i < s.len() - 1 {
                assert(s[i] == decimal(n / 10)[i]);
            }
        }
    }
}

/// The exit status text reads back as the exit code: the digits of a
/// non-negative code give the code, a negative code is `-` and the digits of
/// its magnitude, and a run ended by a signal is never read as a code. So
/// different outcomes give different texts.
pub proof fn law_status_text_reads_back(c: i32, a: Option<i32>, b: Option<i32>)
    ensures
        status_text(Some(c)) == decimal_int(c as int),
        c >= 0 ==> all_digits(status_text(Some(c))) && digits_value(status_text(Some(c))) == c,
        c < 0 ==> status_text(Some(c))[0] == '-' && all_digits(status_text(Some(c)).drop_first())
            && digits_value(status_text(Some(c)).drop_first()) == -c,
        status_text(a) == status_text(b) ==> a == b,
{
    reveal_strlit("terminated by signal");
    assert("terminated by signal"@[0] == 't');
    if c >= 0 {
        lemma_decimal_digits(c as nat);
    } else {
        lemma_decimal_digits((-c) as nat);
        assert(status_text(Some(c)).drop_first() =~= decimal((-c) as nat));
    }
    if let Some(x) = a {
        if x >= 0 {
            lemma_decimal_digits(x as nat);
        } else {
            lemma_decimal_digits((-x) as nat);
            assert(status_text(a).drop_first() =~= decimal((-x) as nat));
        }
    }
    if let Some(y) = b {
        if y >= 0 {
            lemma_decimal_digits(y as nat);
        } else {
            lemma_decimal_digits((-y) as nat);
            assert(status_text(b).drop_first() =~= decimal((-y) as nat));
        }
    }
    if status_text(a) == status_text(b) {
        match (a, b) {
            (Some(x), Some(y)) => {
                if x >= 0 && y < 0 {
                    assert(is_digit(status_text(a)[0]));
                } else if x < 0 && y >= 0 {
                    assert(is_digit(status_text(b)[0]));
                }
            },
            (Some(x), None) => {
                if x >= 0 {
                    assert(is_digit(status_text(a)[0]));
                }
            },
            (None, Some(y)) => {
                if y >= 0 {
                    assert(is_digit(status_text(b)[0]));
                }
            },
            (None, None) => {},
        }
    }
}

proof fn lemma_trim_start_suffix(s: Seq<char>)
    ensures
        trim_start(s).len() <= s.len(),
        trim_start(s) == s.skip(s.len() - trim_start(s).len()),
        forall|k: int| 0 <= k < s.len() - trim_start(s).len() ==> is_white_space(#[trigger] s[k]),
        trim_start(s).len() > 0 ==> !is_white_space(trim_start(s)[0]),
    decreases s.len(),
{
    if s.len() > 0 && is_white_space(s[0]) {
        let t = s.drop_first();
        lemma_trim_start_suffix(t);
        assert(trim_start(s) == trim_start(t));
        assert(t.skip(t.len() - trim_start(t).len()) =~= s.skip(s.len() - trim_start(s).len()));
        assert forall|k: int| 0 <= k < s.len() - trim_start(s).len() implies is_white_space(#[trigger] s[k]) by {
            if k > 0 {
                assert(s[k] == t[k - 1]);
            }
        }
    } else {
        assert(s.skip(0) =~= s);
    }
}

proof fn lemma_trim_end_prefix(s: Seq<char>)
    ensures
        trim_end(s).len() <= s.len(),
        trim_end(s) == s.take(trim_end(s).len() as int),
        forall|k: int| trim_end(s).len() <= k < s.len() ==> is_white_space(#[trigger] s[k]),
        trim_end(s).len() > 0 ==> !is_white_space(trim_end(s).last()),
    decreases s.len(),
{
    if s.len() > 0 && is_white_space(s.last()) {
        let t = s.drop_last();
        lemma_trim_end_prefix(t);
        assert(trim_end(s) == trim_end(t));
        assert(t.take(trim_end(t).len() as int) =~= s.take(trim_end(s).len() as int));
        assert forall|k: int| trim_end(s).len() <= k < s.len() implies is_white_space(#[trigger] s[k]) by {
            if k < s.len() - 1 {
                assert(s[k] == t[k]);
            }
        }
    } else {
        assert(s.take(s.len() as int) =~= s);
    }
}

/// Trimming removes exactly the white space at both ends: what is left is
/// the stretch of the text between a run of leading and a run of trailing
/// white space, and it neither starts nor ends with white space.
pub proof fn law_trim_strips_ends(s: Seq<char>)
    ensures
        ({
            let i = s.len() - trim_start(s).len();
            let j = i + trim(s).len();
            &&& 0 <= i <= j <= s.len()
            &&& trim(s) == s.subrange(i, j)
            &&& forall|k: int| 0 <= k < i ==> is_white_space(#[trigger] s[k])
            &&& forall|k: int| j <= k < s.len() ==> is_white_space(#[trigger] s[k])
            &&& trim(s).len() > 0 ==> !is_white_space(trim(s)[0]) && !is_white_space(trim(s).last())
        }),
{
    lemma_trim_start_suffix(s);
    let u = trim_start(s);
    lemma_trim_end_prefix(u);
    let i = s.len() - u.len();
    let j = i + trim(s).len();
    assert(trim(s) == trim_end(u));
    assert(trim(s) =~= s.subrange(i, j));
    assert forall|k: int| j <= k < s.len() implies is_white_space(#[trigger] s[k]) by {
        assert(s[k] == u[k - i]);
    }
    if trim(s).len() > 0 {
        assert(trim(s)[0] == u[0]);
    }
}

/// A decimal number reads back as itself, with or without a leading `+`,
/// and a setting that holds it configures that number when it is positive;
/// an unset value keeps the default.
pub proof fn law_parse_reads_decimal(n: u64, default: u64)
    ensures
        parsed_u64(decimal(n as nat)) == Some(n),
        parsed_u64(seq!['+'] + decimal(n as nat)) == Some(n),
        configured(Some(decimal(n as nat)), default) == (if n > 0 {
            n
        } else {
            default
        }),
        configured(None, default) == default,
{
    lemma_decimal_digits(n as nat);
    let d = decimal(n as nat);
    assert(is_digit(d[0]));
    assert((seq!['+'] + d).drop_first() =~= d);
}

/// Each launcher runs the command that bears its name, is reported under
/// that name (PowerShell's start-process route under its own label), and
/// prefixes its failures with it; no two launchers run the same command.
pub proof fn law_launchers_named(a: Launcher, b: Launcher)
    ensures
        launcher_program(Launcher::Sudo) == "sudo"@,
        launcher_program(Launcher::Pkexec) == "pkexec"@,
        launcher_program(Launcher::Osascript) == "osascript"@,
        launcher_program(Launcher::PowershellStartProcess) == "powershell.exe"@,
        launcher_label(Launcher::Sudo) == "sudo"@,
        launcher_label(Launcher::Pkexec) == "pkexec"@,
        launcher_label(Launcher::Osascript) == "osascript"@,
        launcher_label(Launcher::PowershellStartProcess) == "powershell_start_process"@,
        failure_prefix(Launcher::Sudo) == "sudo failed: "@,
        failure_prefix(Launcher::Pkexec) == "pkexec failed: "@,
        failure_prefix(Launcher::Osascript) == "osascript failed: "@,
        failure_prefix(Launcher::PowershellStartProcess) == "powershell UAC failed: "@,
        launcher_program(a) == launcher_program(b) ==> a == b,
{
    reveal_strlit("sudo");
    reveal_strlit("pkexec");
    reveal_strlit("osascript");
    reveal_strlit("powershell.exe");
    assert("sudo"@[0] != "pkexec"@[0]);
    assert("sudo"@[0] != "osascript"@[0]);
    assert("sudo"@[0] != "powershell.exe"@[0]);
    assert("pkexec"@[1] != "powershell.exe"@[1]);
    assert("pkexec"@[0] != "osascript"@[0]);
    assert("osascript"@[0] != "powershell.exe"@[0]);
}

} // verus!
