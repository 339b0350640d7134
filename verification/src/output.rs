//! What a run answers with, the capped capture of a launcher's output
//! streams, the numeric settings, and the audit lines.
use vstd::prelude::*;
use vstd::utf8::{decode_utf8, valid_utf8};

use crate::elevation::{launcher_label, mode_name, ElevationMode, Launcher};
use crate::request::CommandRequest;
use crate::elevation::{fallback_failure_message, LaunchSpec};
use crate::text::{
    chars_of, debug_list, debug_quoted, debug_str, decimal, decimal_int,
    lemma_decimal_int_one_line, lemma_decimal_one_line, lemma_one_line_concat_all, one_line,
    push_char, push_debug_list, push_decimal, push_decimal_i32, texts,
};

verus! {

/// What a finished launcher left: its exit code (none when a signal ended
/// it), the captured bytes of each stream, and whether each was cut.
#[derive(Debug)]
pub struct RunOutput {
    pub launcher: Launcher,
    pub status: Option<i32>,
    pub stdout: Vec<u8>,
    pub stderr: Vec<u8>,
    pub stdout_truncated: bool,
    pub stderr_truncated: bool,
}

/// What one read of a stream leads to: read on, or stop (and whether
/// bytes were dropped at the cap).
#[derive(Clone, Copy, Debug, PartialEq, Eq, Structural)]
pub enum ReadProgress {
    More,
    Finished(bool),
}

/// The events of a run that the audit log records.
#[derive(Clone, Copy, Debug, PartialEq, Eq, Structural)]
pub enum RunEvent {
    Deny,
    Start,
    Error,
    Finish,
}

/// The text of `bytes` with invalid UTF-8 replaced, as std's
/// `String::from_utf8_lossy` gives it; only this name stands for it here.
pub uninterp spec fn utf8_lossy(bytes: Seq<u8>) -> Seq<char>;

/// std's `String::from_utf8_lossy`: the result is named `utf8_lossy` of
/// the bytes. Beyond that it is claimed that no bytes give no text, and that
/// valid UTF-8 gives back the text it encodes.
#[verifier::external_body]
fn lossy_text(bytes: &[u8]) -> (r: String)
    ensures
        r@ == utf8_lossy(bytes@),
        bytes@.len() == 0 ==> r@.len() == 0,
        valid_utf8(bytes@) ==> r@ == decode_utf8(bytes@),
{
    String::from_utf8_lossy(bytes).into_owned()
}

pub open spec fn status_text(status: Option<i32>) -> Seq<char> {
    match status {
        None => "terminated by signal"@,
        Some(c) => decimal_int(c as int),
    }
}

pub open spec fn truncation_note(truncated: bool) -> Seq<char> {
    if truncated {
        "\n[truncated]"@
    } else {
        Seq::empty()
    }
}

/// The answer to a finished run.
pub open spec fn run_report(
    program: Seq<char>,
    args: Seq<Seq<char>>,
    mode: ElevationMode,
    out: RunOutput,
) -> Seq<char> {
    "program: "@ + program + "\nargs: "@ + debug_list(args) + "\nmode: "@ + mode_name(mode)
        + "\nlauncher: "@ + launcher_label(out.launcher) + "\nlauncher_exit_status: "@
        + status_text(out.status) + "\nstdout:\n"@ + utf8_lossy(out.stdout@) + truncation_note(
        out.stdout_truncated,
    ) + "\nstderr:\n"@ + utf8_lossy(out.stderr@) + truncation_note(out.stderr_truncated)
}

/// The message of a run stopped at its deadline: the timeout, then what
/// each stream had printed, where it printed anything.
pub open spec fn timeout_text(timeout: u64, stdout: Seq<u8>, stderr: Seq<u8>) -> Seq<char> {
    let out = utf8_lossy(stdout);
    let err = utf8_lossy(stderr);
    "timed out after "@ + decimal(timeout as nat) + " seconds"@ + (if out.len() > 0 {
        "\npartial stdout:\n"@ + out
    } else {
        Seq::empty()
    }) + (if err.len() > 0 {
        "\npartial stderr:\n"@ + err
    } else {
        Seq::empty()
    })
}

/// One read of `chunk` into `output`, capped at `limit` bytes: an empty
/// chunk ends the stream; a chunk that finds the output full ends it as
/// truncated; otherwise as much of the chunk as fits is kept.
pub open spec fn absorb(output: Seq<u8>, limit: nat, chunk: Seq<u8>) -> (Seq<u8>, ReadProgress) {
    if chunk.len() == 0 {
        (output, ReadProgress::Finished(false))
    } else if output.len() >= limit {
        (output, ReadProgress::Finished(true))
    } else {
        let room = (limit - output.len()) as nat;
        let kept = if chunk.len() <= room {
            chunk
        } else {
            chunk.take(room as int)
        };
        (output + kept, ReadProgress::More)
    }
}

/// The output after reading `chunks` in turn.
pub open spec fn absorb_all(output: Seq<u8>, limit: nat, chunks: Seq<Seq<u8>>) -> Seq<u8>
    decreases chunks.len(),
{
    if chunks.len() == 0 {
        output
    } else {
        absorb_all(absorb(output, limit, chunks[0]).0, limit, chunks.drop_first())
    }
}

/// The chunks one after another.
pub open spec fn flatten(chunks: Seq<Seq<u8>>) -> Seq<u8>
    decreases chunks.len(),
{
    if chunks.len() == 0 {
        Seq::empty()
    } else {
        chunks[0] + flatten(chunks.drop_first())
    }
}

/// At most the first `limit` bytes of `s`.
pub open spec fn capped(s: Seq<u8>, limit: nat) -> Seq<u8> {
    if s.len() <= limit {
        s
    } else {
        s.take(limit as int)
    }
}

pub open spec fn is_digit(c: char) -> bool {
    48 <= (c as int) <= 57
}

/// One or more decimal digits and nothing else.
pub open spec fn all_digits(s: Seq<char>) -> bool {
    s.len() > 0 && forall|i: int| 0 <= i < s.len() ==> is_digit(#[trigger] s[i])
}

/// The number that a string of decimal digits spells.
pub open spec fn digits_value(s: Seq<char>) -> nat
    decreases s.len(),
{
    if s.len() == 0 {
        0
    } else {
        digits_value(s.drop_last()) * 10 + ((s.last() as int) - 48) as nat
    }
}

/// What `str::parse::<u64>` gives: an optional `+`, then one or more
/// decimal digits and nothing else, with a value that fits.
pub open spec fn parsed_u64(s: Seq<char>) -> Option<u64> {
    let body = if s.len() > 0 && s[0] == '+' {
        s.drop_first()
    } else {
        s
    };
    if all_digits(body) && digits_value(body) <= u64::MAX {
        Some(digits_value(body) as u64)
    } else {
        None
    }
}

/// A positive number set in `value`, else `default`.
pub open spec fn configured(value: Option<Seq<char>>, default: u64) -> u64 {
    match value {
        Some(v) => match parsed_u64(v) {
            Some(n) => if n > 0 {
                n
            } else {
                default
            },
            None => default,
        },
        None => default,
    }
}

pub open spec fn event_name(e: RunEvent) -> Seq<char> {
    match e {
        RunEvent::Deny => "deny"@,
        RunEvent::Start => "start"@,
        RunEvent::Error => "error"@,
        RunEvent::Finish => "finish"@,
    }
}

/// `{:?}` of an optional exit code.
pub open spec fn status_debug(status: Option<i32>) -> Seq<char> {
    match status {
        None => "None"@,
        Some(c) => "Some("@ + decimal_int(c as int) + seq![')'],
    }
}

/// The audit line of a run event.
pub open spec fn audit_request_text(
    event: RunEvent,
    unix_ts: u64,
    mode: ElevationMode,
    program: Seq<char>,
    args: Seq<Seq<char>>,
    status: Option<i32>,
) -> Seq<char> {
    "sudo39_audit event="@ + event_name(event) + " unix_ts="@ + decimal(unix_ts as nat) + " mode="@
        + mode_name(mode) + " program="@ + debug_str(program) + " args="@ + debug_list(args)
        + " status="@ + status_debug(status)
}

/// The audit line of a policy change.
pub open spec fn audit_update_text(unix_ts: u64, action: Seq<char>, value: Seq<char>) -> Seq<char> {
    "sudo39_audit event=policy_update unix_ts="@ + decimal(unix_ts as nat) + " action="@ + action
        + " value="@ + debug_str(value)
}

/// The answer to a finished run: the request, the mode and launcher, the
/// exit status, and both streams, each marked where it was cut.
pub fn format_output(request: &CommandRequest, mode: ElevationMode, out: &RunOutput) -> (r: String)
    ensures
        r@ == run_report(request.program@, texts(request.args@), mode, *out),
{
    proof {
        reveal_strlit("");
    }
    let mut s = String::from_str("program: ");
    s.append(request.program.as_str());
    s.append("\nargs: ");
    push_debug_list(&mut s, request.args.as_slice());
    s.append("\nmode: ");
    s.append(mode.as_str());
    s.append("\nlauncher: ");
    s.append(out.launcher.label());
    s.append("\nlauncher_exit_status: ");
    match out.status {
        None => s.append("terminated by signal"),
        Some(c) => push_decimal_i32(&mut s, c),
    }
    s.append("\nstdout:\n");
    let stdout = lossy_text(out.stdout.as_slice());
    s.append(stdout.as_str());
    if out.stdout_truncated {
        s.append("\n[truncated]");
    }
    s.append("\nstderr:\n");
    let stderr = lossy_text(out.stderr.as_slice());
    s.append(stderr.as_str());
    if out.stderr_truncated {
        s.append("\n[truncated]");
    }
    assert(s@ =~= run_report(request.program@, texts(request.args@), mode, *out));
    s
}

/// The message of a run stopped at its deadline.
pub fn timeout_message(timeout: u64, stdout: &[u8], stderr: &[u8]) -> (r: String)
    ensures
        r@ == timeout_text(timeout, stdout@, stderr@),
{
    let mut s = String::from_str("timed out after ");
    push_decimal(&mut s, timeout);
    s.append(" seconds");
    let out = lossy_text(stdout);
    if !out.as_str().is_empty() {
        s.append("\npartial stdout:\n");
        s.append(out.as_str());
    }
    let err = lossy_text(stderr);
    if !err.as_str().is_empty() {
        s.append("\npartial stderr:\n");
        s.append(err.as_str());
    }
    assert(s@ =~= timeout_text(timeout, stdout@, stderr@));
    s
}

/// Takes one read of a stream into the captured output, never past `limit`.
pub fn absorb_chunk(output: &mut Vec<u8>, limit: usize, chunk: &[u8]) -> (r: ReadProgress)
    requires
        old(output)@.len() <= limit,
    ensures
        (final(output)@, r) == absorb(old(output)@, limit as nat, chunk@),
        final(output)@.len() <= limit,
{
    if chunk.len() == 0 {
        return ReadProgress::Finished(false);
    }
    let remaining = limit - output.len();
    if remaining == 0 {
        return ReadProgress::Finished(true);
    }
    let take = if chunk.len() < remaining {
        chunk.len()
    } else {
        remaining
    };
    let mut i: usize = 0;
    while i < take
        invariant
            take <= chunk@.len(),
            i <= take,
            output@ == old(output)@ + chunk@.take(i as int),
        decreases take - i,
    {
        output.push(chunk[i]);
        i = i + 1;
        assert(output@ =~= old(output)@ + chunk@.take(i as int));
    }
    proof {
        if chunk@.len() <= remaining {
            assert(chunk@.take(take as int) =~= chunk@);
        }
    }
    ReadProgress::More
}

/// Reading any chunks in turn keeps exactly the first `limit` bytes of
/// all that was read (all of it, when it fits).
pub proof fn law_capture_keeps_prefix(output: Seq<u8>, limit: nat, chunks: Seq<Seq<u8>>)
    requires
        output.len() <= limit,
    ensures
        absorb_all(output, limit, chunks) == capped(output + flatten(chunks), limit),
    decreases chunks.len(),
{
    if chunks.len() == 0 {
        assert(output + flatten(chunks) =~= output);
    } else {
        let c = chunks[0];
        let rest = chunks.drop_first();
        let next = absorb(output, limit, c).0;
        law_capture_keeps_prefix(next, limit, rest);
        let all = output + flatten(chunks);
        assert(all =~= output + c + flatten(rest));
        if c.len() == 0 {
            assert(output + c =~= output);
        } else if output.len() >= limit {
            assert(capped(all, limit) =~= output);
            assert(capped(next + flatten(rest), limit) =~= output);
        } else {
            let room = (limit - output.len()) as nat;
            if c.len() <= room {
                assert(next =~= output + c);
                assert(next + flatten(rest) =~= all);
            } else {
                assert(next =~= output + c.take(room as int));
                assert(next.len() == limit);
                assert(capped(next + flatten(rest), limit) =~= next);
                assert(capped(all, limit) =~= next);
            }
        }
    }
}

proof fn lemma_digits_prefix(s: Seq<char>, k: int)
    requires
        0 <= k <= s.len(),
        forall|i: int| 0 <= i < s.len() ==> is_digit(#[trigger] s[i]),
    ensures
        digits_value(s.take(k)) <= digits_value(s),
    decreases s.len() - k,
{
    if k < s.len() {
        lemma_digits_prefix(s, k + 1);
        assert(s.take(k + 1).drop_last() =~= s.take(k));
        assert(s.take(k + 1).last() == s[k]);
        assert(is_digit(s[k]));
    } else {
        assert(s.take(k) =~= s);
    }
}

/// `str::parse::<u64>` over the characters, with its exact behaviour.
pub fn parse_u64(s: &str) -> (r: Option<u64>)
    ensures
        r == parsed_u64(s@),
{
    let cs = chars_of(s);
    let n = cs.len();
    let start: usize = if n > 0 && cs[0] == '+' {
        1
    } else {
        0
    };
    let ghost body = if s@.len() > 0 && s@[0] == '+' {
        s@.drop_first()
    } else {
        s@
    };
    assert(body =~= cs@.skip(start as int));
    if start == n {
        return None;
    }
    let mut value: u64 = 0;
    let mut i: usize = start;
    assert(body.take(0) =~= Seq::<char>::empty());
    while i < n
        invariant
            n == cs@.len(),
            cs@ == s@,
            start <= i <= n,
            body == cs@.skip(start as int),
            body == (if s@.len() > 0 && s@[0] == '+' {
                s@.drop_first()
            } else {
                s@
            }),
            forall|j: int| 0 <= j < i - start ==> is_digit(#[trigger] body[j]),
            value == digits_value(body.take(i - start)),
        decreases n - i,
    {
        let c = cs[i];
        assert(body[i - start] == c);
        if !('0' <= c && c <= '9') {
            proof {
                assert(!is_digit(body[i - start]));
            }
            return None;
        }
        let code: u32 = c as u32;
        assert(code == c as int);
        let d: u64 = (code - 48) as u64;
        proof {
            assert(body.take(i - start + 1).drop_last() =~= body.take(i - start));
            assert(body.take(i - start + 1).last() == c);
        }
        match value.checked_mul(10) {
            None => {
                proof {
                    if forall|j: int| 0 <= j < body.len() ==> is_digit(#[trigger] body[j]) {
                        lemma_digits_prefix(body, i - start + 1);
                    }
                }
                return None;
            },
            Some(v) => match v.checked_add(d) {
                None => {
                    proof {
                        if forall|j: int| 0 <= j < body.len() ==> is_digit(#[trigger] body[j]) {
                            lemma_digits_prefix(body, i - start + 1);
                        }
                    }
                    return None;
                },
                Some(w) => {
                    value = w;
                },
            },
        }
        i = i + 1;
    }
    assert(body.take(n - start) =~= body);
    Some(value)
}

/// A positive number read from a setting, or `default` when the setting is
/// absent, not a number, or zero.
pub fn configured_u64(value: Option<&str>, default: u64) -> (r: u64)
    ensures
        r == configured(
            match value {
                Some(v) => Some(v@),
                None => None,
            },
            default,
        ),
{
    match value {
        Some(v) => match parse_u64(v) {
            Some(n) => if n > 0 {
                n
            } else {
                default
            },
            None => default,
        },
        None => default,
    }
}

/// What one poll of a running launcher leads to: it exited (with its exit
/// code, none when a signal ended it), it ran past the timeout and is to be
/// killed and answered with the timeout message, or it is polled again.
#[derive(Clone, Copy, Debug, PartialEq, Eq, Structural)]
pub enum WaitStep {
    Exited(Option<i32>),
    TimedOut,
    Poll,
}

/// One poll of a running launcher: `exited` is what the poll found (its
/// exit code, if it has exited), `elapsed_nanos` the time since it started.
/// A launcher that has not exited by the timeout is timed out.
pub fn wait_step(exited: Option<Option<i32>>, elapsed_nanos: u128, timeout_secs: u64) -> (r: WaitStep)
    ensures
        r == match exited {
            Some(code) => WaitStep::Exited(code),
            None => if elapsed_nanos >= timeout_secs as int * 1_000_000_000 {
                WaitStep::TimedOut
            } else {
                WaitStep::Poll
            },
        },
{
    match exited {
        Some(code) => WaitStep::Exited(code),
        None => {
            let limit: u128 = timeout_secs as u128 * 1_000_000_000u128;
            if elapsed_nanos >= limit {
                WaitStep::TimedOut
            } else {
                WaitStep::Poll
            }
        },
    }
}

/// The audit event after a run, and the exit status it records: `finish`
/// with the status when the run gave an output, `error` otherwise.
pub fn run_end_event(finished: Option<&RunOutput>) -> (r: (RunEvent, Option<i32>))
    ensures
        r == match finished {
            Some(out) => (RunEvent::Finish, out.status),
            None => (RunEvent::Error, None::<i32>),
        },
{
    match finished {
        Some(out) => (RunEvent::Finish, out.status),
        None => (RunEvent::Error, None),
    }
}

/// What follows the first launch of a plan with a fallback: the run is
/// done, or the second launcher is tried, keeping the first one's error.
#[derive(Debug)]
pub enum FallbackStep {
    Done(RunOutput),
    LaunchSecond(LaunchSpec, String),
}

/// After the first launch: its output ends the run; its failure leads to the
/// second launch.
pub fn fallback_step(first: Result<RunOutput, String>, second: LaunchSpec) -> (r: FallbackStep)
    ensures
        match first {
            Ok(out) => r == FallbackStep::Done(out),
            Err(e) => r == FallbackStep::LaunchSecond(second, e),
        },
{
    match first {
        Ok(out) => FallbackStep::Done(out),
        Err(e) => FallbackStep::LaunchSecond(second, e),
    }
}

/// After the second launch: its output ends the run; its failure ends it
/// with both launchers' errors.
pub fn fallback_outcome(first_error: &str, second: Result<RunOutput, String>) -> (r: Result<
    RunOutput,
    String,
>)
    ensures
        match second {
            Ok(out) => r == Ok::<RunOutput, String>(out),
            Err(e) => r matches Err(m) && m@ == "sudo failed: "@ + first_error@ + "; pkexec failed: "@
                + e@,
        },
{
    match second {
        Ok(out) => Ok(out),
        Err(e) => Err(fallback_failure_message(first_error, e.as_str())),
    }
}

/// The run timeout, in seconds, when the setting gives none.
pub const DEFAULT_TIMEOUT_SECS: u64 = 30;

/// The cap on each captured stream, in bytes, when the setting gives none.
pub const DEFAULT_OUTPUT_LIMIT_BYTES: u64 = 4096;

/// The run timeout in seconds that a setting gives.
pub fn timeout_secs(setting: Option<&str>) -> (r: u64)
    ensures
        r == configured(
            match setting {
                Some(v) => Some(v@),
                None => None,
            },
            DEFAULT_TIMEOUT_SECS,
        ),
{
    configured_u64(setting, DEFAULT_TIMEOUT_SECS)
}

/// The cap on each captured stream, in bytes, that a setting gives.
pub fn output_limit_bytes(setting: Option<&str>) -> (r: u64)
    ensures
        r == configured(
            match setting {
                Some(v) => Some(v@),
                None => None,
            },
            DEFAULT_OUTPUT_LIMIT_BYTES,
        ),
{
    configured_u64(setting, DEFAULT_OUTPUT_LIMIT_BYTES)
}

impl RunEvent {
    /// The event's name in the audit log.
    pub fn as_str(self) -> (r: &'static str)
        ensures
            r@ == event_name(self),
    {
        match self {
            RunEvent::Deny => "deny",
            RunEvent::Start => "start",
            RunEvent::Error => "error",
            RunEvent::Finish => "finish",
        }
    }
}

/// The audit line of a run event.
pub fn audit_request_line(
    event: RunEvent,
    unix_ts: u64,
    mode: ElevationMode,
    request: &CommandRequest,
    status: Option<i32>,
) -> (r: String)
    ensures
        r@ == audit_request_text(
            event,
            unix_ts,
            mode,
            request.program@,
            texts(request.args@),
            status,
        ),
        one_line(r@),
{
    let mut s = String::from_str("sudo39_audit event=");
    s.append(event.as_str());
    s.append(" unix_ts=");
    push_decimal(&mut s, unix_ts);
    s.append(" mode=");
    s.append(mode.as_str());
    s.append(" program=");
    let program = debug_quoted(request.program.as_str());
    s.append(program.as_str());
    s.append(" args=");
    push_debug_list(&mut s, request.args.as_slice());
    s.append(" status=");
    match status {
        None => s.append("None"),
        Some(c) => {
            s.append("Some(");
            push_decimal_i32(&mut s, c);
            push_char(&mut s, ')');
        },
    }
    assert(s@ =~= audit_request_text(
        event,
        unix_ts,
        mode,
        request.program@,
        texts(request.args@),
        status,
    ));
    proof {
        lemma_one_line_concat_all();
        lemma_decimal_one_line(unix_ts as nat);
        reveal_strlit("sudo39_audit event=");
        reveal_strlit(" unix_ts=");
        reveal_strlit(" mode=");
        reveal_strlit(" program=");
        reveal_strlit(" args=");
        reveal_strlit(" status=");
        assert(one_line("sudo39_audit event="@));
        assert(one_line(" unix_ts="@));
        assert(one_line(" mode="@));
        assert(one_line(" program="@));
        assert(one_line(" args="@));
        assert(one_line(" status="@));
        reveal_strlit("deny");
        reveal_strlit("start");
        reveal_strlit("error");
        reveal_strlit("finish");
        assert(one_line(event_name(event)));
        reveal_strlit("auto");
        reveal_strlit("sudo");
        reveal_strlit("pkexec");
        reveal_strlit("macos_osascript");
        reveal_strlit("windows_uac");
        assert(one_line(mode_name(mode)));
        reveal_strlit("None");
        reveal_strlit("Some(");
        assert(one_line("None"@));
        assert(one_line("Some("@));
        assert(one_line(seq![')']));
        if let Some(c) = status {
            lemma_decimal_int_one_line(c as int);
        }
        assert(one_line(status_debug(status)));
        assert(one_line(debug_str(request.program@)));
    }
    s
}

/// The audit line of a policy change.
pub fn audit_policy_update_line(unix_ts: u64, action: &str, value: &str) -> (r: String)
    ensures
        r@ == audit_update_text(unix_ts, action@, value@),
        one_line(action@) ==> one_line(r@),
{
    let mut s = String::from_str("sudo39_audit event=policy_update unix_ts=");
    push_decimal(&mut s, unix_ts);
    s.append(" action=");
    s.append(action);
    s.append(" value=");
    let quoted = debug_quoted(value);
    s.append(quoted.as_str());
    assert(s@ =~= audit_update_text(unix_ts, action@, value@));
    proof {
        lemma_one_line_concat_all();
        lemma_decimal_one_line(unix_ts as nat);
        reveal_strlit("sudo39_audit event=policy_update unix_ts=");
        reveal_strlit(" action=");
        reveal_strlit(" value=");
        assert(one_line("sudo39_audit event=policy_update unix_ts="@));
        assert(one_line(" action="@));
        assert(one_line(" value="@));
        assert(one_line(debug_str(value@)));
    }
    s
}

} // verus!
