//! The decisions of the server's tools and prompts: whether a run request
//! is admitted, and the texts that tell a user which phrase confirms a change.
use vstd::prelude::*;

use crate::elevation::{mode_named, unsupported_mode_message, ElevationMode};
use crate::policy::{
    add_phrase, confirm_add_program_phrase, confirm_reload_policy_phrase,
    confirm_remove_program_phrase, confirm_unsafe_phrase, permits, reload_phrase,
    remove_phrase, unsafe_phrase, validate_request, not_allowed_message, Policy,
};
use crate::request::{is_error, program_check, CommandRequest, ErrorKind, ToolError};
use crate::text::{bool_text, debug_quoted, debug_str, same_text, string_of, texts, trim, trimmed};

verus! {

/// What a run request comes to before anything is launched: refused as
/// malformed, denied by the policy, or admitted.
#[derive(Debug)]
pub enum RunAdmission {
    Refused(ToolError),
    Denied(CommandRequest, ElevationMode, ToolError),
    Admitted(CommandRequest, ElevationMode),
}

/// The mode that an optional mode name gives (`auto` when absent).
pub open spec fn requested_mode(mode: Option<Seq<char>>) -> Option<ElevationMode> {
    match mode {
        None => Some(ElevationMode::Auto),
        Some(s) => mode_named(s),
    }
}

/// The arguments of a request (none when absent).
pub open spec fn requested_args(args: Option<Vec<String>>) -> Seq<Seq<char>> {
    match args {
        Some(a) => texts(a@),
        None => Seq::empty(),
    }
}

/// Whether `enabled` names the value `true` for the unsafe switch.
pub open spec fn enabled_flag(enabled: Seq<char>) -> bool {
    let t = trim(enabled);
    t == "true"@ || t == "1"@ || t == "on"@ || t == "yes"@
}

/// Checks a run request in turn: the program path, the mode name, the policy.
pub fn admit_run(
    policy: &Policy,
    command: String,
    arguments: Option<Vec<String>>,
    mode: Option<&str>,
) -> (r: RunAdmission)
    ensures
        match program_check(command@) {
            Err(m) => r matches RunAdmission::Refused(e) && is_error(e, ErrorKind::InvalidParams, m),
            Ok(p) => match requested_mode(
                match mode {
                    Some(s) => Some(s@),
                    None => None,
                },
            ) {
                None => r matches RunAdmission::Refused(e) && is_error(
                    e,
                    ErrorKind::InvalidParams,
                    unsupported_mode_message(mode.unwrap()@),
                ),
                Some(m) => match r {
                    RunAdmission::Admitted(req, x) => {
                        &&& permits(policy@, p)
                        &&& req.program@ == p
                        &&& texts(req.args@) == requested_args(arguments)
                        &&& x == m
                    },
                    RunAdmission::Denied(req, x, e) => {
                        &&& !permits(policy@, p)
                        &&& req.program@ == p
                        &&& texts(req.args@) == requested_args(arguments)
                        &&& x == m
                        &&& is_error(e, ErrorKind::PermissionDenied, not_allowed_message())
                    },
                    RunAdmission::Refused(_) => false,
                },
            },
        },
{
    let ghost args_view = requested_args(arguments);
    let request = match CommandRequest::new(command, arguments) {
        Ok(req) => req,
        Err(e) => return RunAdmission::Refused(e),
    };
    assert(texts(request.args@) =~= args_view);
    let mode = match ElevationMode::parse(mode) {
        Ok(m) => m,
        Err(e) => return RunAdmission::Refused(e),
    };
    match validate_request(policy, &request) {
        Ok(()) => RunAdmission::Admitted(request, mode),
        Err(e) => RunAdmission::Denied(request, mode, e),
    }
}

/// The prompt that shows the phrase for allowing `program` (trimmed).
pub fn confirm_add_allowed_program_prompt(program: &str) -> (r: String)
    ensures
        r@ == "To allow "@ + debug_str(trim(program@))
            + " for this running sudo39 server, call sudo39_add_allowed_program with confirmation exactly: "@
            + add_phrase(trim(program@)),
{
    let program = string_of(trimmed(program).as_slice());
    let mut r = String::from_str("To allow ");
    let quoted = debug_quoted(program.as_str());
    r.append(quoted.as_str());
    r.append(
        " for this running sudo39 server, call sudo39_add_allowed_program with confirmation exactly: ",
    );
    let phrase = confirm_add_program_phrase(program.as_str());
    r.append(phrase.as_str());
    r
}

/// The prompt that shows the phrase for removing `program` (trimmed).
pub fn confirm_remove_allowed_program_prompt(program: &str) -> (r: String)
    ensures
        r@ == "To remove "@ + debug_str(trim(program@))
            + " from this running sudo39 server, call sudo39_remove_allowed_program with confirmation exactly: "@
            + remove_phrase(trim(program@)),
{
    let program = string_of(trimmed(program).as_slice());
    let mut r = String::from_str("To remove ");
    let quoted = debug_quoted(program.as_str());
    r.append(quoted.as_str());
    r.append(
        " from this running sudo39 server, call sudo39_remove_allowed_program with confirmation exactly: ",
    );
    let phrase = confirm_remove_program_phrase(program.as_str());
    r.append(phrase.as_str());
    r
}

/// Reads the switch value of the unsafe prompt: `true`, `1`, `on` or `yes`
/// (trimmed) mean on; anything else means off.
pub fn parse_enabled(enabled: &str) -> (r: bool)
    ensures
        r == enabled_flag(enabled@),
{
    let t = string_of(trimmed(enabled).as_slice());
    same_text(t.as_str(), "true") || same_text(t.as_str(), "1") || same_text(t.as_str(), "on")
        || same_text(t.as_str(), "yes")
}

/// The prompt that shows the phrase for switching unsafe mode.
pub fn confirm_set_allow_unsafe_prompt(enabled: &str) -> (r: String)
    ensures
        r@ == "To set runtime unsafe mode to "@ + bool_text(enabled_flag(enabled@))
            + ", call sudo39_set_allow_unsafe with confirmation exactly: "@ + unsafe_phrase(
            enabled_flag(enabled@),
        ),
{
    let flag = parse_enabled(enabled);
    proof {
        reveal_strlit("true");
        reveal_strlit("false");
    }
    let mut r = String::from_str("To set runtime unsafe mode to ");
    r.append(
        if flag {
            "true"
        } else {
            "false"
        },
    );
    r.append(", call sudo39_set_allow_unsafe with confirmation exactly: ");
    r.append(confirm_unsafe_phrase(flag));
    r
}

/// The prompt that shows the phrase for reloading the policy.
pub fn confirm_reload_policy_from_env_prompt() -> (r: String)
    ensures
        r@ == "To replace the runtime policy with the process environment, call sudo39_reload_policy_from_env with confirmation exactly: "@
            + reload_phrase(),
{
    let mut r = String::from_str(
        "To replace the runtime policy with the process environment, call sudo39_reload_policy_from_env with confirmation exactly: ",
    );
    r.append(confirm_reload_policy_phrase());
    r
}

} // verus!
