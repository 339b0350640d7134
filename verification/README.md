# sudo39

The verified core of an MCP server that runs commands with OS elevation
(`sudo`, `pkexec`, `osascript`, PowerShell UAC) under an allowlist policy.

- `src/` is the library, verified with Verus:
  - `text`: white space, trimming, decimal text, `{:?}` of strings and lists;
  - `order`: the code-point order of strings and sorted listings;
  - `request`: tool errors and program-path normalization;
  - `policy`: the allowlist, the unsafe switch, confirmation phrases, and
    the laws of policy changes;
  - `elevation`: modes, launcher commands per host, quoting;
  - `readback`: how a POSIX shell, AppleScript and PowerShell read the
    quoted text back, and the laws that each value reads back exactly;
  - `output`: run reports, capped stream capture, the timeout decision of
    each poll, numeric settings, audit lines;
  - `tools`: run admission and the confirmation prompts;
  - `protocol`: refusals as turbomcp errors.
- `app/main.rs` is the server: the MCP transport, environment, processes,
  threads, clock and stderr audit log.
- `tests/` exercise the library on concrete values.
