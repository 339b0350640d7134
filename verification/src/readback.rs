//! How the launchers' command languages read the quoted text back, and the
//! laws that each quoted value reads back exactly, with nothing after it
//! taken into the value and nothing of the value left outside it.
use vstd::prelude::*;

use crate::elevation::{
    apple_string, escape_char, escaped, is_powershell_quote, powershell_word, shell_command_line,
    shell_word, uac_script, Quoting,
};
use crate::text::join;

verus! {

/// A character that separates words on a POSIX shell command line.
pub open spec fn is_blank(c: char) -> bool {
    c == ' ' || c == '\t'
}

/// POSIX shell quote removal over one word: reads from the start of `t`
/// (inside single quotes when `quoted`) up to an unquoted blank or the end.
/// Gives the word's value and what is left of `t`. Single quotes keep all
/// between them; outside them a backslash keeps the next character.
pub open spec fn shell_read(t: Seq<char>, quoted: bool) -> (Seq<char>, Seq<char>)
    decreases t.len(),
{
    if t.len() == 0 {
        (Seq::empty(), Seq::empty())
    } else if quoted {
        if t[0] == '\'' {
            shell_read(t.drop_first(), false)
        } else {
            let (v, r) = shell_read(t.drop_first(), true);
            (seq![t[0]] + v, r)
        }
    } else if is_blank(t[0]) {
        (Seq::empty(), t)
    } else if t[0] == '\'' {
        shell_read(t.drop_first(), true)
    } else if t[0] == '\\' && t.len() > 1 {
        let (v, r) = shell_read(t.skip(2), false);
        (seq![t[1]] + v, r)
    } else {
        let (v, r) = shell_read(t.drop_first(), false);
        (seq![t[0]] + v, r)
    }
}

/// The words of a POSIX shell command line, after splitting on blanks and
/// quote removal.
pub open spec fn shell_words(t: Seq<char>) -> Seq<Seq<char>>
    decreases t.len(),
{
    if t.len() == 0 {
        Seq::empty()
    } else if is_blank(t[0]) {
        shell_words(t.drop_first())
    } else {
        let (w, r) = shell_read(t, false);
        if r.len() < t.len() {
            seq![w] + shell_words(r)
        } else {
            seq![w]
        }
    }
}

/// Reads the inside of an AppleScript string literal up to its closing `"`:
/// `\"`, `\\`, `\n`, `\t` and `\r` are its escapes, any other backslash is
/// an error. Gives the value and what follows the literal.
pub open spec fn apple_body(t: Seq<char>) -> Option<(Seq<char>, Seq<char>)>
    decreases t.len(),
{
    if t.len() == 0 {
        None
    } else if t[0] == '"' {
        Some((Seq::empty(), t.drop_first()))
    } else if t[0] == '\\' {
        if t.len() < 2 {
            None
        } else {
            let e = t[1];
            let c = if e == 'n' {
                '\n'
            } else if e == 't' {
                '\t'
            } else if e == 'r' {
                '\r'
            } else {
                e
            };
            if e == '"' || e == '\\' || e == 'n' || e == 't' || e == 'r' {
                match apple_body(t.skip(2)) {
                    Some((v, r)) => Some((seq![c] + v, r)),
                    None => None,
                }
            } else {
                None
            }
        }
    } else {
        match apple_body(t.drop_first()) {
            Some((v, r)) => Some((seq![t[0]] + v, r)),
            None => None,
        }
    }
}

/// Reads an AppleScript string literal at the start of `t`.
pub open spec fn apple_read(t: Seq<char>) -> Option<(Seq<char>, Seq<char>)> {
    if t.len() > 0 && t[0] == '"' {
        apple_body(t.drop_first())
    } else {
        None
    }
}

/// Reads the inside of a PowerShell single-quoted string up to its closing
/// quote mark: two quote marks in a row stand for the second one.
pub open spec fn powershell_body(t: Seq<char>) -> Option<(Seq<char>, Seq<char>)>
    decreases t.len(),
{
    if t.len() == 0 {
        None
    } else if is_powershell_quote(t[0]) {
        if t.len() > 1 && is_powershell_quote(t[1]) {
            match powershell_body(t.skip(2)) {
                Some((v, r)) => Some((seq![t[1]] + v, r)),
                None => None,
            }
        } else {
            Some((Seq::empty(), t.drop_first()))
        }
    } else {
        match powershell_body(t.drop_first()) {
            Some((v, r)) => Some((seq![t[0]] + v, r)),
            None => None,
        }
    }
}

/// Reads a PowerShell single-quoted string at the start of `t`.
pub open spec fn powershell_read(t: Seq<char>) -> Option<(Seq<char>, Seq<char>)> {
    if t.len() > 0 && is_powershell_quote(t[0]) {
        powershell_body(t.drop_first())
    } else {
        None
    }
}

/// Escaping distributes over concatenation.
pub proof fn lemma_escaped_append(q: Quoting, a: Seq<char>, b: Seq<char>)
    ensures
        escaped(q, a + b) == escaped(q, a) + escaped(q, b),
    decreases b.len(),
{
    if b.len() == 0 {
        assert(a + b =~= a);
        assert(escaped(q, a) + escaped(q, b) =~= escaped(q, a));
    } else {
        assert((a + b).drop_last() =~= a + b.drop_last());
        lemma_escaped_append(q, a, b.drop_last());
        assert(escaped(q, a + b) =~= escaped(q, a) + escaped(q, b));
    }
}

proof fn lemma_escaped_cons(q: Quoting, x: char, v: Seq<char>)
    ensures
        escaped(q, seq![x] + v) == escape_char(q, x) + escaped(q, v),
{
    lemma_escaped_append(q, seq![x], v);
    assert(seq![x].drop_last() == Seq::<char>::empty());
    assert(seq![x].last() == x);
    assert(escaped(q, Seq::<char>::empty()) == Seq::<char>::empty());
    assert(escaped(q, seq![x]) == escaped(q, seq![x].drop_last()) + escape_char(q, x));
    assert(escaped(q, seq![x]) =~= escape_char(q, x));
}

proof fn lemma_powershell_body(v: Seq<char>, q: char, rest: Seq<char>)
    requires
        is_powershell_quote(q),
        rest.len() == 0 || !is_powershell_quote(rest[0]),
    ensures
        powershell_body(escaped(Quoting::PowerShell, v) + seq![q] + rest) == Some((v, rest)),
    decreases v.len(),
{
    let t = escaped(Quoting::PowerShell, v) + seq![q] + rest;
    if v.len() == 0 {
        assert(v =~= Seq::<char>::empty());
        assert(t =~= seq![q] + rest);
        assert(t.drop_first() =~= rest);
    } else {
        let x = v[0];
        let w = v.drop_first();
        assert(v =~= seq![x] + w);
        lemma_escaped_cons(Quoting::PowerShell, x, w);
        lemma_powershell_body(w, q, rest);
        let tail = escaped(Quoting::PowerShell, w) + seq![q] + rest;
        if is_powershell_quote(x) {
            assert(t =~= seq![x, x] + tail);
            assert(t.skip(2) =~= tail);
        } else {
            assert(t =~= seq![x] + tail);
            assert(t.drop_first() =~= tail);
        }
        assert(seq![x] + w =~= v);
    }
}

/// A PowerShell single-quoted string of `value` reads back as exactly
/// `value`, whatever quote marks it holds, and ends where it was meant to:
/// what follows it (when that does not start with a quote mark) is left.
pub proof fn law_powershell_word_reads_back(value: Seq<char>, rest: Seq<char>)
    requires
        rest.len() == 0 || !is_powershell_quote(rest[0]),
    ensures
        powershell_read(powershell_word(value) + rest) == Some((value, rest)),
{
    lemma_powershell_body(value, '\'', rest);
    let t = powershell_word(value) + rest;
    assert(t.drop_first() =~= escaped(Quoting::PowerShell, value) + seq!['\''] + rest);
}

proof fn lemma_apple_body(v: Seq<char>, rest: Seq<char>)
    ensures
        apple_body(escaped(Quoting::AppleScript, v) + seq!['"'] + rest) == Some((v, rest)),
    decreases v.len(),
{
    let t = escaped(Quoting::AppleScript, v) + seq!['"'] + rest;
    if v.len() == 0 {
        assert(v =~= Seq::<char>::empty());
        assert(t =~= seq!['"'] + rest);
        assert(t.drop_first() =~= rest);
    } else {
        let x = v[0];
        let w = v.drop_first();
        assert(v =~= seq![x] + w);
        lemma_escaped_cons(Quoting::AppleScript, x, w);
        lemma_apple_body(w, rest);
        let tail = escaped(Quoting::AppleScript, w) + seq!['"'] + rest;
        if x == '\\' || x == '"' {
            assert(t =~= seq!['\\', x] + tail);
            assert(t.skip(2) =~= tail);
        } else {
            assert(t =~= seq![x] + tail);
            assert(t.drop_first() =~= tail);
        }
        assert(seq![x] + w =~= v);
    }
}

/// An AppleScript string literal of `value` reads back as exactly `value`,
/// and what follows it is left as it is.
pub proof fn law_apple_string_reads_back(value: Seq<char>, rest: Seq<char>)
    ensures
        apple_read(apple_string(value) + rest) == Some((value, rest)),
{
    lemma_apple_body(value, rest);
    let t = apple_string(value) + rest;
    assert(t.drop_first() =~= escaped(Quoting::AppleScript, value) + seq!['"'] + rest);
}

proof fn lemma_shell_quoted(v: Seq<char>, c: Seq<char>)
    requires
        c.len() == 0 || is_blank(c[0]),
    ensures
        shell_read(escaped(Quoting::Shell, v) + seq!['\''] + c, true) == (v, c),
    decreases v.len(),
{
    let t = escaped(Quoting::Shell, v) + seq!['\''] + c;
    if v.len() == 0 {
        assert(v =~= Seq::<char>::empty());
        assert(t =~= seq!['\''] + c);
        assert(t.drop_first() =~= c);
        if c.len() == 0 {
            assert(c =~= Seq::<char>::empty());
        }
        assert(shell_read(t, true) == shell_read(c, false));
        assert(shell_read(c, false) == (Seq::<char>::empty(), c));
    } else {
        let x = v[0];
        let w = v.drop_first();
        assert(v =~= seq![x] + w);
        lemma_escaped_cons(Quoting::Shell, x, w);
        lemma_shell_quoted(w, c);
        let tail = escaped(Quoting::Shell, w) + seq!['\''] + c;
        if x == '\'' {
            assert(t =~= seq!['\'', '\\', '\'', '\''] + tail);
            let t1 = t.drop_first();
            assert(t1 =~= seq!['\\', '\'', '\''] + tail);
            let t2 = t1.skip(2);
            assert(t2 =~= seq!['\''] + tail);
            assert(t2.drop_first() =~= tail);
            assert(shell_read(t2, false) == shell_read(tail, true));
            assert(shell_read(t1, false) == (seq!['\''] + w, c));
            assert(shell_read(t, true) == shell_read(t1, false));
        } else {
            assert(t =~= seq![x] + tail);
            assert(t.drop_first() =~= tail);
            assert(shell_read(t, true) == (seq![x] + w, c));
        }
        assert(seq![x] + w =~= v);
        assert(shell_read(t, true) == (v, c));
    }
}

proof fn lemma_shell_word(v: Seq<char>, c: Seq<char>)
    requires
        c.len() == 0 || is_blank(c[0]),
    ensures
        shell_read(shell_word(v) + c, false) == (v, c),
{
    lemma_shell_quoted(v, c);
    let t = shell_word(v) + c;
    assert(t.drop_first() =~= escaped(Quoting::Shell, v) + seq!['\''] + c);
}

proof fn lemma_join_front(a: Seq<char>, rest: Seq<Seq<char>>, sep: Seq<char>)
    requires
        rest.len() > 0,
    ensures
        join(seq![a] + rest, sep) == a + sep + join(rest, sep),
    decreases rest.len(),
{
    let all = seq![a] + rest;
    if rest.len() == 1 {
        assert(all.drop_last() =~= seq![a]);
        assert(join(seq![a], sep) == a);
        assert(join(rest, sep) == rest[0]);
        assert(all.last() == rest[0]);
        assert(join(all, sep) == join(all.drop_last(), sep) + sep + all.last());
        assert(join(all, sep) =~= a + sep + join(rest, sep));
    } else {
        lemma_join_front(a, rest.drop_last(), sep);
        assert(all.drop_last() =~= seq![a] + rest.drop_last());
        assert(all.last() == rest.last());
        assert(join(all, sep) == join(all.drop_last(), sep) + sep + all.last());
        assert(join(rest, sep) == join(rest.drop_last(), sep) + sep + rest.last());
        assert(join(all, sep) =~= a + sep + join(rest, sep));
    }
}

proof fn lemma_join_first(ws: Seq<Seq<char>>, sep: Seq<char>)
    requires
        ws.len() > 0,
        ws[0].len() > 0,
    ensures
        join(ws, sep).len() > 0,
        join(ws, sep)[0] == ws[0][0],
{
    if ws.len() > 1 {
        lemma_join_front(ws[0], ws.drop_first(), sep);
        assert(ws =~= seq![ws[0]] + ws.drop_first());
    }
}

proof fn lemma_shell_line(ws: Seq<Seq<char>>)
    requires
        ws.len() > 0,
    ensures
        shell_words(join(ws.map_values(|w: Seq<char>| shell_word(w)), seq![' '])) == ws,
    decreases ws.len(),
{
    let quoted = ws.map_values(|w: Seq<char>| shell_word(w));
    let line = join(quoted, seq![' ']);
    let w = ws[0];
    if ws.len() == 1 {
        assert(line == shell_word(w));
        lemma_shell_word(w, Seq::empty());
        assert(shell_word(w) + Seq::<char>::empty() =~= shell_word(w));
        assert(line[0] == '\'');
        assert(line =~= shell_word(w) + Seq::<char>::empty());
        assert(shell_read(line, false) == (w, Seq::<char>::empty()));
        assert(shell_words(Seq::<char>::empty()) == Seq::<Seq<char>>::empty());
        assert(shell_words(line) == seq![w] + shell_words(Seq::<char>::empty()));
        assert(seq![w] + Seq::<Seq<char>>::empty() =~= seq![w]);
        assert(ws =~= seq![w]);
    } else {
        let more = ws.drop_first();
        let more_quoted = more.map_values(|x: Seq<char>| shell_word(x));
        assert(quoted =~= seq![shell_word(w)] + more_quoted);
        lemma_join_front(shell_word(w), more_quoted, seq![' ']);
        let after = join(more_quoted, seq![' ']);
        let c = seq![' '] + after;
        assert(line =~= shell_word(w) + c);
        lemma_shell_word(w, c);
        assert(line[0] == '\'');
        lemma_shell_line(more);
        lemma_join_first(more_quoted, seq![' ']);
        assert(more_quoted[0] == shell_word(more[0]));
        assert(c.drop_first() =~= after);
        assert(c[0] == ' ');
        assert(shell_words(c) == shell_words(after));
        assert(shell_read(line, false) == (w, c));
        assert(c.len() < line.len());
        assert(shell_words(line) == seq![w] + shell_words(c));
        assert(ws =~= seq![w] + more);
    }
}

/// A POSIX shell splits the command line of a program and its arguments
/// back into exactly the program and the arguments, whatever they hold.
pub proof fn law_shell_line_reads_back(program: Seq<char>, args: Seq<Seq<char>>)
    ensures
        shell_words(shell_command_line(program, args)) == seq![program] + args,
{
    lemma_shell_line(seq![program] + args);
}

/// Where the `i`-th of `ws` starts in their join with separators of length
/// `sep_len`.
pub open spec fn join_offset(ws: Seq<Seq<char>>, sep_len: int, i: int) -> int
    decreases i,
{
    if i <= 0 || ws.len() == 0 {
        0
    } else {
        ws[0].len() + sep_len + join_offset(ws.drop_first(), sep_len, i - 1)
    }
}

proof fn lemma_join_skip(ws: Seq<Seq<char>>, sep: Seq<char>, i: int)
    requires
        0 <= i < ws.len(),
    ensures
        0 <= join_offset(ws, sep.len() as int, i),
        join_offset(ws, sep.len() as int, i) + ws[i].len() <= join(ws, sep).len(),
        join(ws, sep).skip(join_offset(ws, sep.len() as int, i)) == ws[i] + (if i + 1 < ws.len() {
            sep + join(ws.skip(i + 1), sep)
        } else {
            Seq::empty()
        }),
    decreases i,
{
    if ws.len() == 1 {
        assert(join(ws, sep) == ws[0]);
        assert(join(ws, sep).skip(0) =~= ws[0] + Seq::<char>::empty());
    } else {
        let rest = ws.drop_first();
        lemma_join_front(ws[0], rest, sep);
        assert(ws =~= seq![ws[0]] + rest);
        let j = join(ws, sep);
        if i == 0 {
            assert(ws.skip(1) =~= rest);
            assert(j.skip(0) =~= ws[0] + (sep + join(ws.skip(1), sep)));
        } else {
            lemma_join_skip(rest, sep, i - 1);
            let a = ws[0].len() + sep.len();
            let b = join_offset(rest, sep.len() as int, i - 1);
            assert(j.skip(a as int) =~= join(rest, sep));
            assert(j.skip(a + b) =~= join(rest, sep).skip(b));
            assert(rest.skip(i) =~= ws.skip(i + 1));
            assert(rest[i - 1] == ws[i]);
        }
    }
}

/// Where the `i`-th argument's literal starts in the UAC script.
pub open spec fn uac_argument_start(program: Seq<char>, args: Seq<Seq<char>>, i: int) -> int {
    "Start-Process -FilePath "@.len() + powershell_word(program).len() + " -ArgumentList @("@.len()
        + join_offset(args.map_values(|a: Seq<char>| powershell_word(a)), 2, i)
}

/// In the UAC script, the literal of each argument, at its place in the
/// `-ArgumentList`, reads back as exactly that argument, and what follows it
/// is the rest of the script.
pub proof fn law_uac_argument_reads_back(program: Seq<char>, args: Seq<Seq<char>>, i: int)
    requires
        0 <= i < args.len(),
    ensures
        ({
            let script = uac_script(program, args);
            let start = uac_argument_start(program, args, i);
            powershell_read(script.skip(start)) == Some(
                (args[i], script.skip(start + powershell_word(args[i]).len())),
            )
        }),
{
    reveal_strlit("Start-Process -FilePath ");
    reveal_strlit(" -ArgumentList @(");
    reveal_strlit(" -Verb RunAs -Wait");
    let script = uac_script(program, args);
    let words = args.map_values(|a: Seq<char>| powershell_word(a));
    let sep = seq![',', ' '];
    let list = join(words, sep);
    let pre = "Start-Process -FilePath "@ + powershell_word(program) + " -ArgumentList @("@;
    let after = seq![')'] + " -Verb RunAs -Wait"@;
    assert(script =~= pre + (list + after));
    lemma_join_skip(words, sep, i);
    let off = join_offset(words, 2, i);
    let mid = if i + 1 < words.len() {
        sep + join(words.skip(i + 1), sep)
    } else {
        Seq::empty()
    };
    let word = powershell_word(args[i]);
    assert(words[i] == word);
    let tail = mid + after;
    let start = pre.len() + off;
    assert(start == uac_argument_start(program, args, i));
    assert(script.skip(start) =~= list.skip(off) + after);
    assert(script.skip(start) =~= word + tail);
    assert(script.skip(start + word.len()) =~= script.skip(start).skip(word.len() as int));
    assert((word + tail).skip(word.len() as int) =~= tail);
    assert(script.skip(start + word.len()) =~= tail);
    if i + 1 < words.len() {
        assert(tail[0] == ',');
    } else {
        assert(tail[0] == ')');
    }
    law_powershell_word_reads_back(args[i], tail);
}

/// In the UAC script, the `-FilePath` literal reads back as exactly the
/// program, and what follows it is the rest of the script.
pub proof fn law_uac_file_path_reads_back(program: Seq<char>, args: Seq<Seq<char>>)
    ensures
        ({
            let script = uac_script(program, args);
            let start = "Start-Process -FilePath "@.len() as int;
            let end = start + powershell_word(program).len();
            powershell_read(script.skip(start)) == Some((program, script.skip(end)))
        }),
{
    reveal_strlit("Start-Process -FilePath ");
    reveal_strlit(" -ArgumentList @(");
    reveal_strlit(" -Verb RunAs -Wait");
    let script = uac_script(program, args);
    let head = "Start-Process -FilePath "@;
    let word = powershell_word(program);
    let tail = script.skip((head.len() + word.len()) as int);
    assert(script.skip(head.len() as int) =~= word + tail);
    assert(tail[0] == ' ');
    law_powershell_word_reads_back(program, tail);
}

} // verus!
