//! The runtime policy: which programs may run elevated, and the unsafe
//! switch that lets any program run. Each change to it is gated by an exact
//! confirmation phrase.
use vstd::prelude::*;

use crate::order::{
    lemma_sorted_listing_of, lemma_text_lt_irreflexive, lemma_text_lt_total,
    lemma_text_lt_transitive, listed, sorted_listing, strictly_sorted, text_less, text_lt,
};
use crate::request::{
    is_error, normalize_program, program_check, CommandRequest, ErrorKind, ToolError,
};
use crate::text::{
    bool_text, chars_of, debug_list, debug_quoted, debug_str, push_debug_list, same_text,
    string_of, texts, trim, trim_chars, law_trim_idempotent,
};

verus! {

/// The policy as a value.
pub struct PolicyView {
    /// The program paths that may run elevated.
    pub allowed: Set<Seq<char>>,
    /// Whether any program may run elevated.
    pub allow_unsafe: bool,
}

/// The allowlist and the unsafe switch. The allowlist is kept as a strictly
/// sorted list of program paths.
pub struct Policy {
    allowed_programs: Vec<String>,
    allow_unsafe: bool,
}

impl View for Policy {
    type V = PolicyView;

    closed spec fn view(&self) -> PolicyView {
        PolicyView { allowed: listed(texts(self.allowed_programs@)), allow_unsafe: self.allow_unsafe }
    }
}

/// The record of an accepted change: the audit action and value, and the
/// reply to the caller.
#[derive(Clone, Debug)]
pub struct PolicyUpdate {
    pub action: String,
    pub value: String,
    pub reply: String,
}

pub open spec fn not_allowed_message() -> Seq<char> {
    "program is not allowed; set SUDO39_ALLOWED_PROGRAMS or SUDO39_ALLOW_UNSAFE=1"@
}

/// The phrase that confirms allowing `program`.
pub open spec fn add_phrase(program: Seq<char>) -> Seq<char> {
    "ADD PROGRAM "@ + program
}

/// The phrase that confirms removing `program`.
pub open spec fn remove_phrase(program: Seq<char>) -> Seq<char> {
    "REMOVE PROGRAM "@ + program
}

/// The phrase that confirms switching unsafe mode on or off.
pub open spec fn unsafe_phrase(enabled: bool) -> Seq<char> {
    if enabled {
        "ENABLE UNSAFE"@
    } else {
        "DISABLE UNSAFE"@
    }
}

/// The phrase that confirms reloading the policy from the environment.
pub open spec fn reload_phrase() -> Seq<char> {
    "RELOAD POLICY FROM ENV"@
}

/// The message of a refused confirmation.
pub open spec fn mismatch_message(expected: Seq<char>) -> Seq<char> {
    "confirmation mismatch; expected "@ + debug_str(expected)
}

/// What a request to add (or remove) a program comes to: the normalized
/// path, or the kind and message of the refusal. The path is checked first,
/// then the confirmation phrase for the normalized path.
pub open spec fn change_outcome(program: Seq<char>, confirmation: Seq<char>, adding: bool) -> Result<
    Seq<char>,
    (ErrorKind, Seq<char>),
> {
    match program_check(program) {
        Err(m) => Err((ErrorKind::InvalidParams, m)),
        Ok(p) => {
            let phrase = if adding {
                add_phrase(p)
            } else {
                remove_phrase(p)
            };
            if confirmation == phrase {
                Ok(p)
            } else {
                Err((ErrorKind::PermissionDenied, mismatch_message(phrase)))
            }
        },
    }
}

/// A returned result agrees with an outcome.
pub open spec fn outcome_gives(
    o: Result<Seq<char>, (ErrorKind, Seq<char>)>,
    r: Result<String, ToolError>,
) -> bool {
    match o {
        Ok(p) => r matches Ok(q) && q@ == p,
        Err((k, m)) => r matches Err(e) && is_error(e, k, m),
    }
}

/// The policy as text: the switch, then the sorted list of allowed programs.
pub open spec fn policy_description(v: PolicyView) -> Seq<char> {
    "allow_unsafe: "@ + bool_text(v.allow_unsafe) + "\nallowed_programs: "@ + debug_list(
        sorted_listing(v.allowed),
    )
}

/// The pieces of `s` between commas, as `str::split(',')` gives them.
pub open spec fn comma_pieces(s: Seq<char>) -> Seq<Seq<char>>
    decreases s.len(),
{
    if s.len() == 0 {
        seq![Seq::empty()]
    } else {
        let init = comma_pieces(s.drop_last());
        if s.last() == ',' {
            init.push(Seq::empty())
        } else {
            init.update(init.len() - 1, init.last().push(s.last()))
        }
    }
}

/// The non-empty trimmed pieces.
pub open spec fn trimmed_pieces(pieces: Seq<Seq<char>>) -> Set<Seq<char>> {
    Set::new(
        |p: Seq<char>|
            p.len() > 0 && exists|i: int| 0 <= i < pieces.len() && trim(#[trigger] pieces[i]) == p,
    )
}

/// The allowlist that a comma-separated setting names: each piece trimmed,
/// empty pieces left out.
pub open spec fn allowlist(setting: Seq<char>) -> Set<Seq<char>> {
    trimmed_pieces(comma_pieces(setting))
}

/// A policy with the unsafe switch as given and the allowlist replaced.
pub open spec fn with_allowed(v: PolicyView, allowed: Set<Seq<char>>) -> PolicyView {
    PolicyView { allowed, allow_unsafe: v.allow_unsafe }
}

/// A policy with the allowlist as given and the unsafe switch replaced.
pub open spec fn with_unsafe(v: PolicyView, allow_unsafe: bool) -> PolicyView {
    PolicyView { allowed: v.allowed, allow_unsafe }
}

/// Whether a request for `program` passes the policy.
pub open spec fn permits(v: PolicyView, program: Seq<char>) -> bool {
    v.allow_unsafe || v.allowed.contains(program)
}

proof fn lemma_comma_pieces_len(s: Seq<char>)
    ensures
        comma_pieces(s).len() >= 1,
    decreases s.len(),
{
    if s.len() > 0 {
        lemma_comma_pieces_len(s.drop_last());
    }
}

proof fn lemma_trimmed_pieces_push(pieces: Seq<Seq<char>>, x: Seq<char>)
    ensures
        trimmed_pieces(pieces.push(x)) == (if trim(x).len() > 0 {
            trimmed_pieces(pieces).insert(trim(x))
        } else {
            trimmed_pieces(pieces)
        }),
{
    let next = pieces.push(x);
    assert forall|p: Seq<char>| #[trigger]
        trimmed_pieces(pieces).contains(p) implies trimmed_pieces(next).contains(p) by {
        let i = choose|i: int| 0 <= i < pieces.len() && trim(#[trigger] pieces[i]) == p;
        assert(next[i] == pieces[i]);
    }
    assert(trimmed_pieces(next).contains(trim(x)) == (trim(x).len() > 0)) by {
        assert(next[pieces.len() as int] == x);
    }
    assert forall|p: Seq<char>| #[trigger]
        trimmed_pieces(next).contains(p) && p != trim(x) implies trimmed_pieces(pieces).contains(
        p,
    ) by {
        let i = choose|i: int| 0 <= i < next.len() && trim(#[trigger] next[i]) == p;
        assert(i < pieces.len());
        assert(pieces[i] == next[i]);
    }
    if trim(x).len() > 0 {
        assert(trimmed_pieces(next) =~= trimmed_pieces(pieces).insert(trim(x)));
    } else {
        assert(trimmed_pieces(next) =~= trimmed_pieces(pieces));
    }
}

proof fn lemma_listed_push(s: Seq<Seq<char>>, x: Seq<char>)
    ensures
        listed(s.push(x)) == listed(s).insert(x),
{
    assert forall|y: Seq<char>| #[trigger] listed(s.push(x)).contains(y) <==> listed(s).insert(
        x,
    ).contains(y) by {
        if listed(s).contains(y) {
            let k = choose|k: int| 0 <= k < s.len() && s[k] == y;
            assert(s.push(x)[k] == y);
        }
        if y == x {
            assert(s.push(x)[s.len() as int] == x);
        }
        if listed(s.push(x)).contains(y) {
            let k = choose|k: int| 0 <= k < s.push(x).len() && s.push(x)[k] == y;
            if k < s.len() {
                assert(s[k] == y);
            }
        }
    }
    assert(listed(s.push(x)) =~= listed(s).insert(x));
}

proof fn lemma_insert_sorted(s: Seq<Seq<char>>, i: int, p: Seq<char>)
    requires
        strictly_sorted(s),
        0 <= i <= s.len(),
        forall|j: int| 0 <= j < i ==> text_lt(#[trigger] s[j], p),
        i < s.len() ==> text_lt(p, s[i]),
    ensures
        strictly_sorted(s.insert(i, p)),
        listed(s.insert(i, p)) == listed(s).insert(p),
{
    let t = s.insert(i, p);
    assert forall|a: int, b: int| 0 <= a < b < t.len() implies text_lt(
        #[trigger] t[a],
        #[trigger] t[b],
    ) by {
        if b < i {
            assert(t[a] == s[a] && t[b] == s[b]);
        } else if b == i {
            assert(t[a] == s[a]);
        } else if a == i {
            assert(t[b] == s[b - 1]);
            if b - 1 > i {
                assert(text_lt(s[i], s[b - 1]));
                lemma_text_lt_transitive(p, s[i], s[b - 1]);
            }
        } else if a < i {
            assert(t[a] == s[a] && t[b] == s[b - 1]);
        } else {
            assert(t[a] == s[a - 1] && t[b] == s[b - 1]);
        }
    }
    assert forall|x: Seq<char>| #[trigger] listed(t).contains(x) <==> listed(s).insert(p).contains(
        x,
    ) by {
        if listed(s).contains(x) {
            let k = choose|k: int| 0 <= k < s.len() && s[k] == x;
            if k < i {
                assert(t[k] == x);
            } else {
                assert(t[k + 1] == x);
            }
        }
        if x == p {
            assert(t[i] == p);
        }
        if listed(t).contains(x) {
            let k = choose|k: int| 0 <= k < t.len() && t[k] == x;
            if k < i {
                assert(s[k] == x);
            } else if k > i {
                assert(s[k - 1] == x);
            }
        }
    }
    assert(listed(t) =~= listed(s).insert(p));
}

proof fn lemma_remove_sorted(s: Seq<Seq<char>>, i: int)
    requires
        strictly_sorted(s),
        0 <= i < s.len(),
    ensures
        strictly_sorted(s.remove(i)),
        listed(s.remove(i)) == listed(s).remove(s[i]),
{
    let t = s.remove(i);
    assert forall|a: int, b: int| 0 <= a < b < t.len() implies text_lt(
        #[trigger] t[a],
        #[trigger] t[b],
    ) by {
        if b < i {
            assert(t[a] == s[a] && t[b] == s[b]);
        } else if a < i {
            assert(t[a] == s[a] && t[b] == s[b + 1]);
        } else {
            assert(t[a] == s[a + 1] && t[b] == s[b + 1]);
        }
    }
    assert forall|x: Seq<char>| #[trigger] listed(t).contains(x) <==> listed(s).remove(
        s[i],
    ).contains(x) by {
        if listed(t).contains(x) {
            let k = choose|k: int| 0 <= k < t.len() && t[k] == x;
            if k < i {
                assert(s[k] == x);
                assert(text_lt(s[k], s[i]));
                if x == s[i] {
                    lemma_text_lt_irreflexive(x);
                }
            } else {
                assert(s[k + 1] == x);
                assert(text_lt(s[i], s[k + 1]));
                if x == s[i] {
                    lemma_text_lt_irreflexive(x);
                }
            }
        }
        if listed(s).contains(x) && x != s[i] {
            let k = choose|k: int| 0 <= k < s.len() && s[k] == x;
            if k < i {
                assert(t[k] == x);
            } else {
                assert(k != i);
                assert(t[k - 1] == x);
            }
        }
    }
    assert(listed(t) =~= listed(s).remove(s[i]));
}

impl Policy {
    /// The program paths, in order.
    pub closed spec fn entries(&self) -> Seq<Seq<char>> {
        texts(self.allowed_programs@)
    }

    #[verifier::type_invariant]
    closed spec fn well_formed(&self) -> bool {
        strictly_sorted(self.entries())
    }

    /// A policy with an empty allowlist.
    pub fn new(allow_unsafe: bool) -> (r: Policy)
        ensures
            r@.allowed == Set::<Seq<char>>::empty(),
            r@.allow_unsafe == allow_unsafe,
    {
        let r = Policy { allowed_programs: Vec::new(), allow_unsafe };
        assert(listed(texts(r.allowed_programs@)) =~= Set::<Seq<char>>::empty());
        r
    }

    /// Where `program` stands or would stand in the sorted allowlist, and
    /// whether it is there.
    fn locate(&self, program: &[char]) -> (r: (usize, bool))
        ensures
            r.0 <= self.entries().len(),
            forall|j: int| 0 <= j < r.0 ==> text_lt(#[trigger] self.entries()[j], program@),
            r.0 < self.entries().len() ==> !text_lt(self.entries()[r.0 as int], program@),
            r.1 == (r.0 < self.entries().len() && self.entries()[r.0 as int] == program@),
            r.1 == self@.allowed.contains(program@),
            !r.1 && r.0 < self.entries().len() ==> text_lt(program@, self.entries()[r.0 as int]),
    {
        proof {
            use_type_invariant(self);
        }
        let ghost s = self.entries();
        let n = self.allowed_programs.len();
        let mut i: usize = 0;
        while i < n && text_less(chars_of(self.allowed_programs[i].as_str()).as_slice(), program)
            invariant
                n == s.len(),
                s == self.entries(),
                i <= n,
                forall|j: int| 0 <= j < i ==> text_lt(#[trigger] s[j], program@),
            decreases n - i,
        {
            i = i + 1;
        }
        let found = i < n && same_text(self.allowed_programs[i].as_str(), string_of(program).as_str());
        proof {
            if i < n {
                assert(s[i as int] == self.allowed_programs@[i as int]@);
            }
            if listed(s).contains(program@) {
                let k = choose|k: int| 0 <= k < s.len() && s[k] == program@;
                if k < i {
                    lemma_text_lt_irreflexive(program@);
                }
                if k > i {
                    assert(text_lt(s[i as int], s[k]));
                }
            }
            if !found && i < n {
                lemma_text_lt_total(s[i as int], program@);
            }
        }
        (i, found)
    }

    /// Whether `program` is on the allowlist.
    pub fn is_allowed(&self, program: &str) -> (r: bool)
        ensures
            r == self@.allowed.contains(program@),
    {
        let p = chars_of(program);
        self.locate(p.as_slice()).1
    }

    /// Puts `program` on the allowlist.
    pub fn allow_program(&mut self, program: String)
        ensures
            final(self)@ == with_allowed(old(self)@, old(self)@.allowed.insert(program@)),
    {
        proof {
            use_type_invariant(&*self);
        }
        let p = chars_of(program.as_str());
        let (i, found) = self.locate(p.as_slice());
        if found {
            assert(self@.allowed.insert(program@) =~= self@.allowed);
            return ;
        }
        let ghost s = self.entries();
        let mut v: Vec<String> = Vec::new();
        std::mem::swap(&mut v, &mut self.allowed_programs);
        v.insert(i, program);
        proof {
            lemma_insert_sorted(s, i as int, p@);
            assert(texts(v@) =~= s.insert(i as int, p@));
        }
        self.allowed_programs = v;
    }

    /// Takes `program` off the allowlist.
    pub fn disallow_program(&mut self, program: &str)
        ensures
            final(self)@ == with_allowed(old(self)@, old(self)@.allowed.remove(program@)),
    {
        proof {
            use_type_invariant(&*self);
        }
        let p = chars_of(program);
        let (i, found) = self.locate(p.as_slice());
        if !found {
            assert(self@.allowed.remove(program@) =~= self@.allowed);
            return ;
        }
        let ghost s = self.entries();
        let mut v: Vec<String> = Vec::new();
        std::mem::swap(&mut v, &mut self.allowed_programs);
        let _ = v.remove(i);
        proof {
            lemma_remove_sorted(s, i as int);
            assert(texts(v@) =~= s.remove(i as int));
        }
        self.allowed_programs = v;
    }

    /// A policy that allows the given programs, as given (not normalized).
    pub fn from_programs(programs: Vec<String>, allow_unsafe: bool) -> (r: Policy)
        ensures
            r@.allowed == listed(texts(programs@)),
            r@.allow_unsafe == allow_unsafe,
    {
        let mut r = Policy::new(allow_unsafe);
        let n = programs.len();
        let mut i: usize = 0;
        while i < n
            invariant
                n == programs@.len(),
                i <= n,
                r@.allowed == listed(texts(programs@.take(i as int))),
                r@.allow_unsafe == allow_unsafe,
            decreases n - i,
        {
            r.allow_program(programs[i].clone());
            proof {
                let before = texts(programs@.take(i as int));
                let after = texts(programs@.take(i + 1));
                assert(after =~= before.push(programs@[i as int]@));
                lemma_listed_push(before, programs@[i as int]@);
            }
            i = i + 1;
        }
        assert(programs@.take(n as int) =~= programs@);
        r
    }

    /// The policy that the environment settings give: the allowlist from the
    /// comma-separated program list (absent counts as empty), and unsafe mode
    /// exactly where the unsafe setting is `1`.
    pub fn from_env_values(allowed_programs: Option<&str>, allow_unsafe: Option<&str>) -> (r: Policy)
        ensures
            r@.allowed == allowlist(
                match allowed_programs {
                    Some(v) => v@,
                    None => Seq::empty(),
                },
            ),
            r@.allow_unsafe == (allow_unsafe matches Some(u) && u@ == seq!['1']),
    {
        let flag = match allow_unsafe {
            Some(u) => {
                let same = same_text(u, "1");
                proof {
                    reveal_strlit("1");
                    assert("1"@ =~= seq!['1']);
                }
                same
            },
            None => false,
        };
        let cs = match allowed_programs {
            Some(v) => chars_of(v),
            None => Vec::new(),
        };
        let ghost setting = cs@;
        let mut r = Policy::new(flag);
        let mut cur: Vec<char> = Vec::new();
        let ghost mut done: Seq<Seq<char>> = Seq::empty();
        let n = cs.len();
        let mut i: usize = 0;
        assert(cs@.take(0) =~= Seq::<char>::empty());
        assert(trimmed_pieces(done) =~= Set::<Seq<char>>::empty());
        while i < n
            invariant
                n == cs@.len(),
                i <= n,
                comma_pieces(cs@.take(i as int)) == done.push(cur@),
                r@.allowed == trimmed_pieces(done),
                r@.allow_unsafe == flag,
            decreases n - i,
        {
            let c = cs[i];
            proof {
                assert(cs@.take(i + 1).drop_last() =~= cs@.take(i as int));
                assert(cs@.take(i + 1).last() == c);
                lemma_comma_pieces_len(cs@.take(i as int));
            }
            if c == ',' {
                let t = trim_chars(cur.as_slice());
                if t.len() > 0 {
                    r.allow_program(string_of(t.as_slice()));
                }
                proof {
                    lemma_trimmed_pieces_push(done, cur@);
                    done = done.push(cur@);
                }
                cur = Vec::new();
                proof {
                    assert(comma_pieces(cs@.take(i + 1)) =~= done.push(cur@));
                }
            } else {
                let ghost old_cur = cur@;
                cur.push(c);
                proof {
                    assert(comma_pieces(cs@.take(i + 1)) =~= done.push(old_cur).update(
                        done.len() as int,
                        old_cur.push(c),
                    ));
                    assert(done.push(old_cur).update(done.len() as int, old_cur.push(c)) =~= done.push(
                        cur@,
                    ));
                }
            }
            i = i + 1;
        }
        let t = trim_chars(cur.as_slice());
        if t.len() > 0 {
            r.allow_program(string_of(t.as_slice()));
        }
        proof {
            lemma_trimmed_pieces_push(done, cur@);
            assert(cs@.take(n as int) =~= cs@);
        }
        r
    }

    /// The policy as text: `allow_unsafe: <bool>` and, on a second line,
    /// `allowed_programs: ` with the sorted allowlist as a quoted list.
    pub fn describe(&self) -> (r: String)
        ensures
            r@ == policy_description(self@),
            strictly_sorted(sorted_listing(self@.allowed)),
            listed(sorted_listing(self@.allowed)) == self@.allowed,
    {
        proof {
            use_type_invariant(self);
            lemma_sorted_listing_of(self.entries());
            reveal_strlit("true");
            reveal_strlit("false");
        }
        let mut s = String::from_str("allow_unsafe: ");
        if self.allow_unsafe {
            s.append("true");
        } else {
            s.append("false");
        }
        s.append("\nallowed_programs: ");
        push_debug_list(&mut s, self.allowed_programs.as_slice());
        assert(s@ =~= policy_description(self@));
        s
    }

    /// Allows `program` after checking its path and the phrase
    /// `ADD PROGRAM <path>`; a refused request changes nothing.
    pub fn add_allowed_program(&mut self, program: String, confirmation: &str) -> (r: Result<
        PolicyUpdate,
        ToolError,
    >)
        ensures
            match change_outcome(program@, confirmation@, true) {
                Ok(p) => {
                    &&& final(self)@ == with_allowed(old(self)@, old(self)@.allowed.insert(p))
                    &&& r matches Ok(u) && u.action@ == "add_allowed_program"@ && u.value@ == p
                        && u.reply@ == "allowed program added: "@ + p
                },
                Err((k, m)) => {
                    &&& final(self)@ == old(self)@
                    &&& r matches Err(e) && is_error(e, k, m)
                },
            },
    {
        let program = authorize_add(program, confirmation)?;
        self.allow_program(program.clone());
        let mut reply = String::from_str("allowed program added: ");
        reply.append(program.as_str());
        Ok(PolicyUpdate { action: String::from_str("add_allowed_program"), value: program, reply })
    }

    /// Removes `program` after checking its path and the phrase
    /// `REMOVE PROGRAM <path>`; a refused request changes nothing.
    pub fn remove_allowed_program(&mut self, program: String, confirmation: &str) -> (r: Result<
        PolicyUpdate,
        ToolError,
    >)
        ensures
            match change_outcome(program@, confirmation@, false) {
                Ok(p) => {
                    &&& final(self)@ == with_allowed(old(self)@, old(self)@.allowed.remove(p))
                    &&& r matches Ok(u) && u.action@ == "remove_allowed_program"@ && u.value@ == p
                        && u.reply@ == "allowed program removed: "@ + p
                },
                Err((k, m)) => {
                    &&& final(self)@ == old(self)@
                    &&& r matches Err(e) && is_error(e, k, m)
                },
            },
    {
        let program = authorize_remove(program, confirmation)?;
        self.disallow_program(program.as_str());
        let mut reply = String::from_str("allowed program removed: ");
        reply.append(program.as_str());
        Ok(
            PolicyUpdate {
                action: String::from_str("remove_allowed_program"),
                value: program,
                reply,
            },
        )
    }

    /// Switches unsafe mode after checking the phrase for `enabled`; a
    /// refused request changes nothing.
    pub fn set_allow_unsafe(&mut self, enabled: bool, confirmation: &str) -> (r: Result<
        PolicyUpdate,
        ToolError,
    >)
        ensures
            confirmation@ == unsafe_phrase(enabled) ==> {
                &&& final(self)@ == with_unsafe(old(self)@, enabled)
                &&& r matches Ok(u) && u.action@ == "set_allow_unsafe"@ && u.value@ == bool_text(
                    enabled,
                ) && u.reply@ == "allow unsafe set to "@ + bool_text(enabled)
            },
            confirmation@ != unsafe_phrase(enabled) ==> {
                &&& final(self)@ == old(self)@
                &&& r matches Err(e) && is_error(
                    e,
                    ErrorKind::PermissionDenied,
                    mismatch_message(unsafe_phrase(enabled)),
                )
            },
    {
        proof {
            use_type_invariant(&*self);
        }
        require_confirmation(confirmation, confirm_unsafe_phrase(enabled))?;
        self.allow_unsafe = enabled;
        proof {
            reveal_strlit("true");
            reveal_strlit("false");
        }
        let value = String::from_str(
            if enabled {
                "true"
            } else {
                "false"
            },
        );
        let mut reply = String::from_str("allow unsafe set to ");
        reply.append(value.as_str());
        Ok(PolicyUpdate { action: String::from_str("set_allow_unsafe"), value, reply })
    }

    /// Replaces the whole policy with `reloaded` after checking the phrase
    /// `RELOAD POLICY FROM ENV`; a refused request changes nothing.
    pub fn reload(&mut self, reloaded: Policy, confirmation: &str) -> (r: Result<
        PolicyUpdate,
        ToolError,
    >)
        ensures
            confirmation@ == reload_phrase() ==> {
                &&& final(self)@ == reloaded@
                &&& r matches Ok(u) && u.action@ == "reload_from_env"@ && u.value@
                    == "SUDO39_ALLOWED_PROGRAMS,SUDO39_ALLOW_UNSAFE"@ && u.reply@
                    == "policy reloaded from environment\n"@ + policy_description(reloaded@)
            },
            confirmation@ != reload_phrase() ==> {
                &&& final(self)@ == old(self)@
                &&& r matches Err(e) && is_error(
                    e,
                    ErrorKind::PermissionDenied,
                    mismatch_message(reload_phrase()),
                )
            },
    {
        require_confirmation(confirmation, confirm_reload_policy_phrase())?;
        let description = reloaded.describe();
        *self = reloaded;
        let mut reply = String::from_str("policy reloaded from environment\n");
        reply.append(description.as_str());
        Ok(
            PolicyUpdate {
                action: String::from_str("reload_from_env"),
                value: String::from_str("SUDO39_ALLOWED_PROGRAMS,SUDO39_ALLOW_UNSAFE"),
                reply,
            },
        )
    }
}

/// Passes a request when unsafe mode is on or its program is allowlisted.
pub fn validate_request(policy: &Policy, request: &CommandRequest) -> (r: Result<(), ToolError>)
    ensures
        r is Ok <==> permits(policy@, request.program@),
        r matches Err(e) ==> is_error(e, ErrorKind::PermissionDenied, not_allowed_message()),
{
    if policy.allow_unsafe {
        return Ok(());
    }
    if policy.is_allowed(request.program.as_str()) {
        return Ok(());
    }
    Err(
        ToolError {
            kind: ErrorKind::PermissionDenied,
            message: String::from_str(
                "program is not allowed; set SUDO39_ALLOWED_PROGRAMS or SUDO39_ALLOW_UNSAFE=1",
            ),
        },
    )
}

/// Passes exactly when the confirmation equals the expected phrase.
pub fn require_confirmation(actual: &str, expected: &str) -> (r: Result<(), ToolError>)
    ensures
        r is Ok <==> actual@ == expected@,
        r matches Err(e) ==> is_error(e, ErrorKind::PermissionDenied, mismatch_message(expected@)),
{
    if same_text(actual, expected) {
        return Ok(());
    }
    let mut message = String::from_str("confirmation mismatch; expected ");
    let quoted = debug_quoted(expected);
    message.append(quoted.as_str());
    Err(ToolError { kind: ErrorKind::PermissionDenied, message })
}

/// `ADD PROGRAM <program>`.
pub fn confirm_add_program_phrase(program: &str) -> (r: String)
    ensures
        r@ == add_phrase(program@),
{
    let mut r = String::from_str("ADD PROGRAM ");
    r.append(program);
    r
}

/// `REMOVE PROGRAM <program>`.
pub fn confirm_remove_program_phrase(program: &str) -> (r: String)
    ensures
        r@ == remove_phrase(program@),
{
    let mut r = String::from_str("REMOVE PROGRAM ");
    r.append(program);
    r
}

/// `ENABLE UNSAFE` or `DISABLE UNSAFE`.
pub fn confirm_unsafe_phrase(enabled: bool) -> (r: &'static str)
    ensures
        r@ == unsafe_phrase(enabled),
{
    if enabled {
        "ENABLE UNSAFE"
    } else {
        "DISABLE UNSAFE"
    }
}

/// `RELOAD POLICY FROM ENV`.
pub fn confirm_reload_policy_phrase() -> (r: &'static str)
    ensures
        r@ == reload_phrase(),
{
    "RELOAD POLICY FROM ENV"
}

fn authorize_change(program: String, confirmation: &str, adding: bool) -> (r: Result<
    String,
    ToolError,
>)
    ensures
        outcome_gives(change_outcome(program@, confirmation@, adding), r),
{
    let program = normalize_program(program)?;
    let expected = if adding {
        confirm_add_program_phrase(program.as_str())
    } else {
        confirm_remove_program_phrase(program.as_str())
    };
    require_confirmation(confirmation, expected.as_str())?;
    Ok(program)
}

/// Checks a request to allow a program: its path, then the phrase
/// `ADD PROGRAM <path>`. Gives the normalized path.
pub fn authorize_add(program: String, confirmation: &str) -> (r: Result<String, ToolError>)
    ensures
        outcome_gives(change_outcome(program@, confirmation@, true), r),
{
    authorize_change(program, confirmation, true)
}

/// Checks a request to remove a program: its path, then the phrase
/// `REMOVE PROGRAM <path>`. Gives the normalized path.
pub fn authorize_remove(program: String, confirmation: &str) -> (r: Result<String, ToolError>)
    ensures
        outcome_gives(change_outcome(program@, confirmation@, false), r),
{
    authorize_change(program, confirmation, false)
}

/// Every program that a comma-separated setting allows is non-empty and
/// has no white space at either end.
pub proof fn law_allowlist_entries_are_trimmed(setting: Seq<char>, program: Seq<char>)
    requires
        allowlist(setting).contains(program),
    ensures
        program.len() > 0,
        trim(program) == program,
{
    let pieces = comma_pieces(setting);
    let i = choose|i: int| 0 <= i < pieces.len() && trim(#[trigger] pieces[i]) == program;
    law_trim_idempotent(pieces[i]);
}

/// With no settings in the environment, the policy denies every program.
pub proof fn law_unset_environment_denies_all(program: Seq<char>)
    ensures
        !permits(PolicyView { allowed: allowlist(Seq::empty()), allow_unsafe: false }, program),
{
    let pieces = comma_pieces(Seq::<char>::empty());
    assert(pieces =~= seq![Seq::<char>::empty()]);
    assert(trim(Seq::<char>::empty()) =~= Seq::<char>::empty());
    if allowlist(Seq::empty()).contains(program) {
        let i = choose|i: int| 0 <= i < pieces.len() && trim(#[trigger] pieces[i]) == program;
        assert(pieces[i] =~= Seq::<char>::empty());
    }
}

/// An accepted request to allow a program lets a run of that same program
/// text through: the run's path check gives the path that was allowed.
pub proof fn law_allowed_program_is_permitted(
    v: PolicyView,
    program: Seq<char>,
    confirmation: Seq<char>,
)
    requires
        change_outcome(program, confirmation, true) is Ok,
    ensures
        program_check(program) == Ok::<Seq<char>, Seq<char>>(
            change_outcome(program, confirmation, true)->Ok_0,
        ),
        permits(
            with_allowed(v, v.allowed.insert(change_outcome(program, confirmation, true)->Ok_0)),
            change_outcome(program, confirmation, true)->Ok_0,
        ),
{
}

/// After a program is removed, a run of it passes only in unsafe mode.
pub proof fn law_removed_program_needs_unsafe(v: PolicyView, program: Seq<char>)
    ensures
        permits(with_allowed(v, v.allowed.remove(program)), program) == v.allow_unsafe,
{
}

/// Allowing a program twice is the same as allowing it once.
pub proof fn law_allow_is_idempotent(v: PolicyView, program: Seq<char>)
    ensures
        with_allowed(
            with_allowed(v, v.allowed.insert(program)),
            v.allowed.insert(program).insert(program),
        ) == with_allowed(v, v.allowed.insert(program)),
{
    assert(v.allowed.insert(program).insert(program) =~= v.allowed.insert(program));
}

/// Removing a program that was just allowed, and was not allowed before,
/// gives back the policy as it was.
pub proof fn law_remove_undoes_allow(v: PolicyView, program: Seq<char>)
    requires
        !v.allowed.contains(program),
    ensures
        with_allowed(
            with_allowed(v, v.allowed.insert(program)),
            v.allowed.insert(program).remove(program),
        ) == v,
{
    assert(v.allowed.insert(program).remove(program) =~= v.allowed);
}

/// A confirmation phrase confirms one change only: the phrase for allowing
/// one program is not that for allowing another, nor for removing any, and
/// the phrases of the switch and of the reload differ from all of these.
pub proof fn law_phrases_are_distinct(p: Seq<char>, q: Seq<char>, b: bool, c: bool)
    ensures
        add_phrase(p) == add_phrase(q) ==> p == q,
        remove_phrase(p) == remove_phrase(q) ==> p == q,
        add_phrase(p) != remove_phrase(q),
        unsafe_phrase(b) == unsafe_phrase(c) ==> b == c,
        unsafe_phrase(b) != add_phrase(p),
        unsafe_phrase(b) != remove_phrase(p),
        unsafe_phrase(b) != reload_phrase(),
        reload_phrase() != add_phrase(p),
        reload_phrase() != remove_phrase(p),
{
    reveal_strlit("ADD PROGRAM ");
    reveal_strlit("REMOVE PROGRAM ");
    reveal_strlit("ENABLE UNSAFE");
    reveal_strlit("DISABLE UNSAFE");
    reveal_strlit("RELOAD POLICY FROM ENV");
    let a = "ADD PROGRAM "@;
    let r = "REMOVE PROGRAM "@;
    if add_phrase(p) == add_phrase(q) {
        assert(p =~= add_phrase(p).skip(a.len() as int));
        assert(q =~= add_phrase(q).skip(a.len() as int));
    }
    if remove_phrase(p) == remove_phrase(q) {
        assert(p =~= remove_phrase(p).skip(r.len() as int));
        assert(q =~= remove_phrase(q).skip(r.len() as int));
    }
    assert(add_phrase(p)[0] != remove_phrase(q)[0]);
    assert(unsafe_phrase(true)[0] != unsafe_phrase(false)[0]);
    assert(unsafe_phrase(b)[0] != add_phrase(p)[0]);
    assert(unsafe_phrase(b)[0] != remove_phrase(p)[0] || unsafe_phrase(b)[1] != remove_phrase(
        p,
    )[1]);
    assert(unsafe_phrase(b)[0] != reload_phrase()[0] || unsafe_phrase(b)[1] != reload_phrase()[1]);
    assert(reload_phrase()[0] != add_phrase(p)[0]);
    assert(reload_phrase()[2] != remove_phrase(p)[2]);
}

} // verus!
