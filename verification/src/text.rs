//! Character-level text helpers: white space, trimming, equality,
//! decimal rendering and the `Debug` quoting of strings.
use vstd::prelude::*;

verus! {

/// The Unicode `White_Space` property.
pub open spec fn is_white_space(c: char) -> bool {
    let u = c as int;
    ||| 0x09 <= u <= 0x0d
    ||| u == 0x20
    ||| u == 0x85
    ||| u == 0xa0
    ||| u == 0x1680
    ||| 0x2000 <= u <= 0x200a
    ||| u == 0x2028
    ||| u == 0x2029
    ||| u == 0x202f
    ||| u == 0x205f
    ||| u == 0x3000
}

/// Some character of `s` is white space.
pub open spec fn has_white_space(s: Seq<char>) -> bool {
    exists|i: int| 0 <= i < s.len() && is_white_space(#[trigger] s[i])
}

/// `s` without its leading white space.
pub open spec fn trim_start(s: Seq<char>) -> Seq<char>
    decreases s.len(),
{
    if s.len() > 0 && is_white_space(s[0]) {
        trim_start(s.drop_first())
    } else {
        s
    }
}

/// `s` without its trailing white space.
pub open spec fn trim_end(s: Seq<char>) -> Seq<char>
    decreases s.len(),
{
    if s.len() > 0 && is_white_space(s.last()) {
        trim_end(s.drop_last())
    } else {
        s
    }
}

/// `s` without leading and trailing white space (what `str::trim` gives).
pub open spec fn trim(s: Seq<char>) -> Seq<char> {
    trim_end(trim_start(s))
}

/// The text of a boolean as `Display` writes it.
pub open spec fn bool_text(b: bool) -> Seq<char> {
    if b {
        seq!['t', 'r', 'u', 'e']
    } else {
        seq!['f', 'a', 'l', 's', 'e']
    }
}

/// The decimal digit character for `d < 10`.
pub open spec fn digit_char(d: nat) -> char {
    (48 + d) as char
}

/// Decimal notation of a natural number, without leading zeros.
pub open spec fn decimal(n: nat) -> Seq<char>
    decreases n,
{
    if n < 10 {
        seq![digit_char(n)]
    } else {
        decimal(n / 10).push(digit_char(n % 10))
    }
}

/// Decimal notation of an integer, with a leading `-` when negative.
pub open spec fn decimal_int(n: int) -> Seq<char> {
    if n < 0 {
        seq!['-'] + decimal((-n) as nat)
    } else {
        decimal(n as nat)
    }
}

/// `parts` joined with `sep` between neighbours.
pub open spec fn join(parts: Seq<Seq<char>>, sep: Seq<char>) -> Seq<char>
    decreases parts.len(),
{
    if parts.len() == 0 {
        Seq::empty()
    } else if parts.len() == 1 {
        parts[0]
    } else {
        join(parts.drop_last(), sep) + sep + parts.last()
    }
}

/// Text without a line break (no `\n` and no `\r`).
pub open spec fn one_line(s: Seq<char>) -> bool {
    forall|i: int| 0 <= i < s.len() ==> s[i] != '\n' && s[i] != '\r'
}

/// The views of a sequence of strings.
pub open spec fn texts(v: Seq<String>) -> Seq<Seq<char>> {
    v.map_values(|s: String| s@)
}

/// What `{:?}` writes for a string: the string in double quotes, with
/// escapes. Its exact form is std's; only this name stands for it here.
pub uninterp spec fn debug_str(s: Seq<char>) -> Seq<char>;

/// What `{:?}` writes for a list of strings: `[`, the quoted items joined
/// by `, `, and `]`.
pub open spec fn debug_list(items: Seq<Seq<char>>) -> Seq<char> {
    seq!['['] + join(items.map_values(|s: Seq<char>| debug_str(s)), seq![',', ' ']) + seq![']']
}

/// Whether `c` has the Unicode `White_Space` property (as std's
/// `char::is_whitespace`).
pub fn char_is_white_space(c: char) -> (r: bool)
    ensures
        r == is_white_space(c),
{
    let u: u32 = c as u32;
    assert(u == c as int);
    (0x09 <= u && u <= 0x0d) || u == 0x20 || u == 0x85 || u == 0xa0 || u == 0x1680 || (0x2000 <= u
        && u <= 0x200a) || u == 0x2028 || u == 0x2029 || u == 0x202f || u == 0x205f || u == 0x3000
}

/// std's `String::push`: the character is appended to the string.
#[verifier::external_body]
pub(crate) fn push_char(s: &mut String, c: char)
    ensures
        final(s)@ == old(s)@.push(c),
{
    s.push(c)
}

/// `format!("{:?}", s)` from std on a string slice: the result is named
/// `debug_str` of the text. Beyond that it is claimed only that it holds no
/// line break: std's `Debug` of `str` writes `\n` and `\r` as the escapes
/// `\\n` and `\\r`.
#[verifier::external_body]
pub(crate) fn debug_quoted(s: &str) -> (r: String)
    ensures
        r@ == debug_str(s@),
        one_line(r@),
{
    format!("{:?}", s)
}

/// Text of one line joined to text of one line is one line, and only then.
pub proof fn lemma_one_line_concat(a: Seq<char>, b: Seq<char>)
    ensures
        one_line(a + b) == (one_line(a) && one_line(b)),
{
    if one_line(a) && one_line(b) {
        assert forall|i: int| 0 <= i < (a + b).len() implies (a + b)[i] != '\n' && (a + b)[i]
            != '\r' by {
            if i < a.len() {
                assert((a + b)[i] == a[i]);
            } else {
                assert((a + b)[i] == b[i - a.len()]);
            }
        }
    }
    if one_line(a + b) {
        assert forall|i: int| 0 <= i < a.len() implies a[i] != '\n' && a[i] != '\r' by {
            assert((a + b)[i] == a[i]);
        }
        assert forall|i: int| 0 <= i < b.len() implies b[i] != '\n' && b[i] != '\r' by {
            assert((a + b)[a.len() + i] == b[i]);
        }
    }
}

/// `lemma_one_line_concat` for every pair.
pub proof fn lemma_one_line_concat_all()
    ensures
        forall|a: Seq<char>, b: Seq<char>| #[trigger] one_line(a + b) == (one_line(a) && one_line(b)),
{
    assert forall|a: Seq<char>, b: Seq<char>| #[trigger] one_line(a + b) == (one_line(a) && one_line(b)) by {
        lemma_one_line_concat(a, b);
    }
}

/// Decimal text is one line.
pub proof fn lemma_decimal_one_line(n: nat)
    ensures
        one_line(decimal(n)),
    decreases n,
{
    let d = digit_char(n % 10);
    assert(d as int == 48 + n % 10);
    assert(one_line(seq![d]));
    if n >= 10 {
        lemma_decimal_one_line(n / 10);
        lemma_one_line_concat(decimal(n / 10), seq![d]);
        assert(decimal(n / 10).push(d) =~= decimal(n / 10) + seq![d]);
    }
}

/// Decimal text of an integer is one line.
pub proof fn lemma_decimal_int_one_line(n: int)
    ensures
        one_line(decimal_int(n)),
{
    if n < 0 {
        lemma_decimal_one_line((-n) as nat);
        lemma_one_line_concat(seq!['-'], decimal((-n) as nat));
    } else {
        lemma_decimal_one_line(n as nat);
    }
}

/// The characters of `s`, in order.
pub fn chars_of(s: &str) -> (v: Vec<char>)
    ensures
        v@ == s@,
{
    let n = s.unicode_len();
    let mut v: Vec<char> = Vec::new();
    let mut i: usize = 0;
    while i < n
        invariant
            n == s@.len(),
            i <= n,
            v@ == s@.take(i as int),
        decreases n - i,
    {
        v.push(s.get_char(i));
        i = i + 1;
        assert(v@ =~= s@.take(i as int));
    }
    assert(v@ =~= s@);
    v
}

/// Appends the characters of `cs` to `s`.
pub fn push_chars(s: &mut String, cs: &[char])
    ensures
        final(s)@ == old(s)@ + cs@,
{
    let n = cs.len();
    let mut i: usize = 0;
    while i < n
        invariant
            n == cs@.len(),
            i <= n,
            s@ == old(s)@ + cs@.take(i as int),
        decreases n - i,
    {
        push_char(s, cs[i]);
        i = i + 1;
        assert(s@ =~= old(s)@ + cs@.take(i as int));
    }
    assert(cs@.take(n as int) =~= cs@);
}

/// A string holding the characters of `cs`.
pub fn string_of(cs: &[char]) -> (r: String)
    ensures
        r@ == cs@,
{
    let mut r = String::new();
    push_chars(&mut r, cs);
    assert(r@ =~= cs@);
    r
}

/// Whether the two texts are equal, character by character.
pub fn same_text(a: &str, b: &str) -> (r: bool)
    ensures
        r == (a@ == b@),
{
    let x = chars_of(a);
    let y = chars_of(b);
    if x.len() != y.len() {
        return false;
    }
    let n = x.len();
    let mut i: usize = 0;
    while i < n
        invariant
            x@ == a@,
            y@ == b@,
            n == x@.len(),
            n == y@.len(),
            i <= n,
            forall|j: int| 0 <= j < i ==> x@[j] == y@[j],
        decreases n - i,
    {
        if x[i] != y[i] {
            assert(a@[i as int] != b@[i as int]);
            return false;
        }
        i = i + 1;
    }
    assert(x@ =~= y@);
    true
}

/// Whether some character of `cs` is white space.
pub fn chars_have_white_space(cs: &[char]) -> (r: bool)
    ensures
        r == has_white_space(cs@),
{
    let n = cs.len();
    let mut i: usize = 0;
    while i < n
        invariant
            n == cs@.len(),
            i <= n,
            forall|j: int| 0 <= j < i ==> !is_white_space(#[trigger] cs@[j]),
        decreases n - i,
    {
        if char_is_white_space(cs[i]) {
            return true;
        }
        i = i + 1;
    }
    false
}

proof fn lemma_trim_start_skip(s: Seq<char>, i: int)
    requires
        0 <= i < s.len(),
        is_white_space(s[i]),
    ensures
        trim_start(s.skip(i)) == trim_start(s.skip(i + 1)),
{
    assert(s.skip(i).drop_first() =~= s.skip(i + 1));
}

proof fn lemma_trim_end_take(s: Seq<char>, j: int)
    requires
        0 < j <= s.len(),
        is_white_space(s[j - 1]),
    ensures
        trim_end(s.take(j)) == trim_end(s.take(j - 1)),
{
    assert(s.take(j).drop_last() =~= s.take(j - 1));
}

proof fn lemma_trim_start_first(s: Seq<char>)
    ensures
        trim_start(s).len() > 0 ==> !is_white_space(trim_start(s)[0]),
    decreases s.len(),
{
    if s.len() > 0 && is_white_space(s[0]) {
        lemma_trim_start_first(s.drop_first());
    }
}

proof fn lemma_trim_end_ends(s: Seq<char>)
    ensures
        trim_end(s).len() > 0 ==> !is_white_space(trim_end(s).last()) && trim_end(s)[0] == s[0],
    decreases s.len(),
{
    if s.len() > 0 && is_white_space(s.last()) {
        lemma_trim_end_ends(s.drop_last());
    }
}

/// Text that starts and ends with other than white space is its own trim.
pub proof fn lemma_trim_fixed(s: Seq<char>)
    requires
        s.len() > 0 ==> !is_white_space(s[0]) && !is_white_space(s.last()),
    ensures
        trim(s) == s,
{
}

/// Trimming twice is trimming once.
pub proof fn law_trim_idempotent(s: Seq<char>)
    ensures
        trim(trim(s)) == trim(s),
{
    lemma_trim_start_first(s);
    lemma_trim_end_ends(trim_start(s));
    lemma_trim_fixed(trim(s));
}

/// `cs` without leading and trailing white space.
pub fn trim_chars(cs: &[char]) -> (r: Vec<char>)
    ensures
        r@ == trim(cs@),
{
    let n = cs.len();
    let mut lo: usize = 0;
    assert(cs@.skip(0) =~= cs@);
    while lo < n && char_is_white_space(cs[lo])
        invariant
            n == cs@.len(),
            lo <= n,
            trim_start(cs@) == trim_start(cs@.skip(lo as int)),
        decreases n - lo,
    {
        proof {
            lemma_trim_start_skip(cs@, lo as int);
        }
        lo = lo + 1;
    }
    let ghost rest = cs@.skip(lo as int);
    assert(trim_start(cs@) == rest) by {
        if lo < n {
            assert(rest[0] == cs@[lo as int]);
        } else {
            assert(rest.len() == 0);
        }
    }
    let mut hi: usize = n;
    assert(rest.take(rest.len() as int) =~= rest);
    while hi > lo && char_is_white_space(cs[hi - 1])
        invariant
            n == cs@.len(),
            lo <= hi <= n,
            rest == cs@.skip(lo as int),
            trim_end(rest) == trim_end(rest.take(hi - lo)),
        decreases hi - lo,
    {
        proof {
            assert(rest[hi - lo - 1] == cs@[hi - 1]);
            lemma_trim_end_take(rest, hi - lo);
        }
        hi = hi - 1;
    }
    let ghost kept = rest.take(hi - lo);
    assert(trim_end(kept) == kept) by {
        if hi > lo {
            assert(kept.last() == cs@[hi - 1]);
        }
    }
    let mut r: Vec<char> = Vec::new();
    let mut k: usize = lo;
    while k < hi
        invariant
            n == cs@.len(),
            lo <= k <= hi <= n,
            r@ == cs@.subrange(lo as int, k as int),
        decreases hi - k,
    {
        r.push(cs[k]);
        k = k + 1;
        assert(r@ =~= cs@.subrange(lo as int, k as int));
    }
    assert(r@ =~= kept);
    r
}

/// `s` without leading and trailing white space (as `str::trim`).
pub fn trimmed(s: &str) -> (r: Vec<char>)
    ensures
        r@ == trim(s@),
{
    let cs = chars_of(s);
    trim_chars(cs.as_slice())
}

/// Appends the decimal digits of `n`.
pub fn push_decimal(s: &mut String, n: u64)
    ensures
        final(s)@ == old(s)@ + decimal(n as nat),
    decreases n,
{
    if n >= 10 {
        push_decimal(s, n / 10);
    }
    let d: u8 = (n % 10) as u8;
    let c: char = (48u8 + d) as char;
    assert(c == digit_char((n % 10) as nat));
    push_char(s, c);
    if n >= 10 {
        assert(s@ =~= old(s)@ + decimal(n as nat));
    } else {
        assert(s@ =~= old(s)@ + decimal(n as nat));
    }
}

/// Appends the decimal text of `n`, as `Display` writes an `i32`.
pub fn push_decimal_i32(s: &mut String, n: i32)
    ensures
        final(s)@ == old(s)@ + decimal_int(n as int),
{
    if n < 0 {
        push_char(s, '-');
        let m: i64 = n as i64;
        push_decimal(s, (-m) as u64);
        assert(s@ =~= old(s)@ + decimal_int(n as int));
    } else {
        push_decimal(s, n as u64);
    }
}

/// Appends `{:?}` of a list of strings: `["a", "b"]`.
pub fn push_debug_list(s: &mut String, items: &[String])
    ensures
        final(s)@ == old(s)@ + debug_list(items@.map_values(|x: String| x@)),
        one_line(debug_list(items@.map_values(|x: String| x@))),
{
    let ghost views = items@.map_values(|x: String| x@);
    let ghost quoted = views.map_values(|t: Seq<char>| debug_str(t));
    push_char(s, '[');
    let ghost start = s@;
    let n = items.len();
    let mut i: usize = 0;
    assert(quoted.take(0) =~= Seq::<Seq<char>>::empty());
    while i < n
        invariant
            n == items@.len(),
            i <= n,
            views == items@.map_values(|x: String| x@),
            quoted == views.map_values(|t: Seq<char>| debug_str(t)),
            s@ == start + join(quoted.take(i as int), seq![',', ' ']),
            one_line(join(quoted.take(i as int), seq![',', ' '])),
        decreases n - i,
    {
        if i > 0 {
            s.append(", ");
            proof {
                reveal_strlit(", ");
            }
        }
        let q = debug_quoted(items[i].as_str());
        s.append(q.as_str());
        proof {
            let sep = seq![',', ' '];
            let next = quoted.take(i + 1);
            assert(next.drop_last() =~= quoted.take(i as int));
            assert(next.last() == debug_str(items@[i as int]@));
            assert(one_line(sep));
            if i == 0 {
                assert(next.len() == 1);
            } else {
                assert(", "@ =~= sep);
                lemma_one_line_concat(join(quoted.take(i as int), sep), sep);
                lemma_one_line_concat(join(quoted.take(i as int), sep) + sep, next.last());
            }
        }
        i = i + 1;
    }
    assert(quoted.take(n as int) =~= quoted);
    push_char(s, ']');
    assert(s@ =~= old(s)@ + debug_list(views));
    proof {
        assert(one_line(seq!['[']));
        assert(one_line(seq![']']));
        lemma_one_line_concat(seq!['['], join(quoted, seq![',', ' ']));
        lemma_one_line_concat(seq!['['] + join(quoted, seq![',', ' ']), seq![']']);
    }
}

} // verus!
