//! The order of strings (`Ord` of `str`: by code points, a prefix first) and
//! the strictly sorted sequences of strings that stand for finite sets.
use vstd::prelude::*;

verus! {

/// `a` comes strictly before `b` in the lexicographic order of code points.
pub open spec fn text_lt(a: Seq<char>, b: Seq<char>) -> bool
    decreases a.len(),
{
    if b.len() == 0 {
        false
    } else if a.len() == 0 {
        true
    } else if (a[0] as int) < (b[0] as int) {
        true
    } else if a[0] == b[0] {
        text_lt(a.drop_first(), b.drop_first())
    } else {
        false
    }
}

/// Every element comes strictly before every later one.
pub open spec fn strictly_sorted(s: Seq<Seq<char>>) -> bool {
    forall|i: int, j: int| 0 <= i < j < s.len() ==> text_lt(#[trigger] s[i], #[trigger] s[j])
}

/// The set of the elements of `s`.
pub open spec fn listed(s: Seq<Seq<char>>) -> Set<Seq<char>> {
    Set::new(|x: Seq<char>| s.contains(x))
}

/// The strictly sorted sequence that lists exactly the elements of `set`
/// (unique where it exists; see `lemma_sorted_listing_unique`).
pub open spec fn sorted_listing(set: Set<Seq<char>>) -> Seq<Seq<char>> {
    choose|s: Seq<Seq<char>>| strictly_sorted(s) && listed(s) == set
}

/// No string comes before itself.
pub proof fn lemma_text_lt_irreflexive(a: Seq<char>)
    ensures
        !text_lt(a, a),
    decreases a.len(),
{
    if a.len() > 0 {
        lemma_text_lt_irreflexive(a.drop_first());
    }
}

/// Of two strings, at most one comes before the other.
pub proof fn lemma_text_lt_asymmetric(a: Seq<char>, b: Seq<char>)
    ensures
        !(text_lt(a, b) && text_lt(b, a)),
    decreases a.len(),
{
    if a.len() > 0 && b.len() > 0 && a[0] == b[0] {
        lemma_text_lt_asymmetric(a.drop_first(), b.drop_first());
    }
}

/// The order is transitive.
pub proof fn lemma_text_lt_transitive(a: Seq<char>, b: Seq<char>, c: Seq<char>)
    requires
        text_lt(a, b),
        text_lt(b, c),
    ensures
        text_lt(a, c),
    decreases a.len(),
{
    if a.len() > 0 && a[0] == b[0] && b[0] == c[0] {
        lemma_text_lt_transitive(a.drop_first(), b.drop_first(), c.drop_first());
    }
}

/// Of two different strings, one comes before the other.
pub proof fn lemma_text_lt_total(a: Seq<char>, b: Seq<char>)
    requires
        a != b,
    ensures
        text_lt(a, b) || text_lt(b, a),
    decreases a.len(),
{
    if a.len() == 0 {
        assert(b.len() > 0) by {
            if b.len() == 0 {
                assert(a =~= b);
            }
        }
    } else if b.len() == 0 {
    } else if a[0] == b[0] {
        if a.drop_first() == b.drop_first() {
            assert(a =~= seq![a[0]] + a.drop_first());
            assert(b =~= seq![b[0]] + b.drop_first());
        }
        lemma_text_lt_total(a.drop_first(), b.drop_first());
    } else {
        assert((a[0] as int) != (b[0] as int));
    }
}

/// Removing the first element of a sorted sequence removes it from the set.
proof fn lemma_listed_drop_first(s: Seq<Seq<char>>)
    requires
        strictly_sorted(s),
        s.len() > 0,
    ensures
        listed(s.drop_first()) == listed(s).remove(s[0]),
        strictly_sorted(s.drop_first()),
{
    assert forall|x: Seq<char>| #[trigger] listed(s.drop_first()).contains(x) implies x != s[0] by {
        let k = choose|k: int| 0 <= k < s.drop_first().len() && s.drop_first()[k] == x;
        assert(text_lt(s[0], s[k + 1]));
        if x == s[0] {
            lemma_text_lt_irreflexive(x);
        }
    }
    assert forall|x: Seq<char>|
        listed(s).contains(x) && x != s[0] implies #[trigger] listed(s.drop_first()).contains(
        x,
    ) by {
        let k = choose|k: int| 0 <= k < s.len() && s[k] == x;
        assert(k > 0);
        assert(s.drop_first()[k - 1] == x);
    }
    assert(listed(s.drop_first()) =~= listed(s).remove(s[0]));
}

/// Two strictly sorted sequences that list the same set are equal.
pub proof fn lemma_sorted_listing_unique(a: Seq<Seq<char>>, b: Seq<Seq<char>>)
    requires
        strictly_sorted(a),
        strictly_sorted(b),
        listed(a) == listed(b),
    ensures
        a == b,
    decreases a.len(),
{
    if a.len() == 0 {
        if b.len() > 0 {
            assert(listed(b).contains(b[0]));
        }
        assert(a =~= b);
    } else {
        assert(listed(a).contains(a[0]));
        if b.len() == 0 {
            assert(false);
        }
        assert(listed(b).contains(a[0]));
        assert(listed(a).contains(b[0]));
        let j = choose|j: int| 0 <= j < b.len() && b[j] == a[0];
        let k = choose|k: int| 0 <= k < a.len() && a[k] == b[0];
        if j > 0 && k > 0 {
            assert(text_lt(b[0], b[j]));
            assert(text_lt(a[0], a[k]));
            lemma_text_lt_asymmetric(a[0], b[0]);
        }
        assert(a[0] == b[0]);
        lemma_listed_drop_first(a);
        lemma_listed_drop_first(b);
        lemma_sorted_listing_unique(a.drop_first(), b.drop_first());
        assert(a =~= seq![a[0]] + a.drop_first());
        assert(b =~= seq![b[0]] + b.drop_first());
    }
}

/// A strictly sorted sequence is the sorted listing of its set.
pub proof fn lemma_sorted_listing_of(s: Seq<Seq<char>>)
    requires
        strictly_sorted(s),
    ensures
        sorted_listing(listed(s)) == s,
{
    let t = sorted_listing(listed(s));
    assert(strictly_sorted(t) && listed(t) == listed(s));
    lemma_sorted_listing_unique(t, s);
}

/// Whether `a` comes strictly before `b`.
pub fn text_less(a: &[char], b: &[char]) -> (r: bool)
    ensures
        r == text_lt(a@, b@),
{
    let n = a.len();
    let m = b.len();
    let mut i: usize = 0;
    assert(a@.skip(0) =~= a@);
    assert(b@.skip(0) =~= b@);
    while i < n && i < m && a[i] == b[i]
        invariant
            n == a@.len(),
            m == b@.len(),
            i <= n,
            i <= m,
            text_lt(a@, b@) == text_lt(a@.skip(i as int), b@.skip(i as int)),
        decreases n - i,
    {
        proof {
            assert(a@.skip(i as int).drop_first() =~= a@.skip(i + 1));
            assert(b@.skip(i as int).drop_first() =~= b@.skip(i + 1));
        }
        i = i + 1;
    }
    if i == m {
        false
    } else if i == n {
        true
    } else {
        assert(a@.skip(i as int)[0] == a@[i as int]);
        assert(b@.skip(i as int)[0] == b@[i as int]);
        a[i] < b[i]
    }
}

} // verus!
