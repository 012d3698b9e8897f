//! Character classes, runs and searches on sequences of characters: the
//! vocabulary in which the lexical rules are stated.

use vstd::prelude::*;

verus! {

/// An ASCII letter.
pub open spec fn is_alpha(c: char) -> bool {
    ('a' <= c && c <= 'z') || ('A' <= c && c <= 'Z')
}

/// An ASCII decimal digit.
pub open spec fn is_digit(c: char) -> bool {
    '0' <= c && c <= '9'
}

/// A space, a tab, a carriage return or a line feed.
pub open spec fn is_space(c: char) -> bool {
    c == ' ' || c == '\t' || c == '\r' || c == '\n'
}

/// A set of characters that a lexical rule may run over.
pub ghost enum Class {
    Alpha,
    AlphaNumeric,
    Digit,
    Space,
    /// A letter, a digit or an underscore.
    Word,
    /// Every character that does not occur in the given text.
    NoneOf(Seq<char>),
}

/// `c` belongs to `k`.
pub open spec fn member(k: Class, c: char) -> bool {
    match k {
        Class::Alpha => is_alpha(c),
        Class::AlphaNumeric => is_alpha(c) || is_digit(c),
        Class::Digit => is_digit(c),
        Class::Space => is_space(c),
        Class::Word => is_alpha(c) || is_digit(c) || c == '_',
        Class::NoneOf(stops) => !stops.contains(c),
    }
}

/// The length of the longest prefix of `s` whose characters all belong to `k`.
pub open spec fn run(s: Seq<char>, k: Class) -> nat
    decreases s.len(),
{
    if s.len() > 0 && member(k, s[0]) {
        1 + run(s.skip(1), k)
    } else {
        0
    }
}

/// `s` cut after its longest run in `k`: what follows the run and the run
/// itself, or nothing where the run is empty.
pub open spec fn run_split(s: Seq<char>, k: Class) -> Option<(Seq<char>, Seq<char>)> {
    let n = run(s, k) as int;
    if n > 0 {
        Some((s.skip(n), s.take(n)))
    } else {
        None
    }
}

/// The least index at which `pat` occurs in `s`.
pub open spec fn find(s: Seq<char>, pat: Seq<char>) -> Option<nat>
    decreases s.len(),
{
    if pat.is_prefix_of(s) {
        Some(0)
    } else if s.len() == 0 {
        None
    } else {
        match find(s.skip(1), pat) {
            Some(i) => Some(i + 1),
            None => None,
        }
    }
}

/// `rest` is what is left of `s` behind some prefix of it.
pub open spec fn is_suffix(rest: Seq<char>, s: Seq<char>) -> bool {
    rest.len() <= s.len() && rest == s.skip(s.len() - rest.len())
}

/// What is left of what is left of `s` is left of `s`.
pub proof fn lemma_suffix_chain(a: Seq<char>, b: Seq<char>, c: Seq<char>)
    requires
        is_suffix(a, b),
        is_suffix(b, c),
    ensures
        is_suffix(a, c),
{
    assert(a =~= c.skip(c.len() - a.len()));
}

/// Dropping a prefix leaves a suffix.
pub proof fn lemma_skip_suffix(s: Seq<char>, n: int)
    requires
        0 <= n <= s.len(),
    ensures
        is_suffix(s.skip(n), s),
        s.skip(n).len() == s.len() - n,
{
}

/// A run is a prefix, lies in its class, and cannot be made longer.
pub proof fn lemma_run(s: Seq<char>, k: Class)
    ensures
        run(s, k) <= s.len(),
        forall|i: int| 0 <= i < run(s, k) ==> member(k, #[trigger] s[i]),
        run(s, k) < s.len() ==> !member(k, s[run(s, k) as int]),
    decreases s.len(),
{
    if s.len() > 0 && member(k, s[0]) {
        let t = s.skip(1);
        lemma_run(t, k);
        assert forall|i: int| 0 <= i < run(s, k) implies member(k, #[trigger] s[i]) by {
            if i > 0 {
                assert(s[i] == t[i - 1]);
            }
        }
        if run(s, k) < s.len() {
            assert(s[run(s, k) as int] == t[run(t, k) as int]);
        }
    }
}

/// A prefix that lies in the class and cannot be made longer is the run.
pub proof fn lemma_run_is(s: Seq<char>, k: Class, n: int)
    requires
        0 <= n <= s.len(),
        forall|i: int| 0 <= i < n ==> member(k, #[trigger] s[i]),
        n < s.len() ==> !member(k, s[n]),
    ensures
        run(s, k) == n,
    decreases s.len(),
{
    if n > 0 {
        let t = s.skip(1);
        assert forall|i: int| 0 <= i < n - 1 implies member(k, #[trigger] t[i]) by {
            assert(t[i] == s[i + 1]);
        }
        lemma_run_is(t, k, n - 1);
    }
}

/// What `find` returns is an occurrence, and the first one.
pub proof fn lemma_find(s: Seq<char>, pat: Seq<char>)
    ensures
        match find(s, pat) {
            Some(i) => i + pat.len() <= s.len() && pat.is_prefix_of(s.skip(i as int)) && forall|
                j: int,
            |
                0 <= j < i ==> !pat.is_prefix_of(#[trigger] s.skip(j)),
            None => forall|j: int| 0 <= j <= s.len() ==> !pat.is_prefix_of(#[trigger] s.skip(j)),
        },
    decreases s.len(),
{
    assert(s.skip(0) =~= s);
    if pat.is_prefix_of(s) {
    } else if s.len() == 0 {
    } else {
        let t = s.skip(1);
        lemma_find(t, pat);
        assert forall|j: int| 0 <= j <= t.len() implies #[trigger] t.skip(j) == s.skip(j + 1) by {
            assert(t.skip(j) =~= s.skip(j + 1));
        }
        match find(t, pat) {
            Some(i) => {
                assert(t.skip(i as int) == s.skip(i as int + 1));
                assert forall|j: int| 0 <= j < i + 1 implies !pat.is_prefix_of(
                    #[trigger] s.skip(j),
                ) by {
                    if j > 0 {
                        assert(t.skip(j - 1) == s.skip(j));
                    }
                }
            },
            None => {
                assert forall|j: int| 0 <= j <= s.len() implies !pat.is_prefix_of(
                    #[trigger] s.skip(j),
                ) by {
                    if j > 0 {
                        assert(t.skip(j - 1) == s.skip(j));
                    }
                }
            },
        }
    }
}

/// A run that begins with a text of its class goes on behind that text.
pub proof fn lemma_run_behind(j: Seq<char>, x: Seq<char>, k: Class)
    requires
        forall|i: int| 0 <= i < j.len() ==> member(k, #[trigger] j[i]),
    ensures
        run(j + x, k) == j.len() + run(x, k),
{
    lemma_run(x, k);
    let n = j.len() + run(x, k);
    let s = j + x;
    assert forall|i: int| 0 <= i < n implies member(k, #[trigger] s[i]) by {
        if i >= j.len() {
            assert(s[i] == x[i - j.len()]);
        } else {
            assert(s[i] == j[i]);
        }
    }
    if n < s.len() {
        assert(s[n as int] == x[run(x, k) as int]);
    }
    lemma_run_is(s, k, n as int);
}

/// The first occurrence in a text is the first occurrence in any text that
/// begins with it.
pub proof fn lemma_find_behind(s: Seq<char>, pat: Seq<char>, x: Seq<char>)
    requires
        find(s, pat) is Some,
    ensures
        find(s + x, pat) == find(s, pat),
    decreases s.len(),
{
    lemma_find(s, pat);
    assert(s.skip(0) =~= s);
    if pat.is_prefix_of(s) {
        assert(pat =~= (s + x).subrange(0, pat.len() as int));
    } else {
        assert((s + x).subrange(0, pat.len() as int) =~= s.subrange(0, pat.len() as int));
        lemma_find_behind(s.skip(1), pat, x);
        assert((s + x).skip(1) =~= s.skip(1) + x);
    }
}

} // verus!
