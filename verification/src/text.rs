//! Character-level text primitives used by search, labels and tables.
//!
//! Strings are modelled by their `Seq<char>` view. The matching
//! algorithms (substring, prefix, in-order subsequence) are implemented
//! here and proved against direct mathematical definitions.
use vstd::prelude::*;

verus! {

// ---------------------------------------------------------------------------
// Specifications
// ---------------------------------------------------------------------------
/// Unicode lower-casing of a character sequence, as computed by
/// `str::to_lowercase` (a function of its argument alone).
pub uninterp spec fn lowercase(s: Seq<char>) -> Seq<char>;

/// `p` occurs in `t` as a contiguous block starting at `i`.
pub open spec fn occurs_at(t: Seq<char>, p: Seq<char>, i: int) -> bool {
    0 <= i && i + p.len() <= t.len() && t.subrange(i, i + p.len()) == p
}

/// `p` is a contiguous substring of `t`.
pub open spec fn contains_spec(t: Seq<char>, p: Seq<char>) -> bool {
    exists|i: int| #[trigger] occurs_at(t, p, i)
}

/// `p` is a prefix of `t`.
pub open spec fn starts_with_spec(t: Seq<char>, p: Seq<char>) -> bool {
    p.len() <= t.len() && t.subrange(0, p.len() as int) == p
}

/// `f` maps the positions of `p` to strictly increasing positions of `t`
/// holding the same characters.
pub open spec fn is_embedding(f: Seq<int>, p: Seq<char>, t: Seq<char>) -> bool {
    &&& f.len() == p.len()
    &&& forall|i: int| 0 <= i < f.len() ==> 0 <= #[trigger] f[i] < t.len() && t[f[i]] == p[i]
    &&& forall|i: int, j: int| 0 <= i < j < f.len() ==> #[trigger] f[i] < #[trigger] f[j]
}

/// Every character of `p` appears in `t`, in order (not necessarily
/// contiguously).
pub open spec fn is_subsequence(p: Seq<char>, t: Seq<char>) -> bool {
    exists|f: Seq<int>| #[trigger] is_embedding(f, p, t)
}

/// The decimal digit character for `d < 10`.
pub open spec fn digit_char(d: nat) -> char {
    if d == 0 { '0' }
    else if d == 1 { '1' }
    else if d == 2 { '2' }
    else if d == 3 { '3' }
    else if d == 4 { '4' }
    else if d == 5 { '5' }
    else if d == 6 { '6' }
    else if d == 7 { '7' }
    else if d == 8 { '8' }
    else { '9' }
}

/// The decimal representation of `n`, most significant digit first,
/// without leading zeros (`"0"` for zero).
pub open spec fn decimal(n: nat) -> Seq<char>
    decreases n,
{
    if n < 10 {
        seq![digit_char(n)]
    } else {
        decimal(n / 10).push(digit_char(n % 10))
    }
}

/// Every character is ASCII.
pub open spec fn is_ascii_seq(s: Seq<char>) -> bool {
    forall|i: int| 0 <= i < s.len() ==> (#[trigger] s[i] as u32) < 128
}

/// ASCII lower-casing of one character: `A`..`Z` become `a`..`z`, every
/// other character stays.
pub open spec fn ascii_lower_char(c: char) -> char {
    if ('A' as u32) <= (c as u32) && (c as u32) <= ('Z' as u32) {
        ((c as u32) + 32) as char
    } else {
        c
    }
}

/// ASCII lower-casing, character by character.
pub open spec fn ascii_lower(s: Seq<char>) -> Seq<char> {
    s.map_values(|c: char| ascii_lower_char(c))
}

/// ASCII lower-casing of an extended text extends the lower-cased text.
pub proof fn lemma_ascii_lower_push(s: Seq<char>, c: char)
    ensures
        ascii_lower(s.push(c)) == ascii_lower(s).push(ascii_lower_char(c)),
        is_ascii_seq(s.push(c)) <==> is_ascii_seq(s) && (c as u32) < 128,
{
    assert(ascii_lower(s.push(c)) =~= ascii_lower(s).push(ascii_lower_char(c)));
    if is_ascii_seq(s.push(c)) {
        assert forall|i: int| 0 <= i < s.len() implies (#[trigger] s[i] as u32) < 128 by {
            assert(s.push(c)[i] == s[i]);
        }
        assert(s.push(c)[s.len() as int] == c);
    }
    if is_ascii_seq(s) && (c as u32) < 128 {
        assert forall|i: int| 0 <= i < s.push(c).len() implies (#[trigger] s.push(c)[i] as u32) < 128 by {
            if i < s.len() {
                assert(s.push(c)[i] == s[i]);
            }
        }
    }
}

// ---------------------------------------------------------------------------
// Laws
// ---------------------------------------------------------------------------
/// Every contiguous occurrence is also an in-order occurrence: a substring
/// of `t` is a subsequence of `t`.
pub proof fn lemma_substring_is_subsequence(t: Seq<char>, p: Seq<char>)
    requires
        contains_spec(t, p),
    ensures
        is_subsequence(p, t),
{
    let i = choose|i: int| #[trigger] occurs_at(t, p, i);
    let f = Seq::new(p.len(), |j: int| i + j);
    assert forall|j: int| 0 <= j < f.len() implies 0 <= #[trigger] f[j] < t.len() && t[f[j]] == p[j] by {
        assert(t.subrange(i, i + p.len())[j] == t[i + j]);
    }
    assert(is_embedding(f, p, t));
}

/// The empty pattern is a subsequence of every text.
pub proof fn lemma_empty_is_subsequence(t: Seq<char>)
    ensures
        is_subsequence(Seq::<char>::empty(), t),
{
    let f = Seq::<int>::empty();
    assert(is_embedding(f, Seq::<char>::empty(), t));
}

/// A prefix is a substring.
pub proof fn lemma_prefix_is_substring(t: Seq<char>, p: Seq<char>)
    requires
        starts_with_spec(t, p),
    ensures
        contains_spec(t, p),
{
    assert(occurs_at(t, p, 0));
}

/// Every sequence is a prefix of itself.
pub proof fn lemma_self_is_prefix(t: Seq<char>)
    ensures
        starts_with_spec(t, t),
{
    assert(t.subrange(0, t.len() as int) =~= t);
}

/// A prefix of an in-order subsequence is an in-order subsequence.
pub proof fn lemma_prefix_of_subsequence(p: Seq<char>, q: Seq<char>, t: Seq<char>)
    requires
        starts_with_spec(q, p),
        is_subsequence(q, t),
    ensures
        is_subsequence(p, t),
{
    let f = choose|f: Seq<int>| #[trigger] is_embedding(f, q, t);
    let g = f.take(p.len() as int);
    assert forall|i: int| 0 <= i < g.len() implies 0 <= #[trigger] g[i] < t.len() && t[g[i]] == p[i] by {
        assert(q.subrange(0, p.len() as int)[i] == q[i]);
    }
    assert forall|i: int, j: int| 0 <= i < j < g.len() implies #[trigger] g[i] < #[trigger] g[j] by {
        assert(f[i] < f[j]);
    }
    assert(is_embedding(g, p, t));
}

/// A prefix of a substring is a substring.
pub proof fn lemma_prefix_of_substring(p: Seq<char>, q: Seq<char>, t: Seq<char>)
    requires
        starts_with_spec(q, p),
        contains_spec(t, q),
    ensures
        contains_spec(t, p),
{
    let i = choose|i: int| #[trigger] occurs_at(t, q, i);
    assert(t.subrange(i, i + p.len()) =~= q.subrange(0, p.len() as int));
    assert(occurs_at(t, p, i));
}

// ---------------------------------------------------------------------------
// Calls into std whose behaviour vstd leaves unspecified
// ---------------------------------------------------------------------------
/// Calls `str::to_lowercase`. The result is named `lowercase` of the
/// argument. Two documented facts are claimed besides: the empty string
/// lower-cases to the empty string, and ASCII letters lower-case as
/// `to_ascii_lowercase` maps them (`A`..`Z` to `a`..`z`; std's
/// `to_ascii_lowercase` points to `to_lowercase` for lower-casing "ASCII
/// characters in addition to non-ASCII characters"), so an ASCII text
/// lower-cases character by character. Nothing is claimed of other text.
#[verifier::external_body]
pub(crate) fn to_lower(s: &str) -> (r: String)
    ensures
        r@ == lowercase(s@),
        s@.len() == 0 ==> r@.len() == 0,
        is_ascii_seq(s@) ==> r@ == ascii_lower(s@),
{
    s.to_lowercase()
}

/// Calls `String::push`: appends one character.
#[verifier::external_body]
pub(crate) fn push_char(s: &mut String, c: char)
    ensures
        final(s)@ == old(s)@.push(c),
{
    s.push(c)
}

/// Calls `String::pop`: removes and returns the last character, or returns
/// `None` and leaves an empty string unchanged.
#[verifier::external_body]
pub(crate) fn pop_char(s: &mut String) -> (r: Option<char>)
    ensures
        old(s)@.len() == 0 ==> r is None && final(s)@ == old(s)@,
        old(s)@.len() > 0 ==> r == Some(old(s)@.last()) && final(s)@ == old(s)@.drop_last(),
{
    s.pop()
}

// ---------------------------------------------------------------------------
// Conversions
// ---------------------------------------------------------------------------
/// The characters of `s`, in order.
pub fn chars_of(s: &str) -> (out: Vec<char>)
    ensures
        out@ == s@,
{
    let mut out: Vec<char> = Vec::new();
    for c in it: s.chars()
        invariant
            out@ == it.history(),
    {
        out.push(c);
    }
    out
}

/// Appends every character of `cs` to `s`.
pub fn push_chars(s: &mut String, cs: &[char])
    ensures
        final(s)@ == old(s)@ + cs@,
{
    let ghost start = s@;
    let n = cs.len();
    let mut i: usize = 0;
    while i < n
        invariant
            n == cs@.len(),
            i <= n,
            s@ == start + cs@.subrange(0, i as int),
        decreases n - i,
    {
        push_char(s, cs[i]);
        assert(cs@.subrange(0, i + 1) =~= cs@.subrange(0, i as int).push(cs@[i as int]));
        i = i + 1;
    }
    assert(cs@.subrange(0, n as int) =~= cs@);
}

/// Appends the characters of `t` to `s`.
pub fn push_str(s: &mut String, t: &str)
    ensures
        final(s)@ == old(s)@ + t@,
{
    let cs = chars_of(t);
    push_chars(s, cs.as_slice());
}

/// A fresh `String` holding the characters of `t`.
pub fn string_of(t: &str) -> (s: String)
    ensures
        s@ == t@,
{
    let mut s = String::new();
    push_str(&mut s, t);
    assert(s@ =~= t@);
    s
}

/// The decimal representation of `n`.
pub fn decimal_string(n: usize) -> (s: String)
    ensures
        s@ == decimal(n as nat),
{
    // Collect digits least significant first.
    let mut digits: Vec<char> = Vec::new();
    let mut m: usize = n;
    loop
        invariant_except_break
            decimal(n as nat) == decimal(m as nat) + digits@.reverse(),
        ensures
            decimal(n as nat) == digits@.reverse(),
        decreases m,
    {
        let d = m % 10;
        let c = digit_of(d);
        if m < 10 {
            let ghost old_digits = digits@;
            digits.push(c);
            assert(decimal(m as nat) == seq![c]);
            assert(digits@.reverse() =~= seq![c] + old_digits.reverse());
            break;
        }
        let ghost old_digits = digits@;
        digits.push(c);
        assert(digits@.reverse() =~= seq![c] + old_digits.reverse());
        assert(decimal(m as nat) == decimal((m / 10) as nat).push(digit_char((m % 10) as nat)));
        assert(decimal((m / 10) as nat).push(c) + old_digits.reverse() =~= decimal((m / 10) as nat) + (seq![c] + old_digits.reverse()));
        m = m / 10;
    }
    // digits holds decimal(n) reversed.
    let mut s = String::new();
    let len = digits.len();
    let mut i: usize = len;
    while i > 0
        invariant
            i <= len,
            len == digits@.len(),
            decimal(n as nat) == digits@.reverse(),
            s@ == digits@.reverse().subrange(0, (len - i) as int),
        decreases i,
    {
        i = i - 1;
        push_char(&mut s, digits[i]);
        assert(digits@.reverse().subrange(0, (len - i) as int) =~= digits@.reverse().subrange(
            0,
            (len - i - 1) as int,
        ).push(digits@[i as int]));
    }
    assert(digits@.reverse().subrange(0, len as int) =~= digits@.reverse());
    s
}

fn digit_of(d: usize) -> (c: char)
    requires
        d < 10,
    ensures
        c == digit_char(d as nat),
{
    if d == 0 { '0' }
    else if d == 1 { '1' }
    else if d == 2 { '2' }
    else if d == 3 { '3' }
    else if d == 4 { '4' }
    else if d == 5 { '5' }
    else if d == 6 { '6' }
    else if d == 7 { '7' }
    else if d == 8 { '8' }
    else { '9' }
}

// ---------------------------------------------------------------------------
// Matching
// ---------------------------------------------------------------------------
/// Whether `p` occurs in `t` starting at position `i`.
pub fn occurs_at_exec(t: &[char], p: &[char], i: usize) -> (r: bool)
    ensures
        r == occurs_at(t@, p@, i as int),
{
    let n = t.len();
    let m = p.len();
    if i > n || m > n - i {
        return false;
    }
    let mut j: usize = 0;
    while j < m
        invariant
            n == t@.len(),
            m == p@.len(),
            i + m <= n,
            j <= m,
            forall|k: int| 0 <= k < j ==> t@[i + k] == p@[k],
        decreases m - j,
    {
        if t[i + j] != p[j] {
            assert(t@.subrange(i as int, i + m)[j as int] == t@[i + j]);
            return false;
        }
        j = j + 1;
    }
    assert(t@.subrange(i as int, i + m) =~= p@);
    true
}

/// Whether `p` is a contiguous substring of `t`.
pub fn contains_chars(t: &[char], p: &[char]) -> (r: bool)
    ensures
        r == contains_spec(t@, p@),
{
    let n = t.len();
    let m = p.len();
    if m > n {
        assert(forall|i: int| !#[trigger] occurs_at(t@, p@, i));
        return false;
    }
    let mut i: usize = 0;
    loop
        invariant
            n == t@.len(),
            m == p@.len(),
            m <= n,
            i <= n - m,
            forall|k: int| 0 <= k < i ==> !#[trigger] occurs_at(t@, p@, k),
        decreases n - m - i,
    {
        if occurs_at_exec(t, p, i) {
            return true;
        }
        if i == n - m {
            assert forall|k: int| !#[trigger] occurs_at(t@, p@, k) by {
                if 0 <= k < i {
                }
            }
            return false;
        }
        i = i + 1;
    }
}

/// Whether `p` is a prefix of `t`.
pub fn starts_with_chars(t: &[char], p: &[char]) -> (r: bool)
    ensures
        r == starts_with_spec(t@, p@),
{
    occurs_at_exec(t, p, 0)
}

/// Whether the two character sequences are equal.
pub fn chars_equal(a: &[char], b: &[char]) -> (r: bool)
    ensures
        r == (a@ == b@),
{
    if a.len() != b.len() {
        return false;
    }
    let r = occurs_at_exec(a, b, 0);
    assert(a@.subrange(0, b@.len() as int) =~= a@);
    r
}

/// Whether the characters of `p` appear in `t` in order (greedy
/// left-to-right scan).
pub fn is_subsequence_chars(p: &[char], t: &[char]) -> (r: bool)
    ensures
        r == is_subsequence(p@, t@),
{
    let n = t.len();
    let m = p.len();
    let mut pos: usize = 0;
    let mut k: usize = 0;
    let ghost mut g: Seq<int> = Seq::empty();
    while k < m
        invariant
            n == t@.len(),
            m == p@.len(),
            k <= m,
            pos <= n,
            // `g` embeds the first `k` characters of `p` before `pos`.
            is_embedding(g, p@.subrange(0, k as int), t@),
            forall|i: int| 0 <= i < g.len() ==> #[trigger] g[i] < pos,
            // Any embedding of all of `p` places character `k` at or after `pos`.
            k < m ==> forall|f: Seq<int>| #[trigger] is_embedding(f, p@, t@) ==> f[k as int] >= pos,
        decreases m - k,
    {
        let pc = p[k];
        // Scan for `pc` at or after `pos`.
        while pos < n && t[pos] != pc
            invariant
                n == t@.len(),
                m == p@.len(),
                k < m,
                pos <= n,
                pc == p@[k as int],
                is_embedding(g, p@.subrange(0, k as int), t@),
                forall|i: int| 0 <= i < g.len() ==> #[trigger] g[i] < pos,
                forall|f: Seq<int>| #[trigger] is_embedding(f, p@, t@) ==> f[k as int] >= pos,
            decreases n - pos,
        {
            assert forall|f: Seq<int>| #[trigger] is_embedding(f, p@, t@) implies f[k as int] >= pos + 1 by {
                assert(t@[f[k as int]] == p@[k as int]);
            }
            pos = pos + 1;
        }
        if pos == n {
            assert forall|f: Seq<int>| !#[trigger] is_embedding(f, p@, t@) by {
                if is_embedding(f, p@, t@) {
                    assert(f[k as int] < n);
                }
            }
            return false;
        }
        // t[pos] == pc: extend the embedding.
        let ghost g2 = g.push(pos as int);
        assert(is_embedding(g2, p@.subrange(0, k + 1), t@)) by {
            assert forall|i: int| 0 <= i < g2.len() implies 0 <= #[trigger] g2[i] < t@.len()
                && t@[g2[i]] == p@.subrange(0, k + 1)[i] by {
                if i < k {
                    assert(g2[i] == g[i]);
                    assert(p@.subrange(0, k as int)[i] == p@[i]);
                }
            }
            assert forall|i: int, j: int| 0 <= i < j < g2.len() implies #[trigger] g2[i] < #[trigger] g2[j] by {
                if j < k {
                    assert(g2[i] == g[i] && g2[j] == g[j]);
                } else {
                    assert(g2[i] == g[i]);
                    assert(g[i] < pos);
                }
            }
        }
        proof {
            if k + 1 < m {
                assert forall|f: Seq<int>| #[trigger] is_embedding(f, p@, t@) implies f[k + 1] >= pos + 1 by {
                    assert(f[k as int] < f[k + 1]);
                }
            }
            g = g2;
        }
        pos = pos + 1;
        k = k + 1;
    }
    assert(p@.subrange(0, m as int) =~= p@);
    assert(is_embedding(g, p@, t@));
    true
}

} // verus!
