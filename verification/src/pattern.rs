//! Shell-style wildcard matching of entry names.
//!
//! A pattern is an ordinary sequence of characters in which `*` stands for
//! any run of characters (possibly empty, and crossing `/` freely) and `?`
//! stands for exactly one character.  A pattern matches only the entirety
//! of a name.

use vstd::prelude::*;

verus! {

/// Whether the wildcard pattern `p` matches the whole of `s`.
///
/// `*` matches any run of characters including the empty run, `?` matches
/// exactly one character, and every other character matches only itself.
pub open spec fn glob_match(p: Seq<char>, s: Seq<char>) -> bool
    decreases p.len() + s.len(),
{
    if p.len() == 0 {
        s.len() == 0
    } else if p[0] == '*' {
        glob_match(p.skip(1), s) || (s.len() > 0 && glob_match(p, s.skip(1)))
    } else if s.len() == 0 {
        false
    } else {
        (p[0] == '?' || p[0] == s[0]) && glob_match(p.skip(1), s.skip(1))
    }
}

/// The one-step unfolding of `glob_match` on the suffixes of `p` and `s`
/// that begin at `i` and `j`, phrased over the original sequences.
proof fn lemma_glob_match_step(p: Seq<char>, s: Seq<char>, i: int, j: int)
    requires
        0 <= i <= p.len(),
        0 <= j <= s.len(),
    ensures
        glob_match(p.skip(i), s.skip(j)) == (if i == p.len() {
            j == s.len()
        } else if p[i] == '*' {
            glob_match(p.skip(i + 1), s.skip(j)) || (j < s.len() && glob_match(
                p.skip(i),
                s.skip(j + 1),
            ))
        } else if j == s.len() {
            false
        } else {
            (p[i] == '?' || p[i] == s[j]) && glob_match(p.skip(i + 1), s.skip(j + 1))
        }),
{
    let ps = p.skip(i);
    let ss = s.skip(j);
    if i < p.len() {
        assert(ps[0] == p[i]);
        assert(ps.skip(1) =~= p.skip(i + 1));
    }
    if j < s.len() {
        assert(ss[0] == s[j]);
        assert(ss.skip(1) =~= s.skip(j + 1));
    }
}

/// The characters of `s`, in order, as a vector.
pub fn chars_of(s: &str) -> (v: Vec<char>)
    ensures
        v@ == s@,
{
    let n = s.unicode_len();
    let mut v: Vec<char> = Vec::new();
    let mut i: usize = 0;
    while i < n
        invariant
            i <= n,
            n == s@.len(),
            v@ == s@.take(i as int),
        decreases n - i,
    {
        let c = s.get_char(i);
        v.push(c);
        proof {
            assert(s@.take(i + 1) =~= s@.take(i as int).push(s@[i as int]));
        }
        i = i + 1;
    }
    proof {
        assert(s@.take(n as int) =~= s@);
    }
    v
}

/// Decides `glob_match(p@, s@)` by filling the table of all suffix pairs,
/// from the shortest suffixes towards the full sequences.
fn glob_match_exec(p: &Vec<char>, s: &Vec<char>) -> (r: bool)
    ensures
        r == glob_match(p@, s@),
{
    let m = p.len();
    let n = s.len();
    // `next[j]` holds the answer for the pattern suffix starting at `i + 1`
    // and the name suffix starting at `j`; `cur[j]` the one for `i`.
    let mut next: Vec<bool> = Vec::new();
    let mut j: usize = 0;
    while j < n
        invariant
            j <= n,
            n == s@.len(),
            m == p@.len(),
            next@.len() == j,
            forall|k: int|
                0 <= k < j ==> next@[k] == glob_match(p@.skip(m as int), s@.skip(k)),
        decreases n - j,
    {
        proof {
            lemma_glob_match_step(p@, s@, m as int, j as int);
        }
        next.push(false);
        j = j + 1;
    }
    proof {
        lemma_glob_match_step(p@, s@, m as int, n as int);
    }
    next.push(true);
    // A row of `n + 1` cells exists, so `n + 1` fits in `usize`.
    let full_len = next.len();
    assert(full_len == n + 1);
    let mut i: usize = m;
    while i > 0
        invariant
            i <= m,
            n == s@.len(),
            m == p@.len(),
            n < usize::MAX,
            next@.len() == n + 1,
            forall|k: int|
                0 <= k <= n ==> next@[k] == glob_match(p@.skip(i as int), s@.skip(k)),
        decreases i,
    {
        let pi = i - 1;
        let mut cur: Vec<bool> = Vec::new();
        // Build the row for pattern suffix `pi` from the right, so that the
        // answer for `j + 1` is at hand when `j` is computed.
        let mut jj: usize = 0;
        while jj <= n
            invariant
                jj <= n + 1,
                pi < m,
                n == s@.len(),
                m == p@.len(),
                n < usize::MAX,
                next@.len() == n + 1,
                forall|k: int|
                    0 <= k <= n ==> next@[k] == glob_match(p@.skip(pi + 1), s@.skip(k)),
                cur@.len() == jj,
                forall|k: int|
                    0 <= k < jj ==> cur@[k] == glob_match(p@.skip(pi as int), s@.skip(n - k)),
            decreases n + 1 - jj,
        {
            let sj = n - jj;
            let c = p[pi];
            let v: bool = if c == '*' {
                let follow = if sj < n {
                    cur[jj - 1]
                } else {
                    false
                };
                next[sj] || follow
            } else if sj == n {
                false
            } else {
                (c == '?' || c == s[sj]) && next[sj + 1]
            };
            proof {
                lemma_glob_match_step(p@, s@, pi as int, sj as int);
            }
            cur.push(v);
            jj = jj + 1;
        }
        // Reverse the freshly built row into suffix order.
        let mut row: Vec<bool> = Vec::new();
        let mut k: usize = 0;
        while k <= n
            invariant
                k <= n + 1,
                n == s@.len(),
                m == p@.len(),
                n < usize::MAX,
                pi < m,
                cur@.len() == n + 1,
                forall|t: int|
                    0 <= t <= n ==> cur@[t] == glob_match(p@.skip(pi as int), s@.skip(n - t)),
                row@.len() == k,
                forall|t: int|
                    0 <= t < k ==> row@[t] == glob_match(p@.skip(pi as int), s@.skip(t)),
            decreases n + 1 - k,
        {
            let b = cur[n - k];
            row.push(b);
            k = k + 1;
        }
        next = row;
        i = pi;
    }
    proof {
        assert(p@.skip(0) =~= p@);
        assert(s@.skip(0) =~= s@);
    }
    next[0]
}

/// A wildcard pattern compiled for repeated matching.
pub struct Matcher {
    pattern: Vec<char>,
}

impl View for Matcher {
    type V = Seq<char>;

    closed spec fn view(&self) -> Seq<char> {
        self.pattern@
    }
}

impl Matcher {
    /// Compiles `pattern` for matching.
    pub fn new(pattern: &str) -> (r: Matcher)
        ensures
            r@ == pattern@,
    {
        Matcher { pattern: chars_of(pattern) }
    }

    /// Whether this pattern matches the whole of `name`.
    pub fn matches(&self, name: &str) -> (r: bool)
        ensures
            r == glob_match(self@, name@),
    {
        let sc = chars_of(name);
        glob_match_exec(&self.pattern, &sc)
    }
}

} // verus!
