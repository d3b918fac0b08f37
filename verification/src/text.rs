//! Character-level helpers for paths and command-line tokens.

use vstd::prelude::*;

use crate::pattern::chars_of;

verus! {

/// What stands after the last occurrence of `c` in `s` (all of `s` when
/// `c` does not occur).
pub open spec fn after_last(s: Seq<char>, c: char) -> Seq<char>
    decreases s.len(),
{
    if s.len() == 0 {
        s
    } else if s.last() == c {
        Seq::empty()
    } else {
        after_last(s.drop_last(), c).push(s.last())
    }
}

/// What stands before the last occurrence of `c` in `s` (empty when `c`
/// does not occur).
pub open spec fn before_last(s: Seq<char>, c: char) -> Seq<char>
    decreases s.len(),
{
    if s.len() == 0 {
        s
    } else if s.last() == c {
        s.drop_last()
    } else {
        before_last(s.drop_last(), c)
    }
}

/// Whether `c` occurs in `s`.
pub open spec fn occurs(s: Seq<char>, c: char) -> bool {
    exists|i: int| 0 <= i < s.len() && s[i] == c
}

/// Whether `p` is a prefix of `s`.
pub open spec fn starts_with(s: Seq<char>, p: Seq<char>) -> bool {
    p.len() <= s.len() && s.take(p.len() as int) == p
}

/// Whether `p` is a suffix of `s`.
pub open spec fn ends_with(s: Seq<char>, p: Seq<char>) -> bool {
    p.len() <= s.len() && s.skip(s.len() - p.len()) == p
}

/// When `k` is the last index of `c` in `s`, what follows `k` is
/// `after_last` and what precedes it is `before_last`.
pub proof fn lemma_split_at_last(s: Seq<char>, c: char, k: int)
    requires
        0 <= k < s.len(),
        s[k] == c,
        forall|j: int| k < j < s.len() ==> s[j] != c,
    ensures
        after_last(s, c) == s.skip(k + 1),
        before_last(s, c) == s.take(k),
    decreases s.len(),
{
    if k == s.len() - 1 {
        assert(after_last(s, c) =~= s.skip(k + 1));
        assert(before_last(s, c) =~= s.take(k));
    } else {
        lemma_split_at_last(s.drop_last(), c, k);
        assert(s.drop_last().skip(k + 1) =~= s.skip(k + 1).drop_last());
        assert(after_last(s, c) =~= s.skip(k + 1));
        assert(s.drop_last().take(k) =~= s.take(k));
    }
}

/// When `c` does not occur in `s`, `after_last` is `s` itself.
pub proof fn lemma_after_last_absent(s: Seq<char>, c: char)
    requires
        forall|j: int| 0 <= j < s.len() ==> s[j] != c,
    ensures
        after_last(s, c) == s,
    decreases s.len(),
{
    if s.len() > 0 {
        lemma_after_last_absent(s.drop_last(), c);
        assert(after_last(s, c) =~= s);
    } else {
        assert(after_last(s, c) =~= s);
    }
}

/// The index just past the last occurrence of `c` in `s`: `0` when `c`
/// does not occur.
pub fn scan_past_last(s: &Vec<char>, c: char) -> (r: usize)
    ensures
        r <= s@.len(),
        r == 0 ==> forall|j: int| 0 <= j < s@.len() ==> s@[j] != c,
        r > 0 ==> s@[r - 1] == c && (forall|j: int| r <= j < s@.len() ==> s@[j] != c),
{
    let mut past: usize = 0;
    let mut i: usize = 0;
    while i < s.len()
        invariant
            i <= s@.len(),
            past <= i,
            past == 0 ==> forall|j: int| 0 <= j < i ==> s@[j] != c,
            past > 0 ==> s@[past - 1] == c && (forall|j: int| past <= j < i ==> s@[j] != c),
        decreases s@.len() - i,
    {
        if s[i] == c {
            past = i + 1;
        }
        i = i + 1;
    }
    past
}

/// Whether `s` and `p` hold the same characters.
pub fn str_eq(s: &str, p: &str) -> (r: bool)
    ensures
        r == (s@ == p@),
{
    let n = s.unicode_len();
    if n != p.unicode_len() {
        return false;
    }
    let mut i: usize = 0;
    while i < n
        invariant
            i <= n,
            n == s@.len(),
            n == p@.len(),
            forall|j: int| 0 <= j < i ==> s@[j] == p@[j],
        decreases n - i,
    {
        if s.get_char(i) != p.get_char(i) {
            return false;
        }
        i = i + 1;
    }
    proof {
        assert(s@ =~= p@);
    }
    true
}

/// Whether `p` is a prefix of `s`.
pub fn str_starts_with(s: &str, p: &str) -> (r: bool)
    ensures
        r == starts_with(s@, p@),
{
    let n = p.unicode_len();
    if n > s.unicode_len() {
        return false;
    }
    let mut i: usize = 0;
    while i < n
        invariant
            i <= n,
            n == p@.len(),
            n <= s@.len(),
            forall|j: int| 0 <= j < i ==> s@[j] == p@[j],
        decreases n - i,
    {
        if s.get_char(i) != p.get_char(i) {
            proof {
                assert(s@.take(n as int)[i as int] != p@[i as int]);
            }
            return false;
        }
        i = i + 1;
    }
    proof {
        assert(s@.take(n as int) =~= p@);
    }
    true
}

/// Whether `p` is a suffix of `s`.
pub fn str_ends_with(s: &str, p: &str) -> (r: bool)
    ensures
        r == ends_with(s@, p@),
{
    let n = p.unicode_len();
    let m = s.unicode_len();
    if n > m {
        return false;
    }
    let off = m - n;
    let mut i: usize = 0;
    while i < n
        invariant
            i <= n,
            n == p@.len(),
            m == s@.len(),
            off == m - n,
            forall|j: int| 0 <= j < i ==> s@[off + j] == p@[j],
        decreases n - i,
    {
        if s.get_char(off + i) != p.get_char(i) {
            proof {
                assert(s@.skip(off as int)[i as int] != p@[i as int]);
            }
            return false;
        }
        i = i + 1;
    }
    proof {
        assert(s@.skip(off as int) =~= p@);
    }
    true
}

/// What follows the last `=` of `s`: all of `s` when it has no `=`.
pub fn value_after_eq(s: &str) -> (r: String)
    ensures
        r@ == after_last(s@, '='),
{
    let chars = chars_of(s);
    let past = scan_past_last(&chars, '=');
    let n = s.unicode_len();
    let tail = s.substring_char(past, n);
    proof {
        if past == 0 {
            lemma_after_last_absent(s@, '=');
            assert(s@.subrange(0, n as int) =~= s@);
        } else {
            lemma_split_at_last(s@, '=', past - 1);
        }
    }
    tail.to_owned()
}

} // verus!
