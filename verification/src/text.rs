//! Verified character-level utilities shared by the codec and the parsers.
//!
//! Everything here works on the character sequence view of `str`, so the
//! contracts of the protocol modules can be stated purely over `Seq<char>`.

use vstd::prelude::*;
use vstd::string::StrSliceExecFns;

verus! {

/// Relies on `String::push`: appends the given character at the end of the
/// string.
#[verifier::external_body]
pub fn push_char(s: &mut String, c: char)
    ensures
        final(s)@ == old(s)@.push(c),
{
    s.push(c);
}

/// True when the characters of `s` equal the characters of `t`.
pub fn str_eq(s: &str, t: &str) -> (r: bool)
    ensures
        r == (s@ == t@),
{
    let n = s.unicode_len();
    if n != t.unicode_len() {
        return false;
    }
    let mut j: usize = 0;
    while j < n
        invariant
            n == s@.len(),
            n == t@.len(),
            j <= n,
            forall|k: int| 0 <= k < j ==> s@[k] == t@[k],
        decreases n - j,
    {
        if s.get_char(j) != t.get_char(j) {
            return false;
        }
        j += 1;
    }
    proof {
        assert(s@ =~= t@);
    }
    true
}

/// True when `pat` occurs in `s` starting at character position `i`.
pub fn starts_with_at(s: &str, i: usize, pat: &str) -> (b: bool)
    requires
        i <= s@.len(),
    ensures
        b == (i + pat@.len() <= s@.len() && s@.subrange(
            i as int,
            i as int + pat@.len() as int,
        ) == pat@),
{
    let n = pat.unicode_len();
    let sn = s.unicode_len();
    if sn - i < n {
        return false;
    }
    let mut j: usize = 0;
    while j < n
        invariant
            sn == s@.len(),
            n == pat@.len(),
            i + n <= sn,
            j <= n,
            forall|k: int| 0 <= k < j ==> s@[i + k] == pat@[k],
        decreases n - j,
    {
        if s.get_char(i + j) != pat.get_char(j) {
            proof {
                let sub = s@.subrange(i as int, i as int + pat@.len() as int);
                assert(sub[j as int] == s@[i + j]);
            }
            return false;
        }
        j += 1;
    }
    proof {
        assert(s@.subrange(i as int, i as int + pat@.len() as int) =~= pat@);
    }
    true
}

/// True when `pat` occurs somewhere in `s` as a contiguous substring.
pub open spec fn spec_contains_sub(s: Seq<char>, pat: Seq<char>) -> bool {
    exists|i: int|
        0 <= i && i + pat.len() <= s.len() && #[trigger] s.subrange(i, i + pat.len() as int)
            == pat
}

/// True when `pat` occurs somewhere in `s` as a contiguous substring.
pub fn contains_sub(s: &str, pat: &str) -> (b: bool)
    ensures
        b == spec_contains_sub(s@, pat@),
{
    let n = pat.unicode_len();
    let sn = s.unicode_len();
    if n > sn {
        return false;
    }
    let mut i: usize = 0;
    while i < sn - n
        invariant
            sn == s@.len(),
            n == pat@.len(),
            n <= sn,
            i <= sn - n,
            forall|k: int| 0 <= k < i ==> #[trigger] s@.subrange(k, k + pat@.len() as int)
                != pat@,
        decreases sn - n - i,
    {
        if starts_with_at(s, i, pat) {
            return true;
        }
        i += 1;
    }
    if starts_with_at(s, i, pat) {
        return true;
    }
    false
}

/// The first position of `c` in `s`, if any.
pub fn find_char(s: &str, c: char) -> (r: Option<usize>)
    ensures
        match r {
            Some(i) => i < s@.len() && s@[i as int] == c && forall|k: int|
                0 <= k < i ==> s@[k] != c,
            None => forall|k: int| 0 <= k < s@.len() ==> s@[k] != c,
        },
{
    let n = s.unicode_len();
    let mut i: usize = 0;
    while i < n
        invariant
            n == s@.len(),
            i <= n,
            forall|k: int| 0 <= k < i ==> s@[k] != c,
        decreases n - i,
    {
        if s.get_char(i) == c {
            return Some(i);
        }
        i += 1;
    }
    None
}

/// How many times `c` occurs in `s`.
pub open spec fn count_char(s: Seq<char>, c: char) -> nat
    decreases s.len(),
{
    if s.len() == 0 {
        0
    } else {
        count_char(s.drop_last(), c) + if s.last() == c {
            1nat
        } else {
            0nat
        }
    }
}

/// Occurrence counts add up over concatenation.
pub proof fn lemma_count_char_concat(a: Seq<char>, b: Seq<char>, c: char)
    ensures
        count_char(a + b, c) == count_char(a, c) + count_char(b, c),
    decreases b.len(),
{
    if b.len() == 0 {
        assert(a + b =~= a);
    } else {
        lemma_count_char_concat(a, b.drop_last(), c);
        assert((a + b).drop_last() =~= a + b.drop_last());
    }
}

/// A sequence is free of `c` exactly when its count of `c` is zero.
pub proof fn lemma_count_char_zero(s: Seq<char>, c: char)
    ensures
        (count_char(s, c) == 0) <==> (forall|k: int| 0 <= k < s.len() ==> s[k] != c),
    decreases s.len(),
{
    if s.len() > 0 {
        lemma_count_char_zero(s.drop_last(), c);
        if count_char(s, c) == 0 {
            assert(forall|k: int| 0 <= k < s.len() ==> s[k] != c) by {
                assert(forall|k: int| 0 <= k < s.len() - 1 ==> s[k] == s.drop_last()[k]);
            }
        }
    }
}

/// Counts the occurrences of `c` in `s`.
pub fn count_char_exec(s: &str, c: char) -> (r: usize)
    ensures
        r == count_char(s@, c),
{
    let n = s.unicode_len();
    let mut i: usize = 0;
    let mut cnt: usize = 0;
    while i < n
        invariant
            n == s@.len(),
            i <= n,
            cnt == count_char(s@.take(i as int), c),
            cnt <= i,
        decreases n - i,
    {
        proof {
            assert(s@.take(i + 1).drop_last() =~= s@.take(i as int));
            assert(s@.take(i + 1).last() == s@[i as int]);
        }
        if s.get_char(i) == c {
            cnt += 1;
        }
        i += 1;
    }
    proof {
        assert(s@.take(n as int) =~= s@);
    }
    cnt
}

} // verus!
