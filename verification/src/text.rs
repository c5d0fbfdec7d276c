//! Character-level text utilities shared by the command parser and the
//! content filter: conversion of a message into its characters, whitespace
//! trimming, and decimal parsing of platform user identifiers.
//!
//! Whitespace here is Unicode whitespace, the class the platform's own
//! trimming uses; it is named by `unicode_white` and carried by a trusted
//! wrapper over the standard library's character test.
use vstd::prelude::*;
use vstd::string::StrSliceExecFns;

verus! {

/// ASCII decimal digit.
pub open spec fn is_digit(c: char) -> bool {
    '0' <= c && c <= '9'
}

/// Numeric value of an ASCII decimal digit.
pub open spec fn digit_val(c: char) -> nat
    recommends
        is_digit(c),
{
    (c as nat - '0' as nat) as nat
}

/// The Unicode White_Space property, as the standard library's character
/// tables carry it.
pub uninterp spec fn unicode_white(c: char) -> bool;

/// Relies on char::is_whitespace: true exactly for characters with the
/// Unicode White_Space property, a function of the character alone. Among
/// ASCII these are space, tab, line feed, vertical tab, form feed and
/// carriage return.
#[verifier::external_body]
pub(crate) fn char_is_whitespace(c: char) -> (r: bool)
    ensures
        r == unicode_white(c),
        (c as u32) < 128 ==> r == (c == ' ' || c == '\t' || c == '\n' || c == '\x0b' || c
            == '\x0c' || c == '\r'),
{
    c.is_whitespace()
}

/// Whitespace, as trimmed around an explicit command target.
pub open spec fn is_space(c: char) -> bool {
    unicode_white(c)
}

/// Value of a sequence of decimal digits, most significant first.
pub open spec fn dec_value(s: Seq<char>) -> nat
    decreases s.len(),
{
    if s.len() == 0 {
        0
    } else {
        dec_value(s.drop_last()) * 10 + digit_val(s.last())
    }
}

pub open spec fn all_digits(s: Seq<char>) -> bool {
    forall|i: int| 0 <= i < s.len() ==> is_digit(#[trigger] s[i])
}

/// `p` is a prefix of `s`.
pub open spec fn has_prefix(s: Seq<char>, p: Seq<char>) -> bool {
    p.len() <= s.len() && s.subrange(0, p.len() as int) == p
}

/// `s` with leading whitespace removed.
pub open spec fn trim_front(s: Seq<char>) -> Seq<char>
    decreases s.len(),
{
    if s.len() > 0 && is_space(s[0]) {
        trim_front(s.drop_first())
    } else {
        s
    }
}

/// `s` with trailing whitespace removed.
pub open spec fn trim_back(s: Seq<char>) -> Seq<char>
    decreases s.len(),
{
    if s.len() > 0 && is_space(s.last()) {
        trim_back(s.drop_last())
    } else {
        s
    }
}

/// `s` with surrounding whitespace removed.
pub open spec fn trim(s: Seq<char>) -> Seq<char> {
    trim_back(trim_front(s))
}

/// The characters of `s`, in order.
pub fn chars_vec(s: &str) -> (r: Vec<char>)
    ensures
        r@ == s@,
{
    let n = s.unicode_len();
    let mut r: Vec<char> = Vec::new();
    let mut i: usize = 0;
    while i < n
        invariant
            i <= n,
            n == s@.len(),
            r@ == s@.subrange(0, i as int),
        decreases n - i,
    {
        let c = s.get_char(i);
        r.push(c);
        i = i + 1;
        proof {
            assert(r@ =~= s@.subrange(0, i as int));
        }
    }
    proof {
        assert(r@ =~= s@);
    }
    r
}

fn is_space_exec(c: char) -> (r: bool)
    ensures
        r == is_space(c),
{
    char_is_whitespace(c)
}

proof fn lemma_trim_front_step(s: Seq<char>, i: int)
    requires
        0 <= i <= s.len(),
        forall|k: int| 0 <= k < i ==> is_space(#[trigger] s[k]),
    ensures
        trim_front(s) == trim_front(s.subrange(i, s.len() as int)),
    decreases i,
{
    if i > 0 {
        assert(s.len() > 0 && is_space(s[0]));
        let t = s.drop_first();
        assert(trim_front(s) == trim_front(t));
        assert(forall|k: int| 0 <= k < i - 1 ==> is_space(#[trigger] t[k]));
        lemma_trim_front_step(t, i - 1);
        assert(t.subrange(i - 1, t.len() as int) =~= s.subrange(i, s.len() as int));
    } else {
        assert(s.subrange(0, s.len() as int) =~= s);
    }
}

proof fn lemma_trim_back_step(s: Seq<char>, j: int)
    requires
        0 <= j <= s.len(),
        forall|k: int| j <= k < s.len() ==> is_space(#[trigger] s[k]),
    ensures
        trim_back(s) == trim_back(s.subrange(0, j)),
    decreases s.len() - j,
{
    if j < s.len() {
        assert(is_space(s.last()));
        let t = s.drop_last();
        assert(trim_back(s) == trim_back(t));
        assert(forall|k: int| j <= k < t.len() ==> is_space(#[trigger] t[k]));
        lemma_trim_back_step(t, j);
        assert(t.subrange(0, j) =~= s.subrange(0, j));
    } else {
        assert(s.subrange(0, s.len() as int) =~= s);
    }
}

/// Copy of `s` with surrounding whitespace removed.
pub fn trim_chars(s: &Vec<char>) -> (r: Vec<char>)
    ensures
        r@ == trim(s@),
{
    let n = s.len();
    let mut lo: usize = 0;
    while lo < n && is_space_exec(s[lo])
        invariant
            lo <= n,
            n == s@.len(),
            forall|k: int| 0 <= k < lo ==> is_space(#[trigger] s@[k]),
        decreases n - lo,
    {
        lo = lo + 1;
    }
    let mut hi: usize = n;
    while hi > lo && is_space_exec(s[hi - 1])
        invariant
            lo <= hi <= n,
            n == s@.len(),
            forall|k: int| 0 <= k < lo ==> is_space(#[trigger] s@[k]),
            forall|k: int| hi <= k < n ==> is_space(#[trigger] s@[k]),
        decreases hi,
    {
        hi = hi - 1;
    }
    let mut r: Vec<char> = Vec::new();
    let mut i: usize = lo;
    while i < hi
        invariant
            lo <= i <= hi <= n,
            n == s@.len(),
            r@ == s@.subrange(lo as int, i as int),
        decreases hi - i,
    {
        r.push(s[i]);
        i = i + 1;
        proof {
            assert(r@ =~= s@.subrange(lo as int, i as int));
        }
    }
    proof {
        let tail = s@.subrange(lo as int, n as int);
        lemma_trim_front_step(s@, lo as int);
        assert(trim_front(s@) == tail) by {
            if lo < n {
                assert(!is_space(tail[0]));
            }
            assert(tail.subrange(0, tail.len() as int) =~= tail);
        }
        assert(trim_back(tail) == tail.subrange(0, hi - lo)) by {
            assert(forall|k: int| hi - lo <= k < tail.len() ==> is_space(#[trigger] tail[k]));
            lemma_trim_back_step(tail, hi - lo);
            let head = tail.subrange(0, hi - lo);
            if hi > lo {
                assert(!is_space(head.last()));
            }
            assert(head.subrange(0, head.len() as int) =~= head);
        }
        assert(r@ =~= s@.subrange(lo as int, n as int).subrange(0, hi - lo));
    }
    r
}

proof fn lemma_dec_value_prefix_grows(s: Seq<char>, i: int, j: int)
    requires
        0 <= i <= j <= s.len(),
    ensures
        dec_value(s.subrange(0, i)) <= dec_value(s.subrange(0, j)),
    decreases j - i,
{
    if i < j {
        lemma_dec_value_prefix_grows(s, i, j - 1);
        let p = s.subrange(0, j);
        assert(p.drop_last() =~= s.subrange(0, j - 1));
        assert(dec_value(s.subrange(0, j - 1)) * 10 >= dec_value(s.subrange(0, j - 1)));
    }
}

/// Parses a non-empty run of decimal digits as a `u64`.
/// Returns `None` when some character is not a digit, when the run is empty,
/// or when the value does not fit in 64 bits.
pub fn parse_u64_chars(s: &Vec<char>) -> (r: Option<u64>)
    ensures
        r is Some <==> s@.len() > 0 && all_digits(s@) && dec_value(s@) <= u64::MAX,
        r is Some ==> r->Some_0 == dec_value(s@),
{
    let n = s.len();
    if n == 0 {
        return None;
    }
    let mut acc: u64 = 0;
    let mut i: usize = 0;
    while i < n
        invariant
            i <= n,
            n == s@.len(),
            all_digits(s@.subrange(0, i as int)),
            acc == dec_value(s@.subrange(0, i as int)),
        decreases n - i,
    {
        let c = s[i];
        if !('0' <= c && c <= '9') {
            assert(!all_digits(s@)) by {
                assert(!is_digit(s@[i as int]));
            }
            return None;
        }
        let d: u64 = (c as u32 as u64) - 48;
        let ghost pre = s@.subrange(0, i as int);
        let ghost cur = s@.subrange(0, i as int + 1);
        proof {
            assert(cur.drop_last() =~= pre);
            assert(cur.last() == s@[i as int]);
            assert(dec_value(cur) == dec_value(pre) * 10 + digit_val(s@[i as int]));
            assert(digit_val(s@[i as int]) == d);
        }
        let step = match acc.checked_mul(10) {
            Some(m) => m.checked_add(d),
            None => None,
        };
        match step {
            Some(v) => {
                acc = v;
            }
            None => {
                proof {
                    assert(dec_value(cur) > u64::MAX);
                    lemma_dec_value_prefix_grows(s@, i as int + 1, n as int);
                    assert(s@.subrange(0, n as int) =~= s@);
                }
                return None;
            }
        }
        i = i + 1;
    }
    proof {
        assert(s@.subrange(0, n as int) =~= s@);
    }
    Some(acc)
}

/// A user mention token `<@…>` whose middle is a decimal user identifier:
/// the parsed identifier, or `None` when `s` has another shape.
pub open spec fn mention_parse(s: Seq<char>) -> Option<u64> {
    if s.len() >= 4 && s[0] == '<' && s[1] == '@' && s.last() == '>' && all_digits(
        s.subrange(2, s.len() - 1),
    ) && dec_value(s.subrange(2, s.len() - 1)) <= u64::MAX {
        Some(dec_value(s.subrange(2, s.len() - 1)) as u64)
    } else {
        None
    }
}

/// Parses a user mention token `<@…>` into the mentioned user identifier.
pub fn parse_mention(s: &Vec<char>) -> (r: Option<u64>)
    ensures
        r == mention_parse(s@),
{
    let n = s.len();
    if n < 4 || s[0] != '<' || s[1] != '@' || s[n - 1] != '>' {
        return None;
    }
    let mut mid: Vec<char> = Vec::new();
    let mut i: usize = 2;
    while i < n - 1
        invariant
            2 <= i <= n - 1,
            n == s@.len(),
            mid@ == s@.subrange(2, i as int),
        decreases n - i,
    {
        mid.push(s[i]);
        i = i + 1;
        proof {
            assert(mid@ =~= s@.subrange(2, i as int));
        }
    }
    parse_u64_chars(&mid)
}

} // verus!
