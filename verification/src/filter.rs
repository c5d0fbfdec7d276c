//! Content filter: decides whether a message's text is eligible for speech
//! synthesis.
//!
//! Text is rejected when it contains a bare URL (http, https, ftp, telnet,
//! news or mms scheme, matched case-insensitively), a fenced code block, a
//! user or channel mention token, or a custom-emoji token (including the
//! short and animated variants). The filter is a pure predicate: it never
//! touches membership or cache state.
//!
//! Token classes are matched over characters. Word characters are Unicode
//! alphanumerics or underscore, and the whitespace that ends a URL is
//! Unicode whitespace; both classes come from the standard library's
//! character tables through trusted wrappers.
use vstd::prelude::*;
use crate::text::{is_digit, unicode_white};

verus! {

/// Alphanumeric, per the Unicode tables the standard library's character
/// tests carry.
pub uninterp spec fn unicode_alnum(c: char) -> bool;

/// Relies on char::is_alphanumeric: true exactly for Unicode alphabetic and
/// numeric characters, a function of the character alone. Among ASCII these
/// are the letters and digits.
#[verifier::external_body]
fn char_is_alphanumeric(c: char) -> (r: bool)
    ensures
        r == unicode_alnum(c),
        (c as u32) < 128 ==> r == (('a' <= c && c <= 'z') || ('A' <= c && c <= 'Z') || ('0' <= c
            && c <= '9')),
{
    c.is_alphanumeric()
}

/// A word character of an emoji or mention name: a Unicode alphanumeric or
/// an underscore.
pub open spec fn is_word_char(c: char) -> bool {
    unicode_alnum(c) || c == '_'
}

/// Characters that may follow `://` inside a bare URL: anything but a quote,
/// a parenthesis or whitespace.
pub open spec fn is_url_tail_char(c: char) -> bool {
    !(c == '"' || c == '\'' || unicode_white(c) || c == '(' || c == ')')
}

pub open spec fn is_lower_alpha(c: char) -> bool {
    'a' <= c && c <= 'z'
}

/// `a` equals `b` up to ASCII case, where `b` is written in lower case.
pub open spec fn ci_eq(a: char, b: char) -> bool {
    a == b || (is_lower_alpha(b) && a as int + 32 == b as int)
}

/// The word `w` (written in lower case) occurs at position `i` of `s`,
/// compared case-insensitively.
pub open spec fn matches_ci_at(s: Seq<char>, i: int, w: Seq<char>) -> bool {
    &&& 0 <= i < s.len()
    &&& i + w.len() <= s.len()
    &&& forall|k: int| 0 <= k < w.len() ==> ci_eq(s[i + k], #[trigger] w[k])
}

/// `://` followed by at least one URL character, starting at position `j`.
pub open spec fn url_sep_at(s: Seq<char>, j: int) -> bool {
    &&& 0 <= j
    &&& j + 4 <= s.len()
    &&& s[j] == ':'
    &&& s[j + 1] == '/'
    &&& s[j + 2] == '/'
    &&& is_url_tail_char(s[j + 3])
}

/// A bare URL with one of the spoken-content-unsafe schemes starts at `i`.
pub open spec fn url_at(s: Seq<char>, i: int) -> bool {
    ||| matches_ci_at(s, i, "http"@) && url_sep_at(s, i + 4)
    ||| matches_ci_at(s, i, "https"@) && url_sep_at(s, i + 5)
    ||| matches_ci_at(s, i, "ftp"@) && url_sep_at(s, i + 3)
    ||| matches_ci_at(s, i, "telnet"@) && url_sep_at(s, i + 6)
    ||| matches_ci_at(s, i, "news"@) && url_sep_at(s, i + 4)
    ||| matches_ci_at(s, i, "mms"@) && url_sep_at(s, i + 3)
}

pub open spec fn contains_url(s: Seq<char>) -> bool {
    exists|i: int| #[trigger] url_at(s, i)
}

/// Three backticks at position `i`.
pub open spec fn ticks_at(s: Seq<char>, i: int) -> bool {
    0 <= i && i + 3 <= s.len() && s[i] == '`' && s[i + 1] == '`' && s[i + 2] == '`'
}

/// A fenced code block: two backtick fences with at least one character
/// between them.
pub open spec fn contains_code_block(s: Seq<char>) -> bool {
    exists|i: int, j: int| #[trigger] ticks_at(s, i) && #[trigger] ticks_at(s, j) && i + 4 <= j
}

/// A non-empty run of digits starting at `j` followed directly by `>`.
pub open spec fn digit_run_to_gt(s: Seq<char>, j: int) -> bool {
    exists|e: int|
        j < e < s.len() && #[trigger] s[e] == '>' && (forall|t: int|
            j <= t < e ==> is_digit(#[trigger] s[t]))
}

/// A non-empty run of word characters starting at `j`, followed by `:` and
/// then a digit run closed by `>`.
pub open spec fn word_then_digits(s: Seq<char>, j: int) -> bool {
    exists|m: int|
        j < m < s.len() && #[trigger] s[m] == ':' && (forall|t: int|
            j <= t < m ==> is_word_char(#[trigger] s[t])) && digit_run_to_gt(s, m + 1)
}

/// A user mention token `<@123…>` starts at `i`.
pub open spec fn user_mention_at(s: Seq<char>, i: int) -> bool {
    0 <= i && i + 1 < s.len() && s[i] == '<' && s[i + 1] == '@' && digit_run_to_gt(s, i + 2)
}

pub open spec fn contains_user_mention(s: Seq<char>) -> bool {
    exists|i: int| #[trigger] user_mention_at(s, i)
}

/// A channel mention token `<#123…>` starts at `i`.
pub open spec fn channel_mention_at(s: Seq<char>, i: int) -> bool {
    0 <= i && i + 1 < s.len() && s[i] == '<' && s[i + 1] == '#' && digit_run_to_gt(s, i + 2)
}

pub open spec fn contains_channel_mention(s: Seq<char>) -> bool {
    exists|i: int| #[trigger] channel_mention_at(s, i)
}

/// A named custom-emoji token `<:name:123>` — or its animated variant with a
/// single word character before the first colon, `<a:name:123>` — starts at
/// `i`.
pub open spec fn custom_emoji_at(s: Seq<char>, i: int) -> bool {
    0 <= i && i < s.len() && s[i] == '<' && ({
        ||| i + 1 < s.len() && s[i + 1] == ':' && word_then_digits(s, i + 2)
        ||| i + 2 < s.len() && is_word_char(s[i + 1]) && s[i + 2] == ':' && word_then_digits(
            s,
            i + 3,
        )
    })
}

pub open spec fn contains_custom_emoji(s: Seq<char>) -> bool {
    exists|i: int| #[trigger] custom_emoji_at(s, i)
}

/// A nameless emoji reference `<:123>` — or `<a:123>` with a single word
/// character before the colon — starts at `i`.
pub open spec fn short_emoji_at(s: Seq<char>, i: int) -> bool {
    0 <= i && i < s.len() && s[i] == '<' && ({
        ||| i + 1 < s.len() && s[i + 1] == ':' && digit_run_to_gt(s, i + 2)
        ||| i + 2 < s.len() && is_word_char(s[i + 1]) && s[i + 2] == ':' && digit_run_to_gt(
            s,
            i + 3,
        )
    })
}

pub open spec fn contains_short_emoji(s: Seq<char>) -> bool {
    exists|i: int| #[trigger] short_emoji_at(s, i)
}

/// The text is eligible for synthesis: free of bare URLs, fenced code
/// blocks, mention tokens and emoji tokens.
pub open spec fn spec_eligible(s: Seq<char>) -> bool {
    &&& !contains_url(s)
    &&& !contains_code_block(s)
    &&& !contains_user_mention(s)
    &&& !contains_channel_mention(s)
    &&& !contains_custom_emoji(s)
    &&& !contains_short_emoji(s)
}

fn is_digit_exec(c: char) -> (r: bool)
    ensures
        r == is_digit(c),
{
    '0' <= c && c <= '9'
}

fn is_word_char_exec(c: char) -> (r: bool)
    ensures
        r == is_word_char(c),
        r ==> c != ':',
{
    char_is_alphanumeric(c) || c == '_'
}

fn is_url_tail_char_exec(c: char) -> (r: bool)
    ensures
        r == is_url_tail_char(c),
{
    !(c == '"' || c == '\'' || crate::text::char_is_whitespace(c) || c == '(' || c == ')')
}

fn eq_ci(a: char, lo: char) -> (r: bool)
    ensures
        r == ci_eq(a, lo),
{
    a == lo || ('a' <= lo && lo <= 'z' && (a as u32) + 32 == (lo as u32))
}

/// The lower-case word `w` occurs case-insensitively at position `i` of `s`.
fn scheme_matches(s: &Vec<char>, i: usize, w: &str) -> (r: bool)
    ensures
        r == matches_ci_at(s@, i as int, w@),
{
    let n = s.len();
    let m = w.unicode_len();
    if i >= n || m > n - i {
        return false;
    }
    let mut k: usize = 0;
    while k < m
        invariant
            k <= m,
            i < n,
            i + m <= n,
            n == s@.len(),
            m == w@.len(),
            forall|t: int| 0 <= t < k ==> ci_eq(s@[i + t], #[trigger] w@[t]),
        decreases m - k,
    {
        if !eq_ci(s[i + k], w.get_char(k)) {
            assert(!ci_eq(s@[i as int + k as int], w@[k as int]));
            return false;
        }
        k = k + 1;
    }
    true
}

/// Whether `://` plus one URL character starts at `j`.
fn url_sep_matches(s: &Vec<char>, j: usize) -> (r: bool)
    ensures
        r == url_sep_at(s@, j as int),
{
    let n = s.len();
    if j >= n || n - j < 4 {
        return false;
    }
    s[j] == ':' && s[j + 1] == '/' && s[j + 2] == '/' && is_url_tail_char_exec(s[j + 3])
}

fn check_url_at(s: &Vec<char>, i: usize) -> (r: bool)
    ensures
        r == url_at(s@, i as int),
{
    proof {
        reveal_strlit("http");
        reveal_strlit("https");
        reveal_strlit("ftp");
        reveal_strlit("telnet");
        reveal_strlit("news");
        reveal_strlit("mms");
    }
    let n = s.len();
    if i >= n {
        return false;
    }
    (scheme_matches(s, i, "http") && url_sep_matches(s, i + 4)) || (scheme_matches(s, i, "https")
        && url_sep_matches(s, i + 5)) || (scheme_matches(s, i, "ftp") && url_sep_matches(s, i + 3))
        || (scheme_matches(s, i, "telnet") && url_sep_matches(s, i + 6)) || (scheme_matches(
        s,
        i,
        "news",
    ) && url_sep_matches(s, i + 4)) || (scheme_matches(s, i, "mms") && url_sep_matches(s, i + 3))
}

/// Whether the text contains a bare URL.
pub fn find_url(s: &Vec<char>) -> (r: bool)
    ensures
        r == contains_url(s@),
{
    let n = s.len();
    let mut i: usize = 0;
    while i < n
        invariant
            i <= n,
            n == s@.len(),
            forall|k: int| 0 <= k < i ==> !(#[trigger] url_at(s@, k)),
        decreases n - i,
    {
        if check_url_at(s, i) {
            return true;
        }
        i = i + 1;
    }
    assert forall|k: int| !(#[trigger] url_at(s@, k)) by {
        if 0 <= k < n {
        } else {
            assert(!url_at(s@, k));
        }
    }
    false
}

fn check_ticks_at(s: &Vec<char>, i: usize) -> (r: bool)
    ensures
        r == ticks_at(s@, i as int),
{
    let n = s.len();
    if i >= n || n - i < 3 {
        return false;
    }
    s[i] == '`' && s[i + 1] == '`' && s[i + 2] == '`'
}

/// Whether the text contains a fenced code block.
pub fn find_code_block(s: &Vec<char>) -> (r: bool)
    ensures
        r == contains_code_block(s@),
{
    let n = s.len();
    let mut i: usize = 0;
    while i < n
        invariant
            i <= n,
            n == s@.len(),
            forall|k: int| 0 <= k < i ==> !(#[trigger] ticks_at(s@, k)),
        decreases n - i,
    {
        if check_ticks_at(s, i) {
            // `i` is the first fence; any code block implies a second fence
            // at least four positions further on.
            if n - i < 7 {
                proof {
                    if contains_code_block(s@) {
                        let (a, b) = choose|a: int, b: int|
                            #[trigger] ticks_at(s@, a) && #[trigger] ticks_at(s@, b) && a + 4 <= b;
                        assert(a >= i);
                        assert(b + 3 <= n);
                    }
                }
                return false;
            }
            let mut j: usize = i + 4;
            while j < n
                invariant
                    i + 4 <= j,
                    j <= n || j == i + 4,
                    n == s@.len(),
                    ticks_at(s@, i as int),
                    forall|k: int| 0 <= k < i ==> !(#[trigger] ticks_at(s@, k)),
                    forall|k: int| i + 4 <= k < j ==> !(#[trigger] ticks_at(s@, k)),
                decreases n - j,
            {
                if check_ticks_at(s, j) {
                    return true;
                }
                j = j + 1;
            }
            assert(!contains_code_block(s@)) by {
                if contains_code_block(s@) {
                    let (a, b) = choose|a: int, b: int|
                        #[trigger] ticks_at(s@, a) && #[trigger] ticks_at(s@, b) && a + 4 <= b;
                    assert(a >= i);
                    assert(b >= i + 4);
                    assert(b + 3 <= n);
                    assert(!ticks_at(s@, b));
                }
            }
            return false;
        }
        i = i + 1;
    }
    assert(!contains_code_block(s@)) by {
        if contains_code_block(s@) {
            let (a, b) = choose|a: int, b: int|
                #[trigger] ticks_at(s@, a) && #[trigger] ticks_at(s@, b) && a + 4 <= b;
            assert(a + 3 <= n);
            assert(!ticks_at(s@, a));
        }
    }
    false
}

/// Whether a digit run closed by `>` starts at `j`.
fn scan_digit_gt(s: &Vec<char>, j: usize) -> (r: bool)
    ensures
        r == digit_run_to_gt(s@, j as int),
{
    let n = s.len();
    let mut t: usize = j;
    while t < n && is_digit_exec(s[t])
        invariant
            j <= t,
            t <= n || t == j,
            n == s@.len(),
            forall|k: int| j <= k < t ==> is_digit(#[trigger] s@[k]),
        decreases n - t,
    {
        t = t + 1;
    }
    let r = t > j && t < n && s[t] == '>';
    proof {
        if r {
            assert(digit_run_to_gt(s@, j as int)) by {
                assert(j < (t as int) && (t as int) < s@.len() && s@[t as int] == '>');
            }
        } else {
            if digit_run_to_gt(s@, j as int) {
                let e = choose|e: int|
                    j < e < s@.len() && #[trigger] s@[e] == '>' && (forall|k: int|
                        j <= k < e ==> is_digit(#[trigger] s@[k]));
                if e > t as int {
                    assert(t < n);
                    assert(is_digit(s@[t as int]));
                } else if e < t as int {
                    assert(is_digit(s@[e]));
                } else {
                    assert(r);
                }
            }
        }
    }
    r
}

/// Whether a word run, `:`, digit run and `>` start at `j`.
fn scan_word_then_digits(s: &Vec<char>, j: usize) -> (r: bool)
    ensures
        r == word_then_digits(s@, j as int),
{
    let n = s.len();
    let mut t: usize = j;
    while t < n && is_word_char_exec(s[t])
        invariant
            j <= t,
            t <= n || t == j,
            n == s@.len(),
            forall|k: int| j <= k < t ==> is_word_char(#[trigger] s@[k]) && s@[k] != ':',
        decreases n - t,
    {
        t = t + 1;
    }
    if t > j && t < n && s[t] == ':' {
        let r = scan_digit_gt(s, t + 1);
        proof {
            if r {
                assert(word_then_digits(s@, j as int)) by {
                    assert(j < (t as int) && (t as int) < s@.len() && s@[t as int] == ':');
                }
            } else {
                if word_then_digits(s@, j as int) {
                    let m = choose|m: int|
                        j < m < s@.len() && #[trigger] s@[m] == ':' && (forall|k: int|
                            j <= k < m ==> is_word_char(#[trigger] s@[k])) && digit_run_to_gt(
                            s@,
                            m + 1,
                        );
                    if m > t as int {
                        assert(is_word_char(s@[t as int]));
                    } else if m < t as int {
                        assert(s@[m] != ':');
                    }
                    assert(m == t as int);
                }
            }
        }
        r
    } else {
        proof {
            if word_then_digits(s@, j as int) {
                let m = choose|m: int|
                    j < m < s@.len() && #[trigger] s@[m] == ':' && (forall|k: int|
                        j <= k < m ==> is_word_char(#[trigger] s@[k])) && digit_run_to_gt(
                        s@,
                        m + 1,
                    );
                if m > t as int {
                    assert(t < n);
                    assert(is_word_char(s@[t as int]));
                } else if m < t as int {
                    assert(s@[m] != ':');
                }
            }
        }
        false
    }
}

/// Whether a mention token with marker `mark` (`@` or `#`) starts at `i`.
fn check_mention_at(s: &Vec<char>, i: usize, mark: char) -> (r: bool)
    ensures
        r == (0 <= i && i + 1 < s@.len() && s@[i as int] == '<' && s@[i as int + 1] == mark
            && digit_run_to_gt(s@, i as int + 2)),
{
    let n = s.len();
    if i >= n || n - i < 2 {
        return false;
    }
    s[i] == '<' && s[i + 1] == mark && scan_digit_gt(s, i + 2)
}

/// Whether the text contains a user mention token.
pub fn find_user_mention(s: &Vec<char>) -> (r: bool)
    ensures
        r == contains_user_mention(s@),
{
    let n = s.len();
    let mut i: usize = 0;
    while i < n
        invariant
            i <= n,
            n == s@.len(),
            forall|k: int| 0 <= k < i ==> !(#[trigger] user_mention_at(s@, k)),
        decreases n - i,
    {
        if check_mention_at(s, i, '@') {
            assert(user_mention_at(s@, i as int));
            return true;
        }
        i = i + 1;
    }
    false
}

/// Whether the text contains a channel mention token.
pub fn find_channel_mention(s: &Vec<char>) -> (r: bool)
    ensures
        r == contains_channel_mention(s@),
{
    let n = s.len();
    let mut i: usize = 0;
    while i < n
        invariant
            i <= n,
            n == s@.len(),
            forall|k: int| 0 <= k < i ==> !(#[trigger] channel_mention_at(s@, k)),
        decreases n - i,
    {
        if check_mention_at(s, i, '#') {
            assert(channel_mention_at(s@, i as int));
            return true;
        }
        i = i + 1;
    }
    false
}

fn check_custom_emoji_at(s: &Vec<char>, i: usize) -> (r: bool)
    ensures
        r == custom_emoji_at(s@, i as int),
{
    let n = s.len();
    if i >= n || s[i] != '<' {
        return false;
    }
    let first = if n - i > 1 && s[i + 1] == ':' {
        scan_word_then_digits(s, i + 2)
    } else {
        false
    };
    if first {
        return true;
    }
    n - i > 2 && is_word_char_exec(s[i + 1]) && s[i + 2] == ':' && scan_word_then_digits(s, i + 3)
}

/// Whether the text contains a custom-emoji token.
pub fn find_custom_emoji(s: &Vec<char>) -> (r: bool)
    ensures
        r == contains_custom_emoji(s@),
{
    let n = s.len();
    let mut i: usize = 0;
    while i < n
        invariant
            i <= n,
            n == s@.len(),
            forall|k: int| 0 <= k < i ==> !(#[trigger] custom_emoji_at(s@, k)),
        decreases n - i,
    {
        if check_custom_emoji_at(s, i) {
            return true;
        }
        i = i + 1;
    }
    false
}

fn check_short_emoji_at(s: &Vec<char>, i: usize) -> (r: bool)
    ensures
        r == short_emoji_at(s@, i as int),
{
    let n = s.len();
    if i >= n || s[i] != '<' {
        return false;
    }
    let first = if n - i > 1 && s[i + 1] == ':' {
        scan_digit_gt(s, i + 2)
    } else {
        false
    };
    if first {
        return true;
    }
    n - i > 2 && is_word_char_exec(s[i + 1]) && s[i + 2] == ':' && scan_digit_gt(s, i + 3)
}

/// Whether the text contains a nameless emoji reference.
pub fn find_short_emoji(s: &Vec<char>) -> (r: bool)
    ensures
        r == contains_short_emoji(s@),
{
    let n = s.len();
    let mut i: usize = 0;
    while i < n
        invariant
            i <= n,
            n == s@.len(),
            forall|k: int| 0 <= k < i ==> !(#[trigger] short_emoji_at(s@, k)),
        decreases n - i,
    {
        if check_short_emoji_at(s, i) {
            return true;
        }
        i = i + 1;
    }
    false
}

/// True iff `text` is eligible for synthesis: it contains no bare URL, no
/// fenced code block, no user or channel mention token and no custom-emoji
/// token. A pure function of the text alone.
pub fn is_eligible(text: &str) -> (r: bool)
    ensures
        r == spec_eligible(text@),
{
    let cs = crate::text::chars_vec(text);
    is_eligible_chars(&cs)
}

/// `is_eligible` over an already-decoded character vector.
pub fn is_eligible_chars(cs: &Vec<char>) -> (r: bool)
    ensures
        r == spec_eligible(cs@),
{
    !find_url(cs) && !find_code_block(cs) && !find_user_mention(cs) && !find_channel_mention(cs)
        && !find_custom_emoji(cs) && !find_short_emoji(cs)
}

} // verus!
