//! The character classes `\d` and `\w` of the `regex` crate, in which the
//! planning-file formats are written. ASCII characters are classified here;
//! the `regex` crate is asked about the others.
use vstd::prelude::*;

verus! {

/// Whether `\d` of the `regex` crate (Unicode `Nd`) matches a non-ASCII char.
pub uninterp spec fn regex_digit_beyond_ascii(c: char) -> bool;

/// Whether `\w` of the `regex` crate (Unicode word characters) matches a
/// non-ASCII char.
pub uninterp spec fn regex_word_beyond_ascii(c: char) -> bool;

/// `\d`: Unicode `Nd`; its ASCII members are `0`-`9`.
pub open spec fn digit_class(c: char) -> bool {
    if (c as u32) < 128 {
        '0' <= c <= '9'
    } else {
        regex_digit_beyond_ascii(c)
    }
}

/// `\w`: Unicode word characters; the ASCII ones are `0`-`9`, `A`-`Z`,
/// `a`-`z` and `_`.
pub open spec fn word_class(c: char) -> bool {
    if (c as u32) < 128 {
        '0' <= c <= '9' || 'A' <= c <= 'Z' || 'a' <= c <= 'z' || c == '_'
    } else {
        regex_word_beyond_ascii(c)
    }
}

/// Asks the `regex` crate whether `\d` matches the (non-ASCII) char `c`;
/// the contract names the answer.
#[verifier::external_body]
fn regex_matches_digit(c: char) -> (r: bool)
    requires
        (c as u32) >= 128,
    ensures
        r == regex_digit_beyond_ascii(c),
{
    let mut buf = [0u8; 4];
    regex::Regex::new(r"^\d$").unwrap().is_match(c.encode_utf8(&mut buf))
}

/// Asks the `regex` crate whether `\w` matches the (non-ASCII) char `c`;
/// the contract names the answer.
#[verifier::external_body]
fn regex_matches_word(c: char) -> (r: bool)
    requires
        (c as u32) >= 128,
    ensures
        r == regex_word_beyond_ascii(c),
{
    let mut buf = [0u8; 4];
    regex::Regex::new(r"^\w$").unwrap().is_match(c.encode_utf8(&mut buf))
}

/// Whether `\d` matches `c`.
pub fn is_digit_class(c: char) -> (r: bool)
    ensures
        r == digit_class(c),
{
    if (c as u32) < 128 {
        '0' <= c && c <= '9'
    } else {
        regex_matches_digit(c)
    }
}

/// Whether `\w` matches `c`.
pub fn is_word_class(c: char) -> (r: bool)
    ensures
        r == word_class(c),
{
    if (c as u32) < 128 {
        ('0' <= c && c <= '9') || ('A' <= c && c <= 'Z') || ('a' <= c && c <= 'z') || c == '_'
    } else {
        regex_matches_word(c)
    }
}

/// First index at or after `i` that `\d` does not match (or the length).
pub open spec fn digit_run(s: Seq<char>, i: int) -> int
    decreases s.len() - i,
{
    if 0 <= i < s.len() && digit_class(s[i]) {
        digit_run(s, i + 1)
    } else {
        i
    }
}

pub proof fn lemma_digit_run(s: Seq<char>, i: int)
    requires
        0 <= i <= s.len(),
    ensures
        i <= digit_run(s, i) <= s.len(),
        forall|k: int| i <= k < digit_run(s, i) ==> digit_class(#[trigger] s[k]),
    decreases s.len() - i,
{
    if i < s.len() && digit_class(s[i]) {
        lemma_digit_run(s, i + 1);
    }
}

/// Index of the first char at or after `i` that `\d` does not match.
pub fn digit_run_exec(s: &[char], i: usize) -> (r: usize)
    requires
        i <= s@.len(),
    ensures
        r as int == digit_run(s@, i as int),
{
    let mut k = i;
    while k < s.len() && is_digit_class(s[k])
        invariant
            i <= k <= s@.len(),
            digit_run(s@, k as int) == digit_run(s@, i as int),
        decreases s@.len() - k,
    {
        k = k + 1;
    }
    k
}

} // verus!
