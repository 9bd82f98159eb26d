//! The outside engines that the router leans on: the `regex` crate, which
//! evaluates compiled route patterns, and the `percent-encoding` crate, which
//! decodes request paths.
//!
//! Every exec item in this module is a statement about code outside this
//! crate that is taken on trust: the rest of the crate is proved from these
//! statements, and they themselves from nothing.

use regex::Regex;
use regex::RegexSet;
use vstd::prelude::*;
use vstd::string::StringSliceAdditionalSpecFns;
use vstd::utf8::decode_utf8;
use vstd::utf8::valid_utf8;

verus! {

/// `regex::Regex`: one compiled expression. Nothing inside it is visible
/// here; [`regex_pattern`] names the text it was built from.
#[verifier::external_type_specification]
#[verifier::external_body]
pub struct ExRegex(regex::Regex);

/// `regex::RegexSet`: a list of expressions compiled into one. Nothing
/// inside it is visible here; [`regex_set_patterns`] names the texts it was
/// built from.
#[verifier::external_type_specification]
#[verifier::external_body]
pub struct ExRegexSet(regex::RegexSet);

/// `regex::Error`: why the engine refused an expression. It is carried,
/// never looked into.
#[verifier::external_type_specification]
#[verifier::external_body]
pub struct ExRegexError(regex::Error);

/// `core::str::Utf8Error`: why bytes could not be read as text. It is
/// carried, never looked into.
#[verifier::external_type_specification]
#[verifier::external_body]
pub struct ExUtf8Error(core::str::Utf8Error);

/// The pattern text that a compiled expression was built from
/// (what `Regex::as_str` hands back).
pub uninterp spec fn regex_pattern(re: Regex) -> Seq<char>;

/// The pattern texts that an expression set was built from, in the order
/// given to its constructor (what `RegexSet::patterns` hands back).
pub uninterp spec fn regex_set_patterns(set: RegexSet) -> Seq<Seq<char>>;

/// Whether `Regex::new` accepts `pattern`.
pub uninterp spec fn regex_accepts(pattern: Seq<char>) -> bool;

/// Whether `RegexSet::new` accepts the list `patterns`.
pub uninterp spec fn regex_set_accepts(patterns: Seq<Seq<char>>) -> bool;

/// Whether the expression written as `pattern` has a match in `text`.
pub uninterp spec fn regex_is_match(pattern: Seq<char>, text: Seq<char>) -> bool;

/// The capture groups of the first match of `pattern` in `text`: group 0 is
/// the whole match, group `i` the text of the `i`-th parenthesis, `None` for a
/// group that took no part in the match. `None` when there is no match.
pub uninterp spec fn regex_groups(pattern: Seq<char>, text: Seq<char>) -> Option<
    Seq<Option<Seq<char>>>,
>;

/// The texts held by a list of strings.
pub open spec fn texts(items: Seq<String>) -> Seq<Seq<char>> {
    items.map_values(|s: String| s@)
}

/// The texts held by a list of optional strings.
pub open spec fn optional_texts(items: Seq<Option<String>>) -> Seq<Option<Seq<char>>> {
    items.map_values(
        |g: Option<String>|
            match g {
                Some(s) => Some(s@),
                None => None,
            },
    )
}

/// Whether `c` is one of the characters the engine gives a meaning of its
/// own, so that it must be escaped to stand for itself.
pub open spec fn is_meta_character(c: char) -> bool {
    c == '\\' || c == '.' || c == '+' || c == '*' || c == '?' || c == '(' || c == ')' || c == '|'
        || c == '[' || c == ']' || c == '{' || c == '}' || c == '^' || c == '$' || c == '#' || c
        == '&' || c == '-' || c == '~'
}

/// `text` with a backslash put before each meta character.
pub open spec fn escaped(text: Seq<char>) -> Seq<char>
    decreases text.len(),
{
    if text.len() == 0 {
        Seq::empty()
    } else if is_meta_character(text.last()) {
        escaped(text.drop_last()).push('\\').push(text.last())
    } else {
        escaped(text.drop_last()).push(text.last())
    }
}

/// The value of an ASCII hexadecimal digit, in either case.
pub open spec fn hex_value(b: u8) -> Option<u8> {
    if 0x30 <= b <= 0x39 {
        Some((b - 0x30) as u8)
    } else if 0x41 <= b <= 0x46 {
        Some((b - 0x41 + 10) as u8)
    } else if 0x61 <= b <= 0x66 {
        Some((b - 0x61 + 10) as u8)
    } else {
        None
    }
}

/// `bytes` with every `%` that two hexadecimal digits follow replaced, with
/// those digits, by the byte they spell. Every other byte stands for itself.
pub open spec fn percent_decoded_bytes(bytes: Seq<u8>) -> Seq<u8>
    decreases bytes.len(),
{
    if bytes.len() == 0 {
        Seq::empty()
    } else if bytes[0] == 0x25 && bytes.len() >= 3 && hex_value(bytes[1]) is Some && hex_value(
        bytes[2],
    ) is Some {
        seq![(hex_value(bytes[1])->0 * 16 + hex_value(bytes[2])->0) as u8] + percent_decoded_bytes(
            bytes.skip(3),
        )
    } else {
        seq![bytes[0]] + percent_decoded_bytes(bytes.skip(1))
    }
}

/// `regex::escape`: the crate walks the characters of `text` and writes a
/// backslash before each of its meta characters, nothing else.
#[verifier::external_body]
pub(crate) fn regex_escape(text: &str) -> (out: String)
    ensures
        out@ == escaped(text@),
{
    regex::escape(text)
}

/// `Regex::new`: compilation succeeds exactly on the patterns the engine
/// accepts, and the compiled expression keeps the text it was built from.
#[verifier::external_body]
pub(crate) fn regex_new(pattern: &str) -> (r: Result<Regex, regex::Error>)
    ensures
        r is Ok <==> regex_accepts(pattern@),
        r matches Ok(re) ==> regex_pattern(re) == pattern@,
{
    Regex::new(pattern)
}

/// `Regex::is_match`: true exactly when the expression has a match in `text`.
#[verifier::external_body]
pub(crate) fn regex_test(re: &Regex, text: &str) -> (hit: bool)
    ensures
        hit == regex_is_match(regex_pattern(*re), text@),
{
    re.is_match(text)
}

/// `Regex::captures`: the groups of the first match, group 0 first, or `None`
/// when the expression has no match in `text`.
#[verifier::external_body]
pub(crate) fn regex_captures(re: &Regex, text: &str) -> (r: Option<Vec<Option<String>>>)
    ensures
        r is Some <==> regex_is_match(regex_pattern(*re), text@),
        r is Some <==> regex_groups(regex_pattern(*re), text@) is Some,
        r matches Some(groups) ==> optional_texts(groups@) == regex_groups(
            regex_pattern(*re),
            text@,
        )->0,
{
    let caps = re.captures(text)?;
    let mut groups = Vec::new();
    for group in caps.iter() {
        groups.push(
            match group {
                Some(m) => Some(m.as_str().to_owned()),
                None => None,
            },
        );
    }
    Some(groups)
}

/// `RegexSet::new`: construction succeeds exactly on the lists the engine
/// accepts, and the set keeps the pattern texts in the order given.
#[verifier::external_body]
pub(crate) fn regex_set_new(patterns: &Vec<String>) -> (r: Result<RegexSet, regex::Error>)
    ensures
        r is Ok <==> regex_set_accepts(texts(patterns@)),
        r matches Ok(set) ==> regex_set_patterns(set) == texts(patterns@),
{
    RegexSet::new(patterns)
}

/// `RegexSet::matches`, walked by its iterator: the positions of the
/// patterns that have a match in `text`, in ascending order. A position is
/// listed exactly when its pattern, taken alone, has a match.
#[verifier::external_body]
pub(crate) fn regex_set_matches(set: &RegexSet, text: &str) -> (hits: Vec<usize>)
    ensures
        forall|a: int, b: int| 0 <= a < b < hits.len() ==> hits[a] < hits[b],
        forall|k: int| 0 <= k < hits.len() ==> (#[trigger] hits[k]) < regex_set_patterns(*set).len(),
        forall|i: int|
            0 <= i < regex_set_patterns(*set).len() ==> (hits@.contains(i as usize)
                <==> regex_is_match(#[trigger] regex_set_patterns(*set)[i], text@)),
{
    set.matches(text).into_iter().collect()
}

/// `percent_encoding::percent_decode_str` followed by `decode_utf8`: each
/// `%` with two hexadecimal digits behind it becomes one byte, and the bytes
/// that come out are read as UTF-8. The call fails exactly when they are not
/// well-formed UTF-8.
#[verifier::external_body]
pub(crate) fn percent_decode(raw: &str) -> (r: Result<String, core::str::Utf8Error>)
    ensures
        r is Ok <==> valid_utf8(percent_decoded_bytes(raw.spec_bytes())),
        r matches Ok(s) ==> s@ == decode_utf8(percent_decoded_bytes(raw.spec_bytes())),
{
    match percent_encoding::percent_decode_str(raw).decode_utf8() {
        Ok(s) => Ok(s.into_owned()),
        Err(e) => Err(e),
    }
}

} // verus!
