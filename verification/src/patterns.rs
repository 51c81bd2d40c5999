//! Regular expressions, and the secrets that they find.
use crate::text::{ascii_lower, contains, has_text, lower_ascii};
use vstd::prelude::*;

verus! {

#[verifier::external_type_specification]
#[verifier::external_body]
pub struct ExRegex(regex::Regex);

/// What `regex::Regex::as_str` gives: the pattern that a regular expression was made of.
pub uninterp spec fn regex_pattern(re: regex::Regex) -> Seq<char>;

/// The text of the error that `regex::Regex::new` gives for a pattern; nothing where it gives none.
pub uninterp spec fn regex_error(pattern: Seq<char>) -> Option<Seq<char>>;

/// Whether `regex::Regex::is_match` finds a match of a pattern in a text.
pub uninterp spec fn regex_matches(pattern: Seq<char>, text: Seq<char>) -> bool;

/// `regex::Regex::new`: makes a regular expression of a pattern, or gives the text of its error.
#[verifier::external_body]
pub(crate) fn make_regex(pattern: &str) -> (r: Result<regex::Regex, String>)
    ensures
        match r {
            Ok(re) => regex_error(pattern@) is None && regex_pattern(re) == pattern@,
            Err(message) => regex_error(pattern@) == Some(message@),
        },
{
    regex::Regex::new(pattern).map_err(|error| error.to_string())
}

/// `regex::Regex::is_match`: whether a regular expression matches somewhere in a text.
#[verifier::external_body]
pub(crate) fn is_match(re: &regex::Regex, text: &str) -> (r: bool)
    ensures
        r == regex_matches(regex_pattern(*re), text@),
{
    re.is_match(text)
}

/// Whether a pattern is a regular expression and matches somewhere in a text.
pub open spec fn pattern_found(pattern: Seq<char>, text: Seq<char>) -> bool {
    regex_error(pattern) is None && regex_matches(pattern, text)
}

fn find_pattern(pattern: &str, text: &str) -> (r: bool)
    ensures
        r == pattern_found(pattern@, text@),
{
    match make_regex(pattern) {
        Ok(re) => is_match(&re, text),
        Err(_) => false,
    }
}

/// The pattern of a private key.
pub open spec fn private_key_pattern() -> Seq<char> {
    "(?i)-----begin (rsa |ec |openssh )?private key-----"@
}

/// The pattern of the tokens of some services.
pub open spec fn api_token_pattern() -> Seq<char> {
    "(?i)(sk-[a-z0-9_-]{20,}|gh[opusr]_[a-z0-9]{20,}|workos_[a-z0-9_-]{20,})"@
}

/// The kind of secret in a text, given whether it holds a private key and a token.
pub open spec fn secret_kind(private_key: bool, api_token: bool, text: Seq<char>) -> Option<
    Seq<char>,
> {
    if private_key {
        Some("private key"@)
    } else if api_token {
        Some("API token"@)
    } else if has_text(ascii_lower(text), "aws_secret_access_key="@) {
        Some("AWS secret"@)
    } else {
        None
    }
}

/// The kind of secret in a text.
pub open spec fn secret_in(text: Seq<char>) -> Option<Seq<char>> {
    secret_kind(
        pattern_found(private_key_pattern(), text),
        pattern_found(api_token_pattern(), text),
        text,
    )
}

/// The kind of secret in a text, given whether it holds a private key and a token.
pub fn name_secret(private_key: bool, api_token: bool, text: &str) -> (r: Option<&'static str>)
    ensures
        r.deep_view() == secret_kind(private_key, api_token, text@),
{
    if private_key {
        Some("private key")
    } else if api_token {
        Some("API token")
    } else if contains(lower_ascii(text).as_str(), "aws_secret_access_key=") {
        Some("AWS secret")
    } else {
        None
    }
}

/// The kind of secret in a text.
pub fn detect_secret(text: &str) -> (r: Option<&'static str>)
    ensures
        r.deep_view() == secret_in(text@),
{
    let private_key = find_pattern("(?i)-----begin (rsa |ec |openssh )?private key-----", text);
    let api_token = find_pattern(
        "(?i)(sk-[a-z0-9_-]{20,}|gh[opusr]_[a-z0-9]{20,}|workos_[a-z0-9_-]{20,})",
        text,
    );
    name_secret(private_key, api_token, text)
}

/// A text is free of secrets exactly where it holds no private key, no token and no name of an AWS
/// secret, whatever the case; and the kind that is named is one that the text holds.
pub proof fn secrets_are_named(text: Seq<char>)
    ensures
        secret_in(text) is None <==> {
            &&& !pattern_found(private_key_pattern(), text)
            &&& !pattern_found(api_token_pattern(), text)
            &&& !has_text(ascii_lower(text), "aws_secret_access_key="@)
        },
        secret_in(text) == Some("private key"@) <==> pattern_found(private_key_pattern(), text),
        secret_in(text) == Some("API token"@) ==> pattern_found(api_token_pattern(), text),
        secret_in(text) == Some("AWS secret"@) ==> has_text(
            ascii_lower(text),
            "aws_secret_access_key="@,
        ),
{
    reveal_strlit("private key");
    reveal_strlit("API token");
    reveal_strlit("AWS secret");
    assert("private key"@.len() == 11 && "API token"@.len() == 9 && "AWS secret"@.len() == 10);
}

} // verus!
