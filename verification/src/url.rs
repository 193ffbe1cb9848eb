//! Resolving the URLs that a descriptor gives for a service against the
//! device's base.
//!
//! Parsing and reference resolution are the `url` crate's. What it returns is
//! named by [`parsed_url`] and [`joined_url`]; of a URL it returns, this
//! module relies on one thing more: it is absolute.

use crate::error::UpnpError;
use crate::text::chars_of;
use vstd::prelude::*;
use vstd::string::*;

verus! {

/// `url::Url`, of which nothing is known but what the functions below say.
#[verifier::external_type_specification]
#[verifier::external_body]
pub struct ExUrl(url::Url);

/// `url::ParseError`, which is not looked into.
#[verifier::external_type_specification]
#[verifier::external_body]
pub struct ExUrlError(url::ParseError);

/// The serialization of `url`: the URL as text.
pub uninterp spec fn url_text(url: url::Url) -> Seq<char>;

/// The serialization of the URL that `url::Url::parse` reads from `text`, or
/// `None` where it reports an error.
pub uninterp spec fn parsed_url(text: Seq<char>) -> Option<Seq<char>>;

/// The serialization of the URL that `url::Url::join` resolves `reference`
/// to, against the URL whose serialization is `base`, or `None` where it
/// reports an error.
pub uninterp spec fn joined_url(base: Seq<char>, reference: Seq<char>) -> Option<Seq<char>>;

/// `c` is an ASCII letter.
pub open spec fn is_ascii_letter(c: char) -> bool {
    'a' <= c <= 'z' || 'A' <= c <= 'Z'
}

/// `c` may stand in a URL's scheme after its first letter.
pub open spec fn is_scheme_char(c: char) -> bool {
    is_ascii_letter(c) || '0' <= c <= '9' || c == '+' || c == '-' || c == '.'
}

/// `text` starts with a scheme of `end` characters and a colon.
pub open spec fn scheme_ends_at(text: Seq<char>, end: int) -> bool {
    &&& 0 < end < text.len()
    &&& is_ascii_letter(text[0])
    &&& forall|i: int| 0 < i < end ==> is_scheme_char(#[trigger] text[i])
    &&& text[end] == ':'
}

/// `text` is an absolute URL as far as its start shows: a scheme, then a
/// colon.
pub open spec fn is_absolute(text: Seq<char>) -> bool {
    exists|end: int| scheme_ends_at(text, end)
}

/// `url::Url::parse`: the absolute URL that `text` writes, or the error.
#[verifier::external_body]
fn url_parse(text: &str) -> (url: Result<url::Url, url::ParseError>)
    ensures
        match url {
            Ok(u) => parsed_url(text@) == Some(url_text(u)),
            Err(_) => parsed_url(text@) is None,
        },
{
    url::Url::parse(text)
}

/// `url::Url::join`: `reference` resolved against `base`, or the error. The
/// result depends on `base` through its serialization only.
#[verifier::external_body]
fn url_join(base: &url::Url, reference: &str) -> (url: Result<url::Url, url::ParseError>)
    ensures
        match url {
            Ok(u) => joined_url(url_text(*base), reference@) == Some(url_text(u)),
            Err(_) => joined_url(url_text(*base), reference@) is None,
        },
{
    base.join(reference)
}

/// `url::Url::as_str`: the serialization. Every `Url` is absolute: its
/// serialization starts with its scheme (an ASCII letter, then ASCII
/// letters, digits, `+`, `-` and `.`) and a colon.
#[verifier::external_body]
fn url_as_str(url: &url::Url) -> (text: &str)
    ensures
        text@ == url_text(*url),
        is_absolute(text@),
{
    url.as_str()
}

/// What `reference` resolves to against the base that `base` writes: `None`
/// where `base` writes no absolute URL or `reference` cannot be resolved
/// against it.
pub open spec fn resolved_url(base: Seq<char>, reference: Seq<char>) -> Option<Seq<char>> {
    match parsed_url(base) {
        Some(parsed) => joined_url(parsed, reference),
        None => None,
    }
}

/// Resolves `relative_url` against `base_url` by the standard rules: an
/// absolute reference replaces the base, a relative one is resolved against
/// the base's path. The result is absolute. `InvalidUrl` where either text
/// cannot be read as what it should be.
pub fn build_absolute_url(base_url: &str, relative_url: &str) -> (url: Result<String, UpnpError>)
    ensures
        match url {
            Ok(text) => resolved_url(base_url@, relative_url@) == Some(text@) && is_absolute(
                text@,
            ),
            Err(error) => error == UpnpError::InvalidUrl && resolved_url(
                base_url@,
                relative_url@,
            ) is None,
        },
{
    match url_parse(base_url) {
        Ok(base) => match url_join(&base, relative_url) {
            Ok(joined) => Ok(url_as_str(&joined).to_owned()),
            Err(_) => Err(UpnpError::InvalidUrl),
        },
        Err(_) => Err(UpnpError::InvalidUrl),
    }
}

/// The number of characters of `text` before its `slashes`-th slash, for
/// `slashes` of at least one; the length of `text` where it holds fewer
/// slashes.
pub open spec fn origin_len(text: Seq<char>, slashes: nat) -> nat
    decreases text.len(),
{
    if text.len() == 0 {
        0
    } else if text[0] != '/' {
        1 + origin_len(text.drop_first(), slashes)
    } else if slashes > 1 {
        1 + origin_len(text.drop_first(), (slashes - 1) as nat)
    } else {
        0
    }
}

/// The base of the device at `location`: `location` up to its third slash,
/// which for `http://host:port/path` is scheme and authority; all of
/// `location` where it holds fewer than three slashes.
pub open spec fn base_origin_of(location: Seq<char>) -> Seq<char> {
    location.take(origin_len(location, 3) as int)
}

/// The base of the device at `location`: its first three segments between
/// slashes.
pub fn base_origin(location: &str) -> (origin: String)
    ensures
        origin@ == base_origin_of(location@),
{
    let chars = chars_of(location);
    let mut end: usize = 0;
    let mut slashes: usize = 3;
    assert(location@.skip(0) =~= location@);
    while end < chars.len() && !(chars[end] == '/' && slashes == 1)
        invariant
            end <= chars.len(),
            1 <= slashes <= 3,
            chars@ == location@,
            origin_len(location@, 3) == end + origin_len(
                location@.skip(end as int),
                slashes as nat,
            ),
        decreases chars.len() - end,
    {
        assert(location@.skip(end as int).drop_first() =~= location@.skip(end + 1));
        if chars[end] == '/' {
            slashes -= 1;
        }
        end += 1;
    }
    location.substring_char(0, end).to_owned()
}

} // verus!
