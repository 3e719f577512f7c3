//! The resource-fetch policy: `data:` URLs are decoded inline, `file:` URLs
//! are read only when allowed, and every other scheme (the network) is
//! ignored, keeping rendering deterministic and offline.
use vstd::prelude::*;

use crate::text::{chars_eq, chars_of};

verus! {

/// What the provider does with a requested URL.
#[derive(Debug, Clone, Copy, PartialEq, Eq, Structural)]
pub enum FetchAction {
    /// Decode the `data:` URL and deliver its body.
    DecodeData,
    /// Read the file the `file:` URL names and deliver its contents.
    ReadFile,
    /// Deliver nothing.
    Ignore,
}

/// Decides how a URL with the given scheme is fetched.
pub fn fetch_action(scheme: &str, allow_file_urls: bool) -> (a: FetchAction)
    ensures
        scheme@ == "data"@ ==> a == FetchAction::DecodeData,
        scheme@ == "file"@ && allow_file_urls ==> a == FetchAction::ReadFile,
        scheme@ == "file"@ && !allow_file_urls ==> a == FetchAction::Ignore,
        scheme@ != "data"@ && scheme@ != "file"@ ==> a == FetchAction::Ignore,
{
    proof {
        reveal_strlit("data");
        reveal_strlit("file");
        assert("data"@[0] != "file"@[0]);
    }
    let s = chars_of(scheme);
    let data = chars_of("data");
    let file = chars_of("file");
    if chars_eq(&s, &data) {
        FetchAction::DecodeData
    } else if chars_eq(&s, &file) && allow_file_urls {
        FetchAction::ReadFile
    } else {
        FetchAction::Ignore
    }
}

#[verifier::external_type_specification]
#[verifier::external_body]
pub struct ExDataUrl<'a>(data_url::DataUrl<'a>);

#[verifier::external_type_specification]
#[verifier::external_body]
pub struct ExDataUrlError(data_url::DataUrlError);

#[verifier::external_type_specification]
#[verifier::external_body]
pub struct ExInvalidBase64(data_url::forgiving_base64::InvalidBase64);

/// The string with its leading C0 controls and spaces (every char up to
/// `' '`) removed.
pub open spec fn trim_leading_controls(s: Seq<char>) -> Seq<char>
    decreases s.len(),
{
    if s.len() > 0 && s[0] <= ' ' {
        trim_leading_controls(s.drop_first())
    } else {
        s
    }
}

/// An ASCII letter in lower case; any other char unchanged.
pub open spec fn ascii_lower(c: char) -> char {
    if 'A' <= c <= 'Z' {
        ((c as u32) + 32) as char
    } else {
        c
    }
}

/// What follows `pat` at the start of `s`, where the letters of `s` match
/// `pat` in any case and tabs, carriage returns and line feeds in `s` are
/// skipped; `None` when `s` does not start so.
pub open spec fn after_prefix_ignoring_case(s: Seq<char>, pat: Seq<char>) -> Option<Seq<char>>
    decreases s.len(),
{
    if pat.len() == 0 {
        Some(s)
    } else if s.len() == 0 {
        None
    } else if s[0] == '\t' || s[0] == '\n' || s[0] == '\r' {
        after_prefix_ignoring_case(s.drop_first(), pat)
    } else if ascii_lower(s[0]) == pat[0] {
        after_prefix_ignoring_case(s.drop_first(), pat.drop_first())
    } else {
        None
    }
}

/// A `,` comes before any `#`.
pub open spec fn comma_before_fragment(s: Seq<char>) -> bool {
    exists|i: int| 0 <= i < s.len() && s[i] == ',' && forall|j: int| 0 <= j < i ==> #[trigger] s[j] != '#'
}

/// Whether `DataUrl::process` accepts the string as a `data:` URL: after its
/// leading controls and spaces, it starts with `data:` in any case (tabs,
/// carriage returns and line feeds skipped), and in the rest a `,` comes
/// before any `#`.
pub open spec fn data_url_accepted(input: Seq<char>) -> bool {
    match after_prefix_ignoring_case(trim_leading_controls(input), seq!['d', 'a', 't', 'a', ':']) {
        Some(rest) => comma_before_fragment(rest),
        None => false,
    }
}

/// A processed `data:` URL with the string it was processed from.
struct ProcessedDataUrl<'a> {
    url: data_url::DataUrl<'a>,
    source: Ghost<Seq<char>>,
}

/// `data_url::DataUrl::process`: trusted to succeed exactly on the strings
/// that `data_url_accepted` describes (its source: trim, scheme, comma
/// search), keeping the string it read.
#[verifier::external_body]
fn process_data_url<'a>(input: &'a str) -> (res: Result<ProcessedDataUrl<'a>, data_url::DataUrlError>)
    ensures
        res is Ok <==> data_url_accepted(input@),
        res matches Ok(u) ==> u.source@ == input@,
{
    match data_url::DataUrl::process(input) {
        Ok(url) => Ok(ProcessedDataUrl { url, source: Ghost(input@) }),
        Err(e) => Err(e),
    }
}

/// The body that `DataUrl::decode_to_vec` gives for the URL `DataUrl::process`
/// makes of the string: percent-decoded, or forgiving-base64-decoded when the
/// header ends in `;base64`; `None` when that base64 does not decode. A
/// function of the string alone.
pub uninterp spec fn data_url_body(input: Seq<char>) -> Option<Seq<u8>>;

/// `data_url::DataUrl::decode_to_vec`, keeping the body and dropping the
/// fragment identifier: trusted to give `data_url_body` of the string the URL
/// was processed from, and to fail exactly where that is `None`.
#[verifier::external_body]
fn decode_data_url_body(url: &ProcessedDataUrl) -> (res: Result<Vec<u8>, data_url::forgiving_base64::InvalidBase64>)
    ensures
        match res {
            Ok(body) => data_url_body(url.source@) == Some(body@),
            Err(_) => data_url_body(url.source@) is None,
        },
{
    match url.url.decode_to_vec() {
        Ok((body, _fragment)) => Ok(body),
        Err(e) => Err(e),
    }
}

/// The body of a `data:` URL, or `None` when the string is not one or its
/// base64 body does not decode.
pub fn decode_data_url(url: &str) -> (res: Option<Vec<u8>>)
    ensures
        match res {
            Some(body) => data_url_accepted(url@) && data_url_body(url@) == Some(body@),
            None => !data_url_accepted(url@) || data_url_body(url@) is None,
        },
{
    match process_data_url(url) {
        Ok(parsed) => match decode_data_url_body(&parsed) {
            Ok(body) => Some(body),
            Err(_) => None,
        },
        Err(_) => None,
    }
}

} // verus!
