use vstd::prelude::*;
use crate::text::opt_view;

verus! {

/// What url::Url::parse returns for a string: the serialization of the parsed
/// URL when parsing succeeds; it depends on the string alone.
pub uninterp spec fn url_parse_of(s: Seq<char>) -> Option<Seq<char>>;

/// The host of the URL a string parses to, when there is one; it depends on
/// the string alone.
pub uninterp spec fn url_host_of(s: Seq<char>) -> Option<Seq<char>>;

/// The last path segment of the URL a string parses to, when the path has
/// segments; it depends on the string alone.
pub uninterp spec fn url_last_segment_of(s: Seq<char>) -> Option<Seq<char>>;

/// What the pipeline reads of a parsed absolute URL, as plain strings.
#[derive(Debug)]
pub struct UrlParts {
    /// The serialization of the URL.
    pub text: String,
    /// The host, when the URL has one.
    pub host: Option<String>,
    /// The last path segment, when the path has segments.
    pub last_segment: Option<String>,
}

impl UrlParts {
    /// The fields hold what parsing the given string yields.
    pub open spec fn wf_for(self, input: Seq<char>) -> bool {
        url_parse_of(input) == Some(self.text@) && opt_view(self.host) == url_host_of(input)
            && opt_view(self.last_segment) == url_last_segment_of(input)
    }
}

/// Relies on url::Url::parse, and on Url::as_str, Url::host_str and
/// Url::path_segments of the parsed value: the serialization, the host and
/// the last path segment are each a function of the input string alone.
#[verifier::external_body]
pub(crate) fn parse_url(s: &str) -> (r: Option<UrlParts>)
    ensures
        r is Some <==> url_parse_of(s@) is Some,
        r matches Some(p) ==> url_parse_of(s@) == Some(p.text@),
        r matches Some(p) ==> opt_view(p.host) == url_host_of(s@),
        r matches Some(p) ==> opt_view(p.last_segment) == url_last_segment_of(s@),
{
    match url::Url::parse(s) {
        Ok(u) => Some(UrlParts {
            text: u.as_str().to_string(),
            host: u.host_str().map(|h| h.to_string()),
            last_segment: u.path_segments().and_then(|it| it.last()).map(|t| t.to_string()),
        }),
        Err(_) => None,
    }
}

/// The string with the default scheme prepended once.
pub open spec fn https_prefixed(s: Seq<char>) -> Seq<char> {
    "https://"@ + s
}

/// The input that normalization actually parses: the string itself when it is
/// an absolute URL, else the string with the default scheme prepended once.
pub open spec fn norm_input(s: Seq<char>) -> Option<Seq<char>> {
    if url_parse_of(s) is Some {
        Some(s)
    } else if url_parse_of(https_prefixed(s)) is Some {
        Some(https_prefixed(s))
    } else {
        None
    }
}

/// The canonical serialization normalization yields, when it succeeds.
pub open spec fn normalize_spec(s: Seq<char>) -> Option<Seq<char>> {
    match norm_input(s) {
        Some(i) => url_parse_of(i),
        None => None,
    }
}

/// A raw address that neither parses as it stands nor with the default scheme
/// prepended; it names the original input.
#[derive(Debug)]
pub struct UrlError {
    pub input: String,
}

/// Repairs a raw address into an absolute URL: parse it as it stands, and on
/// failure retry once with the default scheme prepended; no further repair is
/// attempted. An input that already parses is returned exactly as the parser
/// serializes it.
pub fn normalize_url(s: &str) -> (r: Result<UrlParts, UrlError>)
    ensures
        r is Ok <==> norm_input(s@) is Some,
        r matches Ok(p) ==> norm_input(s@) matches Some(i) && p.wf_for(i),
        url_parse_of(s@) matches Some(t) ==> r matches Ok(p) && p.text@ == t,
        r matches Err(e) ==> e.input@ == s@,
{
    match parse_url(s) {
        Some(p) => Ok(p),
        None => {
            let mut pre = "https://".to_owned();
            pre.append(s);
            match parse_url(pre.as_str()) {
                Some(p) => Ok(p),
                None => Err(UrlError { input: s.to_owned() }),
            }
        },
    }
}

} // verus!
