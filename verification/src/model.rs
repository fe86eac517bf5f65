//! The data model: the components of a parsed absolute URL as plain values,
//! the error taxonomy, and the trusted boundary to the outside URL parser.
use vstd::prelude::*;

verus! {

/// Why an input cannot be turned into a SURT.
#[derive(Clone, Copy, Debug, PartialEq, Eq, Structural)]
pub enum SurtError {
    /// The input cannot be parsed as a syntactically valid absolute URL.
    MalformedUrl,
    /// The scheme is neither `http` nor `https`.
    UnsupportedScheme,
    /// The URL has no host component.
    MissingHost,
}

/// The components of a parsed absolute URL, as the parser reports them:
/// the scheme lowercased, the host in its serialized form, the port only
/// when it is not the scheme's default, and path, query and fragment in
/// their percent-encoded serialized forms.
pub struct ParsedUrl {
    pub scheme: String,
    pub host: Option<String>,
    pub port: Option<u16>,
    pub path: String,
    pub query: Option<String>,
    pub fragment: Option<String>,
}

/// The mathematical view of `ParsedUrl`.
pub ghost struct UrlView {
    pub scheme: Seq<char>,
    pub host: Option<Seq<char>>,
    pub port: Option<u16>,
    pub path: Seq<char>,
    pub query: Option<Seq<char>>,
    pub fragment: Option<Seq<char>>,
}

pub open spec fn opt_view(o: Option<String>) -> Option<Seq<char>> {
    match o {
        Some(s) => Some(s@),
        None => None,
    }
}

impl View for ParsedUrl {
    type V = UrlView;

    open spec fn view(&self) -> UrlView {
        UrlView {
            scheme: self.scheme@,
            host: opt_view(self.host),
            port: self.port,
            path: self.path@,
            query: opt_view(self.query),
            fragment: opt_view(self.fragment),
        }
    }
}

/// What the outside URL parser makes of a string: its component view on
/// success, nothing when the string is not an absolute URL. The outcome
/// depends on the input characters alone.
pub uninterp spec fn parse_of(s: Seq<char>) -> Option<UrlView>;

/// Relies on `url::Url::parse` and the accessors `scheme`, `host_str`,
/// `port`, `path`, `query` and `fragment` of `url::Url`: parsing either
/// yields a URL whose components those accessors report, or fails; the
/// outcome is a function of the input string alone.
#[verifier::external_body]
pub(crate) fn parse_url(s: &str) -> (r: Option<ParsedUrl>)
    ensures
        r matches Some(p) ==> parse_of(s@) == Some(p@),
        r is None ==> parse_of(s@) is None,
{
    match url::Url::parse(s) {
        Ok(u) => Some(ParsedUrl {
            scheme: u.scheme().to_string(),
            host: u.host_str().map(|h| h.to_string()),
            port: u.port(),
            path: u.path().to_string(),
            query: u.query().map(|q| q.to_string()),
            fragment: u.fragment().map(|f| f.to_string()),
        }),
        Err(_) => None,
    }
}

} // verus!
