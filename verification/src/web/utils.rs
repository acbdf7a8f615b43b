//! YouTube video URLs.
use crate::error::{Error, Result};
use crate::text::{contains, find, to_chars};
use vstd::prelude::*;

verus! {

/// A URL as the `url` crate parses it, held as plain values: its serialization, its host and
/// its percent-decoded query pairs.
#[derive(Debug, Clone, PartialEq, Eq)]
pub struct ParsedUrl {
    pub serialization: String,
    pub host: Option<String>,
    pub query_pairs: Vec<(String, String)>,
}

impl View for ParsedUrl {
    type V = (Seq<char>, Option<Seq<char>>, Seq<(Seq<char>, Seq<char>)>);

    open spec fn view(&self) -> Self::V {
        (self.serialization@, self.host.deep_view(), self.query_pairs.deep_view())
    }
}

/// The serialization, host and decoded query pairs of `input` as parsed by `url::Url::parse`,
/// or `None` where it rejects `input`.
pub uninterp spec fn url_parse(input: Seq<char>) -> Option<
    (Seq<char>, Option<Seq<char>>, Seq<(Seq<char>, Seq<char>)>),
>;

/// Trusted: `url::Url::parse` on `input`, read back through `Url::as_str`, `Url::host_str`
/// and `Url::query_pairs`; the result is the name `url_parse` of `input`. Nothing more is
/// claimed of the parsing.
#[verifier::external_body]
fn parse_url(input: &str) -> (r: Option<ParsedUrl>)
    ensures
        r.deep_view() == url_parse(input@),
{
    match url::Url::parse(input) {
        Ok(u) => Some(ParsedUrl {
            serialization: u.as_str().to_string(),
            host: u.host_str().map(|h| h.to_string()),
            query_pairs: u.query_pairs().map(|(k, v)| (k.into_owned(), v.into_owned())).collect(),
        }),
        Err(_) => None,
    }
}

/// The serialization of `input` as `url::Url::parse` normalizes it, or `None` where `input` is
/// no URL.
pub fn normalize_url(input: &str) -> (r: Option<String>)
    ensures
        url_parse(input@) matches Some(parts) ==> (r matches Some(s) && s@ == parts.0),
        url_parse(input@) is None ==> r is None,
{
    match parse_url(input) {
        Some(parsed) => Some(parsed.serialization),
        None => None,
    }
}

impl DeepView for ParsedUrl {
    type V = (Seq<char>, Option<Seq<char>>, Seq<(Seq<char>, Seq<char>)>);

    open spec fn deep_view(&self) -> Self::V {
        self@
    }
}

/// Why a URL was refused.
#[derive(Debug, Clone)]
pub enum UrlError {
    /// The text is not a URL.
    Invalid(String),
    /// The URL is not one of YouTube.
    Unsupported(String),
}

impl UrlError {
    /// The text of the error message: a description followed by the refused URL.
    pub open spec fn spec_message(&self) -> Seq<char> {
        match self {
            UrlError::Invalid(s) => invalid_url_prefix() + s@,
            UrlError::Unsupported(s) => unsupported_url_prefix() + s@,
        }
    }

    /// The error message: `Invalid URL: <text>` or `Unsupported URL: <url>`.
    pub fn message(&self) -> (m: String)
        ensures
            m@ == self.spec_message(),
    {
        match self {
            UrlError::Invalid(s) => {
                let mut m = invalid_url_prefix_string();
                m.append(s.as_str());
                m
            },
            UrlError::Unsupported(s) => {
                let mut m = unsupported_url_prefix_string();
                m.append(s.as_str());
                m
            },
        }
    }
}

/// `Invalid URL: `
pub open spec fn invalid_url_prefix() -> Seq<char> {
    seq!['I', 'n', 'v', 'a', 'l', 'i', 'd', ' ', 'U', 'R', 'L', ':', ' ']
}

/// `Unsupported URL: `
pub open spec fn unsupported_url_prefix() -> Seq<char> {
    seq!['U', 'n', 's', 'u', 'p', 'p', 'o', 'r', 't', 'e', 'd', ' ', 'U', 'R', 'L', ':', ' ']
}

fn invalid_url_prefix_string() -> (s: String)
    ensures
        s@ == invalid_url_prefix(),
{
    let s = String::from_str("Invalid URL: ");
    proof {
        reveal_strlit("Invalid URL: ");
    }
    assert(s@ =~= invalid_url_prefix());
    s
}

fn unsupported_url_prefix_string() -> (s: String)
    ensures
        s@ == unsupported_url_prefix(),
{
    let s = String::from_str("Unsupported URL: ");
    proof {
        reveal_strlit("Unsupported URL: ");
    }
    assert(s@ =~= unsupported_url_prefix());
    s
}

/// `youtube`
pub open spec fn youtube() -> Seq<char> {
    seq!['y', 'o', 'u', 't', 'u', 'b', 'e']
}

/// Whether a URL is one of YouTube: it has a host, and the host contains `youtube`.
pub open spec fn is_youtube(url: (Seq<char>, Option<Seq<char>>, Seq<(Seq<char>, Seq<char>)>)) -> bool {
    url.1 matches Some(host) && contains(host, youtube())
}

/// The value of the first query pair whose key is `key`.
pub open spec fn first_value(pairs: Seq<(Seq<char>, Seq<char>)>, key: Seq<char>) -> Option<Seq<char>>
    decreases pairs.len(),
{
    if pairs.len() == 0 {
        None
    } else if pairs[0].0 == key {
        Some(pairs[0].1)
    } else {
        first_value(pairs.drop_first(), key)
    }
}

/// A URL of a YouTube video.
#[derive(Debug, Clone, PartialEq, Eq)]
pub struct YTUrl {
    url: ParsedUrl,
}

impl View for YTUrl {
    type V = (Seq<char>, Option<Seq<char>>, Seq<(Seq<char>, Seq<char>)>);

    closed spec fn view(&self) -> Self::V {
        self.url@
    }
}

impl YTUrl {
    /// Accepts `url` if its host contains `youtube`.
    pub fn parse_from_url(url: ParsedUrl) -> (r: Result<Self>)
        ensures
            is_youtube(url@) ==> (r matches Ok(y) && y@ == url@),
            !is_youtube(url@) ==> (r matches Err(Error::YtUrl(UrlError::Unsupported(s)))
                && s@ == url@.0),
    {
        let accepted = match &url.host {
            Some(host) => {
                let h = to_chars(host.as_str());
                let y = to_chars("youtube");
                proof {
                    reveal_strlit("youtube");
                    assert(y@ =~= youtube());
                }
                find(h.as_slice(), y.as_slice())
            },
            None => false,
        };
        if accepted {
            Ok(YTUrl { url })
        } else {
            Err(Error::YtUrl(UrlError::Unsupported(url.serialization)))
        }
    }

    /// Parses `url` and accepts it if it is a URL whose host contains `youtube`.
    pub fn parse_from_str(url: &str) -> (r: Result<Self>)
        ensures
            url_parse(url@) is None ==> (r matches Err(Error::YtUrl(UrlError::Invalid(s))) && s@
                == url@),
            url_parse(url@) matches Some(parts) ==> {
                &&& is_youtube(parts) ==> (r matches Ok(y) && y@ == parts)
                &&& !is_youtube(parts) ==> (r matches Err(Error::YtUrl(UrlError::Unsupported(s)))
                    && s@ == parts.0)
            },
    {
        match parse_url(url) {
            Some(parsed) => Self::parse_from_url(parsed),
            None => Err(Error::YtUrl(UrlError::Invalid(String::from_str(url)))),
        }
    }

    /// The parsed URL.
    pub fn as_url(&self) -> (u: &ParsedUrl)
        ensures
            u@ == self@,
    {
        &self.url
    }

    /// The URL's serialization.
    pub fn as_str(&self) -> (s: &str)
        ensures
            s@ == self@.0,
    {
        self.url.serialization.as_str()
    }

    /// The video id: the value of the first `v` query pair.
    pub fn id(&self) -> (r: Option<&str>)
        ensures
            r.deep_view() == first_value(self@.2, seq!['v']),
    {
        let pairs = &self.url.query_pairs;
        let mut i: usize = 0;
        assert(pairs.deep_view().skip(0) =~= pairs.deep_view());
        while i < pairs.len()
            invariant
                i <= pairs@.len(),
                pairs.deep_view() == self@.2,
                first_value(pairs.deep_view().skip(i as int), seq!['v']) == first_value(
                    self@.2,
                    seq!['v'],
                ),
            decreases pairs@.len() - i,
        {
            let ghost rest = pairs.deep_view().skip(i as int);
            assert(rest.drop_first() =~= pairs.deep_view().skip(i + 1));
            let key = &pairs[i].0;
            if key.as_str().unicode_len() == 1 && key.as_str().get_char(0) == 'v' {
                proof {
                    assert(key@.len() == 1);
                    assert(key@ =~= seq!['v']);
                }
                return Some(pairs[i].1.as_str());
            } else {
                proof {
                    if key@ =~= seq!['v'] {
                        assert(key@.len() == 1);
                    }
                }
            }
            i = i + 1;
        }
        None
    }

    /// The video id as an owned string.
    pub fn id_string(&self) -> (r: Option<String>)
        ensures
            r.deep_view() == first_value(self@.2, seq!['v']),
    {
        match self.id() {
            Some(id) => Some(String::from_str(id)),
            None => None,
        }
    }
}

} // verus!
