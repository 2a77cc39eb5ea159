//! The URL model: an absolute URL in canonical form, the parse and resolve
//! primitives of the url crate behind trusted wrappers, and the host-scoping
//! test.

use vstd::prelude::*;

verus! {

/// An absolute URL in canonical form. `text` is the serialized URL with the
/// fragment removed (the form equality and set membership go by), `host` is
/// its host component, lowercased by the url crate while parsing. Every URL
/// the crawler stores has a host; links without one (`mailto:`, `data:`) are
/// dropped at resolution time.
pub struct CrawlUrl {
    pub text: String,
    pub host: String,
}

impl View for CrawlUrl {
    type V = (Seq<char>, Seq<char>);

    open spec fn view(&self) -> (Seq<char>, Seq<char>) {
        (self.text@, self.host@)
    }
}

impl Clone for CrawlUrl {
    fn clone(&self) -> (r: Self)
        ensures
            r@ == self@,
    {
        CrawlUrl { text: self.text.clone(), host: self.host.clone() }
    }
}

/// What parsing `s` yields: `Some((text, host))` when `s` is an absolute URL
/// with a host, where `text` is its serialization with the fragment cleared
/// and `host` its host component; `None` when `s` does not parse or has no
/// host.
pub uninterp spec fn parsed_url(s: Seq<char>) -> Option<(Seq<char>, Seq<char>)>;

/// What resolving `href` against the URL serialized as `base` yields, by the
/// standard relative-resolution rules: `Some((text, host))` when resolution
/// succeeds and the result has a host, with `text` the serialization with the
/// fragment cleared; `None` otherwise.
pub uninterp spec fn resolved_url(base: Seq<char>, href: Seq<char>) -> Option<(Seq<char>, Seq<char>)>;

/// Relies on `url::Url::parse`, `Url::set_fragment`, `Url::host_str` and
/// `Url::as_str`: parses an absolute URL, clears its fragment, and reads the
/// canonical text and the host back out. The result depends on `s` alone.
#[verifier::external_body]
fn parse_raw(s: &str) -> (r: Option<CrawlUrl>)
    ensures
        match r {
            Some(u) => parsed_url(s@) == Some(u@),
            None => parsed_url(s@) is None,
        },
{
    let mut parsed = match url::Url::parse(s) {
        Ok(u) => u,
        Err(_) => return None,
    };
    parsed.set_fragment(None);
    let host = match parsed.host_str() {
        Some(h) => h.to_string(),
        None => return None,
    };
    Some(CrawlUrl { text: parsed.as_str().to_string(), host })
}

/// Relies on `url::Url::parse`, `Url::join`, `Url::set_fragment`,
/// `Url::host_str` and `Url::as_str`: resolves `href` against `base`, clears
/// the fragment of the result, and reads the canonical text and the host back
/// out. The result depends on the two strings alone.
#[verifier::external_body]
fn join_raw(base: &str, href: &str) -> (r: Option<CrawlUrl>)
    ensures
        match r {
            Some(u) => resolved_url(base@, href@) == Some(u@),
            None => resolved_url(base@, href@) is None,
        },
{
    let parsed = match url::Url::parse(base) {
        Ok(u) => u,
        Err(_) => return None,
    };
    let mut joined = match parsed.join(href) {
        Ok(u) => u,
        Err(_) => return None,
    };
    joined.set_fragment(None);
    let host = match joined.host_str() {
        Some(h) => h.to_string(),
        None => return None,
    };
    Some(CrawlUrl { text: joined.as_str().to_string(), host })
}

impl CrawlUrl {
    /// Parse a seed URL string into its canonical form; `None` when the
    /// string is no absolute URL or has no host component.
    pub fn parse(s: &str) -> (r: Option<CrawlUrl>)
        ensures
            match r {
                Some(u) => parsed_url(s@) == Some(u@),
                None => parsed_url(s@) is None,
            },
    {
        parse_raw(s)
    }

    /// Resolve an href found on this page to an absolute URL; `None` when the
    /// href resolves to nothing with a host (`mailto:`, malformed strings).
    pub fn resolve(&self, href: &str) -> (r: Option<CrawlUrl>)
        ensures
            match r {
                Some(u) => resolved_url(self@.0, href@) == Some(u@),
                None => resolved_url(self@.0, href@) is None,
            },
    {
        join_raw(self.text.as_str(), href)
    }

    /// Whether this URL and `other` name the same page, by canonical form.
    pub fn same_as(&self, other: &CrawlUrl) -> (r: bool)
        ensures
            r == (self@ == other@),
    {
        self.text == other.text && self.host == other.host
    }

    /// Whether this URL lies on `host`: the sole gate of the crawl's scope.
    pub fn on_host(&self, host: &String) -> (r: bool)
        ensures
            r == (self@.1 == host@),
    {
        self.host == *host
    }
}

/// The canonical forms of a sequence of URLs, in order.
pub open spec fn url_keys(s: Seq<CrawlUrl>) -> Seq<(Seq<char>, Seq<char>)> {
    s.map_values(|u: CrawlUrl| u@)
}

/// Whether `v` already holds a URL with the canonical form of `u`.
pub fn holds_url(v: &Vec<CrawlUrl>, u: &CrawlUrl) -> (r: bool)
    ensures
        r == url_keys(v@).contains(u@),
{
    let mut i: usize = 0;
    while i < v.len()
        invariant
            0 <= i <= v.len(),
            forall|j: int| 0 <= j < i ==> url_keys(v@)[j] != u@,
        decreases v.len() - i,
    {
        if v[i].same_as(u) {
            assert(url_keys(v@)[i as int] == u@);
            return true;
        }
        i += 1;
    }
    assert(!url_keys(v@).contains(u@));
    false
}

} // verus!
