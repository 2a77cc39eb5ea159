//! Link extraction: the anchor hrefs of an HTML page through scraper's
//! parser, each resolved against the page's own URL, unresolvable ones
//! dropped, duplicates removed.

use vstd::prelude::*;
use crate::urls::CrawlUrl;
use crate::urls::holds_url;
use crate::urls::resolved_url;
use crate::urls::url_keys;

verus! {

/// The raw `href` attribute values of the anchor elements of `body`, in
/// document order, as scraper's HTML parser finds them.
pub uninterp spec fn hrefs_of(body: Seq<char>) -> Seq<Seq<char>>;

/// Relies on `scraper::Html::parse_document`, `scraper::Selector::parse` and
/// `scraper::node::Element::attr`: the `href` attribute of every anchor
/// element of `body`, in document order. The parse depends on the body text
/// alone; a body that is no HTML yields whatever the parser's error recovery
/// makes of it, still a function of the text.
#[verifier::external_body]
fn anchor_hrefs(body: &str) -> (r: Vec<String>)
    ensures
        r@.map_values(|h: String| h@) == hrefs_of(body@),
{
    let document = scraper::Html::parse_document(body);
    let selector = scraper::Selector::parse("a").unwrap();
    let mut out: Vec<String> = Vec::new();
    for element in document.select(&selector) {
        if let Some(link) = element.value().attr("href") {
            out.push(link.to_string());
        }
    }
    out
}

/// `resolved_url` applied to each href in turn, the successes kept in order.
pub open spec fn resolved_links(base: Seq<char>, hrefs: Seq<Seq<char>>) -> Seq<
    (Seq<char>, Seq<char>),
>
    decreases hrefs.len(),
{
    if hrefs.len() == 0 {
        Seq::empty()
    } else {
        let rest = resolved_links(base, hrefs.drop_last());
        match resolved_url(base, hrefs.last()) {
            Some(k) => rest.push(k),
            None => rest,
        }
    }
}

/// The first occurrence of each element, in order of first appearance.
pub open spec fn first_occurrences<A>(s: Seq<A>) -> Seq<A>
    decreases s.len(),
{
    if s.len() == 0 {
        Seq::empty()
    } else {
        let prefix = first_occurrences(s.drop_last());
        if prefix.contains(s.last()) {
            prefix
        } else {
            prefix.push(s.last())
        }
    }
}

/// The links of the page `body` as seen from `base`: every anchor href
/// resolved to an absolute URL, unresolvable ones dropped, deduplicated by
/// canonical form, first occurrences kept in document order.
pub open spec fn links_of(base: Seq<char>, body: Seq<char>) -> Seq<(Seq<char>, Seq<char>)> {
    first_occurrences(resolved_links(base, hrefs_of(body)))
}

/// Extract the links of `body` as seen from `base`: the page's anchor hrefs
/// resolved to absolute URLs, duplicates dropped, in order of first
/// appearance. The result is a function of `base` and `body` alone, so two
/// extractions from the same page agree.
pub fn extract_links(base: &CrawlUrl, body: &str) -> (r: Vec<CrawlUrl>)
    ensures
        url_keys(r@) == links_of(base@.0, body@),
{
    let hrefs = anchor_hrefs(body);
    let ghost hseq: Seq<Seq<char>> = hrefs@.map_values(|h: String| h@);
    let mut out: Vec<CrawlUrl> = Vec::new();
    let mut i: usize = 0;
    while i < hrefs.len()
        invariant
            0 <= i <= hrefs.len(),
            hseq == hrefs@.map_values(|h: String| h@),
            hseq == hrefs_of(body@),
            url_keys(out@) == first_occurrences(resolved_links(base@.0, hseq.take(i as int))),
        decreases hrefs.len() - i,
    {
        let ghost before = resolved_links(base@.0, hseq.take(i as int));
        proof {
            assert(hseq.take(i as int + 1).drop_last() =~= hseq.take(i as int));
            assert(hseq.take(i as int + 1).last() == hseq[i as int]);
        }
        match base.resolve(hrefs[i].as_str()) {
            Some(u) => {
                let ghost uk = u@;
                proof {
                    assert(resolved_links(base@.0, hseq.take(i as int + 1)) == before.push(uk));
                    assert(before.push(uk).drop_last() =~= before);
                    assert(before.push(uk).last() == uk);
                }
                if !holds_url(&out, &u) {
                    let ghost prev = out@;
                    out.push(u);
                    proof {
                        assert(url_keys(out@) =~= url_keys(prev).push(uk));
                    }
                }
            },
            None => {
                proof {
                    assert(resolved_links(base@.0, hseq.take(i as int + 1)) == before);
                }
            },
        }
        i += 1;
    }
    proof {
        assert(hseq.take(hrefs@.len() as int) =~= hseq);
    }
    out
}

/// Idempotent link extraction: the links of a page are a function of the
/// base URL and the body alone, so two extractions from the same page body
/// with the same base yield the same links, in the same order.
pub proof fn lemma_extraction_deterministic(
    base: Seq<char>,
    body: Seq<char>,
    r1: Seq<(Seq<char>, Seq<char>)>,
    r2: Seq<(Seq<char>, Seq<char>)>,
)
    requires
        r1 == links_of(base, body),
        r2 == links_of(base, body),
    ensures
        r1 == r2,
{
}

/// The extracted links of one page form a set: no canonical URL appears
/// twice among `links_of`, whatever the page holds.
pub proof fn lemma_links_distinct(base: Seq<char>, body: Seq<char>)
    ensures
        links_of(base, body).no_duplicates(),
{
    lemma_first_occurrences_no_duplicates(resolved_links(base, hrefs_of(body)));
}

proof fn lemma_first_occurrences_no_duplicates<A>(s: Seq<A>)
    ensures
        first_occurrences(s).no_duplicates(),
    decreases s.len(),
{
    if s.len() == 0 {
    } else {
        lemma_first_occurrences_no_duplicates(s.drop_last());
        let prefix = first_occurrences(s.drop_last());
        if !prefix.contains(s.last()) {
            let whole = prefix.push(s.last());
            assert forall|i: int, j: int|
                0 <= i < whole.len() && 0 <= j < whole.len() && i != j implies whole[i]
                != whole[j] by {
                if i == prefix.len() {
                    if whole[j] == s.last() {
                        assert(prefix[j] == s.last());
                        assert(prefix.contains(s.last()));
                    }
                } else if j == prefix.len() {
                    if whole[i] == s.last() {
                        assert(prefix[i] == s.last());
                        assert(prefix.contains(s.last()));
                    }
                }
            };
        }
    }
}

} // verus!
