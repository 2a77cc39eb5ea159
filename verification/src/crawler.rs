//! The traversal engine: the visited record and the frontier queue, the
//! dequeue step that discards duplicate entries, and the processing step that
//! extracts a page's links, filters them through the scope gate, and enqueues
//! the new ones.

use vstd::prelude::*;
use crate::extract::extract_links;
use crate::extract::links_of;
use crate::urls::holds_url;
use crate::urls::url_keys;
use crate::urls::CrawlUrl;

verus! {

/// The links a processed page contributes: those of its body, or none when
/// the fetch failed (`None`).
pub open spec fn found_links(base: Seq<char>, body: Option<Seq<char>>) -> Seq<
    (Seq<char>, Seq<char>),
> {
    match body {
        Some(b) => links_of(base, b),
        None => Seq::empty(),
    }
}

/// The view of an optional page body.
pub open spec fn body_view(body: Option<&str>) -> Option<Seq<char>> {
    match body {
        Some(b) => Some(b@),
        None => None,
    }
}

/// Of the links of one page, those admitted to the frontier: the ones on
/// `host` and not among `visited`, in page order.
pub open spec fn admitted(
    links: Seq<(Seq<char>, Seq<char>)>,
    visited: Seq<(Seq<char>, Seq<char>)>,
    host: Seq<char>,
) -> Seq<(Seq<char>, Seq<char>)>
    decreases links.len(),
{
    if links.len() == 0 {
        Seq::empty()
    } else {
        let prefix = admitted(links.drop_last(), visited, host);
        let l = links.last();
        if l.1 == host && !visited.contains(l) {
            prefix.push(l)
        } else {
            prefix
        }
    }
}

/// The frontier queue after discarding the longest prefix of entries already
/// among `visited`.
pub open spec fn skip_visited(
    q: Seq<(Seq<char>, Seq<char>)>,
    visited: Seq<(Seq<char>, Seq<char>)>,
) -> Seq<(Seq<char>, Seq<char>)>
    decreases q.len(),
{
    if q.len() == 0 {
        q
    } else if visited.contains(q[0]) {
        skip_visited(q.drop_first(), visited)
    } else {
        q
    }
}

/// One crawl session. The seed's host fixes the scope for the session's
/// lifetime; `visited` records every URL whose fetch attempt completed
/// (successfully or not), in processing order; `queue` holds the discovered,
/// in-scope, not-yet-processed URLs in discovery (FIFO) order. Duplicate
/// queue entries are permitted and discarded at dequeue time.
pub struct Crawler {
    visited: Vec<CrawlUrl>,
    queue: Vec<CrawlUrl>,
    base_host: String,
}

impl Crawler {
    /// The canonical forms of the processed URLs, in processing order.
    pub closed spec fn visited_seq(self) -> Seq<(Seq<char>, Seq<char>)> {
        url_keys(self.visited@)
    }

    /// The canonical forms of the queued URLs, front first.
    pub closed spec fn queue_seq(self) -> Seq<(Seq<char>, Seq<char>)> {
        url_keys(self.queue@)
    }

    /// The host every stored URL lies on.
    pub closed spec fn host_key(self) -> Seq<char> {
        self.base_host@
    }

    /// The session invariant: no URL is recorded as processed twice, and
    /// every URL the session stores lies on the crawl's host.
    pub closed spec fn wf(self) -> bool {
        &&& self.visited_seq().no_duplicates()
        &&& forall|i: int|
            0 <= i < self.visited_seq().len() ==> (#[trigger] self.visited_seq()[i]).1
                == self.host_key()
        &&& forall|i: int|
            0 <= i < self.queue_seq().len() ==> (#[trigger] self.queue_seq()[i]).1
                == self.host_key()
    }

    /// A fresh session: nothing visited, the queue holding exactly the seed,
    /// the scope fixed to the seed's host.
    pub fn new(seed: CrawlUrl) -> (c: Crawler)
        ensures
            c.wf(),
            c.visited_seq() == Seq::<(Seq<char>, Seq<char>)>::empty(),
            c.queue_seq() == seq![seed@],
            c.host_key() == seed@.1,
    {
        let base_host = seed.host.clone();
        let mut queue: Vec<CrawlUrl> = Vec::new();
        queue.push(seed);
        let c = Crawler { visited: Vec::new(), queue, base_host };
        proof {
            assert(c.visited_seq() =~= Seq::<(Seq<char>, Seq<char>)>::empty());
            assert(c.queue_seq() =~= seq![c.queue@[0]@]);
        }
        c
    }

    /// Whether `u` has already been processed.
    pub fn is_visited(&self, u: &CrawlUrl) -> (r: bool)
        ensures
            r == self.visited_seq().contains(u@),
    {
        holds_url(&self.visited, u)
    }

    /// Pop URLs off the front of the queue until one not yet visited appears
    /// and hand it out for processing; entries enqueued again from later
    /// referring pages are discarded here, at dequeue time. `None` means the
    /// queue is exhausted and the crawl is complete.
    pub fn take_next(&mut self) -> (r: Option<CrawlUrl>)
        requires
            old(self).wf(),
        ensures
            final(self).wf(),
            final(self).visited_seq() == old(self).visited_seq(),
            final(self).host_key() == old(self).host_key(),
            match r {
                Some(u) => {
                    &&& seq![u@] + final(self).queue_seq() == skip_visited(
                        old(self).queue_seq(),
                        old(self).visited_seq(),
                    )
                    &&& !old(self).visited_seq().contains(u@)
                    &&& u@.1 == old(self).host_key()
                    &&& final(self).queue_seq().len() < old(self).queue_seq().len()
                },
                None => {
                    &&& final(self).queue_seq().len() == 0
                    &&& skip_visited(old(self).queue_seq(), old(self).visited_seq()).len() == 0
                },
            },
    {
        while self.queue.len() > 0
            invariant
                self.wf(),
                self.visited == old(self).visited,
                self.base_host == old(self).base_host,
                skip_visited(self.queue_seq(), self.visited_seq()) == skip_visited(
                    old(self).queue_seq(),
                    old(self).visited_seq(),
                ),
                self.queue_seq().len() <= old(self).queue_seq().len(),
            decreases self.queue.len(),
        {
            let ghost qk = self.queue_seq();
            let u = self.queue.remove(0);
            proof {
                assert(url_keys(self.queue@) =~= qk.drop_first());
            }
            if !self.is_visited(&u) {
                proof {
                    assert(seq![u@] + url_keys(self.queue@) =~= qk);
                }
                return Some(u);
            }
            proof {
                assert(skip_visited(qk, self.visited_seq()) == skip_visited(
                    url_keys(self.queue@),
                    self.visited_seq(),
                ));
            }
        }
        None
    }

    /// Process the dequeued URL `u`: extract the links of its page body
    /// (`None` stands for a failed fetch and yields zero links), append the
    /// ones on the crawl's host and not yet visited to the queue, and mark
    /// `u` visited. A failed fetch is isolated: `u` is recorded as visited
    /// either way, nothing is retried, and the crawl goes on.
    pub fn process(&mut self, u: &CrawlUrl, body: Option<&str>)
        requires
            old(self).wf(),
            !old(self).visited_seq().contains(u@),
            u@.1 == old(self).host_key(),
        ensures
            final(self).wf(),
            final(self).host_key() == old(self).host_key(),
            final(self).visited_seq() == old(self).visited_seq().push(u@),
            final(self).queue_seq() == old(self).queue_seq() + admitted(
                found_links(u@.0, body_view(body)),
                old(self).visited_seq(),
                old(self).host_key(),
            ),
    {
        match body {
            Some(b) => {
                let links = extract_links(u, b);
                let ghost lk = url_keys(links@);
                let mut i: usize = 0;
                while i < links.len()
                    invariant
                        0 <= i <= links.len(),
                        lk == url_keys(links@),
                        lk == found_links(u@.0, Some(b@)),
                        self.visited == old(self).visited,
                        self.base_host == old(self).base_host,
                        self.wf(),
                        self.queue_seq() == old(self).queue_seq() + admitted(
                            lk.take(i as int),
                            old(self).visited_seq(),
                            old(self).host_key(),
                        ),
                    decreases links.len() - i,
                {
                    let ghost before = admitted(
                        lk.take(i as int),
                        old(self).visited_seq(),
                        old(self).host_key(),
                    );
                    proof {
                        assert(lk.take(i as int + 1).drop_last() =~= lk.take(i as int));
                        assert(lk.take(i as int + 1).last() == lk[i as int]);
                    }
                    let l = &links[i];
                    if l.on_host(&self.base_host) && !self.is_visited(l) {
                        let ghost qprev = self.queue@;
                        self.queue.push(l.clone());
                        proof {
                            assert(url_keys(self.queue@) =~= url_keys(qprev).push(lk[i as int]));
                            assert(old(self).queue_seq() + before.push(lk[i as int])
                                =~= (old(self).queue_seq() + before).push(lk[i as int]));
                        }
                    }
                    i += 1;
                }
                proof {
                    assert(lk.take(links@.len() as int) =~= lk);
                }
            },
            None => {
                proof {
                    assert(old(self).queue_seq() + admitted(
                        found_links(u@.0, body_view(body)),
                        old(self).visited_seq(),
                        old(self).host_key(),
                    ) =~= old(self).queue_seq());
                }
            },
        }
        let ghost oldvs = old(self).visited_seq();
        let ghost vprev = self.visited@;
        self.visited.push(u.clone());
        proof {
            assert(url_keys(self.visited@) =~= url_keys(vprev).push(u@));
            let newvs = self.visited_seq();
            assert forall|i: int, j: int|
                0 <= i < newvs.len() && 0 <= j < newvs.len() && i != j implies newvs[i]
                != newvs[j] by {
                if i == oldvs.len() {
                    if newvs[j] == u@ {
                        assert(oldvs.contains(u@));
                    }
                } else if j == oldvs.len() {
                    if newvs[i] == u@ {
                        assert(oldvs.contains(u@));
                    }
                }
            };
            assert forall|i: int| 0 <= i < newvs.len() implies (#[trigger] newvs[i]).1
                == self.host_key() by {
                if i < oldvs.len() {
                    assert(oldvs[i].1 == old(self).host_key());
                }
            };
        }
    }

    /// The visited record, in processing order.
    pub fn visited_pages(&self) -> (r: &Vec<CrawlUrl>)
        ensures
            url_keys(r@) == self.visited_seq(),
    {
        &self.visited
    }
}

/// At-most-once processing: the visited record — one entry per fetch
/// attempt, appended exactly when a dequeued URL is processed — never holds
/// the same URL twice, so no URL is ever fetched twice in one crawl.
pub proof fn lemma_at_most_once(c: Crawler)
    requires
        c.wf(),
    ensures
        forall|i: int, j: int|
            0 <= i < c.visited_seq().len() && 0 <= j < c.visited_seq().len() && i != j
                ==> c.visited_seq()[i] != c.visited_seq()[j],
{
}

/// Scope closure: every URL the crawl has visited, and every URL waiting in
/// its queue, lies on the crawl's host; no URL of a foreign host is ever
/// processed or even admitted to the frontier.
pub proof fn lemma_scope_closure(c: Crawler)
    requires
        c.wf(),
    ensures
        forall|i: int|
            0 <= i < c.visited_seq().len() ==> (#[trigger] c.visited_seq()[i]).1 == c.host_key(),
        forall|i: int|
            0 <= i < c.queue_seq().len() ==> (#[trigger] c.queue_seq()[i]).1 == c.host_key(),
{
}

/// Termination: a processing step appends a URL never processed before, so
/// whenever every URL reachable from the seed lies in some finite set
/// `universe` — a finite link graph — the visited record can never exceed
/// `universe.len()` entries. Processing steps are thus bounded, and between
/// them every dequeue strictly shrinks the queue, so the crawl runs out of
/// work.
pub proof fn lemma_visits_bounded(c: Crawler, universe: Set<(Seq<char>, Seq<char>)>)
    requires
        c.wf(),
        universe.finite(),
        forall|i: int|
            0 <= i < c.visited_seq().len() ==> universe.contains(#[trigger] c.visited_seq()[i]),
    ensures
        c.visited_seq().len() <= universe.len(),
{
    broadcast use vstd::set::group_set_axioms;

    let vs = c.visited_seq();
    vs.unique_seq_to_set();
    assert forall|k: (Seq<char>, Seq<char>)| vs.to_set().contains(k) implies universe.contains(
        k,
    ) by {
        let i = choose|i: int| 0 <= i < vs.len() && vs[i] == k;
        assert(universe.contains(vs[i]));
    };
    vstd::set_lib::lemma_len_subset(vs.to_set(), universe);
}

} // verus!
