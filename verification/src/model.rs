//! The crawl as a state machine: what a crawl is between two visits, what
//! one visit does to it, and what holds of every crawl that started from
//! the seed.

use crate::links::is_readable;
use crate::url::{is_external, is_scrapeable, lemma_origin_is_internal, normalized, origin};
use vstd::prelude::*;

verus! {

/// One URL that a crawl has dealt with.
pub struct Visit {
    /// The URL as it stood in the frontier.
    pub dequeued: Seq<char>,
    /// Its absolute form, the one that was fetched.
    pub url: Seq<char>,
    /// Whether the fetch failed.
    pub failed: bool,
    /// The links that the visit added to the frontier.
    pub enqueued: Seq<Seq<char>>,
}

/// A crawl between two visits.
pub struct CrawlState {
    /// The domain that the crawl is confined to.
    pub domain: Seq<char>,
    /// The URLs that wait to be visited, the next one first.
    pub frontier: Seq<Seq<char>>,
    /// The URLs that were taken from the frontier, each in the spelling in
    /// which it was found: `/about` and `https://<domain>/about` are two
    /// entries, and a page that is linked in both spellings is visited in
    /// both.
    pub visited: Set<Seq<char>>,
    /// The URLs whose fetch failed, in the order of the failures.
    pub errors: Seq<Seq<char>>,
    /// The visits made so far, the first one first.
    pub history: Seq<Visit>,
}

/// The links of a page that go to the frontier: those that are scrapeable
/// and not in `visited`, in the order of the page. A link that the page
/// holds twice is taken twice.
pub open spec fn eligible(hrefs: Seq<Seq<char>>, visited: Set<Seq<char>>) -> Seq<Seq<char>> {
    hrefs.filter(|href: Seq<char>| is_scrapeable(href) && !visited.contains(href))
}

/// Every entry of `urls` is in `universe`.
pub open spec fn within(urls: Seq<Seq<char>>, universe: Set<Seq<char>>) -> bool {
    forall|i: int| 0 <= i < urls.len() ==> universe.contains(#[trigger] urls[i])
}

/// The number of entries at the head of `frontier` that are in `visited`:
/// the index of the first entry that is not yet visited, or the length of
/// the frontier where there is none.
pub open spec fn visited_head(frontier: Seq<Seq<char>>, visited: Set<Seq<char>>) -> nat
    decreases frontier.len(),
{
    if frontier.len() == 0 || !visited.contains(frontier[0]) {
        0
    } else {
        1 + visited_head(frontier.drop_first(), visited)
    }
}

/// The URLs that the visits took from the frontier, in order.
pub open spec fn dequeued(history: Seq<Visit>) -> Seq<Seq<char>> {
    history.map_values(|visit: Visit| visit.dequeued)
}

/// The URLs that the visits failed to fetch, in order.
pub open spec fn failed_urls(history: Seq<Visit>) -> Seq<Seq<char>> {
    history.filter(|visit: Visit| visit.failed).map_values(|visit: Visit| visit.url)
}

/// Every URL that ever entered the frontier, in order: the seed, then the
/// links that each visit added.
pub open spec fn discovered(domain: Seq<char>, history: Seq<Visit>) -> Seq<Seq<char>> {
    seq![origin(domain)] + history.map_values(|visit: Visit| visit.enqueued).flatten()
}

impl CrawlState {
    /// A crawl of `domain` before its first visit: only the seed waits.
    pub open spec fn initial(domain: Seq<char>) -> CrawlState {
        CrawlState {
            domain,
            frontier: seq![origin(domain)],
            visited: Set::empty(),
            errors: Seq::empty(),
            history: Seq::empty(),
        }
    }

    /// Nothing is left to visit.
    pub open spec fn is_done(self) -> bool {
        self.frontier.len() == 0
    }

    /// The URL that the next visit fetches: the head of the frontier, made
    /// absolute.
    pub open spec fn next_url(self) -> Seq<char>
        recommends
            !self.is_done(),
    {
        normalized(self.domain, self.frontier[0])
    }

    /// The visited set once the head of the frontier has been taken. The
    /// head is marked as it stood in the frontier, before it is made
    /// absolute and before anything is fetched.
    pub open spec fn visited_after_dequeue(self) -> Set<Seq<char>>
        recommends
            !self.is_done(),
    {
        self.visited.insert(self.frontier[0])
    }

    /// The URLs of `universe` that have not yet been taken from the
    /// frontier.
    pub open spec fn unvisited(self, universe: Set<Seq<char>>) -> Set<Seq<char>> {
        universe.difference(self.visited)
    }

    /// Whether the next visit can deal with the page `body`: the page of an
    /// internal URL is read and has to be readable, the page of an external
    /// URL is not looked at.
    pub open spec fn accepts(self, body: Seq<char>) -> bool
        recommends
            !self.is_done(),
    {
        is_external(self.domain, self.next_url()) || is_readable(body)
    }

    /// What the next visit adds to the frontier when the page holds `hrefs`.
    /// An external page adds nothing, whatever it holds.
    pub open spec fn links_taken(self, hrefs: Seq<Seq<char>>) -> Seq<Seq<char>>
        recommends
            !self.is_done(),
    {
        if is_external(self.domain, self.next_url()) {
            Seq::empty()
        } else {
            eligible(hrefs, self.visited_after_dequeue())
        }
    }

    /// The crawl after the visit of the head of its frontier, where the
    /// fetch failed or not and the page held `hrefs`.
    pub open spec fn after_visit(self, failed: bool, hrefs: Seq<Seq<char>>) -> CrawlState
        recommends
            !self.is_done(),
    {
        CrawlState {
            domain: self.domain,
            frontier: self.frontier.drop_first() + self.links_taken(hrefs),
            visited: self.visited_after_dequeue(),
            errors: if failed {
                self.errors.push(self.next_url())
            } else {
                self.errors
            },
            history: self.history.push(
                Visit {
                    dequeued: self.frontier[0],
                    url: self.next_url(),
                    failed,
                    enqueued: self.links_taken(hrefs),
                },
            ),
        }
    }

    /// The visit at `index` followed the rules: it fetched the absolute form
    /// of what it took from the frontier, it took no link from an external
    /// page, and every link it took was scrapeable and had not been taken
    /// from the frontier by then.
    pub open spec fn visit_is_regular(self, index: int) -> bool
        recommends
            0 <= index < self.history.len(),
    {
        let visit = self.history[index];
        &&& visit.url == normalized(self.domain, visit.dequeued)
        &&& is_external(self.domain, visit.url) ==> visit.enqueued.len() == 0
        &&& forall|k: int|
            0 <= k < visit.enqueued.len() ==> is_scrapeable(#[trigger] visit.enqueued[k])
        &&& forall|earlier: int, k: int|
            0 <= earlier <= index && 0 <= k < visit.enqueued.len()
                ==> (#[trigger] self.history[earlier]).dequeued != #[trigger] visit.enqueued[k]
    }

    /// What holds of a crawl at every moment between two visits.
    pub open spec fn inv(self) -> bool {
        &&& self.visited == dequeued(self.history).to_set()
        &&& self.errors == failed_urls(self.history)
        &&& discovered(self.domain, self.history) == dequeued(self.history) + self.frontier
        &&& forall|i: int|
            0 <= i < self.frontier.len() ==> is_scrapeable(#[trigger] self.frontier[i])
        &&& forall|i: int| 0 <= i < self.history.len() ==> #[trigger] self.visit_is_regular(i)
    }
}

/// A page without links adds nothing to the frontier: the visit only takes
/// the head away.
pub proof fn lemma_empty_page_adds_no_links(before: CrawlState, failed: bool)
    requires
        !before.is_done(),
    ensures
        before.after_visit(failed, Seq::empty()).frontier == before.frontier.drop_first(),
{
    reveal(Seq::filter);
    assert(before.links_taken(Seq::empty()) =~= Seq::<Seq<char>>::empty());
    assert(before.frontier.drop_first() + Seq::<Seq<char>>::empty()
        =~= before.frontier.drop_first());
}

/// A crawl starts in a state of which the invariant holds.
pub proof fn lemma_initial_inv(domain: Seq<char>)
    ensures
        CrawlState::initial(domain).inv(),
{
    let start = CrawlState::initial(domain);
    lemma_origin_is_internal(domain);
    assert(dequeued(start.history).to_set() =~= Set::empty());
    assert(failed_urls(start.history) =~= Seq::empty()) by {
        reveal(Seq::filter);
    }
    assert(discovered(domain, start.history) =~= start.frontier);
}

/// A visit keeps the invariant.
pub proof fn lemma_visit_preserves_inv(before: CrawlState, failed: bool, hrefs: Seq<Seq<char>>)
    requires
        before.inv(),
        !before.is_done(),
    ensures
        before.after_visit(failed, hrefs).inv(),
{
    let after = before.after_visit(failed, hrefs);
    let raw = before.frontier[0];
    let taken = before.links_taken(hrefs);
    let visit = after.history.last();

    assert(dequeued(after.history) =~= dequeued(before.history).push(raw));
    assert(after.visited == dequeued(after.history).to_set()) by {
        dequeued(before.history).lemma_push_to_set_commute(raw);
    }

    assert(after.errors == failed_urls(after.history)) by {
        before.history.lemma_filter_push(visit, |visit: Visit| visit.failed);
    }

    assert(discovered(after.domain, after.history) == dequeued(after.history) + after.frontier) by {
        let lists = before.history.map_values(|visit: Visit| visit.enqueued);
        assert(after.history.map_values(|visit: Visit| visit.enqueued) =~= lists.push(taken));
        lists.lemma_flatten_push(taken);
        assert(dequeued(before.history) + before.frontier + taken =~= dequeued(before.history).push(
            raw,
        ) + (before.frontier.drop_first() + taken));
    }

    let wanted = |href: Seq<char>|
        is_scrapeable(href) && !before.visited_after_dequeue().contains(href);
    assert forall|k: int| 0 <= k < taken.len() implies wanted(#[trigger] taken[k]) by {
        hrefs.lemma_filter_pred(wanted, k);
    }

    assert forall|i: int| 0 <= i < after.history.len() implies #[trigger] after.visit_is_regular(
        i,
    ) by {
        if i < before.history.len() {
            assert(before.visit_is_regular(i));
        } else {
            assert forall|j: int, k: int| 0 <= j <= i && 0 <= k < taken.len() implies (
            #[trigger] after.history[j]).dequeued != #[trigger] taken[k] by {
                assert(dequeued(after.history)[j] == after.history[j].dequeued);
                assert(after.visited.contains(after.history[j].dequeued));
            }
        }
    }
}

} // verus!
