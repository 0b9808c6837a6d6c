//! The crawl engine: a frontier of pending URLs, the set of URLs already
//! taken from it, and the log of fetches that failed.
//!
//! The engine never fetches anything itself. It hands out the next URL, is
//! told what became of the fetch, and moves on: one visit at a time, in the
//! order in which the URLs were discovered.

use crate::links::{extract_hrefs, page_hrefs};
use crate::model::{
    failed_urls, lemma_empty_page_adds_no_links, lemma_initial_inv, lemma_visit_preserves_inv,
    CrawlState, Visit,
};
use crate::url::{
    is_external, is_scrapeable, is_url_external, is_url_scrapeable, normalize_url, origin, Config,
};
use std::collections::VecDeque;
use vstd::hash_set::StringHashSet;
use vstd::prelude::*;

verus! {

/// What became of the fetch of one URL.
pub enum FetchOutcome {
    /// The page was fetched; this is its body.
    Body(String),
    /// The page could not be fetched, for whatever reason.
    Failed,
}

impl FetchOutcome {
    /// Whether the fetch failed.
    pub open spec fn failed(self) -> bool {
        self is Failed
    }

    /// The body of the page, or nothing where the fetch failed.
    pub open spec fn body(self) -> Seq<char> {
        match self {
            FetchOutcome::Body(body) => body@,
            FetchOutcome::Failed => Seq::empty(),
        }
    }

    /// The links that the fetch brought: those of the page, or none where
    /// the fetch failed.
    pub open spec fn links(self) -> Seq<Seq<char>> {
        match self {
            FetchOutcome::Body(body) => page_hrefs(body@),
            FetchOutcome::Failed => Seq::empty(),
        }
    }
}

/// A crawl between two visits.
pub struct Crawler {
    config: Config,
    frontier: VecDeque<String>,
    visited: StringHashSet,
    errors: Vec<String>,
    history: Ghost<Seq<Visit>>,
}

/// A crawl that has taken the next URL from its frontier and waits to be
/// told what became of the fetch.
pub struct PendingFetch {
    config: Config,
    frontier: VecDeque<String>,
    visited: StringHashSet,
    errors: Vec<String>,
    url: String,
    before: Ghost<CrawlState>,
}

/// What a crawl asks for next.
pub enum Step {
    /// Fetch the URL of this visit and report the outcome.
    Fetch(PendingFetch),
    /// The frontier is empty. These are the URLs whose fetch failed, in the
    /// order of the failures.
    Done(Vec<String>),
}

impl View for Crawler {
    type V = CrawlState;

    closed spec fn view(&self) -> CrawlState {
        CrawlState {
            domain: self.config@,
            frontier: self.frontier.deep_view(),
            visited: self.visited@,
            errors: self.errors.deep_view(),
            history: self.history@,
        }
    }
}

impl View for PendingFetch {
    type V = CrawlState;

    /// A pending fetch is known by the crawl as it stood before the visit.
    closed spec fn view(&self) -> CrawlState {
        self.before@
    }
}

impl Crawler {
    #[verifier::type_invariant]
    spec fn reachable(&self) -> bool {
        self@.inv()
    }

    /// A crawl of the configured domain, with the seed as its only pending
    /// URL.
    pub fn new(config: Config) -> (crawler: Crawler)
        ensures
            crawler@ == CrawlState::initial(config@),
            crawler@.inv(),
    {
        let mut frontier: VecDeque<String> = VecDeque::new();
        frontier.push_back(config.seed_url());
        let visited = StringHashSet::new();
        let errors: Vec<String> = Vec::new();
        proof {
            lemma_initial_inv(config@);
            assert(frontier.deep_view() =~= seq![origin(config@)]);
            assert(errors.deep_view() =~= Seq::empty());
        }
        Crawler { config, frontier, visited, errors, history: Ghost(Seq::empty()) }
    }

    /// Whether the frontier is empty.
    pub fn is_done(&self) -> (done: bool)
        ensures
            done == self@.is_done(),
            self@.inv(),
    {
        proof {
            use_type_invariant(self);
        }
        self.frontier.len() == 0
    }

    /// The URLs that wait in the frontier, the next one first, each as it
    /// was found.
    pub fn frontier(&self) -> (urls: Vec<String>)
        ensures
            urls.deep_view() == self@.frontier,
    {
        let mut urls: Vec<String> = Vec::new();
        let mut next: usize = 0;
        while next < self.frontier.len()
            invariant
                next <= self.frontier.len(),
                urls.deep_view() == self.frontier.deep_view().take(next as int),
            decreases self.frontier.len() - next,
        {
            let ghost copied = urls.deep_view();
            urls.push(self.frontier[next].clone());
            proof {
                assert(self.frontier.deep_view().take(next + 1) =~= copied.push(
                    self.frontier.deep_view()[next as int],
                ));
            }
            next = next + 1;
        }
        urls
    }

    /// Whether `url`, in just this spelling, has been taken from the
    /// frontier.
    pub fn has_visited(&self, url: &str) -> (seen: bool)
        ensures
            seen == self@.visited.contains(url@),
    {
        self.visited.contains(url)
    }

    /// The URLs whose fetch has failed so far, in the order of the failures.
    pub fn errors(&self) -> (errors: &Vec<String>)
        ensures
            errors.deep_view() == self@.errors,
    {
        &self.errors
    }

    /// The site that the crawl is confined to.
    pub fn config(&self) -> (config: &Config)
        ensures
            config@ == self@.domain,
    {
        &self.config
    }

    /// Takes the next URL from the frontier and marks it visited, or ends
    /// the crawl where the frontier is empty. The crawl ends with its error
    /// log: the URLs of the visits whose fetch failed, and no others.
    pub fn step(self) -> (step: Step)
        ensures
            self@.inv(),
            match step {
                Step::Fetch(pending) => !self@.is_done() && pending@ == self@,
                Step::Done(errors) => {
                    &&& self@.is_done()
                    &&& errors.deep_view() == self@.errors
                    &&& errors.deep_view() == failed_urls(self@.history)
                },
            },
    {
        proof {
            use_type_invariant(&self);
        }
        let ghost before = self@;
        let Crawler { config, mut frontier, mut visited, errors, history: _ } = self;
        match frontier.pop_front() {
            None => Step::Done(errors),
            Some(raw) => {
                visited.insert(raw.clone());
                let url = normalize_url(&config, &raw);
                proof {
                    assert(frontier.deep_view() =~= before.frontier.drop_first());
                }
                Step::Fetch(
                    PendingFetch { config, frontier, visited, errors, url, before: Ghost(before) },
                )
            },
        }
    }
}

impl PendingFetch {
    #[verifier::type_invariant]
    spec fn dequeued_from_before(&self) -> bool {
        let before = self.before@;
        &&& before.inv()
        &&& !before.is_done()
        &&& self.config@ == before.domain
        &&& self.frontier.deep_view() == before.frontier.drop_first()
        &&& self.visited@ == before.visited_after_dequeue()
        &&& self.errors.deep_view() == before.errors
        &&& self.url@ == before.next_url()
    }

    /// The URL to fetch: the one taken from the frontier, in absolute form.
    pub fn url(&self) -> (url: &String)
        ensures
            self@.inv(),
            !self@.is_done(),
            url@ == self@.next_url(),
    {
        proof {
            use_type_invariant(self);
        }
        &self.url
    }

    /// Whether the URL of this visit lies outside the domain, so that its
    /// page will not be looked at.
    pub fn is_external(&self) -> (external: bool)
        ensures
            external == is_external(self@.domain, self@.next_url()),
    {
        proof {
            use_type_invariant(self);
        }
        is_url_external(&self.config, &self.url)
    }

    /// Ends the visit with the outcome of the fetch. A failure is logged and
    /// the page counts as empty: no link is taken. The page of an internal
    /// URL is searched for links; the page of an external URL is not looked
    /// at.
    ///
    /// Where the page would have to be read and is too long for that, the
    /// visit is not ended: the pending fetch comes back as it was.
    pub fn resolve(self, outcome: FetchOutcome) -> (resolved: Result<Crawler, PendingFetch>)
        ensures
            resolved is Ok <==> self@.accepts(outcome.body()),
            resolved matches Ok(crawler) ==> crawler@.inv() && crawler@ == self@.after_visit(
                outcome.failed(),
                outcome.links(),
            ),
            outcome.failed() ==> (resolved matches Ok(crawler) && crawler@ == self@.after_visit(
                true,
                Seq::empty(),
            ) && crawler@.frontier == self@.frontier.drop_first()),
            resolved matches Err(pending) ==> pending@ == self@,
    {
        proof {
            use_type_invariant(&self);
        }
        match outcome {
            FetchOutcome::Failed => {
                let none: Vec<String> = Vec::new();
                proof {
                    assert(none.deep_view() =~= Seq::<Seq<char>>::empty());
                    lemma_empty_page_adds_no_links(self@, true);
                }
                Ok(self.complete(true, none))
            },
            FetchOutcome::Body(body) => {
                let hrefs = if self.is_external() {
                    Vec::new()
                } else {
                    match extract_hrefs(body.as_str()) {
                        Some(hrefs) => hrefs,
                        None => {
                            return Err(self);
                        },
                    }
                };
                Ok(self.complete(false, hrefs))
            },
        }
    }

    /// Ends the visit of a page that holds the links `hrefs`, in this order.
    /// A failed fetch is logged. Where the URL is internal, each link that
    /// is scrapeable and not yet visited joins the frontier as it is.
    pub fn complete(self, failed: bool, hrefs: Vec<String>) -> (crawler: Crawler)
        ensures
            crawler@ == self@.after_visit(failed, hrefs.deep_view()),
            crawler@.inv(),
    {
        proof {
            use_type_invariant(&self);
        }
        let ghost before = self@;
        let ghost found = hrefs.deep_view();
        let ghost wanted = |href: Seq<char>|
            is_scrapeable(href) && !before.visited_after_dequeue().contains(href);
        let PendingFetch { config, mut frontier, visited, mut errors, url, before: _ } = self;
        let external = is_url_external(&config, &url);
        if failed {
            errors.push(url);
        }
        let ghost waiting = before.frontier.drop_first();
        if !external {
            for href in list: hrefs
                invariant
                    list.seq() == hrefs@,
                    found == hrefs.deep_view(),
                    visited@ == before.visited.insert(before.frontier[0]),
                    wanted == |href: Seq<char>|
                        is_scrapeable(href) && !before.visited.insert(before.frontier[0]).contains(
                            href,
                        ),
                    frontier.deep_view() == waiting + found.take(list.index()).filter(wanted),
            {
                let ghost seen: int = list.index();
                let ghost queued = frontier.deep_view();
                proof {
                    assert(found.take(seen + 1) == found.take(seen).push(href@));
                    found.take(seen).lemma_filter_push(href@, wanted);
                }
                if is_url_scrapeable(&href) && !visited.contains(href.as_str()) {
                    frontier.push_back(href);
                    assert(frontier.deep_view() =~= queued.push(found[seen]));
                }
            }
            assert(found.take(found.len() as int) == found);
        }
        let ghost after = before.after_visit(failed, found);
        proof {
            lemma_visit_preserves_inv(before, failed, found);
            assert(errors.deep_view() =~= after.errors);
        }
        Crawler { config, frontier, visited, errors, history: Ghost(after.history) }
    }
}

} // verus!
