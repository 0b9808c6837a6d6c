//! What the invariant of a crawl says about its visits, its frontier and
//! its error log.

use crate::model::{
    dequeued, discovered, failed_urls, visited_head, within, CrawlState, Visit,
};
use crate::url::{is_external, is_scrapeable, origin};
use vstd::prelude::*;

verus! {

/// Visits happen in the order of discovery. The URLs taken from the
/// frontier so far are the first of the URLs that ever entered it, and once
/// the frontier is empty they are all of them.
pub proof fn lemma_visits_follow_discovery(state: CrawlState)
    requires
        state.inv(),
    ensures
        dequeued(state.history).is_prefix_of(discovered(state.domain, state.history)),
        state.is_done() ==> dequeued(state.history) == discovered(state.domain, state.history),
{
    let taken = dequeued(state.history);
    let found = discovered(state.domain, state.history);
    assert(found.subrange(0, taken.len() as int) =~= taken);
    if state.is_done() {
        assert(found =~= taken);
    }
}

/// The visited set bars a URL from the frontier once it has been taken
/// from it: no visit takes a link that it or an earlier visit dequeued.
pub proof fn lemma_visited_url_is_not_enqueued(
    state: CrawlState,
    earlier: int,
    later: int,
    link: int,
)
    requires
        state.inv(),
        0 <= earlier <= later < state.history.len(),
        0 <= link < state.history[later].enqueued.len(),
    ensures
        state.history[earlier].dequeued != state.history[later].enqueued[link],
{
    assert(state.visit_is_regular(later));
}

/// No URL is taken from the frontier twice, unless it entered the frontier
/// twice. In a crawl that has come to its end the two go together: a URL
/// that entered the frontier twice was visited twice.
pub proof fn lemma_no_revisit(state: CrawlState)
    requires
        state.inv(),
    ensures
        discovered(state.domain, state.history).no_duplicates() ==> dequeued(
            state.history,
        ).no_duplicates(),
        state.is_done() && dequeued(state.history).no_duplicates() ==> discovered(
            state.domain,
            state.history,
        ).no_duplicates(),
{
    let taken = dequeued(state.history);
    let found = discovered(state.domain, state.history);
    lemma_visits_follow_discovery(state);
    assert forall|i: int| 0 <= i < taken.len() implies taken[i] == found[i] by {}
}

/// A visit that takes no link twice, and none that waits in the frontier,
/// leaves every URL that ever entered the frontier unique. The visited set
/// sees to the URLs that have left the frontier.
pub proof fn lemma_new_links_stay_unique(before: CrawlState, failed: bool, hrefs: Seq<Seq<char>>)
    requires
        before.inv(),
        !before.is_done(),
        discovered(before.domain, before.history).no_duplicates(),
        before.links_taken(hrefs).no_duplicates(),
        forall|i: int, k: int|
            0 <= i < before.frontier.len() && 0 <= k < before.links_taken(hrefs).len()
                ==> before.frontier[i] != before.links_taken(hrefs)[k],
    ensures
        discovered(before.domain, before.after_visit(failed, hrefs).history).no_duplicates(),
{
    let after = before.after_visit(failed, hrefs);
    let taken = before.links_taken(hrefs);
    let known = discovered(before.domain, before.history);
    let gone = dequeued(before.history);
    let lists = before.history.map_values(|visit: Visit| visit.enqueued);
    assert(after.history.map_values(|visit: Visit| visit.enqueued) =~= lists.push(taken));
    lists.lemma_flatten_push(taken);
    assert(discovered(before.domain, after.history) =~= known + taken);
    assert forall|i: int, k: int| 0 <= i < known.len() && 0 <= k < taken.len() implies known[i]
        != taken[k] by {
        if i < gone.len() {
            let wanted = |href: Seq<char>|
                is_scrapeable(href) && !before.visited_after_dequeue().contains(href);
            hrefs.lemma_filter_pred(wanted, k);
            assert(before.visited.contains(gone[i]));
        } else {
            assert(known[i] == before.frontier[i - gone.len()]);
        }
    }
    vstd::seq_lib::lemma_no_dup_in_concat(known, taken);
}

/// A visit takes nothing back: the domain stays, and the visited set, the
/// error log and the record of visits only grow.
pub proof fn lemma_visit_only_adds(before: CrawlState, failed: bool, hrefs: Seq<Seq<char>>)
    requires
        !before.is_done(),
    ensures
        before.after_visit(failed, hrefs).domain == before.domain,
        before.visited.subset_of(before.after_visit(failed, hrefs).visited),
        before.errors.is_prefix_of(before.after_visit(failed, hrefs).errors),
        before.history.is_prefix_of(before.after_visit(failed, hrefs).history),
{
    let after = before.after_visit(failed, hrefs);
    assert(after.errors.subrange(0, before.errors.len() as int) =~= before.errors);
    assert(after.history.subrange(0, before.history.len() as int) =~= before.history);
}

/// Links that are not yet visited, put behind a frontier, leave the
/// visited head of the frontier as it is.
proof fn lemma_visited_head_with_new_links(
    frontier: Seq<Seq<char>>,
    links: Seq<Seq<char>>,
    visited: Set<Seq<char>>,
)
    requires
        forall|k: int| 0 <= k < links.len() ==> !visited.contains(#[trigger] links[k]),
    ensures
        visited_head(frontier + links, visited) == visited_head(frontier, visited),
    decreases frontier.len(),
{
    if frontier.len() == 0 {
        assert(frontier + links =~= links);
    } else if visited.contains(frontier[0]) {
        assert((frontier + links).drop_first() =~= frontier.drop_first() + links);
        lemma_visited_head_with_new_links(frontier.drop_first(), links, visited);
    }
}

/// Every visit brings the crawl nearer to its end, where the links that
/// the pages hold come from a finite set of URLs.
///
/// Let `universe` be finite and hold the frontier and the links of the
/// page. Then the visit lowers this pair, the first number before the
/// second: the number of URLs of `universe` that are not yet visited, and
/// the number of visited URLs at the head of the frontier. Both are natural
/// numbers, so a crawl whose pages hold links of `universe` alone makes
/// finitely many visits. The frontier stays within `universe`.
pub proof fn lemma_visit_decreases(
    before: CrawlState,
    failed: bool,
    hrefs: Seq<Seq<char>>,
    universe: Set<Seq<char>>,
)
    requires
        before.inv(),
        !before.is_done(),
        universe.finite(),
        within(before.frontier, universe),
        within(hrefs, universe),
    ensures
        within(before.after_visit(failed, hrefs).frontier, universe),
        ({
            let after = before.after_visit(failed, hrefs);
            ||| after.unvisited(universe).len() < before.unvisited(universe).len()
            ||| {
                &&& after.unvisited(universe).len() == before.unvisited(universe).len()
                &&& visited_head(after.frontier, after.visited) < visited_head(
                    before.frontier,
                    before.visited,
                )
            }
        }),
{
    let after = before.after_visit(failed, hrefs);
    let raw = before.frontier[0];
    let waiting = before.frontier.drop_first();
    let taken = before.links_taken(hrefs);
    let wanted = |href: Seq<char>|
        is_scrapeable(href) && !before.visited_after_dequeue().contains(href);
    assert forall|k: int| 0 <= k < taken.len() implies !after.visited.contains(
        #[trigger] taken[k],
    ) && universe.contains(taken[k]) by {
        hrefs.lemma_filter_pred(wanted, k);
        assert(hrefs.filter(wanted).contains(taken[k]));
        hrefs.lemma_filter_contains_rev(wanted, taken[k]);
    }
    assert forall|i: int| 0 <= i < after.frontier.len() implies universe.contains(
        #[trigger] after.frontier[i],
    ) by {
        if i < waiting.len() {
            assert(after.frontier[i] == before.frontier[i + 1]);
        } else {
            assert(after.frontier[i] == taken[i - waiting.len()]);
        }
    }
    if before.visited.contains(raw) {
        assert(after.visited =~= before.visited);
        lemma_visited_head_with_new_links(waiting, taken, after.visited);
    } else {
        assert(after.unvisited(universe) =~= before.unvisited(universe).remove(raw));
        assert(before.unvisited(universe).contains(raw));
    }
}

/// The page of an external URL adds nothing to the frontier, whatever it
/// holds: the crawl goes on as if the page were empty.
pub proof fn lemma_external_page_adds_no_links(
    before: CrawlState,
    failed: bool,
    hrefs: Seq<Seq<char>>,
)
    requires
        !before.is_done(),
        is_external(before.domain, before.next_url()),
    ensures
        before.after_visit(failed, hrefs).frontier == before.frontier.drop_first(),
        before.after_visit(failed, hrefs) == before.after_visit(failed, Seq::empty()),
{
}

/// Where the flattened lists hold an item, one of the lists holds it.
proof fn lemma_flatten_index(lists: Seq<Seq<Seq<char>>>, index: int) -> (at: (int, int))
    requires
        0 <= index < lists.flatten().len(),
    ensures
        0 <= at.0 < lists.len(),
        0 <= at.1 < lists[at.0].len(),
        lists[at.0][at.1] == lists.flatten()[index],
    decreases lists.len(),
{
    if lists.len() == 0 {
        (0, 0)
    } else {
        let rest = lists.drop_last();
        assert(rest.push(lists.last()) =~= lists);
        rest.lemma_flatten_push(lists.last());
        if index < rest.flatten().len() {
            lemma_flatten_index(rest, index)
        } else {
            (lists.len() - 1, index - rest.flatten().len())
        }
    }
}

/// Every URL that a crawl visits is the seed or a link that an earlier
/// visit took from the page of an internal URL. A link that stands on
/// external pages only is never visited.
pub proof fn lemma_visits_come_from_internal_pages(state: CrawlState, index: int)
    requires
        state.inv(),
        0 <= index < state.history.len(),
    ensures
        state.history[index].dequeued == origin(state.domain) || exists|source: int, link: int|
            0 <= source < index && 0 <= link < state.history[source].enqueued.len() && !is_external(
                state.domain,
                state.history[source].url,
            ) && #[trigger] state.history[source].enqueued[link] == state.history[index].dequeued,
{
    let taken = dequeued(state.history);
    let found = discovered(state.domain, state.history);
    let lists = state.history.map_values(|visit: Visit| visit.enqueued);
    lemma_visits_follow_discovery(state);
    assert(taken[index] == found[index]);
    if index > 0 {
        let (source, link): (int, int) = lemma_flatten_index(lists, index - 1);
        assert(state.history[source].enqueued[link] == state.history[index].dequeued);
        // A visit takes no link that it or an earlier visit dequeued, so
        // the source comes before the visit at `index`.
        assert(state.visit_is_regular(source));
    }
}

/// The visit at `index` failed to fetch `url`.
pub open spec fn failed_to_fetch(history: Seq<Visit>, index: int, url: Seq<char>) -> bool {
    0 <= index < history.len() && history[index].failed && history[index].url == url
}

/// The error log holds the URL of every visit whose fetch failed, once for
/// each failure and in the order of the failures, and nothing else.
pub proof fn lemma_error_log_is_complete(state: CrawlState)
    requires
        state.inv(),
    ensures
        state.errors == failed_urls(state.history),
        state.errors.len() == state.history.filter(|visit: Visit| visit.failed).len(),
        forall|url: Seq<char>|
            state.errors.contains(url) <==> exists|index: int|
                failed_to_fetch(state.history, index, url),
{
    let is_failed = |visit: Visit| visit.failed;
    let failures = state.history.filter(is_failed);
    assert forall|url: Seq<char>| state.errors.contains(url) implies exists|index: int|
        failed_to_fetch(state.history, index, url) by {
        let at: int = choose|at: int| 0 <= at < failures.len() && failures[at].url == url;
        state.history.lemma_filter_pred(is_failed, at);
        assert(failures.contains(failures[at]));
        state.history.lemma_filter_contains_rev(is_failed, failures[at]);
        let index: int = choose|index: int|
            0 <= index < state.history.len() && state.history[index] == failures[at];
        assert(failed_to_fetch(state.history, index, url));
    }
    assert forall|url: Seq<char>|
        (exists|index: int| failed_to_fetch(state.history, index, url)) implies state.errors.contains(
        url,
    ) by {
        let index: int = choose|index: int| failed_to_fetch(state.history, index, url);
        state.history.lemma_filter_contains(is_failed, index);
        let at: int = choose|at: int|
            0 <= at < failures.len() && failures[at] == state.history[index];
        assert(state.errors[at] == url);
    }
}

} // verus!
