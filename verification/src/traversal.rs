//! The depth-first walk of a site, as mathematics.
//!
//! A site is a function from addresses to answers. The walk of a site from
//! a seed is defined here by recursion, with no machine and no loop; the
//! crawl machine is proved to reproduce it.

use crate::page::{links_of, record_of, PageRecordView};
use vstd::prelude::*;

verus! {

/// What fetching one address came to.
pub enum Answer {
    /// The exchange did not complete.
    TransportFailure,
    /// The exchange completed, with this status code and this text.
    Http { code: nat, body: Seq<char> },
}

/// Whether a status code reports success: 200 up to 299.
pub open spec fn is_success_code(code: nat) -> bool {
    200 <= code < 300
}

/// What a walk has done so far.
pub struct Progress {
    /// The addresses dispatched for fetching, in the order of dispatch.
    pub visited: Seq<Seq<char>>,
    /// The records of the pages read, in the order they were read.
    pub results: Seq<PageRecordView>,
    /// Whether a fetch failed in transport, which ends the walk.
    pub failed: bool,
}

impl Progress {
    /// Nothing done yet.
    pub open spec fn fresh() -> Progress {
        Progress { visited: Seq::empty(), results: Seq::empty(), failed: false }
    }

    /// This progress with `url` dispatched.
    pub open spec fn dispatch(self, url: Seq<char>) -> Progress {
        Progress { visited: self.visited.push(url), ..self }
    }

    /// This progress with one more page read.
    pub open spec fn record(self, page: PageRecordView) -> Progress {
        Progress { results: self.results.push(page), ..self }
    }

    /// This progress with the walk ended by a transport failure.
    pub open spec fn fail(self) -> Progress {
        Progress { failed: true, ..self }
    }

    /// Whether a page fetched from `url` has been recorded.
    pub open spec fn has_record_of(self, url: Seq<char>) -> bool {
        exists|i: int| 0 <= i < self.results.len() && #[trigger] self.results[i].url == url
    }

    /// Whether nothing occurs twice: no address was dispatched twice, every
    /// record is of a dispatched address, and no two records are of the same
    /// address.
    pub open spec fn tidy(self) -> bool {
        &&& self.visited.no_duplicates()
        &&& forall|i: int|
            0 <= i < self.results.len() ==> self.visited.contains(#[trigger] self.results[i].url)
        &&& forall|i: int, j: int|
            0 <= i < j < self.results.len() ==> #[trigger] self.results[i].url
                != #[trigger] self.results[j].url
    }

    /// Whether this progress goes on from `earlier`: what was dispatched and
    /// recorded then still stands, in its place, and a failure stays.
    pub open spec fn extends(self, earlier: Progress) -> bool {
        &&& earlier.visited.is_prefix_of(self.visited)
        &&& earlier.results.is_prefix_of(self.results)
        &&& earlier.failed ==> self.failed
    }
}

/// Whether the walk passes over `url` at `depth`: after a failure, at or
/// beyond the depth bound, or where the address was dispatched before.
pub open spec fn passes_over(max_depth: nat, url: Seq<char>, depth: nat, so_far: Progress) -> bool {
    so_far.failed || depth >= max_depth || so_far.visited.contains(url)
}

/// The walk of `url` at `depth`: unless the address is passed over, it is
/// dispatched and fetched; a transport failure ends the walk, a status other
/// than success leaves the page out, and a page read is recorded before its
/// links are walked one level down.
pub open spec fn visit(
    site: spec_fn(Seq<char>) -> Answer,
    max_depth: nat,
    url: Seq<char>,
    depth: nat,
    so_far: Progress,
) -> Progress
    decreases max_depth - depth, 0nat,
{
    if passes_over(max_depth, url, depth, so_far) {
        so_far
    } else {
        let dispatched = so_far.dispatch(url);
        match site(url) {
            Answer::TransportFailure => dispatched.fail(),
            Answer::Http { code, body } => if is_success_code(code) {
                visit_all(
                    site,
                    max_depth,
                    links_of(body, url),
                    depth + 1,
                    dispatched.record(record_of(body, url)),
                )
            } else {
                dispatched
            },
        }
    }
}

/// The walk of each of `links` in turn at `depth`, each one's whole subtree
/// before the next.
pub open spec fn visit_all(
    site: spec_fn(Seq<char>) -> Answer,
    max_depth: nat,
    links: Seq<Seq<char>>,
    depth: nat,
    so_far: Progress,
) -> Progress
    decreases max_depth - depth, 1 + links.len(),
{
    if links.len() == 0 {
        so_far
    } else {
        visit_all(
            site,
            max_depth,
            links.drop_first(),
            depth,
            visit(site, max_depth, links[0], depth, so_far),
        )
    }
}

/// What follows the answer to the fetch of `url`, dispatched at `depth`: the
/// rest of [`visit`], from the answer on.
pub open spec fn answered(
    site: spec_fn(Seq<char>) -> Answer,
    max_depth: nat,
    url: Seq<char>,
    depth: nat,
    answer: Answer,
    dispatched: Progress,
) -> Progress {
    match answer {
        Answer::TransportFailure => dispatched.fail(),
        Answer::Http { code, body } => if is_success_code(code) {
            visit_all(
                site,
                max_depth,
                links_of(body, url),
                depth + 1,
                dispatched.record(record_of(body, url)),
            )
        } else {
            dispatched
        },
    }
}

/// The crawl of a site from `seed`, down to less than `max_depth` links away.
pub open spec fn crawl(site: spec_fn(Seq<char>) -> Answer, seed: Seq<char>, max_depth: nat) -> Progress {
    visit(site, max_depth, seed, 0, Progress::fresh())
}

/// Dispatching an address for the first time keeps the progress tidy, and
/// there is no record of that address yet.
pub proof fn lemma_dispatch_tidy(so_far: Progress, url: Seq<char>)
    requires
        so_far.tidy(),
        !so_far.visited.contains(url),
    ensures
        so_far.dispatch(url).tidy(),
        so_far.dispatch(url).visited.contains(url),
        !so_far.dispatch(url).has_record_of(url),
{
    let visited = so_far.visited;
    let results = so_far.results;
    let after = visited.push(url);
    assert forall|i: int, j: int|
        0 <= i < after.len() && 0 <= j < after.len() && i != j implies after[i] != after[j] by {
        if i < visited.len() && j < visited.len() {
            assert(visited[i] != visited[j]);
        } else if i < visited.len() {
            assert(visited.contains(visited[i]));
        } else {
            assert(visited.contains(visited[j]));
        }
    }
    assert(after[visited.len() as int] == url);
    assert forall|i: int| 0 <= i < results.len() implies after.contains(
        #[trigger] results[i].url,
    ) && results[i].url != url by {
        assert(visited.contains(results[i].url));
        let k = choose|k: int| 0 <= k < visited.len() && visited[k] == results[i].url;
        assert(after[k] == results[i].url);
    }
}

/// Recording the page of an address that is dispatched and has no record yet
/// keeps the progress tidy.
pub proof fn lemma_record_tidy(so_far: Progress, page: PageRecordView)
    requires
        so_far.tidy(),
        so_far.visited.contains(page.url),
        !so_far.has_record_of(page.url),
    ensures
        so_far.record(page).tidy(),
{
    let results = so_far.results;
    let after = results.push(page);
    assert forall|i: int, j: int| 0 <= i < j < after.len() implies #[trigger] after[i].url
        != #[trigger] after[j].url by {
        if j < results.len() {
            assert(results[i].url != results[j].url);
        } else {
            assert(results[i].url != page.url);
        }
    }
}

} // verus!
