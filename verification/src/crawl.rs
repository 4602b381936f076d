//! The crawl as a machine that its caller drives.
//!
//! The machine decides; its caller fetches. [`Crawl::next_fetch`] names the
//! address to fetch next, and [`Crawl::on_fetched`] takes what the fetch came
//! to. When `next_fetch` has nothing more to name, the crawl is over.

use crate::page::{links_of, page_links, record_of, scrape_page_data, PageRecord};
use crate::traversal::{
    is_success_code, lemma_dispatch_tidy, lemma_record_tidy, Answer, Progress,
};
use vstd::prelude::*;

verus! {

/// What fetching one address came to.
#[derive(Debug)]
pub enum FetchOutcome {
    /// The exchange did not complete. This ends the crawl.
    TransportFailure,
    /// The exchange completed, with this status code and this text.
    HttpStatus { code: u16, body: String },
}

impl View for FetchOutcome {
    type V = Answer;

    open spec fn view(&self) -> Answer {
        match self {
            FetchOutcome::TransportFailure => Answer::TransportFailure,
            FetchOutcome::HttpStatus { code, body } => Answer::Http {
                code: *code as nat,
                body: body@,
            },
        }
    }
}

/// Tells whether a status code reports success: 200 up to 299.
pub fn is_success(code: u16) -> (ok: bool)
    ensures
        ok == is_success_code(code as nat),
{
    200 <= code && code < 300
}

/// One address to visit, and how many links away from the seed it was found.
#[derive(Debug, PartialEq, Eq)]
pub struct Visit {
    pub url: String,
    pub depth: usize,
}

/// A [`Visit`] as plain values.
pub struct VisitView {
    pub url: Seq<char>,
    pub depth: nat,
}

impl View for Visit {
    type V = VisitView;

    open spec fn view(&self) -> VisitView {
        VisitView { url: self.url@, depth: self.depth as nat }
    }
}

impl DeepView for Visit {
    type V = VisitView;

    open spec fn deep_view(&self) -> VisitView {
        self@
    }
}

impl Clone for Visit {
    fn clone(&self) -> (copy: Visit)
        ensures
            copy@ == self@,
    {
        Visit { url: self.url.clone(), depth: self.depth }
    }
}

/// The visits that the links of a page read at one level above `depth` add
/// to the work still to do: one for each link, the first link last, so that
/// it is the next to be taken.
pub open spec fn children(links: Seq<Seq<char>>, depth: nat) -> Seq<VisitView> {
    Seq::new(links.len(), |i: int| VisitView { url: links[links.len() - 1 - i], depth })
}

/// The state of a crawl, as mathematics.
pub struct CrawlView {
    /// The depth at which visiting stops: the seed is at depth 0.
    pub max_depth: nat,
    /// The visits still to do; the next one to take is the last.
    pub pending: Seq<VisitView>,
    /// The visit that was dispatched and waits for its answer.
    pub current: Option<VisitView>,
    /// What has been done.
    pub progress: Progress,
}

impl CrawlView {
    /// A crawl that has only its seed to visit.
    pub open spec fn start(seed: Seq<char>, max_depth: nat) -> CrawlView {
        CrawlView {
            max_depth,
            pending: seq![VisitView { url: seed, depth: 0 }],
            current: None,
            progress: Progress::fresh(),
        }
    }

    /// Whether `v` is to be fetched: it lies within the depth bound and its
    /// address has not been dispatched yet.
    pub open spec fn eligible(self, v: VisitView) -> bool {
        v.depth < self.max_depth && !self.progress.visited.contains(v.url)
    }

    /// The state after the next fetch has been asked for. While an answer is
    /// awaited nothing changes. Else the pending visits are taken from the
    /// last one down; those not to be fetched are dropped, and the first that
    /// is to be fetched is dispatched.
    pub open spec fn dispatched(self) -> CrawlView
        decreases self.pending.len(),
    {
        if self.current is Some || self.pending.len() == 0 {
            self
        } else {
            let top = self.pending.last();
            let rest = CrawlView { pending: self.pending.drop_last(), ..self };
            if self.eligible(top) {
                CrawlView { current: Some(top), progress: self.progress.dispatch(top.url), ..rest }
            } else {
                rest.dispatched()
            }
        }
    }

    /// The state after the awaited answer has come. Where none was awaited
    /// nothing changes. A transport failure ends the crawl: nothing stays
    /// pending. A status other than success leaves the page out. A page read
    /// is recorded, and its links become the next visits, one level down.
    pub open spec fn settled(self, answer: Answer) -> CrawlView {
        match self.current {
            None => self,
            Some(v) => match answer {
                Answer::TransportFailure => CrawlView {
                    pending: Seq::empty(),
                    current: None,
                    progress: self.progress.fail(),
                    ..self
                },
                Answer::Http { code, body } => if is_success_code(code) {
                    CrawlView {
                        pending: self.pending + children(links_of(body, v.url), v.depth + 1),
                        current: None,
                        progress: self.progress.record(record_of(body, v.url)),
                        ..self
                    }
                } else {
                    CrawlView { current: None, ..self }
                },
            },
        }
    }

    /// Whether the crawl is over: nothing is pending and no answer awaited.
    pub open spec fn finished(self) -> bool {
        self.pending.len() == 0 && self.current is None
    }

    /// What holds of every state that a crawl can reach: its progress is
    /// tidy; the visit that waits for its answer lies within the depth bound,
    /// and its address is dispatched and not yet recorded; a failed crawl has
    /// nothing left to do.
    pub open spec fn wf(self) -> bool {
        &&& self.progress.tidy()
        &&& self.current matches Some(v) ==> {
            &&& v.depth < self.max_depth
            &&& self.progress.visited.contains(v.url)
            &&& !self.progress.has_record_of(v.url)
        }
        &&& self.progress.failed ==> self.finished()
    }
}

/// What the machine says of an answer it was given.
#[derive(Debug, Clone, Copy, PartialEq, Eq)]
pub enum Verdict {
    /// The page was read and recorded; its links are pending.
    Recorded,
    /// The status was not success: the page is left out.
    Skipped,
    /// The fetch failed in transport: the crawl is over, without a result.
    Aborted,
    /// No answer was awaited: nothing was done with this one.
    Unexpected,
}

/// The verdict on `answer` in a state where `current` is awaited.
pub open spec fn verdict_on(current: Option<VisitView>, answer: Answer) -> Verdict {
    match current {
        None => Verdict::Unexpected,
        Some(_) => match answer {
            Answer::TransportFailure => Verdict::Aborted,
            Answer::Http { code, body } => if is_success_code(code) {
                Verdict::Recorded
            } else {
                Verdict::Skipped
            },
        },
    }
}

/// Every state that asking for the next fetch leads to is well formed, if
/// the state before was.
pub proof fn lemma_dispatched_wf(s: CrawlView)
    requires
        s.wf(),
    ensures
        s.dispatched().wf(),
    decreases s.pending.len(),
{
    if s.current is Some || s.pending.len() == 0 {
    } else {
        let top = s.pending.last();
        let rest = CrawlView { pending: s.pending.drop_last(), ..s };
        if s.eligible(top) {
            lemma_dispatch_tidy(s.progress, top.url);
        } else {
            lemma_dispatched_wf(rest);
        }
    }
}

/// Every state that an answer leads to is well formed, if the state before
/// was.
pub proof fn lemma_settled_wf(s: CrawlView, answer: Answer)
    requires
        s.wf(),
    ensures
        s.settled(answer).wf(),
{
    match s.current {
        None => {},
        Some(v) => match answer {
            Answer::TransportFailure => {},
            Answer::Http { code, body } => if is_success_code(code) {
                lemma_record_tidy(s.progress, record_of(body, v.url));
            } else {
            },
        },
    }
}

/// Tells whether `url` is among `list`.
fn contains(list: &Vec<String>, url: &String) -> (found: bool)
    ensures
        found == list.deep_view().contains(url@),
{
    let mut i: usize = 0;
    while i < list.len()
        invariant
            i <= list.len(),
            forall|j: int| 0 <= j < i ==> list.deep_view()[j] != url@,
        decreases list.len() - i,
    {
        if list[i] == *url {
            assert(list.deep_view()[i as int] == url@);
            return true;
        }
        i = i + 1;
    }
    false
}

/// One crawl: what is left to visit, and what was visited and read.
pub struct Crawl {
    max_depth: usize,
    pending: Vec<Visit>,
    current: Option<Visit>,
    visited: Vec<String>,
    results: Vec<PageRecord>,
    failed: bool,
}

impl View for Crawl {
    type V = CrawlView;

    closed spec fn view(&self) -> CrawlView {
        CrawlView {
            max_depth: self.max_depth as nat,
            pending: self.pending.deep_view(),
            current: self.current.deep_view(),
            progress: Progress {
                visited: self.visited.deep_view(),
                results: self.results.deep_view(),
                failed: self.failed,
            },
        }
    }
}

impl Crawl {
    /// Begins a crawl at `seed` that visits addresses less than `max_depth`
    /// links away from it.
    pub fn new(seed: &str, max_depth: usize) -> (crawl: Crawl)
        ensures
            crawl@ == CrawlView::start(seed@, max_depth as nat),
            crawl@.wf(),
    {
        let mut pending: Vec<Visit> = Vec::new();
        pending.push(Visit { url: seed.to_owned(), depth: 0 });
        let crawl = Crawl {
            max_depth,
            pending,
            current: None,
            visited: Vec::new(),
            results: Vec::new(),
            failed: false,
        };
        assert(crawl@.pending =~= CrawlView::start(seed@, max_depth as nat).pending);
        assert(crawl@.progress.visited =~= Seq::empty());
        assert(crawl@.progress.results =~= Seq::empty());
        crawl
    }

    /// Names the next address to fetch, with its depth, or `None` when the
    /// crawl is over. The address named is dispatched: it will not be named
    /// again, whatever its fetch comes to. While an answer is awaited, the
    /// visit that awaits it is named again.
    pub fn next_fetch(&mut self) -> (next: Option<Visit>)
        requires
            old(self)@.wf(),
        ensures
            final(self)@ == old(self)@.dispatched(),
            final(self)@.wf(),
            next.deep_view() == final(self)@.current,
    {
        match &self.current {
            Some(awaited) => {
                return Some(awaited.clone());
            },
            None => {},
        }
        loop
            invariant
                self@.wf(),
                self@.current is None,
                self@.dispatched() == old(self)@.dispatched(),
            decreases self.pending.len(),
        {
            let ghost before = self@;
            match self.pending.pop() {
                None => {
                    return None;
                },
                Some(top) => {
                    assert(self@.pending =~= before.pending.drop_last());
                    assert(top@ == before.pending.last());
                    if top.depth < self.max_depth && !contains(&self.visited, &top.url) {
                        let ghost visited = self.visited.deep_view();
                        self.visited.push(top.url.clone());
                        assert(self.visited.deep_view() =~= visited.push(top.url@));
                        self.current = Some(top.clone());
                        proof {
                            lemma_dispatched_wf(before);
                        }
                        return Some(top);
                    }
                },
            }
        }
    }

    /// Takes what the awaited fetch came to. A transport failure ends the
    /// crawl. A status other than success leaves the page out: it gets no
    /// record and its links are not followed. Any other page is read and
    /// recorded, and each of its links that resolves becomes a visit one level
    /// down, the first link the next to be taken. Where no answer was awaited
    /// nothing is done.
    pub fn on_fetched(&mut self, outcome: FetchOutcome) -> (verdict: Verdict)
        requires
            old(self)@.wf(),
        ensures
            final(self)@ == old(self)@.settled(outcome@),
            final(self)@.wf(),
            verdict == verdict_on(old(self)@.current, outcome@),
    {
        let ghost before = self@;
        let ghost goal = before.settled(outcome@);
        proof {
            lemma_settled_wf(before, outcome@);
        }
        let awaited = match &self.current {
            Some(awaited) => awaited.clone(),
            None => {
                return Verdict::Unexpected;
            },
        };
        self.current = None;
        match outcome {
            FetchOutcome::TransportFailure => {
                self.pending.clear();
                self.failed = true;
                assert(self@.pending =~= goal.pending);
                Verdict::Aborted
            },
            FetchOutcome::HttpStatus { code, body } => {
                if !is_success(code) {
                    return Verdict::Skipped;
                }
                let record = scrape_page_data(body.as_str(), awaited.url.as_str());
                let ghost results = self.results.deep_view();
                self.results.push(record);
                assert(self.results.deep_view() =~= results.push(record@));
                let mut links = page_links(body.as_str(), awaited.url.as_str());
                let depth = awaited.depth + 1;
                let ghost all = links.deep_view();
                assert(self@.pending =~= before.pending + children(all, depth as nat).take(0));
                while links.len() > 0
                    invariant
                        links.len() <= all.len(),
                        links.deep_view() == all.take(links.len() as int),
                        self@ == (CrawlView {
                            pending: before.pending + children(all, depth as nat).take(
                                all.len() - links.len(),
                            ),
                            ..goal
                        }),
                    decreases links.len(),
                {
                    let ghost done = all.len() - links.len();
                    let ghost pending = self.pending.deep_view();
                    let ghost left = links.deep_view();
                    match links.pop() {
                        Some(link) => {
                            assert(link@ == left[left.len() - 1]);
                            assert(link@ == all[all.len() - 1 - done]);
                            assert(links.deep_view() =~= all.take(links.len() as int));
                            self.pending.push(Visit { url: link, depth });
                            assert(self.pending.deep_view() =~= pending.push(
                                VisitView { url: link@, depth: depth as nat },
                            ));
                            assert(self@.pending =~= before.pending + children(
                                all,
                                depth as nat,
                            ).take(done + 1));
                        },
                        None => {},
                    }
                }
                assert(self@.pending =~= goal.pending);
                Verdict::Recorded
            },
        }
    }

    /// The depth at which visiting stops.
    pub fn max_depth(&self) -> (max_depth: usize)
        ensures
            max_depth == self@.max_depth,
    {
        self.max_depth
    }

    /// The records of the pages read so far, in the order they were read.
    pub fn results(&self) -> (results: &Vec<PageRecord>)
        ensures
            results.deep_view() == self@.progress.results,
    {
        &self.results
    }

    /// The addresses dispatched so far, in the order of dispatch.
    pub fn visited(&self) -> (visited: &Vec<String>)
        ensures
            visited.deep_view() == self@.progress.visited,
    {
        &self.visited
    }

    /// Whether a fetch failed in transport.
    pub fn has_failed(&self) -> (failed: bool)
        ensures
            failed == self@.progress.failed,
    {
        self.failed
    }

    /// Whether the crawl is over.
    pub fn is_finished(&self) -> (finished: bool)
        ensures
            finished == self@.finished(),
    {
        self.pending.len() == 0 && self.current.is_none()
    }

    /// Hands over the records once the crawl is over. A crawl that failed, or
    /// one that is not over yet, has no result.
    pub fn into_results(self) -> (results: Option<Vec<PageRecord>>)
        ensures
            results.deep_view() == if self@.finished() && !self@.progress.failed {
                Some(self@.progress.results)
            } else {
                None
            },
    {
        if self.is_finished() && !self.failed {
            Some(self.results)
        } else {
            None
        }
    }
}

} // verus!
