//! What holds of every crawl.
//!
//! The crawl machine of [`crate::crawl`] is driven from outside, one fetch
//! at a time. The laws here say what every run of it comes to, whatever the
//! site answers: each is quantified over the site, a function from addresses
//! to answers.

use crate::crawl::{children, verdict_on, CrawlView, Verdict, VisitView};
use crate::page::{links_of, record_of};
use crate::traversal::{
    answered, crawl, is_success_code, passes_over, visit, visit_all, Answer, Progress,
};
use crate::walk_laws::{lemma_visit_all_extends, lemma_visit_extends};
use vstd::prelude::*;

verus! {

/// What the walk of the pending visits adds to `so_far`, the last of them
/// first.
pub open spec fn drain(
    site: spec_fn(Seq<char>) -> Answer,
    max_depth: nat,
    pending: Seq<VisitView>,
    so_far: Progress,
) -> Progress
    decreases pending.len(),
{
    if pending.len() == 0 {
        so_far
    } else {
        drain(
            site,
            max_depth,
            pending.drop_last(),
            visit(site, max_depth, pending.last().url, pending.last().depth, so_far),
        )
    }
}

/// What a crawl in state `s` comes to on `site`, if it is run to its end:
/// the answer that is awaited is taken from the site, and the pending visits
/// are walked.
pub open spec fn outcome(s: CrawlView, site: spec_fn(Seq<char>) -> Answer) -> Progress {
    let so_far = match s.current {
        Some(v) => answered(site, s.max_depth, v.url, v.depth, site(v.url), s.progress),
        None => s.progress,
    };
    drain(site, s.max_depth, s.pending, so_far)
}

/// After a failure the walk of pending visits adds nothing.
proof fn lemma_drain_failed(
    site: spec_fn(Seq<char>) -> Answer,
    max_depth: nat,
    pending: Seq<VisitView>,
    so_far: Progress,
)
    requires
        so_far.failed,
    ensures
        drain(site, max_depth, pending, so_far) == so_far,
    decreases pending.len(),
{
    if pending.len() > 0 {
        lemma_drain_failed(site, max_depth, pending.drop_last(), so_far);
    }
}

/// To walk the visits that a page's links add is to walk the links in turn.
proof fn lemma_drain_children(
    site: spec_fn(Seq<char>) -> Answer,
    max_depth: nat,
    pending: Seq<VisitView>,
    links: Seq<Seq<char>>,
    depth: nat,
    so_far: Progress,
)
    ensures
        drain(site, max_depth, pending + children(links, depth), so_far) == drain(
            site,
            max_depth,
            pending,
            visit_all(site, max_depth, links, depth, so_far),
        ),
    decreases links.len(),
{
    let all = pending + children(links, depth);
    if links.len() == 0 {
        assert(all =~= pending);
    } else {
        let rest = links.drop_first();
        assert(all.last() == VisitView { url: links[0], depth });
        assert(all.drop_last() =~= pending + children(rest, depth));
        lemma_drain_children(
            site,
            max_depth,
            pending,
            rest,
            depth,
            visit(site, max_depth, links[0], depth, so_far),
        );
    }
}

/// A crawl that has only its seed to visit comes to the depth-first walk
/// from the seed.
pub proof fn lemma_start_outcome(
    site: spec_fn(Seq<char>) -> Answer,
    seed: Seq<char>,
    max_depth: nat,
)
    ensures
        outcome(CrawlView::start(seed, max_depth), site) == crawl(site, seed, max_depth),
{
    let s = CrawlView::start(seed, max_depth);
    assert(s.pending.drop_last() =~= Seq::empty());
    assert(drain(site, max_depth, s.pending.drop_last(), crawl(site, seed, max_depth)) == crawl(
        site,
        seed,
        max_depth,
    ));
}

/// Asking for the next fetch does not change what the crawl comes to.
pub proof fn lemma_dispatched_outcome(s: CrawlView, site: spec_fn(Seq<char>) -> Answer)
    requires
        s.wf(),
    ensures
        outcome(s.dispatched(), site) == outcome(s, site),
    decreases s.pending.len(),
{
    if s.current is Some || s.pending.len() == 0 {
    } else {
        let top = s.pending.last();
        let rest = CrawlView { pending: s.pending.drop_last(), ..s };
        if s.eligible(top) {
            assert(!passes_over(s.max_depth, top.url, top.depth, s.progress));
        } else {
            lemma_dispatched_outcome(rest, site);
        }
    }
}

/// Taking the site's answer to the awaited fetch does not change what the
/// crawl comes to.
pub proof fn lemma_settled_outcome(s: CrawlView, site: spec_fn(Seq<char>) -> Answer)
    requires
        s.wf(),
        s.current is Some,
    ensures
        outcome(s.settled(site(s.current->0.url)), site) == outcome(s, site),
{
    let v = s.current->0;
    match site(v.url) {
        Answer::TransportFailure => {
            lemma_drain_failed(site, s.max_depth, s.pending, s.progress.fail());
        },
        Answer::Http { code, body } => {
            lemma_drain_children(
                site,
                s.max_depth,
                s.pending,
                links_of(body, v.url),
                v.depth + 1,
                s.progress.record(record_of(body, v.url)),
            );
        },
    }
}

/// A crawl that is over has come to what it holds.
pub proof fn lemma_finished_outcome(s: CrawlView, site: spec_fn(Seq<char>) -> Answer)
    requires
        s.finished(),
    ensures
        outcome(s, site) == s.progress,
{
}

/// A crawl begins in a well-formed state.
pub proof fn lemma_start_wf(seed: Seq<char>, max_depth: nat)
    ensures
        CrawlView::start(seed, max_depth).wf(),
{
}

/// The walk of pending visits only adds.
proof fn lemma_drain_extends(
    site: spec_fn(Seq<char>) -> Answer,
    max_depth: nat,
    pending: Seq<VisitView>,
    so_far: Progress,
)
    ensures
        drain(site, max_depth, pending, so_far).extends(so_far),
    decreases pending.len(),
{
    if pending.len() > 0 {
        let top = pending.last();
        let next = visit(site, max_depth, top.url, top.depth, so_far);
        lemma_visit_extends(site, max_depth, top.url, top.depth, so_far);
        lemma_drain_extends(site, max_depth, pending.drop_last(), next);
    }
}

/// What a crawl comes to goes on from what it holds: nothing dispatched or
/// recorded is lost or moved by running on.
pub proof fn lemma_outcome_extends(s: CrawlView, site: spec_fn(Seq<char>) -> Answer)
    ensures
        outcome(s, site).extends(s.progress),
{
    match s.current {
        Some(v) => {
            let next = answered(site, s.max_depth, v.url, v.depth, site(v.url), s.progress);
            match site(v.url) {
                Answer::TransportFailure => {},
                Answer::Http { code, body } => if is_success_code(code) {
                    let read = s.progress.record(record_of(body, v.url));
                    assert(read.extends(s.progress));
                    lemma_visit_all_extends(
                        site,
                        s.max_depth,
                        links_of(body, v.url),
                        v.depth + 1,
                        read,
                    );
                } else {
                },
            }
            lemma_drain_extends(site, s.max_depth, s.pending, next);
        },
        None => {
            lemma_drain_extends(site, s.max_depth, s.pending, s.progress);
        },
    }
}

/// Skip on bad status: an answer whose status is not success, whichever it
/// is, gets the verdict that tells the caller to warn; it adds no record and
/// no pending visit, so the links of that page are never followed; only the
/// wait for the answer ends. The address stays dispatched.
pub proof fn lemma_bad_status_is_skipped(s: CrawlView, code: nat, body: Seq<char>)
    requires
        s.current is Some,
        !is_success_code(code),
    ensures
        verdict_on(s.current, Answer::Http { code, body }) == Verdict::Skipped,
        s.settled(Answer::Http { code, body }) == (CrawlView { current: None, ..s }),
{
}

/// The number of fetches that a crawl in state `s` has yet to ask for, if
/// it is run to its end on `site`.
pub open spec fn fetches_left(s: CrawlView, site: spec_fn(Seq<char>) -> Answer) -> int {
    outcome(s, site).visited.len() - s.progress.visited.len()
}

/// Asking for the next fetch either names one, which dispatches one more
/// address, or ends the crawl.
pub proof fn lemma_dispatched_counts(s: CrawlView)
    requires
        s.current is None,
    ensures
        s.dispatched().progress.results == s.progress.results,
        s.dispatched().current is Some ==> s.dispatched().progress.visited.len()
            == s.progress.visited.len() + 1,
        s.dispatched().current is None ==> s.dispatched().finished() && s.dispatched().progress
            == s.progress,
    decreases s.pending.len(),
{
    if s.pending.len() > 0 {
        let top = s.pending.last();
        let rest = CrawlView { pending: s.pending.drop_last(), ..s };
        if !s.eligible(top) {
            lemma_dispatched_counts(rest);
        }
    }
}

/// Termination: every fetch that a crawl asks for uses up one of the fetches
/// it has left, of which there are never less than none. So on any site,
/// with or without cycles, a crawl asks for no more fetches than the
/// depth-first walk dispatches addresses, and then it is over.
pub proof fn lemma_every_fetch_counts(s: CrawlView, site: spec_fn(Seq<char>) -> Answer)
    requires
        s.wf(),
        s.current is None,
        s.dispatched().current is Some,
    ensures
        fetches_left(s.dispatched(), site) == fetches_left(s, site) - 1,
        fetches_left(s.dispatched(), site) >= 0,
{
    lemma_dispatched_outcome(s, site);
    lemma_dispatched_counts(s);
    lemma_outcome_extends(s.dispatched(), site);
}

/// Termination: taking the site's answer to the awaited fetch leaves the
/// number of fetches left as it was.
pub proof fn lemma_answer_keeps_count(s: CrawlView, site: spec_fn(Seq<char>) -> Answer)
    requires
        s.wf(),
        s.current is Some,
    ensures
        fetches_left(s.settled(site(s.current->0.url)), site) == fetches_left(s, site),
{
    lemma_settled_outcome(s, site);
}

} // verus!
