//! What holds of every depth-first walk, whatever the site answers.

use crate::page::{links_of, record_of};
use crate::traversal::{
    answered, crawl, is_success_code, lemma_dispatch_tidy, lemma_record_tidy, passes_over, visit,
    visit_all, Answer, Progress,
};
use vstd::prelude::*;

verus! {

/// The walk of an address only adds: what was dispatched and recorded before
/// it stays where it was.
pub proof fn lemma_visit_extends(
    site: spec_fn(Seq<char>) -> Answer,
    max_depth: nat,
    url: Seq<char>,
    depth: nat,
    so_far: Progress,
)
    ensures
        visit(site, max_depth, url, depth, so_far).extends(so_far),
    decreases max_depth - depth, 0nat,
{
    if !passes_over(max_depth, url, depth, so_far) {
        let dispatched = so_far.dispatch(url);
        assert(dispatched.extends(so_far));
        match site(url) {
            Answer::TransportFailure => {},
            Answer::Http { code, body } => if is_success_code(code) {
                let recorded = dispatched.record(record_of(body, url));
                assert(recorded.extends(dispatched));
                lemma_visit_all_extends(site, max_depth, links_of(body, url), depth + 1, recorded);
            } else {
            },
        }
    }
}

/// The walk of a page's links only adds.
pub proof fn lemma_visit_all_extends(
    site: spec_fn(Seq<char>) -> Answer,
    max_depth: nat,
    links: Seq<Seq<char>>,
    depth: nat,
    so_far: Progress,
)
    ensures
        visit_all(site, max_depth, links, depth, so_far).extends(so_far),
    decreases max_depth - depth, 1 + links.len(),
{
    if links.len() > 0 {
        let first = visit(site, max_depth, links[0], depth, so_far);
        lemma_visit_extends(site, max_depth, links[0], depth, so_far);
        lemma_visit_all_extends(site, max_depth, links.drop_first(), depth, first);
    }
}

/// The walk of an address keeps a tidy progress tidy.
pub proof fn lemma_visit_tidy(
    site: spec_fn(Seq<char>) -> Answer,
    max_depth: nat,
    url: Seq<char>,
    depth: nat,
    so_far: Progress,
)
    requires
        so_far.tidy(),
    ensures
        visit(site, max_depth, url, depth, so_far).tidy(),
    decreases max_depth - depth, 0nat,
{
    if !passes_over(max_depth, url, depth, so_far) {
        let dispatched = so_far.dispatch(url);
        lemma_dispatch_tidy(so_far, url);
        match site(url) {
            Answer::TransportFailure => {},
            Answer::Http { code, body } => if is_success_code(code) {
                let recorded = dispatched.record(record_of(body, url));
                lemma_record_tidy(dispatched, record_of(body, url));
                lemma_visit_all_tidy(site, max_depth, links_of(body, url), depth + 1, recorded);
            } else {
            },
        }
    }
}

/// The walk of a page's links keeps a tidy progress tidy.
pub proof fn lemma_visit_all_tidy(
    site: spec_fn(Seq<char>) -> Answer,
    max_depth: nat,
    links: Seq<Seq<char>>,
    depth: nat,
    so_far: Progress,
)
    requires
        so_far.tidy(),
    ensures
        visit_all(site, max_depth, links, depth, so_far).tidy(),
    decreases max_depth - depth, 1 + links.len(),
{
    if links.len() > 0 {
        let first = visit(site, max_depth, links[0], depth, so_far);
        lemma_visit_tidy(site, max_depth, links[0], depth, so_far);
        lemma_visit_all_tidy(site, max_depth, links.drop_first(), depth, first);
    }
}

/// No duplicate visits: in a crawl no address is dispatched twice, and no
/// two records are of the same address.
pub proof fn lemma_crawl_visits_once(
    site: spec_fn(Seq<char>) -> Answer,
    seed: Seq<char>,
    max_depth: nat,
)
    ensures
        crawl(site, seed, max_depth).tidy(),
{
    lemma_visit_tidy(site, max_depth, seed, 0, Progress::fresh());
}

/// Whether the page at `from` was read and holds a link to `to`.
pub open spec fn links_to(site: spec_fn(Seq<char>) -> Answer, from: Seq<char>, to: Seq<char>) -> bool {
    site(from) matches Answer::Http { code, body } && is_success_code(code) && links_of(
        body,
        from,
    ).contains(to)
}

/// Whether `path` leads from `from` to `to`, each address after the first
/// a link on the page before it.
pub open spec fn is_path(
    site: spec_fn(Seq<char>) -> Answer,
    path: Seq<Seq<char>>,
    from: Seq<char>,
    to: Seq<char>,
) -> bool {
    &&& path.len() >= 1
    &&& path[0] == from
    &&& path.last() == to
    &&& forall|i: int| 0 <= i < path.len() - 1 ==> links_to(site, #[trigger] path[i], path[i + 1])
}

/// Whether `to` is `from` itself or can be reached from it by following at
/// most `steps` links, each found on a page that was read.
pub open spec fn reachable(
    site: spec_fn(Seq<char>) -> Answer,
    from: Seq<char>,
    to: Seq<char>,
    steps: nat,
) -> bool {
    exists|path: Seq<Seq<char>>| #[trigger] is_path(site, path, from, to) && path.len() <= steps + 1
}

/// Whether `to` is reachable within `steps` links from one of `links`.
pub open spec fn reachable_from_any(
    site: spec_fn(Seq<char>) -> Answer,
    links: Seq<Seq<char>>,
    to: Seq<char>,
    steps: nat,
) -> bool {
    exists|k: int| 0 <= k < links.len() && reachable(site, #[trigger] links[k], to, steps)
}

/// An address is reachable from itself.
pub proof fn lemma_reach_self(site: spec_fn(Seq<char>) -> Answer, url: Seq<char>, steps: nat)
    ensures
        reachable(site, url, url, steps),
{
    assert(is_path(site, seq![url], url, url));
}

/// One more link reaches one step further.
pub proof fn lemma_reach_step(
    site: spec_fn(Seq<char>) -> Answer,
    from: Seq<char>,
    mid: Seq<char>,
    to: Seq<char>,
    steps: nat,
)
    requires
        links_to(site, from, mid),
        reachable(site, mid, to, steps),
    ensures
        reachable(site, from, to, steps + 1),
{
    let rest = choose|path: Seq<Seq<char>>|
        #[trigger] is_path(site, path, mid, to) && path.len() <= steps + 1;
    let path = seq![from] + rest;
    assert forall|i: int| 0 <= i < path.len() - 1 implies links_to(
        site,
        #[trigger] path[i],
        path[i + 1],
    ) by {
        if i > 0 {
            assert(links_to(site, rest[i - 1], rest[i - 1 + 1]));
        }
    }
    assert(is_path(site, path, from, to));
}

/// At or beyond the depth bound the walk of links does nothing.
pub proof fn lemma_visit_all_beyond(
    site: spec_fn(Seq<char>) -> Answer,
    max_depth: nat,
    links: Seq<Seq<char>>,
    depth: nat,
    so_far: Progress,
)
    requires
        depth >= max_depth,
    ensures
        visit_all(site, max_depth, links, depth, so_far) == so_far,
    decreases links.len(),
{
    if links.len() > 0 {
        assert(passes_over(max_depth, links[0], depth, so_far));
        assert(visit(site, max_depth, links[0], depth, so_far) == so_far);
        lemma_visit_all_beyond(site, max_depth, links.drop_first(), depth, so_far);
    }
}

/// Every record that the walk of an address adds is of a page within the
/// depth bound: the walk began above the bound, and the page is reachable
/// from the address by fewer links than were left down to the bound.
pub proof fn lemma_visit_reach(
    site: spec_fn(Seq<char>) -> Answer,
    max_depth: nat,
    url: Seq<char>,
    depth: nat,
    so_far: Progress,
)
    ensures
        forall|i: int|
            so_far.results.len() <= i < visit(site, max_depth, url, depth, so_far).results.len()
                ==> depth < max_depth && reachable(
                site,
                url,
                (#[trigger] visit(site, max_depth, url, depth, so_far).results[i]).url,
                (max_depth - depth - 1) as nat,
            ),
    decreases max_depth - depth, 0nat,
{
    let after = visit(site, max_depth, url, depth, so_far);
    if !passes_over(max_depth, url, depth, so_far) {
        let dispatched = so_far.dispatch(url);
        match site(url) {
            Answer::TransportFailure => {},
            Answer::Http { code, body } => if is_success_code(code) {
                let links = links_of(body, url);
                let recorded = dispatched.record(record_of(body, url));
                let walked = visit_all(site, max_depth, links, depth + 1, recorded);
                assert(after == walked);
                lemma_visit_all_extends(site, max_depth, links, depth + 1, recorded);
                lemma_visit_all_reach(site, max_depth, links, depth + 1, recorded);
                assert forall|i: int| so_far.results.len() <= i < after.results.len() implies reachable(
                    site,
                    url,
                    (#[trigger] after.results[i]).url,
                    (max_depth - depth - 1) as nat,
                ) by {
                    let to = walked.results[i].url;
                    if i == so_far.results.len() {
                        assert(walked.results[i] == recorded.results[i]);
                        assert(to == url);
                        lemma_reach_self(site, url, (max_depth - depth - 1) as nat);
                    } else {
                        let steps = (max_depth - depth - 1) as nat;
                        let fewer = (max_depth - (depth + 1) - 1) as nat;
                        assert(depth + 1 < max_depth);
                        assert(reachable_from_any(site, links, to, fewer));
                        let k = choose|k: int|
                            0 <= k < links.len() && reachable(site, #[trigger] links[k], to, fewer);
                        assert(links.contains(links[k]));
                        assert(links_to(site, url, links[k]));
                        lemma_reach_step(site, url, links[k], to, fewer);
                    }
                }
            } else {
            },
        }
    }
}

/// Every record that the walk of links adds is of a page within the depth
/// bound, reachable from one of the links.
pub proof fn lemma_visit_all_reach(
    site: spec_fn(Seq<char>) -> Answer,
    max_depth: nat,
    links: Seq<Seq<char>>,
    depth: nat,
    so_far: Progress,
)
    ensures
        forall|i: int|
            so_far.results.len() <= i < visit_all(
                site,
                max_depth,
                links,
                depth,
                so_far,
            ).results.len() ==> depth < max_depth && reachable_from_any(
                site,
                links,
                (#[trigger] visit_all(site, max_depth, links, depth, so_far).results[i]).url,
                (max_depth - depth - 1) as nat,
            ),
    decreases max_depth - depth, 1 + links.len(),
{
    let after = visit_all(site, max_depth, links, depth, so_far);
    if depth >= max_depth {
        lemma_visit_all_beyond(site, max_depth, links, depth, so_far);
    } else if links.len() > 0 {
        let rest = links.drop_first();
        let first = visit(site, max_depth, links[0], depth, so_far);
        let steps = (max_depth - depth - 1) as nat;
        lemma_visit_extends(site, max_depth, links[0], depth, so_far);
        lemma_visit_all_extends(site, max_depth, rest, depth, first);
        lemma_visit_reach(site, max_depth, links[0], depth, so_far);
        lemma_visit_all_reach(site, max_depth, rest, depth, first);
        assert forall|i: int| so_far.results.len() <= i < after.results.len() implies reachable_from_any(
            site,
            links,
            (#[trigger] after.results[i]).url,
            steps,
        ) by {
            let to = after.results[i].url;
            if i < first.results.len() {
                assert(after.results[i] == first.results[i]);
                assert(reachable(site, links[0], to, steps));
            } else {
                assert(reachable_from_any(site, rest, to, steps));
                let k = choose|k: int|
                    0 <= k < rest.len() && reachable(site, #[trigger] rest[k], to, steps);
                assert(rest[k] == links[k + 1]);
                assert(reachable(site, links[k + 1], to, steps));
            }
        }
    }
}

/// Depth bound, for a bound of zero: the crawl dispatches nothing and reads
/// nothing.
pub proof fn lemma_zero_depth_reads_nothing(site: spec_fn(Seq<char>) -> Answer, seed: Seq<char>)
    ensures
        crawl(site, seed, 0) == Progress::fresh(),
{
}

/// Depth bound, for a bound of one or more: the seed is the first address
/// dispatched, whatever its fetch comes to.
pub proof fn lemma_seed_is_dispatched(
    site: spec_fn(Seq<char>) -> Answer,
    seed: Seq<char>,
    max_depth: nat,
)
    requires
        max_depth >= 1,
    ensures
        crawl(site, seed, max_depth).visited.len() >= 1,
        crawl(site, seed, max_depth).visited[0] == seed,
{
    let dispatched = Progress::fresh().dispatch(seed);
    assert(!passes_over(max_depth, seed, 0, Progress::fresh()));
    match site(seed) {
        Answer::TransportFailure => {},
        Answer::Http { code, body } => if is_success_code(code) {
            let recorded = dispatched.record(record_of(body, seed));
            lemma_visit_all_extends(site, max_depth, links_of(body, seed), 1, recorded);
            assert(dispatched.visited[0] == seed);
        } else {
        },
    }
}

/// Depth bound: every record of a crawl is of a page that can be reached
/// from the seed by following fewer than `max_depth` links.
pub proof fn lemma_records_within_depth(
    site: spec_fn(Seq<char>) -> Answer,
    seed: Seq<char>,
    max_depth: nat,
)
    ensures
        forall|i: int|
            0 <= i < crawl(site, seed, max_depth).results.len() ==> max_depth >= 1 && reachable(
                site,
                seed,
                (#[trigger] crawl(site, seed, max_depth).results[i]).url,
                (max_depth - 1) as nat,
            ),
{
    lemma_visit_reach(site, max_depth, seed, 0, Progress::fresh());
}

/// To walk two runs of links one after the other is to walk them as one.
pub proof fn lemma_visit_all_concat(
    site: spec_fn(Seq<char>) -> Answer,
    max_depth: nat,
    first: Seq<Seq<char>>,
    second: Seq<Seq<char>>,
    depth: nat,
    so_far: Progress,
)
    ensures
        visit_all(site, max_depth, first + second, depth, so_far) == visit_all(
            site,
            max_depth,
            second,
            depth,
            visit_all(site, max_depth, first, depth, so_far),
        ),
    decreases first.len(),
{
    if first.len() == 0 {
        assert(first + second =~= second);
    } else {
        assert((first + second).drop_first() =~= first.drop_first() + second);
        lemma_visit_all_concat(
            site,
            max_depth,
            first.drop_first(),
            second,
            depth,
            visit(site, max_depth, first[0], depth, so_far),
        );
    }
}

/// The progress of the walk of `links` once the first `count` of them are
/// walked.
pub open spec fn walked(
    site: spec_fn(Seq<char>) -> Answer,
    max_depth: nat,
    links: Seq<Seq<char>>,
    depth: nat,
    so_far: Progress,
    count: int,
) -> Progress {
    visit_all(site, max_depth, links.take(count), depth, so_far)
}

/// The links of a page are walked one by one, in their order: the walk of
/// each goes on from where the walk of those before it ended.
pub proof fn lemma_walked_step(
    site: spec_fn(Seq<char>) -> Answer,
    max_depth: nat,
    links: Seq<Seq<char>>,
    depth: nat,
    so_far: Progress,
    count: int,
)
    requires
        0 <= count < links.len(),
    ensures
        walked(site, max_depth, links, depth, so_far, count + 1) == visit(
            site,
            max_depth,
            links[count],
            depth,
            walked(site, max_depth, links, depth, so_far, count),
        ),
        walked(site, max_depth, links, depth, so_far, 0) == so_far,
        walked(site, max_depth, links, depth, so_far, links.len() as int) == visit_all(
            site,
            max_depth,
            links,
            depth,
            so_far,
        ),
{
    let before = walked(site, max_depth, links, depth, so_far, count);
    let one = seq![links[count]];
    assert(links.take(count + 1) =~= links.take(count) + one);
    lemma_visit_all_concat(site, max_depth, links.take(count), one, depth, so_far);
    assert(one.drop_first() =~= Seq::empty());
    assert(visit_all(site, max_depth, one, depth, before) == visit_all(
        site,
        max_depth,
        one.drop_first(),
        depth,
        visit(site, max_depth, links[count], depth, before),
    ));
    assert(links.take(0) =~= Seq::empty());
    assert(links.take(links.len() as int) =~= links);
}

/// What is recorded once some links are walked still stands, in its place,
/// once more of them are.
pub proof fn lemma_walked_extends(
    site: spec_fn(Seq<char>) -> Answer,
    max_depth: nat,
    links: Seq<Seq<char>>,
    depth: nat,
    so_far: Progress,
    fewer: int,
    more: int,
)
    requires
        0 <= fewer <= more <= links.len(),
    ensures
        walked(site, max_depth, links, depth, so_far, more).extends(
            walked(site, max_depth, links, depth, so_far, fewer),
        ),
{
    let between = links.subrange(fewer, more);
    assert(links.take(more) =~= links.take(fewer) + between);
    lemma_visit_all_concat(site, max_depth, links.take(fewer), between, depth, so_far);
    lemma_visit_all_extends(
        site,
        max_depth,
        between,
        depth,
        walked(site, max_depth, links, depth, so_far, fewer),
    );
}

/// Order, parent before descendants: the record of a page that is read
/// stands right after what was recorded before its visit, and so before
/// every record that the walk of its links adds.
pub proof fn lemma_page_precedes_descendants(
    site: spec_fn(Seq<char>) -> Answer,
    max_depth: nat,
    url: Seq<char>,
    depth: nat,
    so_far: Progress,
)
    requires
        !passes_over(max_depth, url, depth, so_far),
        site(url) matches Answer::Http { code, body } && is_success_code(code),
    ensures
        ({
            let after = visit(site, max_depth, url, depth, so_far);
            let page = record_of(site(url)->body, url);
            let read = so_far.dispatch(url).record(page);
            &&& after == visit_all(site, max_depth, links_of(site(url)->body, url), depth + 1, read)
            &&& after.extends(read)
            &&& read.results == so_far.results.push(page)
            &&& after.results[so_far.results.len() as int] == page
        }),
{
    let body = site(url)->body;
    let page = record_of(body, url);
    let read = so_far.dispatch(url).record(page);
    let after = visit(site, max_depth, url, depth, so_far);
    lemma_visit_all_extends(site, max_depth, links_of(body, url), depth + 1, read);
    assert(after == visit_all(site, max_depth, links_of(body, url), depth + 1, read));
    assert(read.results[so_far.results.len() as int] == page);
    assert(after.results[so_far.results.len() as int] == read.results[so_far.results.len() as int]);
}

/// Order, among siblings: where one link stands before another on a page,
/// the walk of the first is over before the walk of the second begins, so
/// every record from the first one's subtree stands before every record from
/// the second one's; and all of them stand, in their places, in what the
/// walk of all the links comes to.
pub proof fn lemma_siblings_in_order(
    site: spec_fn(Seq<char>) -> Answer,
    max_depth: nat,
    links: Seq<Seq<char>>,
    depth: nat,
    so_far: Progress,
    first: int,
    second: int,
)
    requires
        0 <= first < second < links.len(),
    ensures
        ({
            let before_first = walked(site, max_depth, links, depth, so_far, first);
            let after_first = visit(site, max_depth, links[first], depth, before_first);
            let before_second = walked(site, max_depth, links, depth, so_far, second);
            let after_second = visit(site, max_depth, links[second], depth, before_second);
            let all = visit_all(site, max_depth, links, depth, so_far);
            &&& after_first.extends(before_first)
            &&& before_second.extends(after_first)
            &&& after_second.extends(before_second)
            &&& all.extends(after_second)
        }),
{
    lemma_walked_step(site, max_depth, links, depth, so_far, first);
    lemma_walked_step(site, max_depth, links, depth, so_far, second);
    lemma_walked_extends(site, max_depth, links, depth, so_far, first, first + 1);
    lemma_walked_extends(site, max_depth, links, depth, so_far, first + 1, second);
    lemma_walked_extends(site, max_depth, links, depth, so_far, second, second + 1);
    lemma_walked_extends(site, max_depth, links, depth, so_far, second + 1, links.len() as int);
}

} // verus!
