//! What a crawl yields, said directly: the seed page, then the links of each
//! page in their order, depth first. The laws here tie the step-by-step
//! crawl to that description.

use vstd::prelude::*;
use crate::crawl::{
    advanced, answered, entered, frames_in_bound, is_crawl_of, lemma_advanced_marks_new,
    lemma_answered_marks_new, links_left, page_document, started, with_slash, without_first_link,
    CrawlView, FrameView, PendingView,
};
use crate::links::{child_links, is_excluded};
use crate::loader::{DocumentView, LoaderView};

verus! {

/// A stretch of a crawl: the documents it made, the addresses marked at its
/// end, and how many fetches had been answered by then.
pub ghost struct Walk {
    pub documents: Seq<DocumentView>,
    pub visited: Seq<Seq<char>>,
    pub fetches: int,
}

/// A stretch that makes and fetches nothing.
pub open spec fn stay(visited: Seq<Seq<char>>, fetches: int) -> Walk {
    Walk { documents: Seq::empty(), visited, fetches }
}

/// The stretch `first` followed by the stretch `rest`.
pub open spec fn then(first: Walk, rest: Walk) -> Walk {
    Walk {
        documents: first.documents + rest.documents,
        visited: rest.visited,
        fetches: rest.fetches,
    }
}

/// The crawl below the page at `url`, `depth` links below the seed, when
/// `visited` are marked and the fetch number `i` of the whole crawl is
/// answered by `web(i)`: nothing at the depth bound, in an excluded
/// directory or where the fetch of the page fails; else its links followed.
pub open spec fn expanded(
    loader: LoaderView,
    url: Seq<char>,
    depth: nat,
    visited: Seq<Seq<char>>,
    fetches: int,
    web: spec_fn(int) -> Option<Seq<char>>,
) -> Walk
    decreases loader.max_depth - depth, 1nat, 0nat,
{
    if depth >= loader.max_depth || is_excluded(loader.exclude_dirs, with_slash(url)) {
        stay(visited, fetches)
    } else {
        match web(fetches) {
            None => stay(visited, fetches + 1),
            Some(raw_html) => followed(
                loader,
                child_links(loader, raw_html, with_slash(url)),
                depth,
                visited,
                fetches + 1,
                web,
            ),
        }
    }
}

/// The crawl along `links`, found on a page `depth` links below the seed
/// and above the depth bound: a link marked already is passed over; any
/// other is marked and fetched; where that succeeds its document is made
/// and, if the link ends in a slash, the crawl goes on below it before it
/// turns to the next link.
pub open spec fn followed(
    loader: LoaderView,
    links: Seq<Seq<char>>,
    depth: nat,
    visited: Seq<Seq<char>>,
    fetches: int,
    web: spec_fn(int) -> Option<Seq<char>>,
) -> Walk
    decreases loader.max_depth - depth, 0nat, links.len(),
    when depth < loader.max_depth
{
    if links.len() == 0 {
        stay(visited, fetches)
    } else {
        let link = links[0];
        if visited.contains(link) {
            followed(loader, links.drop_first(), depth, visited, fetches, web)
        } else {
            let page = fetched_link(loader, link, depth, visited.push(link), fetches, web);
            then(page, followed(loader, links.drop_first(), depth, page.visited, page.fetches, web))
        }
    }
}

/// The crawl of the one link `link`, found on a page `depth` links below
/// the seed and marked just now among `visited`.
pub open spec fn fetched_link(
    loader: LoaderView,
    link: Seq<char>,
    depth: nat,
    visited: Seq<Seq<char>>,
    fetches: int,
    web: spec_fn(int) -> Option<Seq<char>>,
) -> Walk
    decreases loader.max_depth - depth, 0nat, 0nat,
    when depth < loader.max_depth
{
    match web(fetches) {
        None => stay(visited, fetches + 1),
        Some(raw_html) => {
            let made = Walk {
                documents: seq![page_document(raw_html, link)],
                visited,
                fetches: fetches + 1,
            };
            if "/"@.is_suffix_of(link) {
                then(made, expanded(loader, link, depth + 1, visited, fetches + 1, web))
            } else {
                made
            }
        },
    }
}

/// The whole crawl of `loader`, begun when `fetches` fetches have been
/// answered: nothing where the fetch of the seed fails; else the seed's
/// document and, with the seed marked, the crawl below the seed.
pub open spec fn root_walk(
    loader: LoaderView,
    fetches: int,
    web: spec_fn(int) -> Option<Seq<char>>,
) -> Walk {
    match web(fetches) {
        None => stay(Seq::empty(), fetches + 1),
        Some(raw_html) => then(
            Walk {
                documents: seq![page_document(raw_html, loader.url)],
                visited: seq![loader.url],
                fetches: fetches + 1,
            },
            expanded(loader, loader.url, 0, seq![loader.url], fetches + 1, web),
        ),
    }
}

/// The whole crawl of `loader`.
pub open spec fn loaded_walk(loader: LoaderView, web: spec_fn(int) -> Option<Seq<char>>) -> Walk {
    root_walk(loader, 0, web)
}

/// The documents that a crawl of `loader` yields when its fetch number `i`
/// is answered by `web(i)`.
pub open spec fn loaded(loader: LoaderView, web: spec_fn(int) -> Option<Seq<char>>) -> Seq<
    DocumentView,
> {
    loaded_walk(loader, web).documents
}

/// What is left of the links of the pages `frames`, innermost page first.
pub open spec fn frames_walk(
    loader: LoaderView,
    frames: Seq<FrameView>,
    visited: Seq<Seq<char>>,
    fetches: int,
    web: spec_fn(int) -> Option<Seq<char>>,
) -> Walk
    recommends
        frames_in_bound(loader, frames),
    decreases frames.len(),
{
    if frames.len() == 0 {
        stay(visited, fetches)
    } else {
        let top = followed(loader, frames.last().links, frames.last().depth, visited, fetches, web);
        then(top, frames_walk(loader, frames.drop_last(), top.visited, top.fetches, web))
    }
}

/// What comes of the fetch that the crawl `s` waits for, up to the point
/// where the crawl turns to the links left in its pages.
pub open spec fn pending_walk(
    loader: LoaderView,
    s: CrawlView,
    fetches: int,
    web: spec_fn(int) -> Option<Seq<char>>,
) -> Walk
    recommends
        is_crawl_of(loader, s),
{
    match s.pending {
        PendingView::Finished => stay(s.visited, fetches),
        PendingView::Root => root_walk(loader, fetches, web),
        PendingView::Expand { url, depth } => match web(fetches) {
            None => stay(s.visited, fetches + 1),
            Some(raw_html) => followed(
                loader,
                child_links(loader, raw_html, url),
                depth,
                s.visited,
                fetches + 1,
                web,
            ),
        },
        PendingView::Child { url } => fetched_link(
            loader,
            url,
            s.frames.last().depth,
            s.visited,
            fetches,
            web,
        ),
    }
}

/// All that is still to come of the crawl `s` when `fetches` fetches have
/// been answered.
pub open spec fn rest_of_crawl(
    loader: LoaderView,
    s: CrawlView,
    fetches: int,
    web: spec_fn(int) -> Option<Seq<char>>,
) -> Walk
    recommends
        is_crawl_of(loader, s),
{
    let first = pending_walk(loader, s, fetches, web);
    then(first, frames_walk(loader, s.frames, first.visited, first.fetches, web))
}

/// The documents that the crawl `s` ends with.
pub open spec fn outcome(
    loader: LoaderView,
    s: CrawlView,
    fetches: int,
    web: spec_fn(int) -> Option<Seq<char>>,
) -> Seq<DocumentView>
    recommends
        is_crawl_of(loader, s),
{
    s.documents + rest_of_crawl(loader, s, fetches, web).documents
}

/// Nothing before a stretch changes nothing.
proof fn lemma_then_after_stay(rest: Walk, visited: Seq<Seq<char>>, fetches: int)
    ensures
        then(stay(visited, fetches), rest) == rest,
{
    assert(Seq::<DocumentView>::empty() + rest.documents =~= rest.documents);
}

/// Three stretches in a row can be read either way.
proof fn lemma_then_is_associative(a: Walk, b: Walk, c: Walk)
    ensures
        then(then(a, b), c) == then(a, then(b, c)),
{
    assert((a.documents + b.documents) + c.documents =~= a.documents + (b.documents + c.documents));
}

/// A crawl that has moved on has before it what was left of its pages.
pub proof fn lemma_advanced_walk(
    loader: LoaderView,
    s: CrawlView,
    fetches: int,
    web: spec_fn(int) -> Option<Seq<char>>,
)
    requires
        frames_in_bound(loader, s.frames),
    ensures
        rest_of_crawl(loader, advanced(s), fetches, web) == frames_walk(
            loader,
            s.frames,
            s.visited,
            fetches,
            web,
        ),
    decreases s.frames.len(), links_left(s.frames),
{
    if s.frames.len() == 0 {
        lemma_then_after_stay(stay(s.visited, fetches), s.visited, fetches);
    } else {
        let top = s.frames.last();
        assert(top.depth < loader.max_depth);
        let below = s.frames.drop_last();
        assert(frames_in_bound(loader, below)) by {
            assert forall|i: int| 0 <= i < below.len() implies (#[trigger] below[i]).depth
                < loader.max_depth by {
                assert(below[i] == s.frames[i]);
            }
        }
        if top.links.len() == 0 {
            lemma_advanced_walk(loader, CrawlView { frames: below, ..s }, fetches, web);
            lemma_then_after_stay(
                frames_walk(loader, below, s.visited, fetches, web),
                s.visited,
                fetches,
            );
        } else {
            let link = top.links[0];
            let frames = without_first_link(s.frames);
            assert(frames.drop_last() =~= below);
            assert(frames.last() == FrameView { links: top.links.drop_first(), depth: top.depth });
            assert(frames_in_bound(loader, frames)) by {
                assert forall|i: int| 0 <= i < frames.len() implies (#[trigger] frames[i]).depth
                    < loader.max_depth by {
                    assert(frames[i].depth == s.frames[i].depth);
                }
            }
            if s.visited.contains(link) {
                lemma_advanced_walk(loader, CrawlView { frames, ..s }, fetches, web);
            } else {
                let seen = s.visited.push(link);
                let page = fetched_link(loader, link, top.depth, seen, fetches, web);
                let others = followed(
                    loader,
                    top.links.drop_first(),
                    top.depth,
                    page.visited,
                    page.fetches,
                    web,
                );
                let outer = frames_walk(loader, below, others.visited, others.fetches, web);
                lemma_then_is_associative(page, others, outer);
            }
        }
    }
}

/// A crawl about to go below a page has before it the crawl below that
/// page, then what was left of its pages.
pub proof fn lemma_entered_walk(
    loader: LoaderView,
    s: CrawlView,
    url: Seq<char>,
    depth: nat,
    fetches: int,
    web: spec_fn(int) -> Option<Seq<char>>,
)
    requires
        frames_in_bound(loader, s.frames),
    ensures
        entered(loader, s, url, depth).documents == s.documents,
        rest_of_crawl(loader, entered(loader, s, url, depth), fetches, web) == ({
            let below = expanded(loader, url, depth, s.visited, fetches, web);
            then(below, frames_walk(loader, s.frames, below.visited, below.fetches, web))
        }),
{
    if depth >= loader.max_depth || is_excluded(loader.exclude_dirs, with_slash(url)) {
        lemma_advanced_walk(loader, s, fetches, web);
        lemma_then_after_stay(
            frames_walk(loader, s.frames, s.visited, fetches, web),
            s.visited,
            fetches,
        );
        if s.visited.no_duplicates() {
            lemma_advanced_marks_new(loader, s);
        } else {
            lemma_advanced_keeps_documents(s);
        }
    }
}

/// Moving on makes no document.
pub proof fn lemma_advanced_keeps_documents(s: CrawlView)
    ensures
        advanced(s).documents == s.documents,
    decreases s.frames.len(), links_left(s.frames),
{
    if s.frames.len() == 0 {
    } else if s.frames.last().links.len() == 0 {
        lemma_advanced_keeps_documents(CrawlView { frames: s.frames.drop_last(), ..s });
    } else if s.visited.contains(s.frames.last().links[0]) {
        lemma_advanced_keeps_documents(CrawlView { frames: without_first_link(s.frames), ..s });
    }
}

/// Each answer brings the crawl one step along the way described: what the
/// crawl ends with is the same before the answer and after it.
pub proof fn lemma_answered_keeps_outcome(
    loader: LoaderView,
    s: CrawlView,
    fetches: int,
    web: spec_fn(int) -> Option<Seq<char>>,
)
    requires
        is_crawl_of(loader, s),
        !(s.pending is Finished),
    ensures
        outcome(loader, answered(loader, s, web(fetches)), fetches + 1, web) == outcome(
            loader,
            s,
            fetches,
            web,
        ),
        rest_of_crawl(loader, answered(loader, s, web(fetches)), fetches + 1, web).fetches
            == rest_of_crawl(loader, s, fetches, web).fetches,
{
    let next = answered(loader, s, web(fetches));
    let rest = rest_of_crawl(loader, s, fetches, web);
    let rest_next = rest_of_crawl(loader, next, fetches + 1, web);
    match s.pending {
        PendingView::Finished => {},
        PendingView::Root => match web(fetches) {
            None => {
                assert(s.frames =~= Seq::<FrameView>::empty());
            },
            Some(raw_html) => {
                let made = CrawlView {
                    visited: seq![loader.url],
                    documents: s.documents.push(page_document(raw_html, loader.url)),
                    ..s
                };
                lemma_entered_walk(loader, made, loader.url, 0, fetches + 1, web);
                let below = expanded(loader, loader.url, 0, seq![loader.url], fetches + 1, web);
                assert(s.documents + rest.documents =~= next.documents + rest_next.documents);
            },
        },
        PendingView::Expand { url, depth } => match web(fetches) {
            None => {
                lemma_advanced_walk(loader, s, fetches + 1, web);
                lemma_advanced_keeps_documents(s);
                lemma_then_after_stay(
                    frames_walk(loader, s.frames, s.visited, fetches + 1, web),
                    s.visited,
                    fetches + 1,
                );
            },
            Some(raw_html) => {
                let frame = FrameView { links: child_links(loader, raw_html, url), depth };
                let frames = s.frames.push(frame);
                assert(frames.drop_last() =~= s.frames);
                assert(frames_in_bound(loader, frames)) by {
                    assert forall|i: int| 0 <= i < frames.len() implies (#[trigger] frames[i]).depth
                        < loader.max_depth by {
                        if i < s.frames.len() {
                            assert(frames[i] == s.frames[i]);
                        }
                    }
                }
                lemma_advanced_walk(loader, CrawlView { frames, ..s }, fetches + 1, web);
                lemma_advanced_keeps_documents(CrawlView { frames, ..s });
            },
        },
        PendingView::Child { url } => match web(fetches) {
            None => {
                lemma_advanced_walk(loader, s, fetches + 1, web);
                lemma_advanced_keeps_documents(s);
                lemma_then_after_stay(
                    frames_walk(loader, s.frames, s.visited, fetches + 1, web),
                    s.visited,
                    fetches + 1,
                );
            },
            Some(raw_html) => {
                let made = CrawlView {
                    documents: s.documents.push(page_document(raw_html, url)),
                    ..s
                };
                let depth = s.frames.last().depth;
                assert(depth < loader.max_depth);
                if "/"@.is_suffix_of(url) {
                    lemma_entered_walk(loader, made, url, depth + 1, fetches + 1, web);
                } else {
                    lemma_advanced_walk(loader, made, fetches + 1, web);
                    lemma_advanced_keeps_documents(made);
                }
                assert(s.documents + rest.documents =~= next.documents + rest_next.documents);
            },
        },
    }
}

/// The crawl below a page takes back no fetch.
pub proof fn lemma_expanded_fetches_grow(
    loader: LoaderView,
    url: Seq<char>,
    depth: nat,
    visited: Seq<Seq<char>>,
    fetches: int,
    web: spec_fn(int) -> Option<Seq<char>>,
)
    ensures
        expanded(loader, url, depth, visited, fetches, web).fetches >= fetches,
    decreases loader.max_depth - depth, 1nat, 0nat,
{
    if depth < loader.max_depth {
        match web(fetches) {
            None => {},
            Some(raw_html) => {
                lemma_followed_fetches_grow(
                    loader,
                    child_links(loader, raw_html, with_slash(url)),
                    depth,
                    visited,
                    fetches + 1,
                    web,
                );
            },
        }
    }
}

/// The crawl along the links of a page takes back no fetch.
pub proof fn lemma_followed_fetches_grow(
    loader: LoaderView,
    links: Seq<Seq<char>>,
    depth: nat,
    visited: Seq<Seq<char>>,
    fetches: int,
    web: spec_fn(int) -> Option<Seq<char>>,
)
    requires
        depth < loader.max_depth,
    ensures
        followed(loader, links, depth, visited, fetches, web).fetches >= fetches,
    decreases loader.max_depth - depth, 0nat, links.len(),
{
    if links.len() > 0 {
        let link = links[0];
        if visited.contains(link) {
            lemma_followed_fetches_grow(loader, links.drop_first(), depth, visited, fetches, web);
        } else {
            let seen = visited.push(link);
            lemma_fetched_link_fetches_grow(loader, link, depth, seen, fetches, web);
            let page = fetched_link(loader, link, depth, seen, fetches, web);
            lemma_followed_fetches_grow(
                loader,
                links.drop_first(),
                depth,
                page.visited,
                page.fetches,
                web,
            );
        }
    }
}

/// The crawl of one link takes a fetch at least.
pub proof fn lemma_fetched_link_fetches_grow(
    loader: LoaderView,
    link: Seq<char>,
    depth: nat,
    visited: Seq<Seq<char>>,
    fetches: int,
    web: spec_fn(int) -> Option<Seq<char>>,
)
    requires
        depth < loader.max_depth,
    ensures
        fetched_link(loader, link, depth, visited, fetches, web).fetches > fetches,
    decreases loader.max_depth - depth, 0nat, 0nat,
{
    if web(fetches) is Some {
        lemma_expanded_fetches_grow(loader, link, depth + 1, visited, fetches + 1, web);
    }
}

/// What is left of the pages takes back no fetch either.
pub proof fn lemma_frames_fetches_grow(
    loader: LoaderView,
    frames: Seq<FrameView>,
    visited: Seq<Seq<char>>,
    fetches: int,
    web: spec_fn(int) -> Option<Seq<char>>,
)
    requires
        frames_in_bound(loader, frames),
    ensures
        frames_walk(loader, frames, visited, fetches, web).fetches >= fetches,
    decreases frames.len(),
{
    if frames.len() > 0 {
        let last = frames.last();
        assert(last.depth < loader.max_depth);
        lemma_followed_fetches_grow(loader, last.links, last.depth, visited, fetches, web);
        let top = followed(loader, last.links, last.depth, visited, fetches, web);
        let below = frames.drop_last();
        assert(frames_in_bound(loader, below)) by {
            assert forall|i: int| 0 <= i < below.len() implies (#[trigger] below[i]).depth
                < loader.max_depth by {
                assert(below[i] == frames[i]);
            }
        }
        lemma_frames_fetches_grow(loader, below, top.visited, top.fetches, web);
    }
}

/// A crawl that is over has its documents; one that waits has at least one
/// fetch before it.
pub proof fn lemma_rest_of_crawl(
    loader: LoaderView,
    s: CrawlView,
    fetches: int,
    web: spec_fn(int) -> Option<Seq<char>>,
)
    requires
        is_crawl_of(loader, s),
    ensures
        s.pending is Finished ==> outcome(loader, s, fetches, web) == s.documents && rest_of_crawl(
            loader,
            s,
            fetches,
            web,
        ).fetches == fetches,
        !(s.pending is Finished) ==> rest_of_crawl(loader, s, fetches, web).fetches > fetches,
{
    let first = pending_walk(loader, s, fetches, web);
    lemma_frames_fetches_grow(loader, s.frames, first.visited, first.fetches, web);
    match s.pending {
        PendingView::Finished => {
            assert(s.documents + Seq::<DocumentView>::empty() + Seq::<DocumentView>::empty()
                =~= s.documents);
            assert(s.frames =~= Seq::<FrameView>::empty());
        },
        PendingView::Root => {
            lemma_expanded_fetches_grow(loader, loader.url, 0, seq![loader.url], fetches + 1, web);
        },
        PendingView::Expand { url, depth } => match web(fetches) {
            None => {},
            Some(raw_html) => {
                lemma_followed_fetches_grow(
                    loader,
                    child_links(loader, raw_html, url),
                    depth,
                    s.visited,
                    fetches + 1,
                    web,
                );
            },
        },
        PendingView::Child { url } => {
            assert(s.frames.last().depth < loader.max_depth);
            lemma_fetched_link_fetches_grow(
                loader,
                url,
                s.frames.last().depth,
                s.visited,
                fetches,
                web,
            );
        },
    }
}

/// The crawl of `loader` after `n` answers, the fetch number `i` answered
/// by `web(i)`.
pub open spec fn crawl_after(
    loader: LoaderView,
    web: spec_fn(int) -> Option<Seq<char>>,
    n: nat,
) -> CrawlView
    decreases n,
{
    if n == 0 {
        started()
    } else {
        answered(loader, crawl_after(loader, web, (n - 1) as nat), web(n - 1))
    }
}

/// As long as the fetches described are not all answered the crawl waits,
/// and has before it what the description has.
pub proof fn lemma_crawl_on_its_way(
    loader: LoaderView,
    web: spec_fn(int) -> Option<Seq<char>>,
    n: nat,
)
    requires
        n <= loaded_walk(loader, web).fetches,
    ensures
        is_crawl_of(loader, crawl_after(loader, web, n)),
        outcome(loader, crawl_after(loader, web, n), n as int, web) == loaded(loader, web),
        rest_of_crawl(loader, crawl_after(loader, web, n), n as int, web).fetches == loaded_walk(
            loader,
            web,
        ).fetches,
        (crawl_after(loader, web, n).pending is Finished) <==> n == loaded_walk(loader, web).fetches,
    decreases n,
{
    let s = crawl_after(loader, web, n);
    if n == 0 {
        let root = root_walk(loader, 0, web);
        assert(s.frames =~= Seq::<FrameView>::empty());
        assert(Seq::<DocumentView>::empty() + (root.documents + Seq::<DocumentView>::empty())
            =~= root.documents);
    } else {
        let before = crawl_after(loader, web, (n - 1) as nat);
        lemma_crawl_on_its_way(loader, web, (n - 1) as nat);
        lemma_answered_marks_new(loader, before, web(n - 1));
        lemma_answered_keeps_outcome(loader, before, n - 1, web);
    }
    lemma_rest_of_crawl(loader, s, n as int, web);
}

/// What a crawl yields: answered fetch by fetch, the crawl of `loader` is
/// over after exactly as many answers as the description has fetches, and
/// then holds the documents described, in their order: the seed's first,
/// then those of each page's links as the page has them, depth first.
pub proof fn lemma_crawl_yields_loaded(loader: LoaderView, web: spec_fn(int) -> Option<Seq<char>>)
    ensures
        loaded_walk(loader, web).fetches >= 1,
        forall|n: nat|
            n < loaded_walk(loader, web).fetches ==> !(#[trigger] crawl_after(
                loader,
                web,
                n,
            ).pending is Finished),
        crawl_after(loader, web, loaded_walk(loader, web).fetches as nat).pending is Finished,
        crawl_after(loader, web, loaded_walk(loader, web).fetches as nat).documents == loaded(
            loader,
            web,
        ),
{
    lemma_rest_of_crawl(loader, started(), 0, web);
    assert(started().frames =~= Seq::<FrameView>::empty());
    let total = loaded_walk(loader, web).fetches;
    assert(rest_of_crawl(loader, started(), 0, web).fetches == total);
    assert forall|n: nat| n < total implies !(#[trigger] crawl_after(loader, web, n).pending
        is Finished) by {
        lemma_crawl_on_its_way(loader, web, n);
    }
    lemma_crawl_on_its_way(loader, web, total as nat);
    lemma_rest_of_crawl(loader, crawl_after(loader, web, total as nat), total, web);
}

/// A crawl with the depth bound 0 yields the seed's document and no other,
/// where the fetch of the seed succeeds, and fetches nothing else.
pub proof fn lemma_depth_zero_yields_seed(loader: LoaderView, web: spec_fn(int) -> Option<Seq<char>>)
    requires
        loader.max_depth == 0,
        web(0) is Some,
    ensures
        loaded(loader, web) == seq![page_document(web(0)->0, loader.url)],
        loaded(loader, web).len() == 1,
        loaded_walk(loader, web).fetches == 1,
        answered(loader, started(), web(0)).pending is Finished,
        answered(loader, started(), web(0)).documents == loaded(loader, web),
{
    let document = page_document(web(0)->0, loader.url);
    assert(seq![document] + Seq::<DocumentView>::empty() =~= seq![document]);
    assert(Seq::<DocumentView>::empty().push(document) =~= seq![document]);
}

/// A crawl whose seed cannot be fetched yields nothing.
pub proof fn lemma_failed_seed_yields_nothing(
    loader: LoaderView,
    web: spec_fn(int) -> Option<Seq<char>>,
)
    requires
        web(0) is None,
    ensures
        loaded(loader, web) == Seq::<DocumentView>::empty(),
        answered(loader, started(), web(0)).pending is Finished,
{
}

/// Where the fetch of the seed succeeds, the seed's document comes first.
pub proof fn lemma_seed_comes_first(loader: LoaderView, web: spec_fn(int) -> Option<Seq<char>>)
    requires
        web(0) is Some,
    ensures
        loaded(loader, web).len() >= 1,
        loaded(loader, web)[0] == page_document(web(0)->0, loader.url),
{
}

} // verus!
