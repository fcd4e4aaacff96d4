//! The traversal: which address to fetch next, and what to make of each
//! answer. The crawl itself fetches nothing; its caller does, one address at
//! a time, and hands back what came.

use vstd::prelude::*;
use crate::content::page_text;
use crate::links::{child_links, is_excluded};
use crate::loader::{documents_of, Document, DocumentView, LoaderView, RecursiveWebLoader};
use crate::metadata::metadata_of_page;
use crate::text::{ends_with, owned, text_of, texts_of};

verus! {

/// The document made of the page `raw_html`, fetched from `url`.
pub open spec fn page_document(raw_html: Seq<char>, url: Seq<char>) -> DocumentView {
    DocumentView { page_content: page_text(raw_html), metadata: metadata_of_page(raw_html, url) }
}

/// `url`, with a slash at its end if it has none.
pub open spec fn with_slash(url: Seq<char>) -> Seq<char> {
    if "/"@.is_suffix_of(url) {
        url
    } else {
        url + "/"@
    }
}

impl RecursiveWebLoader {
    /// The document of the page at `url`, from the answer to its fetch: none
    /// where the fetch failed.
    pub fn get_url_as_doc(&self, url: &str, response: &Option<String>) -> (doc: Option<Document>)
        ensures
            match doc {
                Some(d) => response is Some && d@ == page_document(response->0@, url@),
                None => response is None,
            },
    {
        match response {
            Some(raw_html) => {
                let page_content = self.extractor(raw_html.as_str());
                let metadata = self.extract_metadata(raw_html.as_str(), url);
                Some(Document { page_content, metadata })
            },
            None => None,
        }
    }
}

/// Extraction is repeatable: what is made of a page depends on the page,
/// its address and the configuration alone, so two documents made of the
/// same page are the same, and so are two lists of its links.
pub proof fn lemma_extraction_repeats(
    loader: LoaderView,
    raw_html: Seq<char>,
    url: Seq<char>,
    first: (DocumentView, Seq<Seq<char>>),
    second: (DocumentView, Seq<Seq<char>>),
)
    requires
        first == (page_document(raw_html, url), child_links(loader, raw_html, url)),
        second == (page_document(raw_html, url), child_links(loader, raw_html, url)),
    ensures
        first == second,
{
}

/// The links of one page that the crawl has still to look at, and how deep
/// below the seed that page lies.
pub ghost struct FrameView {
    pub links: Seq<Seq<char>>,
    pub depth: nat,
}

/// What the crawl waits for.
pub ghost enum PendingView {
    /// The seed page, for its document.
    Root,
    /// The page at `url`, `depth` links below the seed, for its links.
    Expand { url: Seq<char>, depth: nat },
    /// The page at `url`, a link of the innermost page, for its document.
    Child { url: Seq<char> },
    /// Nothing: the crawl is over.
    Finished,
}

/// A crawl as a mathematical value.
pub ghost struct CrawlView {
    /// What the crawl waits for.
    pub pending: PendingView,
    /// The pages whose links are being followed, outermost first.
    pub frames: Seq<FrameView>,
    /// The addresses marked as visited, in the order in which they were.
    pub visited: Seq<Seq<char>>,
    /// The documents made so far.
    pub documents: Seq<DocumentView>,
}

/// The crawl before its first fetch.
pub open spec fn started() -> CrawlView {
    CrawlView {
        pending: PendingView::Root,
        frames: Seq::empty(),
        visited: Seq::empty(),
        documents: Seq::empty(),
    }
}

/// How many links the innermost page of `frames` has left.
pub open spec fn links_left(frames: Seq<FrameView>) -> nat {
    if frames.len() > 0 {
        frames.last().links.len()
    } else {
        0
    }
}

/// `frames` without the first link of its innermost page.
pub open spec fn without_first_link(frames: Seq<FrameView>) -> Seq<FrameView>
    recommends
        frames.len() > 0,
{
    let top = frames.last();
    frames.drop_last().push(FrameView { links: top.links.drop_first(), depth: top.depth })
}

/// The crawl `s` moved on to its next fetch: the first link not yet
/// visited, of the innermost page that has one, is marked and waited for;
/// pages without such a link are left; with no page left the crawl is over.
pub open spec fn advanced(s: CrawlView) -> CrawlView
    decreases s.frames.len(), links_left(s.frames),
{
    if s.frames.len() == 0 {
        CrawlView { pending: PendingView::Finished, ..s }
    } else if s.frames.last().links.len() == 0 {
        advanced(CrawlView { frames: s.frames.drop_last(), ..s })
    } else {
        let link = s.frames.last().links[0];
        let frames = without_first_link(s.frames);
        if s.visited.contains(link) {
            advanced(CrawlView { frames, ..s })
        } else {
            CrawlView {
                pending: PendingView::Child { url: link },
                frames,
                visited: s.visited.push(link),
                documents: s.documents,
            }
        }
    }
}

/// The crawl `s` about to follow the links of the page at `url`, `depth`
/// links below the seed: it waits for that page, in its form with a slash,
/// unless the page lies at the bound or in an excluded directory, where the
/// crawl moves on.
pub open spec fn entered(loader: LoaderView, s: CrawlView, url: Seq<char>, depth: nat) -> CrawlView {
    if depth >= loader.max_depth || is_excluded(loader.exclude_dirs, with_slash(url)) {
        advanced(s)
    } else {
        CrawlView { pending: PendingView::Expand { url: with_slash(url), depth }, ..s }
    }
}

/// The crawl `s` after the answer `response` to the fetch it waits for;
/// `None` stands for a fetch that failed.
pub open spec fn answered(loader: LoaderView, s: CrawlView, response: Option<Seq<char>>) -> CrawlView {
    match s.pending {
        PendingView::Finished => s,
        PendingView::Root => match response {
            None => CrawlView { pending: PendingView::Finished, ..s },
            Some(raw_html) => entered(
                loader,
                CrawlView {
                    visited: seq![loader.url],
                    documents: s.documents.push(page_document(raw_html, loader.url)),
                    ..s
                },
                loader.url,
                0,
            ),
        },
        PendingView::Expand { url, depth } => match response {
            None => advanced(s),
            Some(raw_html) => advanced(
                CrawlView {
                    frames: s.frames.push(
                        FrameView { links: child_links(loader, raw_html, url), depth },
                    ),
                    ..s
                },
            ),
        },
        PendingView::Child { url } => match response {
            None => advanced(s),
            Some(raw_html) => {
                let made = CrawlView {
                    documents: s.documents.push(page_document(raw_html, url)),
                    ..s
                };
                if "/"@.is_suffix_of(url) {
                    entered(loader, made, url, s.frames.last().depth + 1)
                } else {
                    advanced(made)
                }
            },
        },
    }
}

/// Whether a crawl in the state `s` is one that `loader` can be in.
pub open spec fn is_crawl_of(loader: LoaderView, s: CrawlView) -> bool {
    &&& forall|i: int| 0 <= i < s.frames.len() ==> (#[trigger] s.frames[i]).depth < loader.max_depth
    &&& s.visited.no_duplicates()
    &&& match s.pending {
        PendingView::Root => s == started(),
        PendingView::Expand { url, depth } => depth < loader.max_depth,
        PendingView::Child { url } => s.frames.len() > 0 && s.visited.len() > 0 && s.visited.last()
            == url,
        PendingView::Finished => s.frames.len() == 0,
    }
}

/// What a crawl waited for has no part in how it moves on.
pub proof fn lemma_advanced_ignores_pending(s: CrawlView, pending: PendingView)
    ensures
        advanced(CrawlView { pending, ..s }) == advanced(s),
    decreases s.frames.len(), links_left(s.frames),
{
    if s.frames.len() == 0 {
    } else if s.frames.last().links.len() == 0 {
        lemma_advanced_ignores_pending(CrawlView { frames: s.frames.drop_last(), ..s }, pending);
    } else {
        let link = s.frames.last().links[0];
        if s.visited.contains(link) {
            lemma_advanced_ignores_pending(
                CrawlView { frames: without_first_link(s.frames), ..s },
                pending,
            );
        }
    }
}

/// Whether every page of `frames` lies above the depth bound of `loader`.
pub open spec fn frames_in_bound(loader: LoaderView, frames: Seq<FrameView>) -> bool {
    forall|i: int| 0 <= i < frames.len() ==> (#[trigger] frames[i]).depth < loader.max_depth
}

/// Moving on keeps a crawl a crawl and its documents as they are; it marks
/// at most one address, one not marked before, and waits for that one.
pub proof fn lemma_advanced_marks_new(loader: LoaderView, s: CrawlView)
    requires
        frames_in_bound(loader, s.frames),
        s.visited.no_duplicates(),
    ensures
        is_crawl_of(loader, advanced(s)),
        advanced(s).documents == s.documents,
        match advanced(s).pending {
            PendingView::Child { url } => !s.visited.contains(url) && advanced(s).visited
                == s.visited.push(url),
            PendingView::Finished => advanced(s).visited == s.visited,
            _ => false,
        },
    decreases s.frames.len(), links_left(s.frames),
{
    if s.frames.len() == 0 {
    } else if s.frames.last().links.len() == 0 {
        lemma_advanced_marks_new(loader, CrawlView { frames: s.frames.drop_last(), ..s });
    } else {
        let link = s.frames.last().links[0];
        let frames = without_first_link(s.frames);
        assert(frames_in_bound(loader, frames)) by {
            assert forall|i: int| 0 <= i < frames.len() implies (#[trigger] frames[i]).depth
                < loader.max_depth by {
                assert(frames[i].depth == s.frames[i].depth);
            }
        }
        if s.visited.contains(link) {
            lemma_advanced_marks_new(loader, CrawlView { frames, ..s });
        } else {
            let seen = s.visited.push(link);
            assert(seen.no_duplicates()) by {
                assert forall|i: int, j: int| 0 <= i < seen.len() && 0 <= j < seen.len() && i
                    != j implies seen[i] != seen[j] by {
                    if i < s.visited.len() {
                        assert(s.visited.contains(seen[i]));
                    }
                    if j < s.visited.len() {
                        assert(s.visited.contains(seen[j]));
                    }
                }
            }
        }
    }
}

/// Visit deduplication: whatever the answer, a crawl stays a crawl, in which
/// no address is marked twice; the addresses marked stay marked, in their
/// order; and a link that the crawl then waits for was not marked before
/// and is marked now.
pub proof fn lemma_answered_marks_new(loader: LoaderView, s: CrawlView, response: Option<Seq<char>>)
    requires
        is_crawl_of(loader, s),
    ensures
        is_crawl_of(loader, answered(loader, s, response)),
        answered(loader, s, response).visited.no_duplicates(),
        s.visited.is_prefix_of(answered(loader, s, response).visited),
        match answered(loader, s, response).pending {
            PendingView::Child { url } => !s.visited.contains(url) && answered(
                loader,
                s,
                response,
            ).visited == s.visited.push(url),
            _ => true,
        },
{
    match s.pending {
        PendingView::Finished => {},
        PendingView::Root => match response {
            None => {},
            Some(raw_html) => {
                let made = CrawlView {
                    visited: seq![loader.url],
                    documents: s.documents.push(page_document(raw_html, loader.url)),
                    ..s
                };
                lemma_advanced_marks_new(loader, made);
                assert(s.visited =~= Seq::<Seq<char>>::empty());
            },
        },
        PendingView::Expand { url, depth } => match response {
            None => {
                lemma_advanced_marks_new(loader, s);
            },
            Some(raw_html) => {
                let frames = s.frames.push(
                    FrameView { links: child_links(loader, raw_html, url), depth },
                );
                lemma_advanced_marks_new(loader, CrawlView { frames, ..s });
            },
        },
        PendingView::Child { url } => match response {
            None => {
                lemma_advanced_marks_new(loader, s);
            },
            Some(raw_html) => {
                let made = CrawlView {
                    documents: s.documents.push(page_document(raw_html, url)),
                    ..s
                };
                lemma_advanced_marks_new(loader, made);
            },
        },
    }
}

/// The address that a crawl in the state `s` waits for, if it waits.
pub open spec fn awaited(loader: LoaderView, s: CrawlView) -> Option<Seq<char>> {
    match s.pending {
        PendingView::Root => Some(loader.url),
        PendingView::Expand { url, depth } => Some(url),
        PendingView::Child { url } => Some(url),
        PendingView::Finished => None,
    }
}

/// The links of one page, those before `next` looked at already.
struct Frame {
    links: Vec<String>,
    next: usize,
    depth: usize,
}

impl Frame {
    spec fn view(&self) -> FrameView {
        FrameView {
            links: texts_of(self.links@).skip(self.next as int),
            depth: self.depth as nat,
        }
    }

    spec fn wf(&self) -> bool {
        self.next <= self.links.len()
    }
}

spec fn frames_of(v: Seq<Frame>) -> Seq<FrameView> {
    v.map_values(|f: Frame| f@)
}

enum Pending {
    Root,
    Expand { url: String, depth: usize },
    Child { url: String },
    Finished,
}

impl Pending {
    spec fn view(&self) -> PendingView {
        match self {
            Pending::Root => PendingView::Root,
            Pending::Expand { url, depth } => PendingView::Expand { url: url@, depth: *depth as nat },
            Pending::Child { url } => PendingView::Child { url: url@ },
            Pending::Finished => PendingView::Finished,
        }
    }
}

/// The parts of a crawl under way.
struct State<'a> {
    loader: &'a RecursiveWebLoader,
    pending: Pending,
    frames: Vec<Frame>,
    visited: Vec<String>,
    documents: Vec<Document>,
}

impl<'a> State<'a> {
    spec fn view(&self) -> CrawlView {
        CrawlView {
            pending: self.pending.view(),
            frames: frames_of(self.frames@),
            visited: texts_of(self.visited@),
            documents: documents_of(self.documents@),
        }
    }

    spec fn frames_ok(&self) -> bool {
        forall|i: int| 0 <= i < self.frames.len() ==> (#[trigger] self.frames[i]).wf()
    }

    spec fn wf(&self) -> bool {
        &&& self.frames_ok()
        &&& is_crawl_of(self.loader@, self@)
    }

    fn new(loader: &'a RecursiveWebLoader) -> (crawl: Self)
        ensures
            crawl.wf(),
            crawl.loader == loader,
            crawl@ == started(),
    {
        let crawl = State {
            loader,
            pending: Pending::Root,
            frames: Vec::new(),
            visited: Vec::new(),
            documents: Vec::new(),
        };
        proof {
            assert(crawl@.frames =~= Seq::<FrameView>::empty());
            assert(crawl@.visited =~= Seq::<Seq<char>>::empty());
            assert(crawl@.documents =~= Seq::<DocumentView>::empty());
        }
        crawl
    }

    fn next_fetch(&self) -> (url: Option<String>)
        ensures
            text_of(url) == awaited(self.loader@, self@),
    {
        match &self.pending {
            Pending::Root => Some(self.loader.url.clone()),
            Pending::Expand { url, depth } => Some(url.clone()),
            Pending::Child { url } => Some(url.clone()),
            Pending::Finished => None,
        }
    }

    fn is_finished(&self) -> (r: bool)
        ensures
            r == (self@.pending is Finished),
    {
        match &self.pending {
            Pending::Finished => true,
            _ => false,
        }
    }

    fn is_visited(&self, link: &String) -> (r: bool)
        ensures
            r == self@.visited.contains(link@),
    {
        let mut i: usize = 0;
        while i < self.visited.len()
            invariant
                i <= self.visited.len(),
                forall|j: int| 0 <= j < i ==> texts_of(self.visited@)[j] != link@,
            decreases self.visited.len() - i,
        {
            if self.visited[i] == *link {
                assert(texts_of(self.visited@)[i as int] == link@);
                return true;
            }
            i += 1;
        }
        false
    }

    fn advance(&mut self)
        requires
            old(self).frames_ok(),
        ensures
            final(self).frames_ok(),
            final(self).loader == old(self).loader,
            final(self)@ == advanced(old(self)@),
    {
        let ghost start = self@;
        loop
            invariant
                self.frames_ok(),
                self.loader == old(self).loader,
                advanced(self@) == advanced(start),
                start == old(self)@,
            decreases self.frames.len(), links_left(self@.frames),
        {
            let ghost before = self@;
            let ghost frames_before = self.frames@;
            if self.frames.len() == 0 {
                self.pending = Pending::Finished;
                assert(self@ == advanced(before));
                return ;
            }
            assert(frames_before.last().wf());
            let mut top = self.frames.pop().unwrap();
            proof {
                assert(frames_of(self.frames@) =~= before.frames.drop_last());
                assert(top@ == before.frames.last());
            }
            if top.next >= top.links.len() {
                proof {
                    assert(self@ == CrawlView { frames: before.frames.drop_last(), ..before });
                }
                continue ;
            }
            let link = top.links[top.next].clone();
            let ghost old_top = top@;
            top.next = top.next + 1;
            proof {
                assert(top@.links =~= old_top.links.drop_first());
                assert(old_top.links[0] == link@);
            }
            self.frames.push(top);
            proof {
                assert(frames_of(self.frames@) =~= without_first_link(before.frames));
                assert forall|i: int| 0 <= i < self.frames.len() implies (#[trigger] self.frames[i]).wf() by {
                    if i < self.frames.len() - 1 {
                        assert(self.frames[i] == frames_before[i]);
                    }
                }
            }
            if self.is_visited(&link) {
                proof {
                    assert(self@ == CrawlView { frames: without_first_link(before.frames), ..before });
                }
                continue ;
            }
            let ghost seen = texts_of(self.visited@);
            self.visited.push(link.clone());
            self.pending = Pending::Child { url: link };
            proof {
                assert(texts_of(self.visited@) =~= seen.push(link@));
                assert(self@ == advanced(before));
            }
            return ;
        }
    }

    fn enter(&mut self, url: &str, depth: usize)
        requires
            old(self).frames_ok(),
        ensures
            final(self).frames_ok(),
            final(self).loader == old(self).loader,
            final(self)@ == entered(old(self).loader@, old(self)@, url@, depth as nat),
    {
        if depth >= self.loader.max_depth {
            self.advance();
            return ;
        }
        let mut dir = owned(url);
        if !ends_with(url, "/") {
            dir.push('/');
            proof {
                reveal_strlit("/");
                assert(url@.push('/') =~= url@ + "/"@);
            }
        }
        if self.loader.excludes(dir.as_str()) {
            self.advance();
            return ;
        }
        self.pending = Pending::Expand { url: dir, depth };
    }

    fn take_pending(&mut self) -> (pending: Pending)
        ensures
            pending == old(self).pending,
            final(self).pending == Pending::Finished,
            final(self).loader == old(self).loader,
            final(self).frames == old(self).frames,
            final(self).visited == old(self).visited,
            final(self).documents == old(self).documents,
    {
        let mut pending = Pending::Finished;
        std::mem::swap(&mut self.pending, &mut pending);
        pending
    }

    fn answer(&mut self, response: Option<String>)
        requires
            old(self).wf(),
        ensures
            final(self).wf(),
            final(self).loader == old(self).loader,
            final(self)@ == answered(old(self).loader@, old(self)@, text_of(response)),
    {
        proof {
            lemma_answered_marks_new(self.loader@, self@, text_of(response));
        }
        let ghost before = self@;
        let ghost documents_before = documents_of(self.documents@);
        let pending = self.take_pending();
        match pending {
            Pending::Finished => {},
            Pending::Root => {
                match self.loader.get_url_as_doc(self.loader.url.as_str(), &response) {
                    None => {},
                    Some(document) => {
                        self.documents.push(document);
                        self.visited.push(self.loader.url.clone());
                        proof {
                            assert(documents_of(self.documents@) =~= documents_before.push(
                                document@,
                            ));
                            assert(texts_of(self.visited@) =~= seq![self.loader@.url]);
                            lemma_advanced_ignores_pending(
                                CrawlView {
                                    visited: seq![self.loader@.url],
                                    documents: documents_before.push(document@),
                                    ..before
                                },
                                PendingView::Finished,
                            );
                        }
                        self.enter(self.loader.url.as_str(), 0);
                    },
                }
            },
            Pending::Expand { url, depth } => {
                proof {
                    lemma_advanced_ignores_pending(before, PendingView::Finished);
                }
                match &response {
                    None => {},
                    Some(raw_html) => {
                        let links = self.loader.get_child_links(raw_html.as_str(), url.as_str());
                        let ghost frames_before = self.frames@;
                        let frame = Frame { links, next: 0, depth };
                        proof {
                            assert(frame@.links =~= texts_of(links@));
                        }
                        self.frames.push(frame);
                        proof {
                            lemma_advanced_ignores_pending(
                                CrawlView { frames: before.frames.push(frame@), ..before },
                                PendingView::Finished,
                            );
                            assert(frames_of(self.frames@) =~= before.frames.push(frame@));
                            assert forall|i: int| 0 <= i < self.frames.len() implies (
                            #[trigger] self.frames[i]).wf() by {
                                if i < self.frames.len() - 1 {
                                    assert(self.frames[i] == frames_before[i]);
                                }
                            }
                        }
                    },
                }
                self.advance();
            },
            Pending::Child { url } => {
                match self.loader.get_url_as_doc(url.as_str(), &response) {
                    None => {
                        proof {
                            lemma_advanced_ignores_pending(before, PendingView::Finished);
                        }
                        self.advance();
                    },
                    Some(document) => {
                        self.documents.push(document);
                        proof {
                            assert(documents_of(self.documents@) =~= documents_before.push(
                                document@,
                            ));
                            lemma_advanced_ignores_pending(
                                CrawlView {
                                    documents: documents_before.push(document@),
                                    ..before
                                },
                                PendingView::Finished,
                            );
                        }
                        if ends_with(url.as_str(), "/") {
                            let depth = self.frames[self.frames.len() - 1].depth + 1;
                            self.enter(url.as_str(), depth);
                        } else {
                            self.advance();
                        }
                    },
                }
            },
        }
    }
}

/// A crawl under way: it names the address to fetch next and takes the
/// answer, until no address is left.
pub struct Crawl<'a> {
    state: State<'a>,
}

impl<'a> View for Crawl<'a> {
    type V = CrawlView;

    closed spec fn view(&self) -> CrawlView {
        self.state@
    }
}

impl<'a> Crawl<'a> {
    #[verifier::type_invariant]
    spec fn wf(self) -> bool {
        self.state.wf()
    }

    /// The configuration that the crawl runs under.
    pub closed spec fn loader(&self) -> LoaderView {
        self.state.loader@
    }

    /// A crawl of `loader` before its first fetch.
    pub fn new(loader: &'a RecursiveWebLoader) -> (crawl: Self)
        ensures
            crawl.loader() == loader@,
            crawl@ == started(),
    {
        Crawl { state: State::new(loader) }
    }

    /// The address to fetch next; none when the crawl is over. Every crawl
    /// is one that its configuration can be in: no address is marked twice,
    /// and a link waited for is the one marked last.
    pub fn next_fetch(&self) -> (url: Option<String>)
        ensures
            text_of(url) == awaited(self.loader(), self@),
            is_crawl_of(self.loader(), self@),
    {
        proof {
            use_type_invariant(self);
        }
        self.state.next_fetch()
    }

    /// Whether the crawl is over.
    pub fn is_finished(&self) -> (r: bool)
        ensures
            r == (self@.pending is Finished),
    {
        self.state.is_finished()
    }

    /// Takes the answer to the fetch of the address that the crawl waits
    /// for: the page's content, or `None` where the fetch failed. A crawl
    /// that is over stays as it is.
    pub fn answer(&mut self, response: Option<String>)
        ensures
            final(self).loader() == old(self).loader(),
            final(self)@ == answered(old(self).loader(), old(self)@, text_of(response)),
            is_crawl_of(old(self).loader(), old(self)@),
            is_crawl_of(final(self).loader(), final(self)@),
    {
        proof {
            use_type_invariant(&*self);
        }
        let mut taken = Crawl::new(self.state.loader);
        std::mem::swap(self, &mut taken);
        let mut state = taken.state;
        state.answer(response);
        *self = Crawl { state };
    }

    /// The documents made so far, in the order in which they were made.
    pub fn into_documents(self) -> (documents: Vec<Document>)
        ensures
            documents_of(documents@) == self@.documents,
    {
        self.state.documents
    }
}

} // verus!
