//! The crawler's configuration and the documents it yields.

use vstd::prelude::*;
use crate::metadata::Metadata;
use crate::text::texts_of;

verus! {

/// The text and the metadata extracted from one fetched page.
#[derive(Debug)]
pub struct Document {
    /// The page's visible text, normalised.
    pub page_content: String,
    /// The page's address and what its head says of it.
    pub metadata: Metadata,
}

/// A [`Document`] as a mathematical value.
pub ghost struct DocumentView {
    pub page_content: Seq<char>,
    pub metadata: Map<Seq<char>, Seq<char>>,
}

impl View for Document {
    type V = DocumentView;

    open spec fn view(&self) -> DocumentView {
        DocumentView { page_content: self.page_content@, metadata: self.metadata@ }
    }
}

/// The views of a sequence of documents.
pub open spec fn documents_of(v: Seq<Document>) -> Seq<DocumentView> {
    v.map_values(|d: Document| d@)
}

/// The options of a crawl; each one left out takes its default.
pub struct RecursiveWebLoaderOptions {
    /// Address prefixes that are never followed. Default: none.
    pub exclude_dirs: Option<Vec<String>>,
    /// How many links deep the crawl goes below the seed. Default: 2.
    pub max_depth: Option<usize>,
    /// The time allowed for one fetch, in milliseconds. Default: 10000.
    pub timeout: Option<u64>,
    /// Whether links that leave the page they stand on are dropped.
    /// Default: true.
    pub prevent_outside: Option<bool>,
}

impl Default for RecursiveWebLoaderOptions {
    fn default() -> (options: Self)
        ensures
            options.exclude_dirs is None,
            options.max_depth is None,
            options.timeout is None,
            options.prevent_outside is None,
    {
        Self { exclude_dirs: None, max_depth: None, timeout: None, prevent_outside: None }
    }
}

/// The configuration of one crawl.
pub struct RecursiveWebLoader {
    /// The seed address.
    pub url: String,
    /// Address prefixes that are never followed.
    pub exclude_dirs: Vec<String>,
    /// How many links deep the crawl goes below the seed.
    pub max_depth: usize,
    /// The time allowed for one fetch, in milliseconds.
    pub timeout: u64,
    /// Whether links that leave the page they stand on are dropped.
    pub prevent_outside: bool,
}

/// A [`RecursiveWebLoader`] as a mathematical value.
pub ghost struct LoaderView {
    pub url: Seq<char>,
    pub exclude_dirs: Seq<Seq<char>>,
    pub max_depth: nat,
    pub timeout: nat,
    pub prevent_outside: bool,
}

impl View for RecursiveWebLoader {
    type V = LoaderView;

    open spec fn view(&self) -> LoaderView {
        LoaderView {
            url: self.url@,
            exclude_dirs: texts_of(self.exclude_dirs@),
            max_depth: self.max_depth as nat,
            timeout: self.timeout as nat,
            prevent_outside: self.prevent_outside,
        }
    }
}

/// The depth that a crawl takes when none is given.
pub const DEFAULT_MAX_DEPTH: usize = 2;

/// The time for one fetch, in milliseconds, when none is given.
pub const DEFAULT_TIMEOUT: u64 = 10000;

impl RecursiveWebLoader {
    /// A crawl from `url` with `options`, each option left out at its default.
    pub fn new(url: String, options: RecursiveWebLoaderOptions) -> (loader: Self)
        ensures
            loader.url == url,
            loader@.exclude_dirs == match options.exclude_dirs {
                Some(dirs) => texts_of(dirs@),
                None => Seq::empty(),
            },
            loader.max_depth == match options.max_depth {
                Some(depth) => depth,
                None => DEFAULT_MAX_DEPTH,
            },
            loader.timeout == match options.timeout {
                Some(millis) => millis,
                None => DEFAULT_TIMEOUT,
            },
            loader.prevent_outside == match options.prevent_outside {
                Some(flag) => flag,
                None => true,
            },
    {
        let exclude_dirs = match options.exclude_dirs {
            Some(dirs) => dirs,
            None => {
                let none: Vec<String> = Vec::new();
                proof {
                    assert(texts_of(none@) =~= Seq::<Seq<char>>::empty());
                }
                none
            },
        };
        let max_depth = match options.max_depth {
            Some(depth) => depth,
            None => DEFAULT_MAX_DEPTH,
        };
        let timeout = match options.timeout {
            Some(millis) => millis,
            None => DEFAULT_TIMEOUT,
        };
        let prevent_outside = match options.prevent_outside {
            Some(flag) => flag,
            None => true,
        };
        Self { url, exclude_dirs, max_depth, timeout, prevent_outside }
    }
}

} // verus!
