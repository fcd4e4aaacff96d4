//! A depth-bounded web crawler: link discovery and filtering, extraction of
//! readable text and page metadata, and the traversal that ties them together.
//!
//! The crate fetches nothing itself. A [`crawl::Crawl`] names the address to
//! fetch next and takes the answer; whoever drives it does the fetching. What
//! a crawl yields in the end is said directly in [`walk`], and proved there
//! of the step-by-step crawl.
//!
//! - [`loader`]: the configuration and the documents
//! - [`content`]: the visible text of a page
//! - [`metadata`]: what a page says of itself
//! - [`links`]: the links of a page that the crawl follows
//! - [`crawl`]: the traversal, one fetch at a time
//! - [`walk`]: the traversal as a whole, and the laws that tie the two
//! - [`markup`]: parsed pages as plain values
//! - [`text`]: strings as sequences of characters

use vstd::prelude::*;

pub use crate::crawl::Crawl;
pub use crate::loader::{Document, RecursiveWebLoader, RecursiveWebLoaderOptions};
pub use crate::metadata::Metadata;

pub mod content;
pub mod crawl;
pub mod links;
pub mod loader;
pub mod markup;
pub mod metadata;
pub mod text;
pub mod walk;

verus! {

/// The sum of two machine integers, when it fits.
pub fn add(left: usize, right: usize) -> (sum: usize)
    requires
        left + right <= usize::MAX,
    ensures
        sum == left + right,
{
    left + right
}

} // verus!
