//! The links of a page: each `href` made absolute, and those dropped that
//! the crawl must not follow.

use vstd::prelude::*;
use vstd::string::StringExecFns;
use reqwest::Url;
use crate::loader::{LoaderView, RecursiveWebLoader};
use crate::markup::{select_attrs, selected_attrs, values_of};
use crate::text::{ends_with, owned, starts_with, text_of, texts_of};

verus! {

/// The scheme of the address `raw` and the address as `reqwest::Url` writes
/// it, in this order; `None` where `raw` is no absolute address.
pub uninterp spec fn url_parts(raw: Seq<char>) -> Option<(Seq<char>, Seq<char>)>;

/// The address that `href` stands for on a page at the address `base`;
/// `None` where `base` is no absolute address or `href` cannot be resolved
/// against it.
pub uninterp spec fn url_joined(base: Seq<char>, href: Seq<char>) -> Option<Seq<char>>;

/// Parses `raw` with `reqwest::Url::parse` and reads the result with
/// `Url::scheme` and `Url::as_str`. Trusted: the result is a function of
/// `raw`, named [`url_parts`]; nothing is claimed of what it holds.
#[verifier::external_body]
pub(crate) fn parse_url(raw: &str) -> (r: Option<(String, String)>)
    ensures
        match r {
            Some(parts) => url_parts(raw@) == Some((parts.0@, parts.1@)),
            None => url_parts(raw@) is None,
        },
{
    Url::parse(raw).ok().map(|url| (url.scheme().to_string(), url.as_str().to_string()))
}

/// Parses `base` with `reqwest::Url::parse`, resolves `href` against it with
/// `Url::join` and writes the result out. Trusted: the result is a function
/// of the two strings, named [`url_joined`]; nothing is claimed of what it
/// holds.
#[verifier::external_body]
pub(crate) fn join_url(base: &str, href: &str) -> (r: Option<String>)
    ensures
        text_of(r) == url_joined(base@, href@),
{
    Url::parse(base).ok()?.join(href).ok().map(|url| url.to_string())
}

/// The absolute form of `href`: itself where it begins with `http`; behind
/// `scheme` and a colon where it begins with two slashes; else `joined`,
/// what resolving it against the page's address gave.
pub open spec fn resolved(href: Seq<char>, scheme: Seq<char>, joined: Option<Seq<char>>) -> Option<
    Seq<char>,
> {
    if "http"@.is_prefix_of(href) {
        Some(href)
    } else if "//"@.is_prefix_of(href) {
        Some(scheme + ":"@ + href)
    } else {
        joined
    }
}

/// The absolute form of `href` on a page whose address has the scheme
/// `scheme`, where resolving `href` against that address gave `joined`.
pub fn resolve_href(href: &str, scheme: &str, joined: Option<String>) -> (link: Option<String>)
    ensures
        text_of(link) == resolved(href@, scheme@, text_of(joined)),
{
    if starts_with(href, "http") {
        Some(owned(href))
    } else if starts_with(href, "//") {
        let mut link = owned(scheme);
        link.append(":");
        link.append(href);
        Some(link)
    } else {
        joined
    }
}

/// Whether `link` begins with one of `dirs`.
pub open spec fn is_excluded(dirs: Seq<Seq<char>>, link: Seq<char>) -> bool {
    exists|i: int| 0 <= i < dirs.len() && (#[trigger] dirs[i]).is_prefix_of(link)
}

/// Whether `link` ends like a file that is no page.
pub open spec fn is_resource(link: Seq<char>) -> bool {
    ||| ".css"@.is_suffix_of(link)
    ||| ".js"@.is_suffix_of(link)
    ||| ".ico"@.is_suffix_of(link)
    ||| ".png"@.is_suffix_of(link)
    ||| ".jpg"@.is_suffix_of(link)
    ||| ".jpeg"@.is_suffix_of(link)
    ||| ".gif"@.is_suffix_of(link)
    ||| ".svg"@.is_suffix_of(link)
}

/// Whether the crawl `loader` follows `link`, found on the page at `base`:
/// it lies in no excluded directory, is neither script nor mail address nor
/// resource file, and begins with `base` where the crawl stays inside.
pub open spec fn is_kept(loader: LoaderView, link: Seq<char>, base: Seq<char>) -> bool {
    &&& !is_excluded(loader.exclude_dirs, link)
    &&& !"javascript:"@.is_prefix_of(link)
    &&& !"mailto:"@.is_prefix_of(link)
    &&& !is_resource(link)
    &&& (loader.prevent_outside ==> base.is_prefix_of(link))
}

/// The links among `hrefs` that the crawl follows, in their order, each in
/// its absolute form: an element without `href` gives none, nor does one
/// whose `href` cannot be resolved. `raw_base` is the address of the page,
/// `scheme` and `base` are its scheme and its written form.
pub open spec fn links_from(
    loader: LoaderView,
    hrefs: Seq<Option<Seq<char>>>,
    raw_base: Seq<char>,
    scheme: Seq<char>,
    base: Seq<char>,
) -> Seq<Seq<char>>
    decreases hrefs.len(),
{
    if hrefs.len() == 0 {
        Seq::empty()
    } else {
        let before = links_from(loader, hrefs.drop_last(), raw_base, scheme, base);
        match hrefs.last() {
            Some(href) => match resolved(href, scheme, url_joined(raw_base, href)) {
                Some(link) => if is_kept(loader, link, base) {
                    before.push(link)
                } else {
                    before
                },
                None => before,
            },
            None => before,
        }
    }
}

/// The links that the crawl follows from a page at `base_url`, given the
/// `href` of each of the page's `a` elements and the parts of `base_url`. A
/// page whose address is no absolute address has none.
pub open spec fn links_of_page(
    loader: LoaderView,
    hrefs: Option<Seq<Option<Seq<char>>>>,
    base_url: Seq<char>,
    parts: Option<(Seq<char>, Seq<char>)>,
) -> Seq<Seq<char>> {
    match (hrefs, parts) {
        (Some(hrefs), Some(parts)) => links_from(loader, hrefs, base_url, parts.0, parts.1),
        _ => Seq::empty(),
    }
}

/// The links that the crawl follows from the page `html` at `base_url`.
pub open spec fn child_links(loader: LoaderView, html: Seq<char>, base_url: Seq<char>) -> Seq<
    Seq<char>,
> {
    links_of_page(loader, selected_attrs(html, "a"@, "href"@), base_url, url_parts(base_url))
}

impl RecursiveWebLoader {
    /// Whether `link` lies in one of the excluded directories.
    pub fn excludes(&self, link: &str) -> (r: bool)
        ensures
            r == is_excluded(self@.exclude_dirs, link@),
    {
        let mut i: usize = 0;
        while i < self.exclude_dirs.len()
            invariant
                i <= self.exclude_dirs.len(),
                forall|j: int| 0 <= j < i ==> !(#[trigger] self@.exclude_dirs[j]).is_prefix_of(link@),
            decreases self.exclude_dirs.len() - i,
        {
            if starts_with(link, self.exclude_dirs[i].as_str()) {
                assert(self@.exclude_dirs[i as int].is_prefix_of(link@));
                return true;
            }
            i += 1;
        }
        false
    }

    /// Whether the crawl follows `link`, found on the page whose address is
    /// written `base`.
    pub fn keeps_link(&self, link: &str, base: &str) -> (r: bool)
        ensures
            r == is_kept(self@, link@, base@),
    {
        !self.excludes(link) && !starts_with(link, "javascript:") && !starts_with(link, "mailto:")
            && !ends_with(link, ".css") && !ends_with(link, ".js") && !ends_with(link, ".ico")
            && !ends_with(link, ".png") && !ends_with(link, ".jpg") && !ends_with(link, ".jpeg")
            && !ends_with(link, ".gif") && !ends_with(link, ".svg") && (!self.prevent_outside
            || starts_with(link, base))
    }

    /// The links that the crawl follows from the page `html`, fetched from
    /// `base_url`: the `href` of each `a` element, made absolute and
    /// filtered, in the order of the page and with repetitions.
    pub fn get_child_links(&self, html: &str, base_url: &str) -> (links: Vec<String>)
        ensures
            texts_of(links@) == child_links(self@, html@, base_url@),
    {
        let mut links: Vec<String> = Vec::new();
        proof {
            assert(texts_of(links@) =~= Seq::<Seq<char>>::empty());
        }
        let hrefs = match select_attrs(html, "a", "href") {
            Some(hrefs) => hrefs,
            None => {
                return links;
            },
        };
        let (scheme, base) = match parse_url(base_url) {
            Some(parts) => parts,
            None => {
                return links;
            },
        };
        let ghost all = values_of(hrefs@);
        let mut i: usize = 0;
        proof {
            assert(all.take(0) =~= Seq::<Option<Seq<char>>>::empty());
        }
        while i < hrefs.len()
            invariant
                i <= hrefs.len(),
                all == values_of(hrefs@),
                texts_of(links@) == links_from(self@, all.take(i as int), base_url@, scheme@, base@),
            decreases hrefs.len() - i,
        {
            proof {
                assert(all.take(i + 1).drop_last() =~= all.take(i as int));
                assert(all.take(i + 1).last() == text_of(hrefs@[i as int]));
            }
            if let Some(href) = &hrefs[i] {
                let joined = join_url(base_url, href.as_str());
                if let Some(link) = resolve_href(href.as_str(), scheme.as_str(), joined) {
                    if self.keeps_link(link.as_str(), base.as_str()) {
                        let ghost before = texts_of(links@);
                        links.push(link);
                        proof {
                            assert(texts_of(links@) =~= before.push(link@));
                        }
                    }
                }
            }
            i += 1;
        }
        proof {
            assert(all.take(i as int) =~= all);
        }
        links
    }
}

} // verus!
