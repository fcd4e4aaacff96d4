//! What a page says of itself: its address, title, description and language.

use vstd::prelude::*;
use crate::loader::RecursiveWebLoader;
use crate::markup::{select_attrs, select_inner_html, selected_attrs, selected_inner_html, values_of};
use crate::text::{owned, same_text, text_of, texts_of};

verus! {

/// The metadata of one page: a mapping from a few fixed keys to strings.
/// `source` is always there; `title`, `description` and `language` only
/// where the page gives them.
#[derive(Debug)]
pub struct Metadata {
    /// The address that the page was fetched from.
    pub source: String,
    /// The content of the page's first `title` element.
    pub title: Option<String>,
    /// The `content` of the page's first `meta` element named `description`.
    pub description: Option<String>,
    /// The `lang` attribute of the page's `html` element.
    pub language: Option<String>,
}

/// `map` with `value` under `key`, where there is a value.
pub open spec fn with_entry(
    map: Map<Seq<char>, Seq<char>>,
    key: Seq<char>,
    value: Option<Seq<char>>,
) -> Map<Seq<char>, Seq<char>> {
    match value {
        Some(v) => map.insert(key, v),
        None => map,
    }
}

/// The mapping that holds `source` and those of the three others that are there.
pub open spec fn metadata_map(
    source: Seq<char>,
    title: Option<Seq<char>>,
    description: Option<Seq<char>>,
    language: Option<Seq<char>>,
) -> Map<Seq<char>, Seq<char>> {
    with_entry(
        with_entry(with_entry(Map::empty().insert("source"@, source), "title"@, title), "description"@, description),
        "language"@,
        language,
    )
}

impl View for Metadata {
    type V = Map<Seq<char>, Seq<char>>;

    open spec fn view(&self) -> Map<Seq<char>, Seq<char>> {
        metadata_map(
            self.source@,
            text_of(self.title),
            text_of(self.description),
            text_of(self.language),
        )
    }
}

/// The four keys differ from each other.
pub proof fn lemma_keys_differ()
    ensures
        "source"@ != "title"@,
        "source"@ != "description"@,
        "source"@ != "language"@,
        "title"@ != "description"@,
        "title"@ != "language"@,
        "description"@ != "language"@,
{
    reveal_strlit("source");
    reveal_strlit("title");
    reveal_strlit("description");
    reveal_strlit("language");
    assert("source"@.len() == 6);
    assert("title"@.len() == 5);
    assert("description"@.len() == 11);
    assert("language"@.len() == 8);
}

/// A copy of a string that may be absent.
fn copy_of(value: &Option<String>) -> (r: Option<String>)
    ensures
        text_of(r) == text_of(*value),
{
    match value {
        Some(v) => Some(v.clone()),
        None => None,
    }
}

impl Metadata {
    /// The value under `key`, if the mapping has one.
    pub fn get(&self, key: &str) -> (value: Option<String>)
        ensures
            text_of(value) == (if self@.contains_key(key@) {
                Some(self@[key@])
            } else {
                None
            }),
    {
        proof {
            lemma_keys_differ();
        }
        if same_text(key, "source") {
            Some(self.source.clone())
        } else if same_text(key, "title") {
            copy_of(&self.title)
        } else if same_text(key, "description") {
            copy_of(&self.description)
        } else if same_text(key, "language") {
            copy_of(&self.language)
        } else {
            None
        }
    }

    /// How many keys the mapping has.
    pub fn len(&self) -> (n: usize)
        ensures
            n == self@.dom().len(),
            self@.dom().finite(),
            1 <= n <= 4,
    {
        proof {
            lemma_keys_differ();
        }
        let mut n: usize = 1;
        let ghost m0 = Map::<Seq<char>, Seq<char>>::empty().insert("source"@, self.source@);
        let ghost m1 = with_entry(m0, "title"@, text_of(self.title));
        let ghost m2 = with_entry(m1, "description"@, text_of(self.description));
        proof {
            assert(m0.dom() =~= set!["source"@]);
        }
        if self.title.is_some() {
            n += 1;
        }
        if self.description.is_some() {
            n += 1;
        }
        if self.language.is_some() {
            n += 1;
        }
        n
    }
}

/// The first of `items`, if there is one.
pub open spec fn first_of<T>(items: Option<Seq<T>>) -> Option<T> {
    match items {
        Some(s) => if s.len() > 0 {
            Some(s[0])
        } else {
            None
        },
        None => None,
    }
}

/// The attribute value of the first of the elements `values`, if there is
/// such an element and it has the attribute.
pub open spec fn first_value(values: Option<Seq<Option<Seq<char>>>>) -> Option<Seq<char>> {
    match first_of(values) {
        Some(value) => value,
        None => None,
    }
}

/// The metadata of a page fetched from `url`, from what the three selectors
/// found in it.
pub open spec fn page_metadata(
    url: Seq<char>,
    titles: Option<Seq<Seq<char>>>,
    descriptions: Option<Seq<Option<Seq<char>>>>,
    languages: Option<Seq<Option<Seq<char>>>>,
) -> Map<Seq<char>, Seq<char>> {
    metadata_map(url, first_of(titles), first_value(descriptions), first_value(languages))
}

/// The metadata of a page fetched from `url`: `titles` are the contents of
/// its `title` elements, `descriptions` the `content` attributes of its
/// `meta` elements named `description`, `languages` the `lang` attributes of
/// its `html` elements; `None` stands for a selector that found nothing to
/// look in.
pub fn build_metadata(
    url: &str,
    titles: &Option<Vec<String>>,
    descriptions: &Option<Vec<Option<String>>>,
    languages: &Option<Vec<Option<String>>>,
) -> (metadata: Metadata)
    ensures
        metadata.source@ == url@,
        metadata@ == page_metadata(
            url@,
            match titles {
                Some(v) => Some(texts_of(v@)),
                None => None,
            },
            match descriptions {
                Some(v) => Some(values_of(v@)),
                None => None,
            },
            match languages {
                Some(v) => Some(values_of(v@)),
                None => None,
            },
        ),
{
    let title = match titles {
        Some(v) => if v.len() > 0 {
            Some(v[0].clone())
        } else {
            None
        },
        None => None,
    };
    let description = match descriptions {
        Some(v) => if v.len() > 0 {
            copy_of(&v[0])
        } else {
            None
        },
        None => None,
    };
    let language = match languages {
        Some(v) => if v.len() > 0 {
            copy_of(&v[0])
        } else {
            None
        },
        None => None,
    };
    Metadata { source: owned(url), title, description, language }
}

/// The metadata of the page `raw_html`, fetched from `url`.
pub open spec fn metadata_of_page(raw_html: Seq<char>, url: Seq<char>) -> Map<Seq<char>, Seq<char>> {
    page_metadata(
        url,
        selected_inner_html(raw_html, "title"@),
        selected_attrs(raw_html, "meta[name=description]"@, "content"@),
        selected_attrs(raw_html, "html"@, "lang"@),
    )
}

/// Every page's metadata names its source, whatever else it holds.
pub proof fn lemma_source_is_present(raw_html: Seq<char>, url: Seq<char>)
    ensures
        metadata_of_page(raw_html, url).contains_key("source"@),
        metadata_of_page(raw_html, url)["source"@] == url,
{
    lemma_keys_differ();
}

impl RecursiveWebLoader {
    /// The metadata of the page `raw_html`, fetched from `url`: `source` is
    /// `url`; `title`, `description` and `language` are there where the
    /// page's first `title` element, the `content` of its first `meta`
    /// element named `description` and the `lang` of its `html` element are.
    /// The result depends on the two strings alone.
    pub fn extract_metadata(&self, raw_html: &str, url: &str) -> (metadata: Metadata)
        ensures
            metadata@ == metadata_of_page(raw_html@, url@),
            metadata.source@ == url@,
    {
        let titles = select_inner_html(raw_html, "title");
        let descriptions = select_attrs(raw_html, "meta[name=description]", "content");
        let languages = select_attrs(raw_html, "html", "lang");
        build_metadata(url, &titles, &descriptions, &languages)
    }
}

} // verus!
