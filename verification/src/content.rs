//! The readable text of a page: the text nodes outside `script` elements,
//! joined and with all white space brought down to single spaces.

use vstd::prelude::*;
use regex::Regex;
use vstd::string::StringExecFns;
use crate::loader::RecursiveWebLoader;
use crate::markup::{events_of, select_events, selected_events, EventView, MarkupEvent};
use crate::text::{chars_of, owned, same_text, string_of, text_of, texts_of};

verus! {

/// The tag whose content is never read.
pub open spec fn script_tag() -> Seq<char> {
    "script"@
}

/// How deep the walk is inside a subtree that it leaves unread, after one
/// more event; 0 when it is reading. A `script` element, a text node and a
/// node of another kind each start such a subtree; any other element is read
/// through.
pub open spec fn next_skip(skip: nat, event: EventView) -> nat {
    match event {
        EventView::Close => if skip > 0 {
            (skip - 1) as nat
        } else {
            0
        },
        EventView::Element(name) => if skip > 0 {
            skip + 1
        } else if name == script_tag() {
            1
        } else {
            0
        },
        EventView::Text(_) => skip + 1,
        EventView::Other => skip + 1,
    }
}

/// The depth of [`next_skip`] after all of `events`.
pub open spec fn skip_after(events: Seq<EventView>) -> nat
    decreases events.len(),
{
    if events.len() == 0 {
        0
    } else {
        next_skip(skip_after(events.drop_last()), events.last())
    }
}

/// The texts of the text nodes that the walk `events` reads, in order: those
/// it enters while it is inside no unread subtree.
pub open spec fn visible_texts(events: Seq<EventView>) -> Seq<Seq<char>>
    decreases events.len(),
{
    if events.len() == 0 {
        Seq::empty()
    } else {
        let before = events.drop_last();
        match events.last() {
            EventView::Text(t) => if skip_after(before) == 0 {
                visible_texts(before).push(t)
            } else {
                visible_texts(before)
            },
            _ => visible_texts(before),
        }
    }
}

/// Appends to `text` the texts that the walk `events` reads.
pub fn collect_text_not_in_script(events: &Vec<MarkupEvent>, text: &mut Vec<String>)
    ensures
        texts_of(final(text)@) == texts_of(old(text)@) + visible_texts(events_of(events@)),
{
    let ghost before = texts_of(text@);
    let ghost all = events_of(events@);
    let mut skip: usize = 0;
    let mut i: usize = 0;
    proof {
        assert(all.take(0) =~= Seq::<EventView>::empty());
        assert(before + visible_texts(all.take(0)) =~= before);
    }
    while i < events.len()
        invariant
            i <= events.len(),
            all == events_of(events@),
            skip as nat == skip_after(all.take(i as int)),
            skip <= i,
            texts_of(text@) == before + visible_texts(all.take(i as int)),
        decreases events.len() - i,
    {
        proof {
            assert(all.take(i + 1).drop_last() =~= all.take(i as int));
            assert(all.take(i + 1).last() == events@[i as int]@);
        }
        let ghost seen = texts_of(text@);
        match &events[i] {
            MarkupEvent::Close => {
                if skip > 0 {
                    skip -= 1;
                }
            },
            MarkupEvent::Element(name) => {
                if skip > 0 {
                    skip += 1;
                } else if same_text(name.as_str(), "script") {
                    skip = 1;
                }
            },
            MarkupEvent::Text(t) => {
                if skip == 0 {
                    let copy = t.clone();
                    text.push(copy);
                    proof {
                        assert(texts_of(text@) =~= seen.push(t@));
                        assert(seen.push(t@) =~= before + visible_texts(all.take(i as int)).push(
                            t@,
                        ));
                    }
                }
                skip += 1;
            },
            MarkupEvent::Other => {
                skip += 1;
            },
        }
        i += 1;
    }
    proof {
        assert(all.take(i as int) =~= all);
    }
}

/// The nodes entered and not yet left after `events`, outermost first.
pub open spec fn open_nodes(events: Seq<EventView>) -> Seq<EventView>
    decreases events.len(),
{
    if events.len() == 0 {
        Seq::empty()
    } else {
        let outer = open_nodes(events.drop_last());
        match events.last() {
            EventView::Close => if outer.len() > 0 {
                outer.drop_last()
            } else {
                outer
            },
            entered => outer.push(entered),
        }
    }
}

/// Whether the content of the node that `entered` enters is left unread.
pub open spec fn is_unread(entered: EventView) -> bool {
    entered == EventView::Element(script_tag()) || entered is Text || entered is Other
}

/// How many of the open nodes `nodes` lie at or inside the outermost unread one.
pub open spec fn unread_depth(nodes: Seq<EventView>) -> nat
    decreases nodes.len(),
{
    if nodes.len() == 0 {
        0
    } else {
        let outer = unread_depth(nodes.drop_last());
        if outer > 0 {
            outer + 1
        } else if is_unread(nodes.last()) {
            1
        } else {
            0
        }
    }
}

/// The depth that the walk keeps is the depth of the open nodes below the
/// outermost unread one.
pub proof fn lemma_skip_is_unread_depth(events: Seq<EventView>)
    ensures
        skip_after(events) == unread_depth(open_nodes(events)),
    decreases events.len(),
{
    if events.len() > 0 {
        let before = events.drop_last();
        lemma_skip_is_unread_depth(before);
        let outer = open_nodes(before);
        match events.last() {
            EventView::Close => {},
            entered => {
                assert(outer.push(entered).drop_last() =~= outer);
            },
        }
    }
}

/// Open nodes of which one is unread have a positive depth.
pub proof fn lemma_unread_node_gives_depth(nodes: Seq<EventView>, node: EventView)
    requires
        nodes.contains(node),
        is_unread(node),
    ensures
        unread_depth(nodes) > 0,
    decreases nodes.len(),
{
    if nodes.last() != node {
        let i = choose|i: int| 0 <= i < nodes.len() && nodes[i] == node;
        assert(nodes.drop_last()[i] == node);
        lemma_unread_node_gives_depth(nodes.drop_last(), node);
    }
}

/// Open nodes of positive depth hold an unread one.
pub proof fn lemma_depth_gives_unread_node(nodes: Seq<EventView>)
    requires
        unread_depth(nodes) > 0,
    ensures
        exists|i: int| 0 <= i < nodes.len() && is_unread(#[trigger] nodes[i]),
    decreases nodes.len(),
{
    if unread_depth(nodes.drop_last()) > 0 {
        lemma_depth_gives_unread_node(nodes.drop_last());
        let i = choose|i: int| 0 <= i < nodes.len() - 1 && is_unread(#[trigger] nodes.drop_last()[i]);
        assert(is_unread(nodes[i]));
    } else {
        assert(is_unread(nodes[nodes.len() - 1]));
    }
}

/// Script exclusion: a text node met while a `script` element is open
/// adds nothing to the texts read.
pub proof fn lemma_script_content_unread(events: Seq<EventView>, text: Seq<char>)
    requires
        open_nodes(events).contains(EventView::Element(script_tag())),
    ensures
        visible_texts(events.push(EventView::Text(text))) == visible_texts(events),
{
    lemma_skip_is_unread_depth(events);
    lemma_unread_node_gives_depth(open_nodes(events), EventView::Element(script_tag()));
    assert(events.push(EventView::Text(text)).drop_last() =~= events);
}

/// A text node is read exactly when none of the nodes open around it is
/// unread: no `script` element among them.
pub proof fn lemma_text_read_iff_in_read_nodes(events: Seq<EventView>, text: Seq<char>)
    ensures
        (forall|i: int| 0 <= i < open_nodes(events).len() ==> !is_unread(#[trigger] open_nodes(events)[i]))
            ==> visible_texts(events.push(EventView::Text(text))) == visible_texts(events).push(text),
        (exists|i: int| 0 <= i < open_nodes(events).len() && is_unread(#[trigger] open_nodes(events)[i]))
            ==> visible_texts(events.push(EventView::Text(text))) == visible_texts(events),
{
    lemma_skip_is_unread_depth(events);
    assert(events.push(EventView::Text(text)).drop_last() =~= events);
    let nodes = open_nodes(events);
    if unread_depth(nodes) > 0 {
        lemma_depth_gives_unread_node(nodes);
    }
    if exists|i: int| 0 <= i < nodes.len() && is_unread(#[trigger] nodes[i]) {
        let i = choose|i: int| 0 <= i < nodes.len() && is_unread(#[trigger] nodes[i]);
        lemma_unread_node_gives_depth(nodes, nodes[i]);
    }
}

/// The strings `parts` with one space between each two neighbours.
pub open spec fn joined(parts: Seq<Seq<char>>) -> Seq<char>
    decreases parts.len(),
{
    if parts.len() == 0 {
        Seq::empty()
    } else if parts.len() == 1 {
        parts[0]
    } else {
        joined(parts.drop_last()) + seq![' '] + parts.last()
    }
}

/// The strings of `parts`, joined by single spaces.
pub fn join_fragments(parts: &Vec<String>) -> (text: String)
    ensures
        text@ == joined(texts_of(parts@)),
{
    let ghost all = texts_of(parts@);
    let mut text = String::new();
    let mut i: usize = 0;
    proof {
        assert(all.take(0) =~= Seq::<Seq<char>>::empty());
    }
    while i < parts.len()
        invariant
            i <= parts.len(),
            all == texts_of(parts@),
            text@ == joined(all.take(i as int)),
        decreases parts.len() - i,
    {
        proof {
            assert(all.take(i + 1).drop_last() =~= all.take(i as int));
            assert(all.take(i + 1).last() == parts@[i as int]@);
            if i == 0 {
                assert(all.take(1)[0] == parts@[0]@);
                assert(Seq::<char>::empty() + parts@[0]@ =~= parts@[0]@);
            }
        }
        if i > 0 {
            text.push(' ');
            proof {
                assert(joined(all.take(i as int)).push(' ') =~= joined(all.take(i as int)) + seq![' ']);
            }
        }
        text.append(parts[i].as_str());
        i += 1;
    }
    proof {
        assert(all.take(i as int) =~= all);
    }
    text
}

/// `c`, or a space in the place of a line feed or a tab.
pub open spec fn without_break(c: char) -> char {
    if c == '\n' || c == '\t' {
        ' '
    } else {
        c
    }
}

/// `s` with a space in the place of every line feed and every tab.
pub open spec fn breaks_replaced(s: Seq<char>) -> Seq<char> {
    s.map_values(|c: char| without_break(c))
}

/// `s` with a space in the place of every line feed and every tab.
pub fn replace_breaks(s: &str) -> (text: String)
    ensures
        text@ == breaks_replaced(s@),
{
    let chars = chars_of(s);
    let mut out: Vec<char> = Vec::new();
    let mut i: usize = 0;
    while i < chars.len()
        invariant
            i <= chars.len(),
            out@ == breaks_replaced(chars@.take(i as int)),
        decreases chars.len() - i,
    {
        let c = chars[i];
        out.push(if c == '\n' || c == '\t' {
            ' '
        } else {
            c
        });
        proof {
            assert(out@ =~= breaks_replaced(chars@.take(i + 1)));
        }
        i += 1;
    }
    proof {
        assert(chars@.take(i as int) =~= chars@);
    }
    string_of(&out)
}

/// Whether `c` is white space: a character with the Unicode property
/// `White_Space`.
pub open spec fn is_space(c: char) -> bool {
    let n = c as u32;
    ||| 0x09 <= n <= 0x0d
    ||| n == 0x20
    ||| n == 0x85
    ||| n == 0xa0
    ||| n == 0x1680
    ||| 0x2000 <= n <= 0x200a
    ||| n == 0x2028
    ||| n == 0x2029
    ||| n == 0x202f
    ||| n == 0x205f
    ||| n == 0x3000
}

/// `s` with one space in the place of every run of white space that
/// cannot be made longer.
pub open spec fn collapsed(s: Seq<char>) -> Seq<char>
    decreases s.len(),
{
    if s.len() == 0 {
        s
    } else {
        let before = s.drop_last();
        if !is_space(s.last()) {
            collapsed(before).push(s.last())
        } else if before.len() > 0 && is_space(before.last()) {
            collapsed(before)
        } else {
            collapsed(before).push(' ')
        }
    }
}

/// Whether `text` is free of white space other than the space, and of two
/// spaces side by side.
pub open spec fn is_normal(text: Seq<char>) -> bool {
    &&& forall|i: int| 0 <= i < text.len() && is_space(#[trigger] text[i]) ==> text[i] == ' '
    &&& forall|i: int| 0 <= i < text.len() - 1 ==> !(#[trigger] text[i] == ' ' && text[i + 1] == ' ')
}

/// Normalisation: collapsed text holds no tab, no line feed nor any other
/// white space but the space, and no two spaces side by side. It ends in a
/// space only where the text it was made from ends in white space.
pub proof fn lemma_collapsed_is_normal(s: Seq<char>)
    ensures
        is_normal(collapsed(s)),
        collapsed(s).len() > 0 && collapsed(s).last() == ' ' ==> s.len() > 0 && is_space(s.last()),
    decreases s.len(),
{
    if s.len() > 0 {
        let before = s.drop_last();
        lemma_collapsed_is_normal(before);
        let text = collapsed(s);
        assert forall|i: int| 0 <= i < text.len() - 1 implies !(#[trigger] text[i] == ' ' && text[i
            + 1] == ' ') by {
            if i < collapsed(before).len() - 1 {
                assert(text[i] == collapsed(before)[i]);
                assert(text[i + 1] == collapsed(before)[i + 1]);
            }
        }
        assert forall|i: int| 0 <= i < text.len() && is_space(#[trigger] text[i]) implies text[i]
            == ' ' by {
            if i < collapsed(before).len() {
                assert(text[i] == collapsed(before)[i]);
            }
        }
    }
}

/// Text that is normal already is left as it is.
pub proof fn lemma_normal_text_stays(s: Seq<char>)
    requires
        is_normal(s),
    ensures
        collapsed(s) == s,
        breaks_replaced(s) == s,
    decreases s.len(),
{
    if s.len() > 0 {
        let before = s.drop_last();
        assert(is_normal(before)) by {
            assert forall|i: int| 0 <= i < before.len() && is_space(#[trigger] before[i]) implies before[i]
                == ' ' by {
                assert(before[i] == s[i]);
            }
            assert forall|i: int| 0 <= i < before.len() - 1 implies !(#[trigger] before[i] == ' '
                && before[i + 1] == ' ') by {
                assert(before[i] == s[i] && before[i + 1] == s[i + 1]);
            }
        }
        lemma_normal_text_stays(before);
        if is_space(s.last()) {
            assert(s[s.len() - 1] == ' ');
            if before.len() > 0 {
                assert(before.last() == s[s.len() - 2]);
                assert(!(s[s.len() - 2] == ' ' && s[s.len() - 2 + 1] == ' '));
            }
        }
        assert(before.push(s.last()) =~= s);
    }
    assert(breaks_replaced(s) =~= s) by {
        assert forall|i: int| 0 <= i < s.len() implies without_break(#[trigger] s[i]) == s[i] by {
            if s[i] == '\n' || s[i] == '\t' {
                assert(is_space(s[i]));
            }
        }
    }
}

/// Collapsing makes the replacement of breaks redundant: a line feed and a
/// tab are white space themselves.
pub proof fn lemma_collapsed_ignores_breaks(s: Seq<char>)
    ensures
        collapsed(breaks_replaced(s)) == collapsed(s),
    decreases s.len(),
{
    if s.len() > 0 {
        lemma_collapsed_ignores_breaks(s.drop_last());
        assert(breaks_replaced(s).drop_last() =~= breaks_replaced(s.drop_last()));
    }
}

/// The pattern that matches a run of white space of one character or more.
pub open spec fn space_run_pattern() -> Seq<char> {
    "\\s+"@
}

/// What `regex::Regex::replace_all` makes of `text` for the pattern `pattern`
/// and the replacement `with`; `None` where `pattern` is no pattern.
pub uninterp spec fn regex_replaced(pattern: Seq<char>, text: Seq<char>, with: Seq<char>) -> Option<Seq<char>>;

/// Compiles `pattern` with `regex::Regex::new` and replaces with
/// `Regex::replace_all` every match in `text` by `with`. Trusted: the result
/// is a function of the three strings, named [`regex_replaced`]; and for the
/// pattern `\s+` and a single space as the replacement it is `text` with
/// every longest run of `White_Space` characters turned into one space, as
/// the crate documents `\s`, `+` and `replace_all`.
#[verifier::external_body]
pub(crate) fn regex_replace_all(pattern: &str, text: &str, with: &str) -> (r: Option<String>)
    ensures
        text_of(r) == regex_replaced(pattern@, text@, with@),
        pattern@ == space_run_pattern() && with@ == " "@ ==> text_of(r) == Some(collapsed(text@)),
{
    Regex::new(pattern).ok().map(|re| re.replace_all(text, with).to_string())
}

/// `s` with every run of white space brought down to one space.
pub fn collapse_spaces(s: &str) -> (text: String)
    ensures
        text@ == collapsed(s@),
{
    match regex_replace_all("\\s+", s, " ") {
        Some(text) => text,
        None => owned(s),
    }
}

/// The text that a page shows, from the texts read in it: joined by spaces,
/// breaks replaced, white space collapsed.
pub open spec fn normalized(parts: Seq<Seq<char>>) -> Seq<char> {
    collapsed(breaks_replaced(joined(parts)))
}

/// The text that the walk `events` over a page's body shows.
pub fn text_of_events(events: &Vec<MarkupEvent>) -> (text: String)
    ensures
        text@ == normalized(visible_texts(events_of(events@))),
        is_normal(text@),
{
    proof {
        lemma_collapsed_is_normal(breaks_replaced(joined(visible_texts(events_of(events@)))));
    }
    let mut parts: Vec<String> = Vec::new();
    collect_text_not_in_script(events, &mut parts);
    proof {
        assert(texts_of(parts@) =~= visible_texts(events_of(events@)));
    }
    let joined_text = join_fragments(&parts);
    let cleaned_text = replace_breaks(joined_text.as_str());
    collapse_spaces(cleaned_text.as_str())
}

/// The text that a page shows, from the walk over its `body` elements; a
/// page in which no such walk can be had shows none.
pub open spec fn text_shown(events: Option<Seq<EventView>>) -> Seq<char> {
    match events {
        Some(events) => normalized(visible_texts(events)),
        None => Seq::empty(),
    }
}

/// The text that the page `raw_html` shows.
pub open spec fn page_text(raw_html: Seq<char>) -> Seq<char> {
    text_shown(selected_events(raw_html, "body"@))
}

impl RecursiveWebLoader {
    /// The visible text of the page `raw_html`: the text nodes of its body
    /// outside `script` elements, joined by spaces and normalised. The
    /// result depends on `raw_html` alone.
    pub fn extractor(&self, raw_html: &str) -> (text: String)
        ensures
            text@ == page_text(raw_html@),
            is_normal(text@),
    {
        match select_events(raw_html, "body") {
            Some(events) => text_of_events(&events),
            None => String::new(),
        }
    }
}

} // verus!
