//! Passage headers (`:: title [tags] {metadata}`) and passage bodies made of
//! text runs and `[[link]]` notations.

use vstd::prelude::*;

use crate::error::ParsingError;
use crate::parser::metadata::{metadata_end, metadata_end_at};
use crate::utils::{find_unescaped, find_unescaped_str, link_open, match_at};
use crate::{node_str_model, passage_str_model, ContentNode, NodeModel, Passage, PassageModel, Tag};

verus! {

// ---------------------------------------------------------------------------
// Character-class scanners. Each consumes a maximal run where a backslash
// and the character after it form an atomic pair; a trailing backslash with
// nothing after it is taken as a plain character.
// ---------------------------------------------------------------------------

/// Characters that end a title word when unescaped.
pub open spec fn word_stop(c: char) -> bool {
    c == ' ' || c == '\n' || c == '\r' || c == '[' || c == '{'
}

/// Characters that end a tag token when unescaped.
pub open spec fn tag_stop(c: char) -> bool {
    c == ' ' || c == ']'
}

/// Characters that end a link body when unescaped.
pub open spec fn link_stop(c: char) -> bool {
    c == '\n' || c == '\r' || c == ']'
}

/// End of the maximal title-word run starting at `i`.
pub open spec fn word_end(s: Seq<char>, i: int) -> int
    decreases s.len() - i,
{
    if i < 0 || i >= s.len() {
        i
    } else if s[i] == '\\' {
        if i + 1 < s.len() {
            word_end(s, i + 2)
        } else {
            i + 1
        }
    } else if word_stop(s[i]) {
        i
    } else {
        word_end(s, i + 1)
    }
}

/// End of the maximal tag-token run starting at `i`.
pub open spec fn tag_end(s: Seq<char>, i: int) -> int
    decreases s.len() - i,
{
    if i < 0 || i >= s.len() {
        i
    } else if s[i] == '\\' {
        if i + 1 < s.len() {
            tag_end(s, i + 2)
        } else {
            i + 1
        }
    } else if tag_stop(s[i]) {
        i
    } else {
        tag_end(s, i + 1)
    }
}

/// End of the maximal link-body run starting at `i`.
pub open spec fn link_content_end(s: Seq<char>, i: int) -> int
    decreases s.len() - i,
{
    if i < 0 || i >= s.len() {
        i
    } else if s[i] == '\\' {
        if i + 1 < s.len() {
            link_content_end(s, i + 2)
        } else {
            i + 1
        }
    } else if link_stop(s[i]) {
        i
    } else {
        link_content_end(s, i + 1)
    }
}

/// End of the run of spaces and tabs starting at `i`.
pub open spec fn space_end(s: Seq<char>, i: int) -> int
    decreases s.len() - i,
{
    if 0 <= i < s.len() && (s[i] == ' ' || s[i] == '\t') {
        space_end(s, i + 1)
    } else {
        i
    }
}

/// End of the run of whitespace (spaces, tabs, line breaks) starting at `i`.
pub open spec fn multispace_end(s: Seq<char>, i: int) -> int
    decreases s.len() - i,
{
    if 0 <= i < s.len() && (s[i] == ' ' || s[i] == '\t' || s[i] == '\r' || s[i] == '\n') {
        multispace_end(s, i + 1)
    } else {
        i
    }
}

/// Position after a line ending at `i`: a bare `\n` or a `\r\n` pair.
pub open spec fn line_ending_at(s: Seq<char>, i: int) -> Option<int> {
    if 0 <= i < s.len() && s[i] == '\n' {
        Some(i + 1)
    } else if 0 <= i && i + 2 <= s.len() && s[i] == '\r' && s[i + 1] == '\n' {
        Some(i + 2)
    } else {
        None
    }
}

fn word_end_at(s: &str, i: usize) -> (r: usize)
    requires
        i <= s@.len(),
    ensures
        r as int == word_end(s@, i as int),
        i <= r <= s@.len(),
    decreases s@.len() - i,
{
    let len = s.unicode_len();
    if i >= len {
        i
    } else {
        let c = s.get_char(i);
        if c == '\\' {
            if i + 1 < len {
                word_end_at(s, i + 2)
            } else {
                i + 1
            }
        } else if c == ' ' || c == '\n' || c == '\r' || c == '[' || c == '{' {
            i
        } else {
            word_end_at(s, i + 1)
        }
    }
}

fn tag_end_at(s: &str, i: usize) -> (r: usize)
    requires
        i <= s@.len(),
    ensures
        r as int == tag_end(s@, i as int),
        i <= r <= s@.len(),
    decreases s@.len() - i,
{
    let len = s.unicode_len();
    if i >= len {
        i
    } else {
        let c = s.get_char(i);
        if c == '\\' {
            if i + 1 < len {
                tag_end_at(s, i + 2)
            } else {
                i + 1
            }
        } else if c == ' ' || c == ']' {
            i
        } else {
            tag_end_at(s, i + 1)
        }
    }
}

fn link_content_end_at(s: &str, i: usize) -> (r: usize)
    requires
        i <= s@.len(),
    ensures
        r as int == link_content_end(s@, i as int),
        i <= r <= s@.len(),
    decreases s@.len() - i,
{
    let len = s.unicode_len();
    if i >= len {
        i
    } else {
        let c = s.get_char(i);
        if c == '\\' {
            if i + 1 < len {
                link_content_end_at(s, i + 2)
            } else {
                i + 1
            }
        } else if c == '\n' || c == '\r' || c == ']' {
            i
        } else {
            link_content_end_at(s, i + 1)
        }
    }
}

fn space_end_at(s: &str, i: usize) -> (r: usize)
    requires
        i <= s@.len(),
    ensures
        r as int == space_end(s@, i as int),
        i <= r <= s@.len(),
    decreases s@.len() - i,
{
    let len = s.unicode_len();
    if i < len {
        let c = s.get_char(i);
        if c == ' ' || c == '\t' {
            return space_end_at(s, i + 1);
        }
    }
    i
}

pub(crate) fn multispace_end_at(s: &str, i: usize) -> (r: usize)
    requires
        i <= s@.len(),
    ensures
        r as int == multispace_end(s@, i as int),
        i <= r <= s@.len(),
    decreases s@.len() - i,
{
    let len = s.unicode_len();
    if i < len {
        let c = s.get_char(i);
        if c == ' ' || c == '\t' || c == '\r' || c == '\n' {
            return multispace_end_at(s, i + 1);
        }
    }
    i
}

pub(crate) fn line_ending_end_at(s: &str, i: usize) -> (r: Option<usize>)
    requires
        i <= s@.len(),
    ensures
        match r {
            Some(e) => line_ending_at(s@, i as int) == Some(e as int) && i < e <= s@.len(),
            None => line_ending_at(s@, i as int) is None,
        },
{
    let len = s.unicode_len();
    if i < len && s.get_char(i) == '\n' {
        Some(i + 1)
    } else if i < len && i + 1 < len && s.get_char(i) == '\r' && s.get_char(i + 1) == '\n' {
        Some(i + 2)
    } else {
        None
    }
}

// ---------------------------------------------------------------------------
// Title: `:: ` followed by words separated by single spaces, up to the first
// unescaped space run, `[`, `{`, or line break.
// ---------------------------------------------------------------------------

/// End of a title whose first word starts at `i`: words joined by single
/// spaces, as long as a nonempty word follows each space.
pub open spec fn title_end(s: Seq<char>, i: int) -> int
    decreases s.len() - i,
{
    let e = word_end(s, i);
    if e < s.len() && s[e] == ' ' && word_end(s, e + 1) > e + 1 && e >= i {
        title_end(s, e + 1)
    } else {
        e
    }
}

/// A title at `i`: the prefix `:: ` followed by at least one word; the value
/// is the position right after the title's last word.
pub open spec fn spec_parse_title_at(s: Seq<char>, i: int) -> Option<int> {
    if 0 <= i && i + 3 <= s.len() && s[i] == ':' && s[i + 1] == ':' && s[i + 2] == ' ' && word_end(
        s,
        i + 3,
    ) > i + 3 {
        Some(title_end(s, i + 3))
    } else {
        None
    }
}

fn title_end_at(s: &str, i: usize) -> (r: usize)
    requires
        i <= s@.len(),
    ensures
        r as int == title_end(s@, i as int),
        i <= r <= s@.len(),
    decreases s@.len() - i,
{
    let e = word_end_at(s, i);
    if e < s.unicode_len() && s.get_char(e) == ' ' {
        let e2 = word_end_at(s, e + 1);
        if e2 > e + 1 {
            return title_end_at(s, e + 1);
        }
    }
    e
}

/// Find a `:: title` at `i`; returns the end position of the title.
pub(crate) fn parse_title_at(s: &str, i: usize) -> (r: Option<usize>)
    requires
        i <= s@.len(),
    ensures
        match r {
            Some(te) => spec_parse_title_at(s@, i as int) == Some(te as int) && i + 3 <= te
                <= s@.len(),
            None => spec_parse_title_at(s@, i as int) is None,
        },
{
    let len = s.unicode_len();
    if len < 3 || i > len - 3 {
        return None;
    }
    if s.get_char(i) != ':' || s.get_char(i + 1) != ':' || s.get_char(i + 2) != ' ' {
        return None;
    }
    let w = word_end_at(s, i + 3);
    if w > i + 3 {
        let te = title_end_at(s, i + 3);
        proof {
            lemma_title_end_ge_word(s@, i + 3);
        }
        Some(te)
    } else {
        None
    }
}

proof fn lemma_title_end_ge_word(s: Seq<char>, i: int)
    requires
        0 <= i <= s.len(),
    ensures
        title_end(s, i) >= word_end(s, i),
    decreases s.len() - i,
{
    let e = word_end(s, i);
    if e < s.len() && s[e] == ' ' && word_end(s, e + 1) > e + 1 && e >= i {
        lemma_title_end_ge_word(s, e + 1);
    }
}

// ---------------------------------------------------------------------------
// Tags: `[` tag (` ` tag)* `]`, each tag a nonempty run excluding unescaped
// space and `]`.
// ---------------------------------------------------------------------------

/// One or more tags starting at `i` (which must start a nonempty tag),
/// separated by single spaces and closed by `]`. Returns the position after
/// the `]` and the raw tag spans.
pub open spec fn spec_tags_list(s: Seq<char>, i: int) -> Option<(int, Seq<Seq<char>>)>
    decreases s.len() - i,
{
    let e = tag_end(s, i);
    let t = s.subrange(i, e);
    if e < s.len() && s[e] == ' ' && tag_end(s, e + 1) > e + 1 && e >= i {
        match spec_tags_list(s, e + 1) {
            Some((f, rest)) => Some((f, seq![t] + rest)),
            None => None,
        }
    } else if e < s.len() && s[e] == ']' {
        Some((e + 1, seq![t]))
    } else {
        None
    }
}

/// A bracketed tag list at `i`: the position after the closing `]` and the
/// raw tag spans, possibly none.
pub open spec fn spec_parse_tags_at(s: Seq<char>, i: int) -> Option<(int, Seq<Seq<char>>)> {
    if 0 <= i < s.len() && s[i] == '[' {
        if tag_end(s, i + 1) == i + 1 {
            if i + 1 < s.len() && s[i + 1] == ']' {
                Some((i + 2, Seq::empty()))
            } else {
                None
            }
        } else {
            spec_tags_list(s, i + 1)
        }
    } else {
        None
    }
}

fn tags_list_at(s: &str, i: usize) -> (r: Option<(usize, Vec<(usize, usize)>)>)
    requires
        i <= s@.len(),
    ensures
        match r {
            Some(p) => spec_tags_list(s@, i as int) matches Some(sp) && p.0 as int == sp.0 && i
                < p.0 <= s@.len() && p.1@.map_values(
                |t: (usize, usize)| s@.subrange(t.0 as int, t.1 as int),
            ) == sp.1 && forall|k: int|
                0 <= k < p.1@.len() ==> i <= (#[trigger] p.1@[k]).0 <= p.1@[k].1 <= s@.len(),
            None => spec_tags_list(s@, i as int) is None,
        },
    decreases s@.len() - i,
{
    let len = s.unicode_len();
    let e = tag_end_at(s, i);
    if e < len && s.get_char(e) == ' ' {
        let e2 = tag_end_at(s, e + 1);
        if e2 > e + 1 {
            match tags_list_at(s, e + 1) {
                Some((f, mut rest)) => {
                    rest.insert(0, (i, e));
                    proof {
                        match spec_tags_list(s@, e + 1) {
                            Some(sp_inner) => {
                                assert(rest@.map_values(
                                    |t: (usize, usize)| s@.subrange(t.0 as int, t.1 as int),
                                ) =~= seq![s@.subrange(i as int, e as int)] + sp_inner.1);
                            },
                            None => {
                                assert(false);
                            },
                        }
                    }
                    return Some((f, rest));
                },
                None => {
                    return None;
                },
            }
        }
    }
    if e < len && s.get_char(e) == ']' {
        let mut one: Vec<(usize, usize)> = Vec::new();
        one.push((i, e));
        proof {
            assert(one@.map_values(|t: (usize, usize)| s@.subrange(t.0 as int, t.1 as int))
                =~= seq![s@.subrange(i as int, e as int)]);
        }
        Some((e + 1, one))
    } else {
        None
    }
}

/// Find a `[tag …]` list at `i`; returns the position after `]` and the raw
/// tag spans.
pub(crate) fn parse_tags_at(s: &str, i: usize) -> (r: Option<(usize, Vec<(usize, usize)>)>)
    requires
        i <= s@.len(),
    ensures
        match r {
            Some(p) => spec_parse_tags_at(s@, i as int) matches Some(sp) && p.0 as int == sp.0 && i
                < p.0 <= s@.len() && p.1@.map_values(
                |t: (usize, usize)| s@.subrange(t.0 as int, t.1 as int),
            ) == sp.1 && forall|k: int|
                0 <= k < p.1@.len() ==> i <= (#[trigger] p.1@[k]).0 <= p.1@[k].1 <= s@.len(),
            None => spec_parse_tags_at(s@, i as int) is None,
        },
{
    let len = s.unicode_len();
    if i >= len || s.get_char(i) != '[' {
        return None;
    }
    let e0 = tag_end_at(s, i + 1);
    if e0 == i + 1 {
        if i + 1 < len && s.get_char(i + 1) == ']' {
            let none_vec: Vec<(usize, usize)> = Vec::new();
            proof {
                assert(none_vec@.map_values(
                    |t: (usize, usize)| s@.subrange(t.0 as int, t.1 as int),
                ) =~= Seq::<Seq<char>>::empty());
            }
            Some((i + 2, none_vec))
        } else {
            None
        }
    } else {
        tags_list_at(s, i + 1)
    }
}

// ---------------------------------------------------------------------------
// Header: `:: title [tags] {metadata}` ending at a line break, with spaces
// tolerated between the parts.
// ---------------------------------------------------------------------------

/// The parts of a parsed passage header, as raw (undecoded) spans, and the
/// position right after the header's line ending.
pub ghost struct RawHeader {
    pub end: int,
    pub title: Seq<char>,
    pub tags: Seq<Seq<char>>,
    pub metadata: Option<Seq<char>>,
}

/// A passage header at `i`. Tags and metadata are optional; a malformed tag
/// list or metadata block is treated as absent, in which case the line must
/// end right away for the header to parse.
pub open spec fn spec_parse_header(s: Seq<char>, i: int) -> Option<RawHeader> {
    match spec_parse_title_at(s, i) {
        None => None,
        Some(te) => {
            let a = space_end(s, te);
            let tagged = match spec_parse_tags_at(s, a) {
                Some((e, ts)) => (e, ts),
                None => (a, Seq::<Seq<char>>::empty()),
            };
            let b = space_end(s, tagged.0);
            let with_md = match metadata_end(s, b) {
                Some(e) => (e, Some(s.subrange(b, e))),
                None => (b, None::<Seq<char>>),
            };
            let c = space_end(s, with_md.0);
            match line_ending_at(s, c) {
                None => None,
                Some(f) => Some(
                    RawHeader {
                        end: f,
                        title: s.subrange(i + 3, te),
                        tags: tagged.1,
                        metadata: with_md.1,
                    },
                ),
            }
        },
    }
}

/// A parsed header with every part as a character range into the source.
pub(crate) struct HeaderIdx {
    pub end: usize,
    pub title: (usize, usize),
    pub tags: Vec<(usize, usize)>,
    pub metadata: Option<(usize, usize)>,
}

pub(crate) fn parse_header_at(s: &str, i: usize) -> (r: Option<HeaderIdx>)
    requires
        i <= s@.len(),
    ensures
        match r {
            Some(h) => spec_parse_header(s@, i as int) matches Some(sh) && h.end as int == sh.end
                && i < h.end <= s@.len() && h.title.0 <= h.title.1 <= s@.len() && s@.subrange(
                h.title.0 as int,
                h.title.1 as int,
            ) == sh.title && h.tags@.map_values(
                |t: (usize, usize)| s@.subrange(t.0 as int, t.1 as int),
            ) == sh.tags && (forall|k: int|
                0 <= k < h.tags@.len() ==> (#[trigger] h.tags@[k]).0 <= h.tags@[k].1 <= s@.len())
                && (match h.metadata {
                Some(m) => m.0 <= m.1 <= s@.len() && sh.metadata == Some(
                    s@.subrange(m.0 as int, m.1 as int),
                ),
                None => sh.metadata is None,
            }),
            None => spec_parse_header(s@, i as int) is None,
        },
{
    let te = match parse_title_at(s, i) {
        Some(te) => te,
        None => {
            return None;
        },
    };
    let a = space_end_at(s, te);
    let (b0, tags) = match parse_tags_at(s, a) {
        Some((e, ts)) => (e, ts),
        None => {
            let empty_tags: Vec<(usize, usize)> = Vec::new();
            proof {
                assert(empty_tags@.map_values(
                    |t: (usize, usize)| s@.subrange(t.0 as int, t.1 as int),
                ) =~= Seq::<Seq<char>>::empty());
            }
            (a, empty_tags)
        },
    };
    let b = space_end_at(s, b0);
    let (c0, md) = match metadata_end_at(s, b) {
        Some(e) => (e, Some((b, e))),
        None => (b, None),
    };
    let c = space_end_at(s, c0);
    match line_ending_end_at(s, c) {
        None => None,
        Some(f) => Some(HeaderIdx { end: f, title: (i + 3, te), tags, metadata: md }),
    }
}

} // verus!

verus! {

// ---------------------------------------------------------------------------
// Content block: everything up to (but excluding) the next line break that is
// immediately followed by `::`, or to the end of input.
// ---------------------------------------------------------------------------

/// Whether a passage boundary (a line break immediately followed by `::`)
/// starts at `i`.
pub open spec fn boundary_at(s: Seq<char>, i: int) -> bool {
    (0 <= i && i + 3 <= s.len() && s[i] == '\n' && s[i + 1] == ':' && s[i + 2] == ':') || (0 <= i
        && i + 4 <= s.len() && s[i] == '\r' && s[i + 1] == '\n' && s[i + 2] == ':' && s[i + 3]
        == ':')
}

/// The first passage boundary at or after `i`.
pub open spec fn find_boundary(s: Seq<char>, i: int) -> Option<int>
    decreases s.len() - i,
{
    if i < 0 || i >= s.len() {
        None
    } else if boundary_at(s, i) {
        Some(i)
    } else {
        find_boundary(s, i + 1)
    }
}

/// Where the content block starting at `h` is cut: at the first boundary, or
/// at the end of input when none follows.
pub open spec fn content_cut(s: Seq<char>, h: int) -> int {
    match find_boundary(s, h) {
        Some(b) => b,
        None => s.len() as int,
    }
}

/// Strip line-break characters from the back of the region `[h, e)`.
pub open spec fn trim_back(s: Seq<char>, h: int, e: int) -> int
    decreases e - h,
{
    if h < e <= s.len() && (s[e - 1] == '\n' || s[e - 1] == '\r') {
        trim_back(s, h, e - 1)
    } else {
        e
    }
}

fn boundary_at_x(s: &str, i: usize) -> (b: bool)
    requires
        i <= s@.len(),
    ensures
        b == boundary_at(s@, i as int),
{
    let len = s.unicode_len();
    if i < len && len - i >= 3 && s.get_char(i) == '\n' && s.get_char(i + 1) == ':' && s.get_char(
        i + 2,
    ) == ':' {
        return true;
    }
    if i < len && len - i >= 4 && s.get_char(i) == '\r' && s.get_char(i + 1) == '\n' && s.get_char(
        i + 2,
    ) == ':' && s.get_char(i + 3) == ':' {
        return true;
    }
    false
}

pub(crate) fn find_boundary_at(s: &str, i: usize) -> (r: Option<usize>)
    requires
        i <= s@.len(),
    ensures
        match r {
            Some(b) => find_boundary(s@, i as int) == Some(b as int) && i <= b <= s@.len(),
            None => find_boundary(s@, i as int) is None,
        },
    decreases s@.len() - i,
{
    let len = s.unicode_len();
    if i >= len {
        None
    } else if boundary_at_x(s, i) {
        Some(i)
    } else {
        find_boundary_at(s, i + 1)
    }
}

pub(crate) fn trim_back_at(s: &str, h: usize, e: usize) -> (r: usize)
    requires
        h <= e <= s@.len(),
    ensures
        r as int == trim_back(s@, h as int, e as int),
        h <= r <= e,
    decreases e - h,
{
    if h < e {
        let c = s.get_char(e - 1);
        if c == '\n' || c == '\r' {
            return trim_back_at(s, h, e - 1);
        }
    }
    e
}

// ---------------------------------------------------------------------------
// Content nodes: alternating text runs and `[[link]]` notations over the
// trimmed content block.
// ---------------------------------------------------------------------------

/// Interpret a link body by trying the three separators in fixed precedence:
/// `text|target`, `text->target`, `target<-text`; with none of them the whole
/// body is both text and target.
pub open spec fn link_body_node(b: Seq<char>) -> NodeModel {
    match find_unescaped(b, seq!['|'], 0) {
        Some(i) => NodeModel::Link {
            text: b.subrange(0, i),
            target: b.subrange(i + 1, b.len() as int),
        },
        None => match find_unescaped(b, seq!['-', '>'], 0) {
            Some(i) => NodeModel::Link {
                text: b.subrange(0, i),
                target: b.subrange(i + 2, b.len() as int),
            },
            None => match find_unescaped(b, seq!['<', '-'], 0) {
                Some(i) => NodeModel::Link {
                    text: b.subrange(i + 2, b.len() as int),
                    target: b.subrange(0, i),
                },
                None => NodeModel::Link { text: b, target: b },
            },
        },
    }
}

/// A link node at `j`: `[[`, a nonempty body free of unescaped `]` and line
/// breaks, then `]]`. The value is the position after `]]` and the
/// interpreted body.
pub open spec fn spec_parse_link(c: Seq<char>, j: int) -> Option<(int, NodeModel)> {
    if 0 <= j && j + 2 <= c.len() && c[j] == '[' && c[j + 1] == '[' {
        let e = link_content_end(c, j + 2);
        if e > j + 2 && e + 2 <= c.len() && c[e] == ']' && c[e + 1] == ']' {
            Some((e + 2, link_body_node(c.subrange(j + 2, e))))
        } else {
            None
        }
    } else {
        None
    }
}

/// The node starting at `j`: the text up to the next unescaped `[[`, the
/// whole remainder when none follows, or a link when `j` sits exactly on an
/// unescaped `[[`.
pub open spec fn spec_parse_node(c: Seq<char>, j: int) -> Option<(int, NodeModel)> {
    if j < 0 || j >= c.len() {
        None
    } else {
        match find_unescaped(c, link_open(), j) {
            Some(m) => if m > j {
                Some((m, NodeModel::Text(c.subrange(j, m))))
            } else {
                spec_parse_link(c, j)
            },
            None => Some((c.len() as int, NodeModel::Text(c.subrange(j, c.len() as int)))),
        }
    }
}

/// All nodes from `j` to the end of the content block, in order.
pub open spec fn spec_parse_nodes(c: Seq<char>, j: int) -> Option<Seq<NodeModel>>
    decreases c.len() - j,
{
    if j >= c.len() {
        Some(Seq::empty())
    } else if j < 0 {
        None
    } else {
        match spec_parse_node(c, j) {
            None => None,
            Some((j2, node)) => {
                if j < j2 <= c.len() {
                    match spec_parse_nodes(c, j2) {
                        Some(rest) => Some(seq![node] + rest),
                        None => None,
                    }
                } else {
                    None
                }
            },
        }
    }
}

/// A content node as character ranges, relative to the content block.
pub(crate) enum RawNodeIdx {
    Text(usize, usize),
    Link { text: (usize, usize), target: (usize, usize) },
}

pub(crate) open spec fn raw_node_model(n: RawNodeIdx, c: Seq<char>) -> NodeModel {
    match n {
        RawNodeIdx::Text(a, b) => NodeModel::Text(c.subrange(a as int, b as int)),
        RawNodeIdx::Link { text, target } => NodeModel::Link {
            text: c.subrange(text.0 as int, text.1 as int),
            target: c.subrange(target.0 as int, target.1 as int),
        },
    }
}

pub(crate) open spec fn raw_node_wf(n: RawNodeIdx, clen: int) -> bool {
    match n {
        RawNodeIdx::Text(a, b) => a <= b <= clen,
        RawNodeIdx::Link { text, target } => text.0 <= text.1 <= clen && target.0 <= target.1
            <= clen,
    }
}

pub(crate) fn parse_link_x(c: &str, j: usize) -> (r: Option<(usize, RawNodeIdx)>)
    requires
        j <= c@.len(),
    ensures
        match spec_parse_link(c@, j as int) {
            Some(sp) => r matches Some(p) && p.0 as int == sp.0 && raw_node_model(p.1, c@) == sp.1
                && j < p.0 <= c@.len() && raw_node_wf(p.1, c@.len() as int),
            None => r is None,
        },
{
    let len = c.unicode_len();
    if j >= len || len - j < 2 || c.get_char(j) != '[' || c.get_char(j + 1) != '[' {
        return None;
    }
    let e = link_content_end_at(c, j + 2);
    if e > j + 2 && len - e >= 2 && c.get_char(e) == ']' && c.get_char(e + 1) == ']' {
        let body = c.substring_char(j + 2, e);
        let ghost bseq = c@.subrange(j + 2, e as int);
        proof {
            reveal_strlit("|");
            reveal_strlit("->");
            reveal_strlit("<-");
            assert("|"@ =~= seq!['|']);
            assert("->"@ =~= seq!['-', '>']);
            assert("<-"@ =~= seq!['<', '-']);
        }
        let node: RawNodeIdx;
        match find_unescaped_str(body, "|", 0) {
            Some(p1) => {
                node = RawNodeIdx::Link { text: (j + 2, j + 2 + p1), target: (j + 2 + p1 + 1, e) };
                proof {
                    assert(c@.subrange(j + 2, j + 2 + p1 as int) =~= bseq.subrange(0, p1 as int));
                    assert(c@.subrange(j + 2 + p1 + 1, e as int) =~= bseq.subrange(
                        p1 + 1,
                        bseq.len() as int,
                    ));
                }
            },
            None => {
                match find_unescaped_str(body, "->", 0) {
                    Some(p2) => {
                        node = RawNodeIdx::Link {
                            text: (j + 2, j + 2 + p2),
                            target: (j + 2 + p2 + 2, e),
                        };
                        proof {
                            assert(c@.subrange(j + 2, j + 2 + p2 as int) =~= bseq.subrange(
                                0,
                                p2 as int,
                            ));
                            assert(c@.subrange(j + 2 + p2 + 2, e as int) =~= bseq.subrange(
                                p2 + 2,
                                bseq.len() as int,
                            ));
                        }
                    },
                    None => {
                        match find_unescaped_str(body, "<-", 0) {
                            Some(p3) => {
                                node = RawNodeIdx::Link {
                                    text: (j + 2 + p3 + 2, e),
                                    target: (j + 2, j + 2 + p3),
                                };
                                proof {
                                    assert(c@.subrange(j + 2 + p3 + 2, e as int) =~= bseq.subrange(
                                        p3 + 2,
                                        bseq.len() as int,
                                    ));
                                    assert(c@.subrange(j + 2, j + 2 + p3 as int) =~= bseq.subrange(
                                        0,
                                        p3 as int,
                                    ));
                                }
                            },
                            None => {
                                node = RawNodeIdx::Link { text: (j + 2, e), target: (j + 2, e) };
                                proof {
                                    assert(c@.subrange(j + 2, e as int) =~= bseq);
                                }
                            },
                        }
                    },
                }
            },
        }
        Some((e + 2, node))
    } else {
        None
    }
}

pub(crate) fn parse_node_x(c: &str, j: usize) -> (r: Option<(usize, RawNodeIdx)>)
    requires
        j < c@.len(),
    ensures
        match spec_parse_node(c@, j as int) {
            Some(sp) => r matches Some(p) && p.0 as int == sp.0 && raw_node_model(p.1, c@) == sp.1
                && j < p.0 <= c@.len() && raw_node_wf(p.1, c@.len() as int),
            None => r is None,
        },
{
    proof {
        reveal_strlit("[[");
        assert("[["@ =~= link_open());
    }
    match find_unescaped_str(c, "[[", j) {
        Some(m) => {
            if m > j {
                Some((m, RawNodeIdx::Text(j, m)))
            } else {
                parse_link_x(c, j)
            }
        },
        None => {
            let len = c.unicode_len();
            Some((len, RawNodeIdx::Text(j, len)))
        },
    }
}

pub(crate) fn parse_nodes_x(c: &str) -> (r: Option<Vec<RawNodeIdx>>)
    ensures
        match spec_parse_nodes(c@, 0) {
            Some(ns) => r matches Some(v) && v@.map_values(
                |n: RawNodeIdx| raw_node_model(n, c@),
            ) == ns && forall|k: int|
                0 <= k < v@.len() ==> raw_node_wf(#[trigger] v@[k], c@.len() as int),
            None => r is None,
        },
{
    let len = c.unicode_len();
    let mut acc: Vec<RawNodeIdx> = Vec::new();
    let mut j: usize = 0;
    proof {
        assert(Seq::<NodeModel>::empty() + spec_parse_nodes(c@, 0)->Some_0 =~= spec_parse_nodes(
            c@,
            0,
        )->Some_0);
    }
    while j < len
        invariant
            len == c@.len(),
            0 <= j <= len,
            forall|k: int| 0 <= k < acc@.len() ==> raw_node_wf(#[trigger] acc@[k], c@.len() as int),
            match spec_parse_nodes(c@, j as int) {
                Some(rest) => spec_parse_nodes(c@, 0) matches Some(all) && all == acc@.map_values(
                    |n: RawNodeIdx| raw_node_model(n, c@),
                ) + rest,
                None => spec_parse_nodes(c@, 0) is None,
            },
        decreases len - j,
    {
        match parse_node_x(c, j) {
            None => {
                return None;
            },
            Some((j2, node)) => {
                proof {
                    let nm = raw_node_model(node, c@);
                    match spec_parse_nodes(c@, j2 as int) {
                        Some(rest2) => {
                            assert(spec_parse_nodes(c@, j as int) == Some(seq![nm] + rest2));
                            assert(acc@.push(node).map_values(|n: RawNodeIdx| raw_node_model(n, c@))
                                =~= acc@.map_values(|n: RawNodeIdx| raw_node_model(n, c@)) + seq![
                                nm,
                            ]);
                            assert((acc@.map_values(|n: RawNodeIdx| raw_node_model(n, c@)) + seq![
                                nm,
                            ]) + rest2 =~= acc@.map_values(|n: RawNodeIdx| raw_node_model(n, c@))
                                + (seq![nm] + rest2));
                        },
                        None => {
                            assert(spec_parse_nodes(c@, j as int) is None);
                        },
                    }
                }
                acc.push(node);
                j = j2;
            },
        }
    }
    proof {
        assert(spec_parse_nodes(c@, j as int) == Some(Seq::<NodeModel>::empty()));
        match spec_parse_nodes(c@, 0) {
            Some(all) => {
                assert(acc@.map_values(|n: RawNodeIdx| raw_node_model(n, c@)) + Seq::<
                    NodeModel,
                >::empty() =~= acc@.map_values(|n: RawNodeIdx| raw_node_model(n, c@)));
            },
            None => {},
        }
    }
    Some(acc)
}

} // verus!

verus! {

// ---------------------------------------------------------------------------
// Whole passages.
// ---------------------------------------------------------------------------

/// A parsed passage as raw (undecoded) spans: the position right after the
/// block, the header parts, and the body nodes.
#[verifier::ext_equal]
pub ghost struct RawPassage {
    pub end: int,
    pub title: Seq<char>,
    pub tags: Seq<Seq<char>>,
    pub metadata: Option<Seq<char>>,
    pub nodes: Seq<NodeModel>,
}

/// The passage's parts without its end position.
pub open spec fn raw_passage_model(rp: RawPassage) -> PassageModel {
    PassageModel { title: rp.title, tags: rp.tags, metadata: rp.metadata, nodes: rp.nodes }
}

/// A passage block at `i`: a header, then the content block up to the next
/// boundary (or end of input), trimmed of trailing line breaks and split
/// into nodes; trailing whitespace after the block is consumed.
pub open spec fn spec_parse_passage(s: Seq<char>, i: int) -> Option<RawPassage> {
    match spec_parse_header(s, i) {
        None => None,
        Some(h) => {
            let cb = content_cut(s, h.end);
            let te = trim_back(s, h.end, cb);
            let c = s.subrange(h.end, te);
            match spec_parse_nodes(c, 0) {
                None => None,
                Some(nodes) => Some(
                    RawPassage {
                        end: multispace_end(s, cb),
                        title: h.title,
                        tags: h.tags,
                        metadata: h.metadata,
                        nodes,
                    },
                ),
            }
        },
    }
}

/// A parsed passage with every part as a character range into the source;
/// node ranges are relative to the content block `[content_start,
/// content_end)`.
pub(crate) struct PassageIdx {
    pub end: usize,
    pub title: (usize, usize),
    pub tags: Vec<(usize, usize)>,
    pub metadata: Option<(usize, usize)>,
    pub content_start: usize,
    pub content_end: usize,
    pub nodes: Vec<RawNodeIdx>,
}

pub(crate) open spec fn content_of(p: PassageIdx, s: Seq<char>) -> Seq<char> {
    s.subrange(p.content_start as int, p.content_end as int)
}

pub(crate) open spec fn passage_idx_wf(p: PassageIdx, s: Seq<char>) -> bool {
    &&& p.title.0 <= p.title.1 <= s.len()
    &&& p.content_start <= p.content_end <= s.len()
    &&& forall|k: int|
        0 <= k < p.tags@.len() ==> (#[trigger] p.tags@[k]).0 <= p.tags@[k].1 <= s.len()
    &&& match p.metadata {
        Some(m) => m.0 <= m.1 <= s.len(),
        None => true,
    }
    &&& forall|k: int|
        0 <= k < p.nodes@.len() ==> raw_node_wf(
            #[trigger] p.nodes@[k],
            p.content_end - p.content_start,
        )
}

pub(crate) open spec fn passage_idx_model(p: PassageIdx, s: Seq<char>) -> RawPassage {
    RawPassage {
        end: p.end as int,
        title: s.subrange(p.title.0 as int, p.title.1 as int),
        tags: p.tags@.map_values(|t: (usize, usize)| s.subrange(t.0 as int, t.1 as int)),
        metadata: match p.metadata {
            Some(m) => Some(s.subrange(m.0 as int, m.1 as int)),
            None => None,
        },
        nodes: p.nodes@.map_values(|n: RawNodeIdx| raw_node_model(n, content_of(p, s))),
    }
}

pub(crate) fn parse_passage_at(s: &str, i: usize) -> (r: Option<PassageIdx>)
    requires
        i <= s@.len(),
    ensures
        match spec_parse_passage(s@, i as int) {
            Some(rp) => r matches Some(p) && passage_idx_wf(p, s@) && passage_idx_model(p, s@)
                == rp && i < p.end <= s@.len(),
            None => r is None,
        },
{
    let h = match parse_header_at(s, i) {
        Some(h) => h,
        None => {
            return None;
        },
    };
    let len = s.unicode_len();
    let cb = match find_boundary_at(s, h.end) {
        Some(b) => b,
        None => len,
    };
    let te = trim_back_at(s, h.end, cb);
    let content = s.substring_char(h.end, te);
    let nodes = match parse_nodes_x(content) {
        Some(v) => v,
        None => {
            return None;
        },
    };
    let nd = multispace_end_at(s, cb);
    let p = PassageIdx {
        end: nd,
        title: h.title,
        tags: h.tags,
        metadata: h.metadata,
        content_start: h.end,
        content_end: te,
        nodes,
    };
    proof {
        match spec_parse_passage(s@, i as int) {
            Some(rp) => {
                assert(content_of(p, s@) == content@);
                assert(passage_idx_model(p, s@) =~= rp);
            },
            None => {
                assert(false);
            },
        }
    }
    Some(p)
}

// ---------------------------------------------------------------------------
// The public parsing surface over plain string slices.
// ---------------------------------------------------------------------------

/// Parse a `:: title` prefix; returns the remainder and the raw title span.
pub fn parse_title(input: &str) -> (r: Result<(&str, &str), ParsingError<&str>>)
    ensures
        match spec_parse_title_at(input@, 0) {
            Some(te) => r matches Ok(p) && p.0@ == input@.subrange(te, input@.len() as int)
                && p.1@ == input@.subrange(3, te),
            None => r matches Err(ParsingError::Parsing(rem)) && rem@ == input@,
        },
{
    match parse_title_at(input, 0) {
        Some(te) => {
            let len = input.unicode_len();
            Ok((input.substring_char(te, len), input.substring_char(3, te)))
        },
        None => Err(ParsingError::Parsing(input)),
    }
}

/// Parse a `[tag …]` list; returns the remainder and the raw tags.
pub fn parse_tags(input: &str) -> (r: Result<(&str, Vec<Tag<&str>>), ParsingError<&str>>)
    ensures
        match spec_parse_tags_at(input@, 0) {
            Some(sp) => r matches Ok(p) && p.0@ == input@.subrange(sp.0, input@.len() as int)
                && p.1@.map_values(|t: Tag<&str>| t.value@) == sp.1,
            None => r matches Err(ParsingError::Parsing(rem)) && rem@ == input@,
        },
{
    match parse_tags_at(input, 0) {
        Some((e, ranges)) => {
            let len = input.unicode_len();
            let mut tags: Vec<Tag<&str>> = Vec::new();
            let mut k: usize = 0;
            while k < ranges.len()
                invariant
                    0 <= k <= ranges@.len(),
                    tags@.len() == k,
                    forall|x: int|
                        0 <= x < ranges@.len() ==> (#[trigger] ranges@[x]).0 <= ranges@[x].1
                            <= input@.len(),
                    forall|x: int|
                        0 <= x < k ==> (#[trigger] tags@[x]).value@ == input@.subrange(
                            ranges@[x].0 as int,
                            ranges@[x].1 as int,
                        ),
                decreases ranges@.len() - k,
            {
                let rg = ranges[k];
                tags.push(Tag::new(input.substring_char(rg.0, rg.1)));
                k = k + 1;
            }
            proof {
                assert(tags@.map_values(|t: Tag<&str>| t.value@) =~= ranges@.map_values(
                    |t: (usize, usize)| input@.subrange(t.0 as int, t.1 as int),
                ));
            }
            Ok((input.substring_char(e, len), tags))
        },
        None => Err(ParsingError::Parsing(input)),
    }
}

/// Split off the content block: everything before the next passage boundary,
/// or the whole input when none follows. Never fails.
pub fn find_content_block(input: &str) -> (r: Result<(&str, &str), ParsingError<&str>>)
    ensures
        r matches Ok(p) && p.0@ == input@.subrange(
            content_cut(input@, 0),
            input@.len() as int,
        ) && p.1@ == input@.subrange(0, content_cut(input@, 0)),
{
    let len = input.unicode_len();
    let cb = match find_boundary_at(input, 0) {
        Some(b) => b,
        None => len,
    };
    Ok((input.substring_char(cb, len), input.substring_char(0, cb)))
}

/// Parse a text node: everything before the first unescaped `[[`. Fails when
/// the input starts with an unescaped `[[`.
pub fn parse_text_node(input: &str) -> (r: Result<(&str, ContentNode<&str>), ParsingError<&str>>)
    ensures
        match find_unescaped(input@, link_open(), 0) {
            Some(i) => if i == 0 {
                r matches Err(ParsingError::Parsing(rem)) && rem@ == input@
            } else {
                r matches Ok(p) && p.0@ == input@.subrange(i, input@.len() as int) && (
                p.1 matches ContentNode::Text(t) && t@ == input@.subrange(0, i))
            },
            None => r matches Ok(p) && p.0@.len() == 0 && (p.1 matches ContentNode::Text(t) && t@
                == input@),
        },
{
    match crate::utils::until_link1(input) {
        Ok((rest, text)) => Ok((rest, ContentNode::text_node(text))),
        Err(e) => Err(e),
    }
}

/// Parse a `[[body]]` link node and interpret its body.
pub fn parse_link_node(input: &str) -> (r: Result<(&str, ContentNode<&str>), ParsingError<&str>>)
    ensures
        match spec_parse_link(input@, 0) {
            Some(sp) => r matches Ok(p) && p.0@ == input@.subrange(sp.0, input@.len() as int)
                && node_str_model(p.1) == sp.1,
            None => r matches Err(ParsingError::Parsing(rem)) && rem@ == input@,
        },
{
    match parse_link_x(input, 0) {
        Some((e, node)) => {
            let len = input.unicode_len();
            let n = match node {
                RawNodeIdx::Text(a, b) => ContentNode::Text(input.substring_char(a, b)),
                RawNodeIdx::Link { text, target } => ContentNode::Link {
                    text: input.substring_char(text.0, text.1),
                    target: input.substring_char(target.0, target.1),
                },
            };
            Ok((input.substring_char(e, len), n))
        },
        None => Err(ParsingError::Parsing(input)),
    }
}

/// Parse the next content node: a text run when one precedes the next link,
/// otherwise a link.
pub fn parse_node(input: &str) -> (r: Result<(&str, ContentNode<&str>), ParsingError<&str>>)
    ensures
        match find_unescaped(input@, link_open(), 0) {
            Some(i) => if i == 0 {
                match spec_parse_link(input@, 0) {
                    Some(sp) => r matches Ok(p) && p.0@ == input@.subrange(
                        sp.0,
                        input@.len() as int,
                    ) && node_str_model(p.1) == sp.1,
                    None => r matches Err(ParsingError::Parsing(rem)) && rem@ == input@,
                }
            } else {
                r matches Ok(p) && p.0@ == input@.subrange(i, input@.len() as int) && (
                p.1 matches ContentNode::Text(t) && t@ == input@.subrange(0, i))
            },
            None => r matches Ok(p) && p.0@.len() == 0 && (p.1 matches ContentNode::Text(t) && t@
                == input@),
        },
{
    match parse_text_node(input) {
        Ok(p) => Ok(p),
        Err(_) => parse_link_node(input),
    }
}

/// Parse a whole passage block. Returns the remainder (whitespace after the
/// block consumed) and the passage with raw, undecoded text values.
pub fn parse_passage(input: &str) -> (r: Result<(&str, Passage<&str>), ParsingError<&str>>)
    ensures
        match spec_parse_passage(input@, 0) {
            Some(rp) => r matches Ok(p) && p.0@ == input@.subrange(rp.end, input@.len() as int)
                && passage_str_model(p.1) == raw_passage_model(rp),
            None => r matches Err(ParsingError::Parsing(rem)) && rem@ == input@,
        },
{
    let pi = match parse_passage_at(input, 0) {
        Some(pi) => pi,
        None => {
            return Err(ParsingError::Parsing(input));
        },
    };
    let len = input.unicode_len();
    let title = input.substring_char(pi.title.0, pi.title.1);
    let mut tags: Vec<Tag<&str>> = Vec::new();
    let mut k: usize = 0;
    while k < pi.tags.len()
        invariant
            passage_idx_wf(pi, input@),
            0 <= k <= pi.tags@.len(),
            tags@.len() == k,
            forall|x: int|
                0 <= x < k ==> (#[trigger] tags@[x]).value@ == input@.subrange(
                    pi.tags@[x].0 as int,
                    pi.tags@[x].1 as int,
                ),
        decreases pi.tags@.len() - k,
    {
        let rg = pi.tags[k];
        tags.push(Tag::new(input.substring_char(rg.0, rg.1)));
        k = k + 1;
    }
    let metadata = match &pi.metadata {
        Some(m) => Some(crate::Metadata::new(input.substring_char(m.0, m.1))),
        None => None,
    };
    let ghost cseq = content_of(pi, input@);
    let mut content_nodes: Vec<ContentNode<&str>> = Vec::new();
    let mut q: usize = 0;
    while q < pi.nodes.len()
        invariant
            passage_idx_wf(pi, input@),
            cseq == content_of(pi, input@),
            0 <= q <= pi.nodes@.len(),
            content_nodes@.len() == q,
            forall|x: int|
                0 <= x < q ==> node_str_model(#[trigger] content_nodes@[x]) == raw_node_model(
                    pi.nodes@[x],
                    cseq,
                ),
        decreases pi.nodes@.len() - q,
    {
        let cs = pi.content_start;
        let node = match &pi.nodes[q] {
            RawNodeIdx::Text(a, b) => {
                let t = input.substring_char(cs + *a, cs + *b);
                proof {
                    assert(t@ =~= cseq.subrange(*a as int, *b as int));
                }
                ContentNode::Text(t)
            },
            RawNodeIdx::Link { text, target } => {
                let tx = input.substring_char(cs + text.0, cs + text.1);
                let tg = input.substring_char(cs + target.0, cs + target.1);
                proof {
                    assert(tx@ =~= cseq.subrange(text.0 as int, text.1 as int));
                    assert(tg@ =~= cseq.subrange(target.0 as int, target.1 as int));
                }
                ContentNode::Link { text: tx, target: tg }
            },
        };
        content_nodes.push(node);
        q = q + 1;
    }
    let passage = Passage { title, tags, metadata, content: content_nodes };
    proof {
        match spec_parse_passage(input@, 0) {
            Some(rp) => {
                assert(passage_str_model(passage).tags =~= raw_passage_model(rp).tags);
                assert(passage_str_model(passage).nodes =~= raw_passage_model(rp).nodes);
                assert(passage_str_model(passage) =~= raw_passage_model(rp));
            },
            None => {
                assert(false);
            },
        }
    }
    Ok((input.substring_char(pi.end, len), passage))
}

} // verus!
