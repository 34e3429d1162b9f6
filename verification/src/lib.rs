//! A verified parser for the Twee 3 interactive-fiction text format.
//!
//! A document is a sequence of blocks: a `StoryTitle` block, a `StoryData`
//! block whose JSON content names the start passage, or an ordinary passage
//! with a `:: title [tags] {metadata}` header and a body of text runs and
//! `[[link]]` notations. Parsing builds a [`Story`]: a title, an optional
//! start-passage name, and a mapping from passage titles to passages. Every
//! text value is kept as a [`TextBlock`]: a zero-copy range into the source
//! buffer, or an owned copy when backslash escapes had to be decoded.

use vstd::prelude::*;

pub mod error;
pub mod escape;
pub mod iter;
pub mod parser;
pub mod utils;

use crate::escape::{decodes_cleanly, escape_string_content, has_backslash, lemma_resolved_identity, resolved, unescape};
use crate::iter::LinkIterator;

verus! {

/// A text value that is either an owned decoded string or a range of
/// character indices into the original source buffer.
#[derive(Debug, PartialEq, Eq, Clone)]
pub enum TextBlock {
    Owned(String),
    Borrowed { start: usize, end: usize },
}

/// The characters a `TextBlock` stands for, given the original buffer.
pub open spec fn text_of(block: TextBlock, original: Seq<char>) -> Seq<char> {
    match block {
        TextBlock::Owned(s) => s@,
        TextBlock::Borrowed { start, end } => original.subrange(start as int, end as int),
    }
}

/// A borrowed range must lie inside the original buffer.
pub open spec fn block_wf(block: TextBlock, original: Seq<char>) -> bool {
    match block {
        TextBlock::Owned(s) => true,
        TextBlock::Borrowed { start, end } => start <= end <= original.len(),
    }
}

impl TextBlock {
    /// Decode the escapes of the given string once and own the result.
    pub fn owned(s: String) -> (r: TextBlock)
        ensures
            r matches TextBlock::Owned(out) && out@ == resolved(s@),
            forall|orig: Seq<char>| block_wf(r, orig) && text_of(r, orig) == resolved(s@),
    {
        match escape_string_content(s.as_str()) {
            Some(escaped) => TextBlock::Owned(escaped),
            None => TextBlock::Owned(s),
        }
    }

    /// Build the block for the span `original[start..end]`: a zero-copy range
    /// when decoding would change nothing — in particular whenever the span
    /// holds no backslash — and an owned copy, decoded exactly once, when the
    /// span holds escapes that decode.
    pub fn borrowed(original: &str, start: usize, end: usize) -> (r: TextBlock)
        requires
            start <= end <= original@.len(),
        ensures
            block_wf(r, original@),
            text_of(r, original@) == resolved(original@.subrange(start as int, end as int)),
            resolved(original@.subrange(start as int, end as int)) == original@.subrange(
                start as int,
                end as int,
            ) ==> r == (TextBlock::Borrowed { start, end }),
            has_backslash(original@.subrange(start as int, end as int))
                && decodes_cleanly(
                original@.subrange(start as int, end as int),
            ) ==> (r matches TextBlock::Owned(o) && o@ == unescape(
                original@.subrange(start as int, end as int),
            )),
    {
        let ghost span = original@.subrange(start as int, end as int);
        let sub = original.substring_char(start, end);
        match escape_string_content(sub) {
            Some(escaped) => {
                proof {
                    lemma_resolved_identity(span);
                }
                TextBlock::Owned(escaped)
            },
            None => TextBlock::Borrowed { start, end },
        }
    }

    /// Resolve to a plain view. A borrowed range needs the original buffer;
    /// an owned value ignores it.
    pub fn as_str<'a>(&'a self, original: &'a str) -> (r: &'a str)
        requires
            block_wf(*self, original@),
        ensures
            r@ == text_of(*self, original@),
    {
        match self {
            TextBlock::Owned(s) => s.as_str(),
            TextBlock::Borrowed { start, end } => original.substring_char(*start, *end),
        }
    }
}

/// An opaque metadata annotation: a raw `{…}` span the engine carries but
/// does not interpret.
#[derive(Debug, PartialEq, Eq, Clone)]
pub struct Metadata<T> {
    pub content: T,
}

impl<T> Metadata<T> {
    pub fn new(content: T) -> (r: Self)
        ensures
            r.content == content,
    {
        Self { content }
    }
}

impl Metadata<TextBlock> {
    /// Resolve the metadata against the original buffer.
    pub fn as_borrowed<'a>(&'a self, original: &'a str) -> (r: Metadata<&'a str>)
        requires
            block_wf(self.content, original@),
        ensures
            r.content@ == text_of(self.content, original@),
    {
        Metadata::new(self.content.as_str(original))
    }
}

/// A label attached to a passage header.
#[derive(Debug, PartialEq, Eq, Clone)]
pub struct Tag<T> {
    pub value: T,
}

impl<T> Tag<T> {
    pub fn new(value: T) -> (r: Self)
        ensures
            r.value == value,
    {
        Self { value }
    }
}

impl Tag<TextBlock> {
    /// Resolve the tag against the original buffer.
    pub fn as_borrowed<'a>(&'a self, original: &'a str) -> (r: Tag<&'a str>)
        requires
            block_wf(self.value, original@),
        ensures
            r.value@ == text_of(self.value, original@),
    {
        Tag::new(self.value.as_str(original))
    }
}

/// One piece of a passage body: a plain text run, or a link with display
/// text and a target passage name.
#[derive(Debug, PartialEq, Eq, Clone)]
pub enum ContentNode<T> {
    Text(T),
    Link { text: T, target: T },
}

impl<T> ContentNode<T> {
    pub fn text_node(text: T) -> (r: Self)
        ensures
            r == ContentNode::Text(text),
    {
        Self::Text(text)
    }

    pub fn link_node(text: T, target: T) -> (r: Self)
        ensures
            r == (ContentNode::Link { text, target }),
    {
        Self::Link { text, target }
    }
}

/// The mathematical value of a content node: its resolved character spans.
#[verifier::ext_equal]
pub ghost enum NodeModel {
    Text(Seq<char>),
    Link { text: Seq<char>, target: Seq<char> },
}

/// The mathematical value of a passage.
#[verifier::ext_equal]
pub ghost struct PassageModel {
    pub title: Seq<char>,
    pub tags: Seq<Seq<char>>,
    pub metadata: Option<Seq<char>>,
    pub nodes: Seq<NodeModel>,
}

pub open spec fn node_wf(n: ContentNode<TextBlock>, orig: Seq<char>) -> bool {
    match n {
        ContentNode::Text(t) => block_wf(t, orig),
        ContentNode::Link { text, target } => block_wf(text, orig) && block_wf(target, orig),
    }
}

pub open spec fn node_block_model(n: ContentNode<TextBlock>, orig: Seq<char>) -> NodeModel {
    match n {
        ContentNode::Text(t) => NodeModel::Text(text_of(t, orig)),
        ContentNode::Link { text, target } => NodeModel::Link {
            text: text_of(text, orig),
            target: text_of(target, orig),
        },
    }
}

pub open spec fn node_str_model(n: ContentNode<&str>) -> NodeModel {
    match n {
        ContentNode::Text(t) => NodeModel::Text(t@),
        ContentNode::Link { text, target } => NodeModel::Link { text: text@, target: target@ },
    }
}

impl ContentNode<TextBlock> {
    /// Resolve the node's text values against the original buffer.
    pub fn as_borrowed<'a>(&'a self, original: &'a str) -> (r: ContentNode<&'a str>)
        requires
            node_wf(*self, original@),
        ensures
            node_str_model(r) == node_block_model(*self, original@),
    {
        match self {
            ContentNode::Text(t) => ContentNode::Text(t.as_str(original)),
            ContentNode::Link { text, target } => ContentNode::Link {
                text: text.as_str(original),
                target: target.as_str(original),
            },
        }
    }
}

/// A named block of story content: title, tags, optional metadata, and the
/// ordered content nodes of its body.
#[derive(Debug, PartialEq, Eq, Clone)]
pub struct Passage<T> {
    pub title: T,
    pub tags: Vec<Tag<T>>,
    pub metadata: Option<Metadata<T>>,
    pub content: Vec<ContentNode<T>>,
}

impl<T> Passage<T> {
    pub fn new(
        title: T,
        tags: Vec<Tag<T>>,
        metadata: Option<Metadata<T>>,
        content: Vec<ContentNode<T>>,
    ) -> (r: Self)
        ensures
            r.title == title,
            r.tags == tags,
            r.metadata == metadata,
            r.content == content,
    {
        Self { title, tags, metadata, content }
    }

    pub fn title(&self) -> (r: &T)
        ensures
            r == self.title,
    {
        &self.title
    }

    pub fn nodes(&self) -> (r: &Vec<ContentNode<T>>)
        ensures
            r == self.content,
    {
        &self.content
    }

    /// The passage's links, in order, skipping text nodes.
    pub fn links<'a>(&'a self) -> (r: LinkIterator<'a, T>)
        ensures
            r.nodes == self.content,
            r.pos == 0,
    {
        LinkIterator::new(&self.content)
    }
}

pub open spec fn passage_wf(p: Passage<TextBlock>, orig: Seq<char>) -> bool {
    &&& block_wf(p.title, orig)
    &&& forall|i: int| 0 <= i < p.tags@.len() ==> block_wf(#[trigger] p.tags@[i].value, orig)
    &&& match p.metadata {
        Some(m) => block_wf(m.content, orig),
        None => true,
    }
    &&& forall|i: int| 0 <= i < p.content@.len() ==> node_wf(#[trigger] p.content@[i], orig)
}

pub open spec fn passage_block_model(p: Passage<TextBlock>, orig: Seq<char>) -> PassageModel {
    PassageModel {
        title: text_of(p.title, orig),
        tags: p.tags@.map_values(|t: Tag<TextBlock>| text_of(t.value, orig)),
        metadata: match p.metadata {
            Some(m) => Some(text_of(m.content, orig)),
            None => None,
        },
        nodes: p.content@.map_values(|n: ContentNode<TextBlock>| node_block_model(n, orig)),
    }
}

pub open spec fn passage_str_model(p: Passage<&str>) -> PassageModel {
    PassageModel {
        title: p.title@,
        tags: p.tags@.map_values(|t: Tag<&str>| t.value@),
        metadata: match p.metadata {
            Some(m) => Some(m.content@),
            None => None,
        },
        nodes: p.content@.map_values(|n: ContentNode<&str>| node_str_model(n)),
    }
}

impl Passage<TextBlock> {
    /// Resolve every text value of the passage against the original buffer.
    pub fn as_borrowed<'a>(&'a self, original: &'a str) -> (r: Passage<&'a str>)
        requires
            passage_wf(*self, original@),
        ensures
            passage_str_model(r) == passage_block_model(*self, original@),
    {
        let title = self.title.as_str(original);
        let mut tags: Vec<Tag<&'a str>> = Vec::new();
        let mut i: usize = 0;
        while i < self.tags.len()
            invariant
                passage_wf(*self, original@),
                0 <= i <= self.tags@.len(),
                tags@.len() == i,
                forall|k: int|
                    0 <= k < i ==> (#[trigger] tags@[k]).value@ == text_of(
                        self.tags@[k].value,
                        original@,
                    ),
            decreases self.tags@.len() - i,
        {
            let t = &self.tags[i];
            tags.push(Tag::new(t.value.as_str(original)));
            i = i + 1;
        }
        let metadata = match &self.metadata {
            Some(m) => Some(m.as_borrowed(original)),
            None => None,
        };
        let mut content: Vec<ContentNode<&'a str>> = Vec::new();
        let mut j: usize = 0;
        while j < self.content.len()
            invariant
                passage_wf(*self, original@),
                0 <= j <= self.content@.len(),
                content@.len() == j,
                forall|k: int|
                    0 <= k < j ==> node_str_model(#[trigger] content@[k]) == node_block_model(
                        self.content@[k],
                        original@,
                    ),
            decreases self.content@.len() - j,
        {
            let node = &self.content[j];
            content.push(node.as_borrowed(original));
            j = j + 1;
        }
        let r = Passage { title, tags, metadata, content };
        proof {
            assert(passage_str_model(r).tags =~= passage_block_model(*self, original@).tags);
            assert(passage_str_model(r).nodes =~= passage_block_model(*self, original@).nodes);
            assert(passage_str_model(r) =~= passage_block_model(*self, original@));
        }
        r
    }
}

/// The resolved title of a passage: the key it is filed under.
pub open spec fn passage_key(p: Passage<TextBlock>, orig: Seq<char>) -> Seq<char> {
    text_of(p.title, orig)
}

pub open spec fn titles_unique(ps: Seq<Passage<TextBlock>>, orig: Seq<char>) -> bool {
    forall|i: int, j: int|
        0 <= i < j < ps.len() ==> passage_key(#[trigger] ps[i], orig) != passage_key(
            #[trigger] ps[j],
            orig,
        )
}

/// The passage mapping as a mathematical map, keyed by resolved title. A
/// later entry with the same key overrides an earlier one.
pub open spec fn map_of_passages(ps: Seq<Passage<TextBlock>>, orig: Seq<char>) -> Map<
    Seq<char>,
    PassageModel,
>
    decreases ps.len(),
{
    if ps.len() == 0 {
        Map::empty()
    } else {
        map_of_passages(ps.drop_last(), orig).insert(
            passage_key(ps.last(), orig),
            passage_block_model(ps.last(), orig),
        )
    }
}

pub proof fn lemma_map_of_passages_dom(ps: Seq<Passage<TextBlock>>, orig: Seq<char>, k: Seq<char>)
    ensures
        map_of_passages(ps, orig).dom().contains(k) <==> exists|i: int|
            0 <= i < ps.len() && passage_key(#[trigger] ps[i], orig) == k,
    decreases ps.len(),
{
    if ps.len() > 0 {
        lemma_map_of_passages_dom(ps.drop_last(), orig, k);
        if passage_key(ps.last(), orig) == k {
            assert(passage_key(ps[ps.len() - 1], orig) == k);
        } else if map_of_passages(ps.drop_last(), orig).dom().contains(k) {
            let i = choose|i: int|
                0 <= i < ps.drop_last().len() && passage_key(#[trigger] ps.drop_last()[i], orig)
                    == k;
            assert(passage_key(ps[i], orig) == k);
        } else if exists|i: int| 0 <= i < ps.len() && passage_key(#[trigger] ps[i], orig) == k {
            let i = choose|i: int| 0 <= i < ps.len() && passage_key(#[trigger] ps[i], orig) == k;
            assert(i < ps.len() - 1);
            assert(passage_key(ps.drop_last()[i], orig) == k);
        }
    }
}

pub proof fn lemma_map_of_passages_get(ps: Seq<Passage<TextBlock>>, orig: Seq<char>, i: int)
    requires
        titles_unique(ps, orig),
        0 <= i < ps.len(),
    ensures
        map_of_passages(ps, orig).dom().contains(passage_key(ps[i], orig)),
        map_of_passages(ps, orig)[passage_key(ps[i], orig)] == passage_block_model(ps[i], orig),
    decreases ps.len(),
{
    if i == ps.len() - 1 {
    } else {
        assert(passage_key(ps[i], orig) != passage_key(ps[ps.len() - 1], orig));
        assert(titles_unique(ps.drop_last(), orig)) by {
            assert(forall|x: int, y: int|
                0 <= x < y < ps.drop_last().len() ==> passage_key(
                    #[trigger] ps.drop_last()[x],
                    orig,
                ) != passage_key(#[trigger] ps.drop_last()[y], orig)) by {
                assert(forall|x: int|
                    0 <= x < ps.drop_last().len() ==> #[trigger] ps.drop_last()[x] == ps[x]);
            }
        }
        assert(ps.drop_last()[i] == ps[i]);
        lemma_map_of_passages_get(ps.drop_last(), orig, i);
    }
}

pub proof fn lemma_map_of_passages_update(
    ps: Seq<Passage<TextBlock>>,
    orig: Seq<char>,
    k: int,
    p: Passage<TextBlock>,
)
    requires
        titles_unique(ps, orig),
        0 <= k < ps.len(),
        passage_key(p, orig) == passage_key(ps[k], orig),
    ensures
        map_of_passages(ps.update(k, p), orig) == map_of_passages(ps, orig).insert(
            passage_key(p, orig),
            passage_block_model(p, orig),
        ),
        titles_unique(ps.update(k, p), orig),
    decreases ps.len(),
{
    let upd = ps.update(k, p);
    assert(upd.len() == ps.len());
    assert(forall|x: int| 0 <= x < ps.len() && x != k ==> upd[x] == ps[x]);
    assert(upd[k] == p);
    if k == ps.len() - 1 {
        assert(upd.drop_last() =~= ps.drop_last());
        assert(upd.last() == p);
        assert(ps.last() == ps[k]);
        assert(map_of_passages(upd, orig) == map_of_passages(ps.drop_last(), orig).insert(
            passage_key(p, orig),
            passage_block_model(p, orig),
        ));
        assert(map_of_passages(ps, orig).insert(
            passage_key(p, orig),
            passage_block_model(p, orig),
        ) =~= map_of_passages(ps.drop_last(), orig).insert(
            passage_key(p, orig),
            passage_block_model(p, orig),
        ));
    } else {
        assert(titles_unique(ps.drop_last(), orig)) by {
            assert(forall|x: int|
                0 <= x < ps.drop_last().len() ==> #[trigger] ps.drop_last()[x] == ps[x]);
        }
        assert(ps.drop_last()[k] == ps[k]);
        lemma_map_of_passages_update(ps.drop_last(), orig, k, p);
        assert(upd.drop_last() =~= ps.drop_last().update(k, p));
        assert(upd.last() == ps.last());
        assert(passage_key(p, orig) != passage_key(ps.last(), orig)) by {
            assert(passage_key(ps[k], orig) != passage_key(ps[ps.len() - 1], orig));
        }
        assert(map_of_passages(upd, orig) =~= map_of_passages(ps, orig).insert(
            passage_key(p, orig),
            passage_block_model(p, orig),
        ));
    }
    assert(titles_unique(upd, orig)) by {
        assert(forall|x: int| 0 <= x < upd.len() ==> passage_key(#[trigger] upd[x], orig)
            == passage_key(ps[x], orig));
    }
}

/// The mathematical value of a parsed story.
#[verifier::ext_equal]
pub ghost struct StoryModel {
    pub title: Option<Seq<char>>,
    pub start: Option<Seq<char>>,
    pub passages: Map<Seq<char>, PassageModel>,
}

/// A parsed story: the source text it owns, its optional title, the optional
/// start-passage name from `StoryData`, and its passages keyed by title.
#[derive(Debug, PartialEq, Eq, Clone)]
pub struct Story {
    pub content: String,
    pub title: Option<TextBlock>,
    pub start: Option<TextBlock>,
    pub passages: Vec<Passage<TextBlock>>,
}

pub open spec fn story_wf(story: Story) -> bool {
    &&& match story.title {
        Some(t) => block_wf(t, story.content@),
        None => true,
    }
    &&& match story.start {
        Some(t) => block_wf(t, story.content@),
        None => true,
    }
    &&& forall|i: int|
        0 <= i < story.passages@.len() ==> passage_wf(#[trigger] story.passages@[i], story.content@)
    &&& titles_unique(story.passages@, story.content@)
}

pub open spec fn story_model(story: Story) -> StoryModel {
    StoryModel {
        title: match story.title {
            Some(t) => Some(text_of(t, story.content@)),
            None => None,
        },
        start: match story.start {
            Some(t) => Some(text_of(t, story.content@)),
            None => None,
        },
        passages: map_of_passages(story.passages@, story.content@),
    }
}

impl Story {
    pub fn new(
        content: String,
        title: Option<TextBlock>,
        start: Option<TextBlock>,
        passages: Vec<Passage<TextBlock>>,
    ) -> (r: Story)
        ensures
            r.content == content,
            r.title == title,
            r.start == start,
            r.passages == passages,
    {
        Story { content, title, start, passages }
    }

    /// The story title, resolved, if a `StoryTitle` block was present.
    pub fn title<'a>(&'a self) -> (r: Option<&'a str>)
        requires
            story_wf(*self),
        ensures
            match r {
                Some(t) => story_model(*self).title == Some(t@),
                None => story_model(*self).title is None,
            },
    {
        match &self.title {
            Some(block) => Some(block.as_str(self.content.as_str())),
            None => None,
        }
    }

    /// The start passage: the passage named by `StoryData`'s `start` field,
    /// if that name is present and a passage of that title exists.
    pub fn start<'a>(&'a self) -> (r: Option<Passage<&'a str>>)
        requires
            story_wf(*self),
        ensures
            match story_model(*self).start {
                Some(nm) => match r {
                    Some(p) => story_model(*self).passages.dom().contains(nm) && passage_str_model(
                        p,
                    ) == story_model(*self).passages[nm],
                    None => !story_model(*self).passages.dom().contains(nm),
                },
                None => r is None,
            },
    {
        match &self.start {
            Some(block) => {
                let name = block.as_str(self.content.as_str());
                self.get_passage(name)
            },
            None => None,
        }
    }

    /// Look up a passage by its exact resolved title.
    pub fn get_passage<'a>(&'a self, name: &str) -> (r: Option<Passage<&'a str>>)
        requires
            story_wf(*self),
        ensures
            match r {
                Some(p) => story_model(*self).passages.dom().contains(name@) && passage_str_model(p)
                    == story_model(*self).passages[name@],
                None => !story_model(*self).passages.dom().contains(name@),
            },
    {
        let n = self.passages.len();
        let mut i: usize = 0;
        while i < n
            invariant
                story_wf(*self),
                n == self.passages@.len(),
                0 <= i <= n,
                forall|k: int|
                    0 <= k < i ==> passage_key(#[trigger] self.passages@[k], self.content@)
                        != name@,
            decreases n - i,
        {
            let p = &self.passages[i];
            let t = p.title.as_str(self.content.as_str());
            if crate::utils::str_eq(t, name) {
                let res = p.as_borrowed(self.content.as_str());
                proof {
                    lemma_map_of_passages_get(self.passages@, self.content@, i as int);
                }
                return Some(res);
            }
            i = i + 1;
        }
        proof {
            lemma_map_of_passages_dom(self.passages@, self.content@, name@);
        }
        None
    }

    /// Walk the passages in the order they are stored.
    pub fn iter<'a>(&'a self) -> (r: Iter<'a>)
        requires
            story_wf(*self),
        ensures
            r.story == self,
            r.pos == 0,
    {
        Iter { story: self, pos: 0 }
    }

    /// The story already owns its text; it is returned unchanged.
    pub fn into_owned(self) -> (r: Story)
        ensures
            r == self,
    {
        self
    }
}

/// Walks a story's passages in storage order, resolving each.
pub struct Iter<'a> {
    pub story: &'a Story,
    pub pos: usize,
}

impl<'a> Iter<'a> {
    pub fn next(&mut self) -> (r: Option<Passage<&'a str>>)
        requires
            story_wf(*old(self).story),
        ensures
            final(self).story == old(self).story,
            if old(self).pos < old(self).story.passages@.len() {
                &&& final(self).pos == old(self).pos + 1
                &&& r matches Some(p) && passage_str_model(p) == passage_block_model(
                    old(self).story.passages@[old(self).pos as int],
                    old(self).story.content@,
                )
            } else {
                r is None && final(self).pos == old(self).pos
            },
    {
        if self.pos < self.story.passages.len() {
            let p = &self.story.passages[self.pos];
            let r = p.as_borrowed(self.story.content.as_str());
            self.pos = self.pos + 1;
            Some(r)
        } else {
            None
        }
    }
}

} // verus!
