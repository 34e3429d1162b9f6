//! Whole-document assembly: `StoryTitle` and `StoryData` blocks, ordinary
//! passages, and the final story model.

use vstd::prelude::*;

use crate::error::ParsingError;
use crate::escape::resolved;
use crate::parser::metadata::{metadata_end, metadata_end_at};
use crate::parser::passage::{
    content_of, line_ending_at, line_ending_end_at, multispace_end, multispace_end_at,
    parse_passage_at, passage_idx_model, passage_idx_wf, raw_node_model,
    spec_parse_passage, PassageIdx, RawNodeIdx, RawPassage,
};
use crate::utils::{is_match_at, match_at};
use vstd::pervasive::VecAdditionalExecFns;
use crate::{
    map_of_passages, passage_block_model, passage_key, passage_wf, text_of, titles_unique,
    NodeModel, Passage, PassageModel, Story, StoryModel, TextBlock,
};

verus! {

// ---------------------------------------------------------------------------
// Lines and keywords.
// ---------------------------------------------------------------------------

/// The first position at or after `i` holding a line-break character, or the
/// end of input.
pub open spec fn line_stop(s: Seq<char>, i: int) -> int
    decreases s.len() - i,
{
    if 0 <= i < s.len() && s[i] != '\r' && s[i] != '\n' {
        line_stop(s, i + 1)
    } else {
        i
    }
}

pub(crate) fn line_stop_at(s: &str, i: usize) -> (r: usize)
    requires
        i <= s@.len(),
    ensures
        r as int == line_stop(s@, i as int),
        i <= r <= s@.len(),
    decreases s@.len() - i,
{
    let len = s.unicode_len();
    if i < len {
        let c = s.get_char(i);
        if c != '\r' && c != '\n' {
            return line_stop_at(s, i + 1);
        }
    }
    i
}

/// The header keyword of a story-title block.
pub open spec fn story_title_kw() -> Seq<char> {
    seq![':', ':', ' ', 'S', 't', 'o', 'r', 'y', 'T', 'i', 't', 'l', 'e']
}

/// The header keyword of a story-data block.
pub open spec fn story_data_kw() -> Seq<char> {
    seq![':', ':', ' ', 'S', 't', 'o', 'r', 'y', 'D', 'a', 't', 'a']
}

/// The name of the `StoryData` field that holds the start passage.
pub open spec fn start_key() -> Seq<char> {
    seq!['s', 't', 'a', 'r', 't']
}

// ---------------------------------------------------------------------------
// The JSON reading that `StoryData` needs, behind one trusted wrapper.
// ---------------------------------------------------------------------------

/// What the JSON reading of a span yields for a given key: `None` when the
/// span is not valid JSON; `Some(None)` when it is valid but is not an object
/// with a string field of that name; `Some(Some(v))` when the field holds the
/// string `v`. A function of the span and key alone.
pub uninterp spec fn json_string_field(text: Seq<char>, key: Seq<char>) -> Option<
    Option<Seq<char>>,
>;

/// Relies on serde_json's `from_str::<Value>`, `Value::get` and
/// `Value::as_str`: whether a span parses as JSON, and which string a named
/// field of it holds, depend on the span and the key alone.
#[verifier::external_body]
fn read_json_string_field(text: &str, key: &str) -> (r: Result<Option<String>, ()>)
    ensures
        match r {
            Ok(Some(v)) => json_string_field(text@, key@) == Some(Some(v@)),
            Ok(None) => json_string_field(text@, key@) == Some(None::<Seq<char>>),
            Err(()) => json_string_field(text@, key@) is None,
        },
{
    match serde_json::from_str::<serde_json::Value>(text) {
        Ok(value) => Ok(value.get(key).and_then(|v| v.as_str()).map(|v| v.to_string())),
        Err(_) => Err(()),
    }
}

// ---------------------------------------------------------------------------
// The three block kinds, tried in fixed order.
// ---------------------------------------------------------------------------

/// A `StoryTitle` block at `i`: the keyword line, then the rest of the next
/// line as the raw story title; trailing whitespace consumed. The value is
/// the position after the block and the raw title span.
pub open spec fn spec_story_title_block(s: Seq<char>, i: int) -> Option<(int, Seq<char>)> {
    if match_at(s, story_title_kw(), i) {
        match line_ending_at(s, i + 13) {
            Some(ls) => Some(
                (multispace_end(s, line_stop(s, ls)), s.subrange(ls, line_stop(s, ls))),
            ),
            None => None,
        }
    } else {
        None
    }
}

/// A `StoryData` block at `i`: the keyword line, then a balanced `{…}` block
/// that must read as JSON; its `start` string field, when present, is the raw
/// start-passage name. When the block is unbalanced or not valid JSON the
/// block does not parse, and the assembler falls back to reading the same
/// text as an ordinary passage.
pub open spec fn spec_story_data_block(s: Seq<char>, i: int) -> Option<(int, Option<Seq<char>>)> {
    if match_at(s, story_data_kw(), i) {
        match line_ending_at(s, i + 12) {
            Some(ls) => match metadata_end(s, ls) {
                Some(e) => match json_string_field(s.subrange(ls, e), start_key()) {
                    Some(field) => Some((multispace_end(s, e), field)),
                    None => None,
                },
                None => None,
            },
            None => None,
        }
    } else {
        None
    }
}

pub(crate) fn story_title_block_at(s: &str, i: usize) -> (r: Option<(usize, (usize, usize))>)
    requires
        i <= s@.len(),
    ensures
        match r {
            Some(p) => spec_story_title_block(s@, i as int) matches Some(sp) && p.0 as int == sp.0
                && i < p.0 <= s@.len() && p.1.0 <= p.1.1 <= s@.len() && s@.subrange(
                p.1.0 as int,
                p.1.1 as int,
            ) == sp.1,
            None => spec_story_title_block(s@, i as int) is None,
        },
{
    proof {
        reveal_strlit(":: StoryTitle");
        assert(":: StoryTitle"@ =~= story_title_kw());
    }
    if !is_match_at(s, ":: StoryTitle", i) {
        return None;
    }
    let len = s.unicode_len();
    assert(i + 13 <= len);
    match line_ending_end_at(s, i + 13) {
        Some(ls) => {
            let te = line_stop_at(s, ls);
            let nd = multispace_end_at(s, te);
            Some((nd, (ls, te)))
        },
        None => None,
    }
}

pub(crate) fn story_data_block_at(s: &str, i: usize) -> (r: Option<(usize, Option<String>)>)
    requires
        i <= s@.len(),
    ensures
        match r {
            Some(p) => spec_story_data_block(s@, i as int) matches Some(sp) && p.0 as int == sp.0
                && i < p.0 <= s@.len() && (match p.1 {
                Some(v) => sp.1 == Some(v@),
                None => sp.1 is None,
            }),
            None => spec_story_data_block(s@, i as int) is None,
        },
{
    proof {
        reveal_strlit(":: StoryData");
        assert(":: StoryData"@ =~= story_data_kw());
        reveal_strlit("start");
        assert("start"@ =~= start_key());
    }
    if !is_match_at(s, ":: StoryData", i) {
        return None;
    }
    let len = s.unicode_len();
    assert(i + 12 <= len);
    let ls = match line_ending_end_at(s, i + 12) {
        Some(ls) => ls,
        None => {
            return None;
        },
    };
    let e = match metadata_end_at(s, ls) {
        Some(e) => e,
        None => {
            return None;
        },
    };
    let data = s.substring_char(ls, e);
    match read_json_string_field(data, "start") {
        Ok(field) => {
            let nd = multispace_end_at(s, e);
            Some((nd, field))
        },
        Err(()) => None,
    }
}

/// Parse a leading `StoryTitle` block; returns the remainder and the raw
/// story title.
pub fn parse_story_title(input: &str) -> (r: Result<(&str, &str), ParsingError<&str>>)
    ensures
        match spec_story_title_block(input@, 0) {
            Some(sp) => r matches Ok(p) && p.0@ == input@.subrange(sp.0, input@.len() as int)
                && p.1@ == sp.1,
            None => r matches Err(ParsingError::Parsing(rem)) && rem@ == input@,
        },
{
    match story_title_block_at(input, 0) {
        Some((nd, tr)) => {
            let len = input.unicode_len();
            Ok((input.substring_char(nd, len), input.substring_char(tr.0, tr.1)))
        },
        None => Err(ParsingError::Parsing(input)),
    }
}

/// The story-level configuration read from a `StoryData` block.
#[derive(Debug, PartialEq, Eq, Clone)]
pub struct StoryData {
    pub start: Option<String>,
}

/// Parse a leading `StoryData` block; returns the remainder and the raw
/// start-passage name, if the block carries one.
pub fn parse_story_data(input: &str) -> (r: Result<(&str, StoryData), ParsingError<&str>>)
    ensures
        match spec_story_data_block(input@, 0) {
            Some(sp) => r matches Ok(p) && p.0@ == input@.subrange(sp.0, input@.len() as int) && (
            match p.1.start {
                Some(v) => sp.1 == Some(v@),
                None => sp.1 is None,
            }),
            None => r matches Err(ParsingError::Parsing(rem)) && rem@ == input@,
        },
{
    match story_data_block_at(input, 0) {
        Some((nd, field)) => {
            let len = input.unicode_len();
            Ok((input.substring_char(nd, len), StoryData { start: field }))
        },
        None => Err(ParsingError::Parsing(input)),
    }
}

} // verus!

verus! {

// ---------------------------------------------------------------------------
// Converting a parsed passage into ownership-aware text blocks.
// ---------------------------------------------------------------------------

/// A node model with each of its spans resolved (escape-decoded).
pub open spec fn resolve_node(n: NodeModel) -> NodeModel {
    match n {
        NodeModel::Text(t) => NodeModel::Text(resolved(t)),
        NodeModel::Link { text, target } => NodeModel::Link {
            text: resolved(text),
            target: resolved(target),
        },
    }
}

/// A passage model with each of its spans resolved (escape-decoded).
pub open spec fn resolve_model(m: PassageModel) -> PassageModel {
    PassageModel {
        title: resolved(m.title),
        tags: m.tags.map_values(|t: Seq<char>| resolved(t)),
        metadata: match m.metadata {
            Some(d) => Some(resolved(d)),
            None => None,
        },
        nodes: m.nodes.map_values(|n: NodeModel| resolve_node(n)),
    }
}

/// The raw spans of a parsed passage, without its end position.
pub open spec fn raw_passage_parts(rp: RawPassage) -> PassageModel {
    PassageModel { title: rp.title, tags: rp.tags, metadata: rp.metadata, nodes: rp.nodes }
}

/// Turn a parsed passage into one whose every text value is a `TextBlock`:
/// borrowed from the source where decoding changes nothing, owned and
/// decoded otherwise.
pub(crate) fn passage_idx_to_blocks(original: &str, pi: &PassageIdx) -> (r: Passage<TextBlock>)
    requires
        passage_idx_wf(*pi, original@),
    ensures
        crate::passage_wf(r, original@),
        passage_block_model(r, original@) == resolve_model(
            raw_passage_parts(passage_idx_model(*pi, original@)),
        ),
{
    let ghost s = original@;
    let ghost m = raw_passage_parts(passage_idx_model(*pi, s));
    let title = TextBlock::borrowed(original, pi.title.0, pi.title.1);
    let mut tags: Vec<crate::Tag<TextBlock>> = Vec::new();
    let mut i: usize = 0;
    while i < pi.tags.len()
        invariant
            passage_idx_wf(*pi, s),
            s == original@,
            0 <= i <= pi.tags@.len(),
            tags@.len() == i,
            forall|k: int|
                0 <= k < i ==> crate::block_wf((#[trigger] tags@[k]).value, s) && text_of(
                    tags@[k].value,
                    s,
                ) == resolved(s.subrange(pi.tags@[k].0 as int, pi.tags@[k].1 as int)),
        decreases pi.tags@.len() - i,
    {
        let rg = pi.tags[i];
        tags.push(crate::Tag::new(TextBlock::borrowed(original, rg.0, rg.1)));
        i = i + 1;
    }
    let metadata = match &pi.metadata {
        Some(rg) => Some(crate::Metadata::new(TextBlock::borrowed(original, rg.0, rg.1))),
        None => None,
    };
    let ghost cseq = content_of(*pi, s);
    let cs = pi.content_start;
    let mut content: Vec<crate::ContentNode<TextBlock>> = Vec::new();
    let mut q: usize = 0;
    while q < pi.nodes.len()
        invariant
            passage_idx_wf(*pi, s),
            s == original@,
            cseq == content_of(*pi, s),
            cs == pi.content_start,
            0 <= q <= pi.nodes@.len(),
            content@.len() == q,
            forall|k: int|
                0 <= k < q ==> crate::node_wf(#[trigger] content@[k], s) && crate::node_block_model(
                    content@[k],
                    s,
                ) == resolve_node(raw_node_model(pi.nodes@[k], cseq)),
        decreases pi.nodes@.len() - q,
    {
        let node = match &pi.nodes[q] {
            RawNodeIdx::Text(a, b) => {
                proof {
                    assert(s.subrange(cs + *a, cs + *b as int) =~= cseq.subrange(
                        *a as int,
                        *b as int,
                    ));
                }
                crate::ContentNode::Text(TextBlock::borrowed(original, cs + *a, cs + *b))
            },
            RawNodeIdx::Link { text, target } => {
                proof {
                    assert(s.subrange(cs + text.0, cs + text.1 as int) =~= cseq.subrange(
                        text.0 as int,
                        text.1 as int,
                    ));
                    assert(s.subrange(cs + target.0, cs + target.1 as int) =~= cseq.subrange(
                        target.0 as int,
                        target.1 as int,
                    ));
                }
                crate::ContentNode::Link {
                    text: TextBlock::borrowed(original, cs + text.0, cs + text.1),
                    target: TextBlock::borrowed(original, cs + target.0, cs + target.1),
                }
            },
        };
        content.push(node);
        q = q + 1;
    }
    let r = Passage { title, tags, metadata, content };
    proof {
        assert(passage_block_model(r, s).tags =~= resolve_model(m).tags);
        assert(passage_block_model(r, s).nodes =~= resolve_model(m).nodes);
        assert(passage_block_model(r, s) =~= resolve_model(m));
    }
    r
}

/// Put a passage into the story's mapping: a passage with the same resolved
/// title replaces the earlier one, otherwise it is appended.
fn insert_passage(passages: &mut Vec<Passage<TextBlock>>, original: &str, p: Passage<TextBlock>)
    requires
        crate::passage_wf(p, original@),
        titles_unique(old(passages)@, original@),
        forall|i: int|
            0 <= i < old(passages)@.len() ==> crate::passage_wf(
                #[trigger] old(passages)@[i],
                original@,
            ),
    ensures
        titles_unique(final(passages)@, original@),
        forall|i: int|
            0 <= i < final(passages)@.len() ==> crate::passage_wf(
                #[trigger] final(passages)@[i],
                original@,
            ),
        map_of_passages(final(passages)@, original@) == map_of_passages(
            old(passages)@,
            original@,
        ).insert(passage_key(p, original@), passage_block_model(p, original@)),
{
    let n = passages.len();
    let mut i: usize = 0;
    while i < n
        invariant
            crate::passage_wf(p, original@),
            passages@ == old(passages)@,
            n == passages@.len(),
            0 <= i <= n,
            titles_unique(passages@, original@),
            forall|k: int|
                0 <= k < passages@.len() ==> crate::passage_wf(
                    #[trigger] passages@[k],
                    original@,
                ),
            forall|k: int|
                0 <= k < i ==> passage_key(#[trigger] passages@[k], original@) != passage_key(
                    p,
                    original@,
                ),
        decreases n - i,
    {
        let same = {
            let existing = &passages[i];
            let et = existing.title.as_str(original);
            let nt = p.title.as_str(original);
            crate::utils::str_eq(et, nt)
        };
        if same {
            proof {
                crate::lemma_map_of_passages_update(passages@, original@, i as int, p);
            }
            passages.set(i, p);
            return ;
        }
        i = i + 1;
    }
    proof {
        crate::lemma_map_of_passages_dom(passages@, original@, passage_key(p, original@));
    }
    passages.push(p);
    proof {
        assert(passages@.drop_last() =~= old(passages)@);
        assert(passages@.last() == p);
        assert(titles_unique(passages@, original@)) by {
            assert(forall|x: int|
                0 <= x < passages@.len() - 1 ==> #[trigger] passages@[x] == old(passages)@[x]);
        }
    }
}

} // verus!

verus! {

// ---------------------------------------------------------------------------
// The document as a run of blocks, and what each contributes.
// ---------------------------------------------------------------------------

/// One parsed block of the document.
pub ghost enum RawBlock {
    Title(Seq<char>),
    Data(Option<Seq<char>>),
    Passage(RawPassage),
}

/// The block at `i`: a `StoryTitle` block, else a `StoryData` block, else an
/// ordinary passage.
pub open spec fn spec_story_block(s: Seq<char>, i: int) -> Option<(int, RawBlock)> {
    match spec_story_title_block(s, i) {
        Some((j, t)) => Some((j, RawBlock::Title(t))),
        None => match spec_story_data_block(s, i) {
            Some((j, d)) => Some((j, RawBlock::Data(d))),
            None => match spec_parse_passage(s, i) {
                Some(rp) => Some((rp.end, RawBlock::Passage(rp))),
                None => None,
            },
        },
    }
}

/// What a run of blocks contributes: the raw line of the last `StoryTitle`,
/// the field of the last `StoryData` (wrapped once more, so that a later
/// `StoryData` without a `start` field erases an earlier name), and the
/// resolved passages keyed by resolved title.
#[verifier::ext_equal]
pub ghost struct StoryAcc {
    pub title: Option<Seq<char>>,
    pub start: Option<Option<Seq<char>>>,
    pub passages: Map<Seq<char>, PassageModel>,
}

pub open spec fn empty_acc() -> StoryAcc {
    StoryAcc { title: None, start: None, passages: Map::empty() }
}

/// Combine what earlier blocks contribute with what later blocks contribute:
/// the later title, the later start, and the later of two same-titled
/// passages win.
pub open spec fn acc_over(first: StoryAcc, later: StoryAcc) -> StoryAcc {
    StoryAcc {
        title: match later.title {
            Some(t) => Some(t),
            None => first.title,
        },
        start: match later.start {
            Some(x) => Some(x),
            None => first.start,
        },
        passages: first.passages.union_prefer_right(later.passages),
    }
}

pub open spec fn acc_of_block(b: RawBlock) -> StoryAcc {
    match b {
        RawBlock::Title(t) => StoryAcc { title: Some(t), start: None, passages: Map::empty() },
        RawBlock::Data(d) => StoryAcc { title: None, start: Some(d), passages: Map::empty() },
        RawBlock::Passage(rp) => StoryAcc {
            title: None,
            start: None,
            passages: Map::empty().insert(
                resolved(rp.title),
                resolve_model(raw_passage_parts(rp)),
            ),
        },
    }
}

/// What the document from `i` to its end contributes, block by block.
pub open spec fn spec_story_from(s: Seq<char>, i: int) -> Option<StoryAcc>
    decreases s.len() - i,
{
    if i >= s.len() {
        Some(empty_acc())
    } else if i < 0 {
        None
    } else {
        match spec_story_block(s, i) {
            None => None,
            Some((j, b)) => {
                if i < j <= s.len() {
                    match spec_story_from(s, j) {
                        Some(rest) => Some(acc_over(acc_of_block(b), rest)),
                        None => None,
                    }
                } else {
                    None
                }
            },
        }
    }
}

/// The parse of a whole document: the resolved story title, the resolved
/// start-passage name, and the passage mapping. `None` when any block fails;
/// nothing partial survives such a failure.
pub open spec fn spec_parse_story(s: Seq<char>) -> Option<StoryModel> {
    match spec_story_from(s, 0) {
        None => None,
        Some(acc) => Some(
            StoryModel {
                title: match acc.title {
                    Some(t) => Some(resolved(t)),
                    None => None,
                },
                start: match acc.start {
                    Some(Some(t)) => Some(resolved(t)),
                    Some(None) => None,
                    None => None,
                },
                passages: acc.passages,
            },
        ),
    }
}

/// The position at which a failing parse stops: the start of the first
/// block that does not parse.
pub open spec fn story_fail_pos(s: Seq<char>, i: int) -> int
    decreases s.len() - i,
{
    if i < 0 || i >= s.len() {
        i
    } else {
        match spec_story_block(s, i) {
            None => i,
            Some((j, b)) => {
                if i < j <= s.len() {
                    story_fail_pos(s, j)
                } else {
                    i
                }
            },
        }
    }
}

/// The contribution of the blocks already consumed, as the assembler holds
/// it.
pub open spec fn cur_acc(
    title_range: Option<(usize, usize)>,
    start_state: Option<Option<String>>,
    ps: Seq<Passage<TextBlock>>,
    orig: Seq<char>,
) -> StoryAcc {
    StoryAcc {
        title: match title_range {
            Some(t) => Some(orig.subrange(t.0 as int, t.1 as int)),
            None => None,
        },
        start: match start_state {
            Some(Some(v)) => Some(Some(v@)),
            Some(None) => Some(None),
            None => None,
        },
        passages: map_of_passages(ps, orig),
    }
}

pub proof fn lemma_acc_over_assoc(a: StoryAcc, b: StoryAcc, c: StoryAcc)
    ensures
        acc_over(acc_over(a, b), c) == acc_over(a, acc_over(b, c)),
{
    assert(acc_over(acc_over(a, b), c).passages =~= acc_over(a, acc_over(b, c)).passages);
    assert(acc_over(acc_over(a, b), c) =~= acc_over(a, acc_over(b, c)));
}

pub proof fn lemma_acc_over_empty(a: StoryAcc)
    ensures
        acc_over(a, empty_acc()) == a,
        acc_over(empty_acc(), a) == a,
{
    assert(acc_over(a, empty_acc()).passages =~= a.passages);
    assert(acc_over(a, empty_acc()) =~= a);
    assert(acc_over(empty_acc(), a).passages =~= a.passages);
    assert(acc_over(empty_acc(), a) =~= a);
}

/// Two passages with the same resolved title: the later one in document
/// order wins. For a passage block at `i` whose remaining document also
/// parses, the contribution of the document from `i` holds, under this
/// passage's resolved title, the passage that the remaining document defines
/// when it defines one — the earlier passage is silently discarded — and
/// this passage itself otherwise.
pub proof fn lemma_later_passage_wins(s: Seq<char>, i: int, j: int, rp: RawPassage)
    requires
        0 <= i < s.len(),
        spec_story_block(s, i) == Some((j, RawBlock::Passage(rp))),
        i < j <= s.len(),
        spec_story_from(s, j) is Some,
    ensures
        spec_story_from(s, i) is Some,
        ({
            let k = resolved(rp.title);
            let rest = spec_story_from(s, j)->Some_0;
            let acc = spec_story_from(s, i)->Some_0;
            &&& acc.passages.dom().contains(k)
            &&& (rest.passages.dom().contains(k) ==> acc.passages[k] == rest.passages[k])
            &&& (!rest.passages.dom().contains(k) ==> acc.passages[k] == resolve_model(
                raw_passage_parts(rp),
            ))
        }),
{
    let k = resolved(rp.title);
    let rest = spec_story_from(s, j)->Some_0;
    assert(spec_story_from(s, i) == Some(acc_over(acc_of_block(RawBlock::Passage(rp)), rest)));
    assert(acc_of_block(RawBlock::Passage(rp)).passages.dom().contains(k));
}

proof fn lemma_story_step(s: Seq<char>, pos: int, nd: int, b: RawBlock, oldc: StoryAcc, newc: StoryAcc)
    requires
        0 <= pos < s.len(),
        spec_story_block(s, pos) == Some((nd, b)),
        pos < nd <= s.len(),
        newc == acc_over(oldc, acc_of_block(b)),
        match spec_story_from(s, pos) {
            Some(rest) => spec_story_from(s, 0) matches Some(all) && all == acc_over(oldc, rest),
            None => spec_story_from(s, 0) is None,
        },
    ensures
        match spec_story_from(s, nd) {
            Some(rest) => spec_story_from(s, 0) matches Some(all) && all == acc_over(newc, rest),
            None => spec_story_from(s, 0) is None,
        },
{
    match spec_story_from(s, nd) {
        Some(rest2) => {
            assert(spec_story_from(s, pos) == Some(acc_over(acc_of_block(b), rest2)));
            lemma_acc_over_assoc(oldc, acc_of_block(b), rest2);
        },
        None => {
            assert(spec_story_from(s, pos) is None);
        },
    }
}

// ---------------------------------------------------------------------------
// The assembler.
// ---------------------------------------------------------------------------

/// Parse a whole document into a story. On success the whole input is
/// consumed, the story owns a copy of it, and its model is the document's
/// parse; any block failure aborts the whole parse with the remaining input.
pub fn parse_story(input: &str) -> (r: Result<(&str, Story), ParsingError<&str>>)
    ensures
        match spec_parse_story(input@) {
            Some(model) => r matches Ok(p) && p.0@.len() == 0 && crate::story_wf(p.1)
                && p.1.content@ == input@ && crate::story_model(p.1) == model,
            None => r matches Err(ParsingError::Parsing(rem)) && rem@ == input@.subrange(
                story_fail_pos(input@, 0),
                input@.len() as int,
            ),
        },
{
    let len = input.unicode_len();
    let ghost s = input@;
    let mut title_range: Option<(usize, usize)> = None;
    let mut start_state: Option<Option<String>> = None;
    let mut passages: Vec<Passage<TextBlock>> = Vec::new();
    let mut pos: usize = 0;
    proof {
        assert(cur_acc(title_range, start_state, passages@, s) =~= empty_acc());
        match spec_story_from(s, 0) {
            Some(rest) => {
                lemma_acc_over_empty(rest);
            },
            None => {},
        }
    }
    while pos < len
        invariant
            len == s.len(),
            s == input@,
            0 <= pos <= len,
            titles_unique(passages@, s),
            forall|k: int|
                0 <= k < passages@.len() ==> crate::passage_wf(#[trigger] passages@[k], s),
            match title_range {
                Some(t) => t.0 <= t.1 <= len,
                None => true,
            },
            story_fail_pos(s, 0) == story_fail_pos(s, pos as int),
            match spec_story_from(s, pos as int) {
                Some(rest) => spec_story_from(s, 0) matches Some(all) && all == acc_over(
                    cur_acc(title_range, start_state, passages@, s),
                    rest,
                ),
                None => spec_story_from(s, 0) is None,
            },
        decreases len - pos,
    {
        let ghost oldc = cur_acc(title_range, start_state, passages@, s);
        if let Some((nd, tr)) = story_title_block_at(input, pos) {
            title_range = Some(tr);
            proof {
                let b = RawBlock::Title(s.subrange(tr.0 as int, tr.1 as int));
                assert(spec_story_block(s, pos as int) == Some((nd as int, b)));
                let newc = cur_acc(title_range, start_state, passages@, s);
                assert(newc.passages =~= acc_over(oldc, acc_of_block(b)).passages);
                assert(newc =~= acc_over(oldc, acc_of_block(b)));
                lemma_story_step(s, pos as int, nd as int, b, oldc, newc);
                assert(story_fail_pos(s, pos as int) == story_fail_pos(s, nd as int));
            }
            pos = nd;
        } else if let Some((nd, field)) = story_data_block_at(input, pos) {
            let ghost fieldview = match &field {
                Some(v) => Some(v@),
                None => None::<Seq<char>>,
            };
            start_state = Some(field);
            proof {
                let b = RawBlock::Data(fieldview);
                assert(spec_story_block(s, pos as int) == Some((nd as int, b)));
                let newc = cur_acc(title_range, start_state, passages@, s);
                assert(newc.passages =~= acc_over(oldc, acc_of_block(b)).passages);
                assert(newc =~= acc_over(oldc, acc_of_block(b)));
                lemma_story_step(s, pos as int, nd as int, b, oldc, newc);
                assert(story_fail_pos(s, pos as int) == story_fail_pos(s, nd as int));
            }
            pos = nd;
        } else {
            match parse_passage_at(input, pos) {
                Some(pi) => {
                    let nd = pi.end;
                    let p = passage_idx_to_blocks(input, &pi);
                    let ghost rp = passage_idx_model(pi, s);
                    let ghost pk = passage_key(p, s);
                    let ghost pm = passage_block_model(p, s);
                    proof {
                        assert(pk == resolved(rp.title));
                        assert(pm == resolve_model(raw_passage_parts(rp)));
                    }
                    insert_passage(&mut passages, input, p);
                    proof {
                        let b = RawBlock::Passage(rp);
                        assert(spec_story_block(s, pos as int) == Some((nd as int, b)));
                        let newc = cur_acc(title_range, start_state, passages@, s);
                        assert(newc.passages =~= acc_over(oldc, acc_of_block(b)).passages) by {
                            assert(map_of_passages(passages@, s) == oldc.passages.insert(pk, pm));
                            assert(acc_of_block(b).passages == Map::<Seq<char>, PassageModel>::empty().insert(pk, pm));
                            assert(oldc.passages.insert(pk, pm) =~= oldc.passages.union_prefer_right(
                                Map::<Seq<char>, PassageModel>::empty().insert(pk, pm),
                            ));
                        }
                        assert(newc =~= acc_over(oldc, acc_of_block(b)));
                        lemma_story_step(s, pos as int, nd as int, b, oldc, newc);
                        assert(story_fail_pos(s, pos as int) == story_fail_pos(s, nd as int));
                    }
                    pos = nd;
                },
                None => {
                    proof {
                        assert(spec_story_block(s, pos as int) is None);
                        assert(spec_story_from(s, pos as int) is None);
                        assert(story_fail_pos(s, pos as int) == pos as int);
                    }
                    return Err(ParsingError::Parsing(input.substring_char(pos, len)));
                },
            }
        }
    }
    proof {
        assert(spec_story_from(s, pos as int) == Some(empty_acc()));
        lemma_acc_over_empty(cur_acc(title_range, start_state, passages@, s));
    }
    let ghost fin = cur_acc(title_range, start_state, passages@, s);
    let content_string = input.to_owned();
    let title_block = match title_range {
        Some(tr) => Some(TextBlock::borrowed(input, tr.0, tr.1)),
        None => None,
    };
    let start_block = match start_state {
        Some(Some(v)) => Some(TextBlock::owned(v)),
        Some(None) => None,
        None => None,
    };
    let story = Story { content: content_string, title: title_block, start: start_block, passages };
    proof {
        assert(story.content@ == s);
        assert(crate::story_wf(story));
        match spec_parse_story(s) {
            Some(model) => {
                assert(crate::story_model(story) =~= model);
            },
            None => {
                assert(false);
            },
        }
    }
    Ok((input.substring_char(len, len), story))
}

} // verus!
