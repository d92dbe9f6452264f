//! Request files: markdown documents whose annotated code blocks hold request
//! specifications.

use vstd::prelude::*;

use crate::errors::{result_view, RequestFileError};
use crate::text::is_word;

verus! {

/// A top-level block of a markdown document.
#[derive(Debug, PartialEq, Eq)]
pub enum Block {
    /// A code block, with the language and the annotation of its opening fence.
    Code { lang: Option<String>, meta: Option<String>, value: String },
    /// Any other block.
    Other,
}

/// The mathematical value of a [`Block`].
pub enum BlockView {
    Code { lang: Option<Seq<char>>, meta: Option<Seq<char>>, value: Seq<char> },
    Other,
}

impl View for Block {
    type V = BlockView;

    open spec fn view(&self) -> BlockView {
        match self {
            Block::Code { lang, meta, value } => BlockView::Code {
                lang: lang.deep_view(),
                meta: meta.deep_view(),
                value: value@,
            },
            Block::Other => BlockView::Other,
        }
    }
}

impl DeepView for Block {
    type V = BlockView;

    open spec fn deep_view(&self) -> BlockView {
        self.view()
    }
}

/// The encoding of a request specification.
#[derive(Debug, Clone, Copy, PartialEq, Eq, Structural)]
pub enum MarkdownConfigBlockType {
    Yaml,
    Json,
}

/// A code block that is marked as a request specification.
#[derive(Debug, PartialEq, Eq)]
pub struct MarkdownConfigBlock {
    pub kind: MarkdownConfigBlockType,
    pub text: String,
}

/// The mathematical value of a [`MarkdownConfigBlock`].
pub struct MarkdownConfigBlockView {
    pub kind: MarkdownConfigBlockType,
    pub text: Seq<char>,
}

impl View for MarkdownConfigBlock {
    type V = MarkdownConfigBlockView;

    open spec fn view(&self) -> MarkdownConfigBlockView {
        MarkdownConfigBlockView { kind: self.kind, text: self.text@ }
    }
}

impl DeepView for MarkdownConfigBlock {
    type V = MarkdownConfigBlockView;

    open spec fn deep_view(&self) -> MarkdownConfigBlockView {
        self.view()
    }
}

/// The top-level blocks of the markdown document `text`, if it parses.
pub uninterp spec fn markdown_blocks(text: Seq<char>) -> Option<Seq<BlockView>>;

/// Parses `md_raw` with `markdown::to_mdast` under `ParseOptions::gfm()` and hands out
/// the children of the tree's root in document order, each code block with its `lang`,
/// `meta` and `value`. A tree without children is handed out as no blocks. The outcome
/// depends on `md_raw` alone; the contract gives it the name [`markdown_blocks`] and
/// claims nothing else about it.
#[verifier::external_body]
pub(crate) fn parse_markdown(md_raw: &str) -> (blocks: Option<Vec<Block>>)
    ensures
        blocks.deep_view() == markdown_blocks(md_raw@),
{
    let tree = markdown::to_mdast(md_raw, &markdown::ParseOptions::gfm()).ok()?;
    let nodes = tree.children().cloned().unwrap_or_default();
    Some(nodes.into_iter().map(|node| match node {
        markdown::mdast::Node::Code(code) => {
            Block::Code { lang: code.lang, meta: code.meta, value: code.value }
        },
        _ => Block::Other,
    }).collect())
}

/// Whether a block carries the annotation that marks a request specification.
pub open spec fn is_config_block(block: BlockView) -> bool {
    block matches BlockView::Code { meta: Some(meta), .. } && meta == "luc"@
}

/// The encoding that the language tag of a block names, if it names one.
pub open spec fn config_block_kind(block: BlockView) -> Option<MarkdownConfigBlockType> {
    match block {
        BlockView::Code { lang: Some(lang), .. } => if lang == "yaml"@ {
            Some(MarkdownConfigBlockType::Yaml)
        } else if lang == "json"@ {
            Some(MarkdownConfigBlockType::Json)
        } else {
            None
        },
        _ => None,
    }
}

/// The text of a code block.
pub open spec fn block_text(block: BlockView) -> Seq<char> {
    match block {
        BlockView::Code { value, .. } => value,
        BlockView::Other => Seq::empty(),
    }
}

/// A marked block as a request specification; meaningful where its language is known.
pub open spec fn as_config_block(block: BlockView) -> MarkdownConfigBlockView {
    MarkdownConfigBlockView {
        kind: match config_block_kind(block) {
            Some(kind) => kind,
            None => MarkdownConfigBlockType::Yaml,
        },
        text: block_text(block),
    }
}

/// The marked blocks among `blocks`, in document order.
pub open spec fn marked_blocks(blocks: Seq<BlockView>) -> Seq<BlockView> {
    blocks.filter(|block: BlockView| is_config_block(block))
}

/// What a document with the top-level blocks `blocks` yields: no block at all is an
/// empty file; a marked block in an unknown language is refused; otherwise the marked
/// blocks come out in document order, and unmarked blocks are passed over.
pub open spec fn spec_config_blocks(blocks: Seq<BlockView>) -> Result<
    Seq<MarkdownConfigBlockView>,
    RequestFileError,
> {
    let marked = marked_blocks(blocks);
    if blocks.len() == 0 {
        Err(RequestFileError::EmptyFile)
    } else if exists|i: int| 0 <= i < marked.len() && config_block_kind(#[trigger] marked[i]) is None {
        Err(RequestFileError::UnsupportedBlockType)
    } else {
        Ok(marked.map_values(|block: BlockView| as_config_block(block)))
    }
}

fn is_marked(block: &Block) -> (marked: bool)
    ensures
        marked == is_config_block(block@),
{
    match block {
        Block::Code { lang: _, meta: Some(meta), value: _ } => is_word(meta, "luc"),
        _ => false,
    }
}

fn kind_of(block: &Block) -> (kind: Option<MarkdownConfigBlockType>)
    ensures
        kind == config_block_kind(block@),
{
    match block {
        Block::Code { lang: Some(lang), meta: _, value: _ } => {
            if is_word(lang, "yaml") {
                Some(MarkdownConfigBlockType::Yaml)
            } else if is_word(lang, "json") {
                Some(MarkdownConfigBlockType::Json)
            } else {
                None
            }
        },
        _ => None,
    }
}

fn text_of(block: &Block) -> (text: String)
    ensures
        text@ == block_text(block@),
{
    match block {
        Block::Code { lang: _, meta: _, value } => value.clone(),
        Block::Other => String::new(),
    }
}

/// Picks the request specifications out of the top-level blocks of a document.
pub fn select_config_blocks(blocks: &Vec<Block>) -> (selected: Result<
    Vec<MarkdownConfigBlock>,
    RequestFileError,
>)
    ensures
        result_view(selected) == spec_config_blocks(blocks.deep_view()),
{
    if blocks.len() == 0 {
        return Err(RequestFileError::EmptyFile);
    }
    let ghost all = blocks.deep_view();
    let ghost marked = |block: BlockView| is_config_block(block);
    let mut selected: Vec<MarkdownConfigBlock> = Vec::new();
    let mut i: usize = 0;
    while i < blocks.len()
        invariant
            0 <= i <= blocks.len(),
            all == blocks.deep_view(),
            marked == |block: BlockView| is_config_block(block),
            selected.deep_view() == all.take(i as int).filter(marked).map_values(
                |block: BlockView| as_config_block(block),
            ),
            forall|j: int|
                0 <= j < all.take(i as int).filter(marked).len() ==> config_block_kind(
                    #[trigger] all.take(i as int).filter(marked)[j],
                ) is Some,
        decreases blocks.len() - i,
    {
        let block = &blocks[i];
        proof {
            reveal(Seq::filter);
            assert(all.take(i + 1).drop_last() == all.take(i as int));
            assert(all.take(i + 1).last() == block@);
        }
        if is_marked(block) {
            match kind_of(block) {
                Some(kind) => {
                    let ghost before = selected.deep_view();
                    selected.push(MarkdownConfigBlock { kind, text: text_of(block) });
                    assert(selected.deep_view() == before.push(as_config_block(block@)));
                },
                None => {
                    proof {
                        let prefix = all.take(i + 1).filter(marked);
                        assert(config_block_kind(prefix[prefix.len() - 1]) is None);
                        lemma_marked_prefix(all, i + 1, prefix.len() - 1);
                    }
                    return Err(RequestFileError::UnsupportedBlockType);
                },
            }
        }
        i += 1;
    }
    assert(all.take(i as int) == all);
    Ok(selected)
}

/// A marked block of a prefix of a document is a marked block of the document, at the
/// same place.
proof fn lemma_marked_prefix(blocks: Seq<BlockView>, n: int, j: int)
    requires
        0 <= n <= blocks.len(),
        0 <= j < marked_blocks(blocks.take(n)).len(),
    ensures
        j < marked_blocks(blocks).len(),
        marked_blocks(blocks)[j] == marked_blocks(blocks.take(n))[j],
    decreases blocks.len() - n,
{
    if n < blocks.len() {
        reveal(Seq::filter);
        assert(blocks.take(n + 1).drop_last() == blocks.take(n));
        lemma_marked_prefix(blocks, n + 1, j);
    } else {
        assert(blocks.take(n) == blocks);
    }
}

/// A marked block of a document is among its marked blocks.
pub proof fn lemma_marked_block(blocks: Seq<BlockView>, at: int)
    requires
        0 <= at < blocks.len(),
        is_config_block(blocks[at]),
    ensures
        exists|j: int|
            0 <= j < marked_blocks(blocks).len() && #[trigger] marked_blocks(blocks)[j] == blocks[at],
    decreases blocks.len(),
{
    reveal(Seq::filter);
    let front = blocks.drop_last();
    let marked = marked_blocks(blocks);
    if at == blocks.len() - 1 {
        assert(marked[marked.len() - 1] == blocks[at]);
    } else {
        lemma_marked_block(front, at);
        let j = choose|j: int|
            0 <= j < marked_blocks(front).len() && #[trigger] marked_blocks(front)[j] == front[at];
        assert(marked[j] == blocks[at]);
    }
}

/// Reads a markdown document and picks out its request specifications.
pub fn markdown_get_config_blocks(md_raw: &str) -> (selected: Result<
    Vec<MarkdownConfigBlock>,
    RequestFileError,
>)
    ensures
        result_view(selected) == match markdown_blocks(md_raw@) {
            None => Err(RequestFileError::SyntaxError),
            Some(blocks) => spec_config_blocks(blocks),
        },
{
    match parse_markdown(md_raw) {
        None => Err(RequestFileError::SyntaxError),
        Some(blocks) => select_config_blocks(&blocks),
    }
}

} // verus!
