//! The syntax tree of a Markdown document.
use vstd::prelude::*;
use crate::span::Span;

verus! {

/// A whole Markdown document.
#[derive(Debug, Clone, PartialEq, Eq, Hash)]
pub struct Document {
    pub span: Span,
    pub mdx: bool,
    pub gfm: bool,
    pub children: Vec<Block>,
}

#[derive(Debug, Clone, PartialEq, Eq, Hash)]
pub enum Block {
    Leaf(LeafBlock),
    Container(ContainerBlock),
    Inline(InlineBlock),
}

#[derive(Debug, Clone, PartialEq, Eq, Hash)]
pub enum ContainerBlock {
    BlockQuote(BlockQuote),
    ListItem(ListItem),
    List(List),
}

#[derive(Debug, Clone, PartialEq, Eq, Hash)]
pub struct BlockQuote {
    pub span: Span,
}

#[derive(Debug, Clone, PartialEq, Eq, Hash)]
pub struct ListItem {
    pub span: Span,
}

#[derive(Debug, Clone, PartialEq, Eq, Hash)]
pub struct List {
    pub span: Span,
}

#[derive(Debug, Clone, PartialEq, Eq, Hash)]
pub enum InlineBlock {
    CodeSpan(CodeSpan),
    EmphasisAndStrongEmphasis(EmphasisAndStrongEmphasis),
    Link(Link),
    Image(Image),
    Autolink(Autolink),
    RawHTML(RawHTML),
    HardLineBreak(HardLineBreak),
    SoftLineBreak(SoftLineBreak),
    TextualContent(TextualContent),
}

#[derive(Debug, Clone, PartialEq, Eq, Hash)]
pub struct CodeSpan {
    pub span: Span,
}

#[derive(Debug, Clone, PartialEq, Eq, Hash)]
pub struct EmphasisAndStrongEmphasis {
    pub span: Span,
}

#[derive(Debug, Clone, PartialEq, Eq, Hash)]
pub struct Link {
    pub span: Span,
}

#[derive(Debug, Clone, PartialEq, Eq, Hash)]
pub struct Image {
    pub span: Span,
}

#[derive(Debug, Clone, PartialEq, Eq, Hash)]
pub struct Autolink {
    pub span: Span,
}

#[derive(Debug, Clone, PartialEq, Eq, Hash)]
pub struct RawHTML {
    pub span: Span,
}

#[derive(Debug, Clone, PartialEq, Eq, Hash)]
pub struct HardLineBreak {
    pub span: Span,
}

#[derive(Debug, Clone, PartialEq, Eq, Hash)]
pub struct SoftLineBreak {
    pub span: Span,
}

#[derive(Debug, Clone, PartialEq, Eq, Hash)]
pub struct TextualContent {
    pub span: Span,
    pub content: String,
}

#[derive(Debug, Clone, PartialEq, Eq, Hash)]
pub enum LeafBlock {
    ThematicBreak(ThematicBreak),
    ATXHeading(ATXHeading),
    SetextHeading(SetextHeading),
    IndentedCodeBlock(IndentedCodeBlock),
    FencedCodeBlock(FencedCodeBlock),
    HTMLBlock(HTMLBlock),
    LinkReferenceDefinition(LinkReferenceDefinition),
    Paragraph(Paragraph),
    BlankLine(BlankLine),
}

#[derive(Debug, Clone, PartialEq, Eq, Hash)]
pub struct ThematicBreak {
    pub span: Span,
}

#[derive(Debug, Clone, PartialEq, Eq, Hash)]
pub struct ATXHeading {
    pub span: Span,
    pub level: u8,
    pub children: Vec<InlineBlock>,
}

#[derive(Debug, Clone, PartialEq, Eq, Hash)]
pub struct SetextHeading {
    pub span: Span,
    pub level: u8,
    pub children: Vec<InlineBlock>,
}

#[derive(Debug, Clone, PartialEq, Eq, Hash)]
pub struct IndentedCodeBlock {
    pub span: Span,
}

#[derive(Debug, Clone, PartialEq, Eq, Hash)]
pub struct FencedCodeBlock {
    pub span: Span,
}

#[derive(Debug, Clone, PartialEq, Eq, Hash)]
pub struct HTMLBlock {
    pub span: Span,
}

#[derive(Debug, Clone, PartialEq, Eq, Hash)]
pub struct LinkReferenceDefinition {
    pub span: Span,
}

#[derive(Debug, Clone, PartialEq, Eq, Hash)]
pub struct Paragraph {
    pub span: Span,
    pub children: Vec<InlineBlock>,
}

#[derive(Debug, Clone, PartialEq, Eq, Hash)]
pub struct BlankLine {
    pub span: Span,
}

} // verus!
