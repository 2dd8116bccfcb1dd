//! The tokens that the lexer hands out.
use vstd::prelude::*;
use crate::span::Span;

verus! {

/// A block-level token of a Markdown document.
#[derive(Debug, Clone, PartialEq, Eq, Hash)]
pub enum Token {
    ThematicBreak,
    ATXHeading { level: u8, content: String },
    SetextHeading { level: u8, content: String },
    IndentedCodeBlock(String),
    FencedCodeBlock { info: String, content: String },
    HTMLBlock(String),
    LinkReferenceDefinition { label: String, destination: String, title: Option<String> },
    Paragraph(String),
    BlankLine,
    BlockQuoteStart,
    ListItemStart,
    ListStart,
    Eof,
}

/// A token with its text as character sequences.
pub enum TokenView {
    ThematicBreak,
    ATXHeading { level: u8, content: Seq<char> },
    SetextHeading { level: u8, content: Seq<char> },
    IndentedCodeBlock(Seq<char>),
    FencedCodeBlock { info: Seq<char>, content: Seq<char> },
    HTMLBlock(Seq<char>),
    LinkReferenceDefinition { label: Seq<char>, destination: Seq<char>, title: Option<Seq<char>> },
    Paragraph(Seq<char>),
    BlankLine,
    BlockQuoteStart,
    ListItemStart,
    ListStart,
    Eof,
}

impl View for Token {
    type V = TokenView;

    open spec fn view(&self) -> TokenView {
        match self {
            Token::ThematicBreak => TokenView::ThematicBreak,
            Token::ATXHeading { level, content } => TokenView::ATXHeading {
                level: *level,
                content: content@,
            },
            Token::SetextHeading { level, content } => TokenView::SetextHeading {
                level: *level,
                content: content@,
            },
            Token::IndentedCodeBlock(s) => TokenView::IndentedCodeBlock(s@),
            Token::FencedCodeBlock { info, content } => TokenView::FencedCodeBlock {
                info: info@,
                content: content@,
            },
            Token::HTMLBlock(s) => TokenView::HTMLBlock(s@),
            Token::LinkReferenceDefinition { label, destination, title } =>
                TokenView::LinkReferenceDefinition {
                label: label@,
                destination: destination@,
                title: match title {
                    Some(t) => Some(t@),
                    None => None,
                },
            },
            Token::Paragraph(s) => TokenView::Paragraph(s@),
            Token::BlankLine => TokenView::BlankLine,
            Token::BlockQuoteStart => TokenView::BlockQuoteStart,
            Token::ListItemStart => TokenView::ListItemStart,
            Token::ListStart => TokenView::ListStart,
            Token::Eof => TokenView::Eof,
        }
    }
}

/// A token and the span of source text that it covers.
#[derive(Debug, Clone, PartialEq, Eq, Hash)]
pub struct TokenAndSpan {
    pub span: Span,
    pub token: Token,
}

pub struct TokenAndSpanView {
    pub span: Span,
    pub token: TokenView,
}

impl View for TokenAndSpan {
    type V = TokenAndSpanView;

    open spec fn view(&self) -> TokenAndSpanView {
        TokenAndSpanView { span: self.span, token: self.token@ }
    }
}

} // verus!
