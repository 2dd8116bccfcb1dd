use swc_markdown_parser::input::StringInput;
use swc_markdown_parser::lexer::{Lexer, State};
use swc_markdown_parser::span::{BytePos, Span};
use swc_markdown_parser::token::{Token, TokenAndSpan};

fn tokens_from(state: State, src: &str) -> Vec<TokenAndSpan> {
    let end = src.len() as u32;
    let mut l = Lexer::new(StringInput::new(src, BytePos(0), BytePos(end)));
    l.set_input_state(state);
    let mut out = Vec::new();
    while let Some(t) = l.next() {
        out.push(t);
    }
    out
}

fn tok(token: Token, lo: u32, hi: u32) -> TokenAndSpan {
    TokenAndSpan { span: Span { lo: BytePos(lo), hi: BytePos(hi) }, token }
}

fn html(s: &str) -> Token {
    Token::HTMLBlock(s.to_string())
}

fn para(s: &str) -> Token {
    Token::Paragraph(s.to_string())
}

#[test]
fn declaration_keeps_its_text_in_the_buffer() {
    assert_eq!(
        tokens_from(State::HTMLBlock, "<!DOCTYPE html>"),
        vec![tok(html("<!DOCTYPE html>"), 0, 15), tok(para("<!DOCTYPE html>"), 15, 15)]
    );
}

#[test]
fn processing_instruction() {
    assert_eq!(tokens_from(State::HTMLBlock, "<?php x ?>"), vec![tok(html("<?"), 0, 10)]);
}

#[test]
fn short_cdata_section_goes_back_to_the_data_state() {
    assert_eq!(
        tokens_from(State::HTMLBlock, "<![CDATA[x]]>"),
        vec![tok(html("<![CDATA["), 0, 13), tok(Token::BlockQuoteStart, 13, 13)]
    );
}

#[test]
fn closing_tag_of_an_inline_element() {
    assert_eq!(
        tokens_from(State::HTMLBlock, "</span>\n\n"),
        vec![tok(para("</>\n"), 0, 9), tok(Token::BlankLine, 9, 9)]
    );
}

#[test]
fn raw_tag_before_its_end() {
    assert_eq!(tokens_from(State::HTMLBlock, "<pre>\nx</pre>"), vec![tok(para("<p>\nx</pre>"), 0, 13)]);
}

#[test]
fn block_tag_with_attributes_up_to_the_end() {
    assert_eq!(tokens_from(State::HTMLBlock, "<div class=\"a\">"), vec![tok(html("<d "), 0, 15)]);
}

#[test]
fn unquoted_attribute_value() {
    assert_eq!(
        tokens_from(State::HTMLBlock, "<span a=b\n\n"),
        vec![tok(para("<sa=b\n\n"), 0, 11), tok(Token::BlankLine, 11, 11)]
    );
}

#[test]
fn self_closing_end_of_a_closing_tag() {
    assert_eq!(tokens_from(State::HTMLClosingTag, "/>\n\n"), vec![tok(html("/>"), 0, 3)]);
}

#[test]
fn after_attributes() {
    assert_eq!(tokens_from(State::AfterHTMLAttributes, " />\n"), vec![tok(html(" /"), 0, 4)]);
}

#[test]
fn double_quoted_link_title() {
    assert_eq!(tokens_from(State::BeforeLinkTitle, "\"t\"\n"), vec![tok(para("\"t\"\n"), 0, 4)]);
}

#[test]
fn braced_link_destination() {
    assert_eq!(tokens_from(State::LinkDestination, "<u> x"), vec![tok(para("<u> x"), 0, 5)]);
}

#[test]
fn unquoted_link_destination_with_parentheses() {
    assert_eq!(
        tokens_from(State::UnquotedLinkDestination, "a(b)c d"),
        vec![tok(para("a(b)c d"), 0, 7)]
    );
}

#[test]
fn setext_heading_of_the_first_level() {
    let mut l = Lexer::new(StringInput::new("=a=", BytePos(0), BytePos(3)));
    assert_eq!(
        l.next(),
        Some(tok(Token::SetextHeading { level: 1, content: "=a=".to_string() }, 0, 3))
    );
}

#[test]
fn equals_signs_alone_stay_paragraph_text() {
    let mut l = Lexer::new(StringInput::new("==", BytePos(0), BytePos(2)));
    assert_eq!(l.next(), Some(tok(para("=="), 0, 2)));
    assert_eq!(l.next(), None);
}

#[test]
fn blank_line_after_html_with_a_carriage_return_line_feed() {
    assert_eq!(
        tokens_from(State::HTMLBlankLine, "  \r\nx"),
        vec![tok(html(""), 0, 4), tok(para("x"), 4, 5)]
    );
    assert_eq!(
        tokens_from(State::HTMLBlankLine, "  \nx"),
        vec![tok(html(""), 0, 3), tok(para("x"), 3, 4)]
    );
}

#[test]
fn raw_html_block_ends_at_its_end_tag() {
    assert_eq!(tokens_from(State::HTMLBlockType1, "x</pre>"), vec![tok(html(""), 0, 7)]);
    assert_eq!(tokens_from(State::HTMLBlockType1, "x</Script>"), vec![tok(html(""), 0, 10)]);
}

#[test]
fn raw_html_block_goes_on_past_another_end_tag() {
    assert_eq!(
        tokens_from(State::HTMLBlockType1, "x</div>"),
        vec![tok(html(""), 0, 7), tok(Token::BlockQuoteStart, 7, 7)]
    );
}

#[test]
fn line_ending_after_html_attributes_counts_once() {
    let kinds = |src: &str| {
        tokens_from(State::AfterHTMLAttributes, src)
            .into_iter()
            .map(|t| std::mem::discriminant(&t.token))
            .collect::<Vec<_>>()
    };
    assert_eq!(kinds(" \n>\n\n"), kinds(" \r\n>\r\n\r\n"));
}
