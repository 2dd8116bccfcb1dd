use swc_markdown_parser::input::StringInput;
use swc_markdown_parser::lexer::{Lexer, State};
use swc_markdown_parser::span::{BytePos, Span};
use swc_markdown_parser::token::{Token, TokenAndSpan};

fn lexer_at(src: &str, start: u32) -> Lexer {
    let end = start + src.len() as u32;
    Lexer::new(StringInput::new(src, BytePos(start), BytePos(end)))
}

fn lexer(src: &str) -> Lexer {
    lexer_at(src, 0)
}

fn all_tokens(src: &str) -> Vec<TokenAndSpan> {
    let mut l = lexer(src);
    let mut out = Vec::new();
    while let Some(t) = l.next() {
        out.push(t);
    }
    out
}

fn tok(token: Token, lo: u32, hi: u32) -> TokenAndSpan {
    TokenAndSpan { span: Span { lo: BytePos(lo), hi: BytePos(hi) }, token }
}

fn para(s: &str) -> Token {
    Token::Paragraph(s.to_string())
}

#[test]
fn empty_text_gives_no_token() {
    let mut l = lexer("");
    assert_eq!(l.next(), None);
    assert!(l.is_finished());
    assert_eq!(l.next(), None);
}

#[test]
fn plain_text_is_one_paragraph() {
    assert_eq!(all_tokens("abc"), vec![tok(para("abc"), 0, 3)]);
}

#[test]
fn blank_line_ends_a_paragraph() {
    assert_eq!(
        all_tokens("abc\n\ndef"),
        vec![
            tok(para("abc\n"), 0, 5),
            tok(Token::BlankLine, 5, 5),
            tok(para("def"), 5, 8),
        ]
    );
}

#[test]
fn asterisks_make_a_thematic_break() {
    assert_eq!(all_tokens("***\n"), vec![tok(Token::ThematicBreak, 0, 3)]);
}

#[test]
fn dashes_make_a_thematic_break() {
    assert_eq!(all_tokens("---"), vec![tok(Token::ThematicBreak, 0, 3)]);
}

#[test]
fn two_markers_stay_paragraph_text() {
    assert_eq!(all_tokens("--\n**\n__\n"), vec![tok(para("--\n**\n__\n"), 0, 9)]);
}

#[test]
fn spaced_asterisks_make_a_thematic_break() {
    assert_eq!(all_tokens("* * *"), vec![tok(Token::ThematicBreak, 0, 5)]);
}

#[test]
fn indented_asterisks_make_a_thematic_break() {
    assert_eq!(all_tokens("  ***"), vec![tok(Token::ThematicBreak, 0, 5)]);
}

#[test]
fn spaced_dashes_make_a_thematic_break() {
    assert_eq!(all_tokens("- - -"), vec![tok(Token::ThematicBreak, 0, 5)]);
}

#[test]
fn mixed_markers_stay_paragraph_text() {
    assert_eq!(all_tokens("*a*"), vec![tok(para("*a*"), 0, 3)]);
}

#[test]
fn thematic_break_between_paragraphs() {
    assert_eq!(
        all_tokens("***\n\nabc"),
        vec![tok(Token::ThematicBreak, 0, 3), tok(para("abc"), 5, 8)]
    );
}

#[test]
fn lexer_starts_where_the_input_was_left() {
    let mut input = StringInput::new("xab", BytePos(0), BytePos(3));
    input.bump();
    let mut l = Lexer::new(input);
    assert_eq!(l.next(), Some(tok(para("ab"), 1, 3)));
    assert_eq!(l.next(), None);
}

#[test]
fn byte_order_mark_is_kept_when_the_input_was_read_from() {
    let mut input = StringInput::new("a\u{feff}b", BytePos(0), BytePos(5));
    input.bump();
    let mut l = Lexer::new(input);
    assert_eq!(l.next(), Some(tok(para("\u{feff}b"), 1, 5)));
}

#[test]
fn block_quote_marker() {
    assert_eq!(
        all_tokens("> abc"),
        vec![tok(Token::BlockQuoteStart, 0, 1), tok(para(" abc"), 1, 5)]
    );
}

#[test]
fn second_block_quote_marker_stays_in_the_paragraph() {
    assert_eq!(
        all_tokens("> abc\n> def"),
        vec![tok(Token::BlockQuoteStart, 0, 1), tok(para(" abc\n> def"), 1, 11)]
    );
}

#[test]
fn atx_heading() {
    assert_eq!(
        all_tokens("# Hello\n"),
        vec![tok(Token::ATXHeading { level: 1, content: "Hello".to_string() }, 0, 8)]
    );
}

#[test]
fn atx_heading_closing_sequence_is_removed() {
    assert_eq!(
        all_tokens("## Foo #"),
        vec![tok(Token::ATXHeading { level: 2, content: "Foo ".to_string() }, 0, 8)]
    );
    assert_eq!(
        all_tokens("# foo #"),
        vec![tok(Token::ATXHeading { level: 1, content: "foo ".to_string() }, 0, 7)]
    );
    assert_eq!(
        all_tokens("# a ##\n"),
        vec![tok(Token::ATXHeading { level: 1, content: "a ".to_string() }, 0, 7)]
    );
}

#[test]
fn atx_closing_sequence_of_seven_stays() {
    assert_eq!(
        all_tokens("# a #######"),
        vec![tok(Token::ATXHeading { level: 1, content: "a #######".to_string() }, 0, 11)]
    );
}

#[test]
fn fenced_code_block_with_info() {
    assert_eq!(
        all_tokens("```rust\nlet x;\n```\n"),
        vec![tok(
            Token::FencedCodeBlock { info: "rust".to_string(), content: "let x;".to_string() },
            0,
            19
        )]
    );
}

#[test]
fn fenced_code_block_without_closing_fence() {
    assert_eq!(
        all_tokens("~~~ sh \nls\nmore"),
        vec![tok(
            Token::FencedCodeBlock { info: "sh".to_string(), content: "ls".to_string() },
            0,
            15
        )]
    );
}

#[test]
fn setext_heading_repeats_at_the_end_of_the_text() {
    let mut l = lexer("Foo\n---");
    let first = l.next();
    assert_eq!(
        first,
        Some(tok(Token::SetextHeading { level: 2, content: "Foo\n---".to_string() }, 0, 7))
    );
    let second = l.next();
    assert_eq!(
        second,
        Some(tok(Token::SetextHeading { level: 2, content: "Foo\n---".to_string() }, 7, 7))
    );
}

#[test]
fn indented_code_chunk() {
    let mut l = lexer("    code");
    assert_eq!(l.next(), Some(tok(Token::IndentedCodeBlock("code".to_string()), 0, 8)));
}

#[test]
fn link_reference_definition_falls_back_to_a_paragraph() {
    assert_eq!(all_tokens("[foo]: /url"), vec![tok(para("[foo]: /url"), 0, 11)]);
}

#[test]
fn carriage_return_line_feed_is_one_line_ending() {
    assert_eq!(all_tokens("a\r\nb"), vec![tok(para("a\rb"), 0, 4)]);
}

#[test]
fn null_character_is_replaced() {
    assert_eq!(all_tokens("a\0b"), vec![tok(para("a\u{fffd}b"), 0, 3)]);
}

#[test]
fn byte_order_mark_is_skipped() {
    assert_eq!(all_tokens("\u{feff}abc"), vec![tok(para("abc"), 0, 6)]);
}

#[test]
fn spans_are_byte_positions_from_the_start() {
    let mut l = lexer_at("ab", 10);
    assert_eq!(l.next(), Some(tok(para("ab"), 10, 12)));
    assert_eq!(l.next(), None);
}

#[test]
fn multibyte_characters_count_in_bytes() {
    assert_eq!(all_tokens("é"), vec![tok(para("é"), 0, 2)]);
}

#[test]
fn html_block_of_the_sixth_kind() {
    let mut l = lexer("<div>\n\n");
    l.set_input_state(State::HTMLBlock);
    assert_eq!(l.next(), Some(tok(Token::HTMLBlock("<d>".to_string()), 0, 6)));
    assert_eq!(l.next(), None);
}

#[test]
fn html_block_at_the_end_of_the_text() {
    let mut l = lexer("<div>");
    l.set_input_state(State::HTMLBlock);
    assert_eq!(l.next(), Some(tok(Token::HTMLBlock("<d>".to_string()), 0, 5)));
    assert_eq!(l.next(), None);
}

#[test]
fn html_comment() {
    let mut l = lexer("<!-- x -->");
    l.set_input_state(State::HTMLBlock);
    assert_eq!(l.next(), Some(tok(Token::HTMLBlock("<!-".to_string()), 0, 10)));
    assert_eq!(l.next(), None);
}

#[test]
fn positions_of_the_input() {
    let mut l = lexer_at("ab", 4);
    assert_eq!(l.start_pos(), BytePos(4));
    assert_eq!(l.last_pos(), BytePos(4));
    assert_eq!(l.next(), Some(tok(para("ab"), 4, 6)));
    assert_eq!(l.start_pos(), BytePos(6));
}

#[test]
fn lexer_has_no_errors() {
    let mut l = lexer("abc");
    let _ = l.next();
    assert!(l.take_errors().is_empty());
}

#[test]
fn bounded_lexing_hands_out_the_tokens() {
    let mut l = lexer("abc");
    assert_eq!(l.next_within(100), Some(Some(tok(para("abc"), 0, 3))));
    assert_eq!(l.next_within(100), Some(None));
    assert_eq!(l.next_within(0), Some(None));
}

#[test]
fn bounded_lexing_without_fuel_reaches_nothing() {
    let mut l = lexer("abc");
    assert_eq!(l.next_within(0), None);
    assert_eq!(l.next_within(2), None);
}

#[test]
fn bounded_lexing_goes_on_where_it_stopped() {
    let mut l = lexer("abc");
    assert_eq!(l.next_within(2), None);
    assert_eq!(l.next_within(2), Some(Some(tok(para("abc"), 0, 3))));
    assert_eq!(l.next_within(1), Some(None));
}

#[test]
fn bounded_lexing_keeps_the_lexer_before_a_failing_step() {
    let mut l = lexer("```\n");
    assert_eq!(l.next_within(1000), None);
    assert_eq!(l.next_within(1000), None);
    assert!(!l.is_finished());
}

#[test]
fn bounded_lexing_stops_where_a_step_fails() {
    assert_eq!(lexer("```\n").next_within(1000), None);
    assert_eq!(lexer("~~~\n").next_within(1000), None);
}

#[test]
fn bounded_lexing_stops_where_no_token_comes() {
    assert_eq!(lexer("    ").next_within(1000), None);
}

#[test]
fn atx_heading_of_the_second_level() {
    assert_eq!(
        all_tokens("## Foo\n"),
        vec![tok(Token::ATXHeading { level: 2, content: "Foo".to_string() }, 0, 7)]
    );
}

#[test]
fn setext_underline_of_equals_signs() {
    let mut l = lexer("Foo\n==");
    assert_eq!(
        l.next(),
        Some(tok(Token::SetextHeading { level: 2, content: "Foo\n==".to_string() }, 0, 6))
    );
}

#[test]
fn fenced_code_block_of_one_line() {
    assert_eq!(
        all_tokens("```  sh \nls\n```"),
        vec![tok(
            Token::FencedCodeBlock { info: "sh".to_string(), content: "ls".to_string() },
            0,
            15
        )]
    );
}

#[test]
fn carriage_return_line_feeds_make_a_blank_line() {
    assert_eq!(
        all_tokens("a\r\n\r\nb"),
        vec![tok(para("a\r"), 0, 5), tok(Token::BlankLine, 5, 5), tok(para("b"), 5, 6)]
    );
}

#[test]
fn setext_underline_before_a_carriage_return_line_feed() {
    let mut l = lexer("Foo\r\n==\r\n");
    assert_eq!(
        l.next(),
        Some(tok(Token::SetextHeading { level: 2, content: "Foo\r==".to_string() }, 0, 9))
    );
}

#[test]
fn fenced_code_block_with_carriage_return_line_feeds() {
    assert_eq!(
        all_tokens("```sh\r\nls\r\n```\r\n"),
        vec![tok(
            Token::FencedCodeBlock { info: "sh".to_string(), content: "ls".to_string() },
            0,
            16
        )]
    );
}

#[test]
fn spans_follow_the_text_in_order() {
    let src = "> a\n\n***\n\n# b\n```x\ny\n```\nFoo\n==";
    let end = src.len() as u32;
    let mut l = lexer(src);
    let mut last_hi = 0u32;
    let mut count = 0;
    while let Some(Some(t)) = l.next_within(10_000) {
        assert!(last_hi <= t.span.lo.0, "{:?}", t);
        assert!(t.span.lo.0 <= t.span.hi.0);
        assert!(t.span.hi.0 <= end);
        last_hi = t.span.hi.0;
        count += 1;
        if count > 8 {
            break;
        }
    }
    assert!(count >= 5);
}

fn variants(src: &str) -> Vec<std::mem::Discriminant<Token>> {
    let mut l = lexer(src);
    let mut out = Vec::new();
    while let Some(Some(t)) = l.next_within(10_000) {
        out.push(std::mem::discriminant(&t.token));
        if out.len() > 12 {
            break;
        }
    }
    out
}

#[test]
fn carriage_return_line_feeds_keep_the_block_structure() {
    let texts = [
        "a\n\nb",
        "Foo\n==\n",
        "```sh\nls\n```\n",
        "# a #\nb",
        "***\nx",
        "> a\n> b",
        "a\n\n\n\nb\n",
        "- - -\n\n* * *\n",
    ];
    for text in texts {
        let crlf = text.replace('\n', "\r\n");
        assert_eq!(variants(text), variants(&crlf), "{:?}", text);
    }
}
