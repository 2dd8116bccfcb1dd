use swc_markdown_parser::input::StringInput;
use swc_markdown_parser::lexer::Lexer;
use swc_markdown_parser::parser::{Parser, ParserConfig};
use swc_markdown_parser::span::{BytePos, Span};

#[test]
fn default_config_has_no_extensions() {
    let c = ParserConfig::default();
    assert!(!c.gfm);
    assert!(!c.mdx);
}

#[test]
fn new_parser_has_no_errors() {
    let lexer = Lexer::new(StringInput::new("# a", BytePos(0), BytePos(3)));
    let config = ParserConfig { gfm: true, mdx: false };
    let mut p = Parser::new(lexer, config);
    assert_eq!(p.config(), config);
    assert!(p.take_errors().is_empty());
    assert!(p.take_errors().is_empty());
}

#[test]
fn span_new_orders_its_ends() {
    let a = Span::new(BytePos(9), BytePos(2));
    assert_eq!(a, Span { lo: BytePos(2), hi: BytePos(9) });
    assert_eq!(a, Span::new(BytePos(2), BytePos(9)));
    assert_eq!(a.lo(), BytePos(2));
    assert_eq!(a.hi(), BytePos(9));
}
