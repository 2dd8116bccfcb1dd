use swc_markdown_parser::diagnostic::{Diagnostic, DiagnosticKind};
use swc_markdown_parser::span::{BytePos, Span};

fn span() -> Span {
    Span::new(BytePos(3), BytePos(7))
}

#[test]
fn new_keeps_span_and_kind() {
    let d = Diagnostic::new(span(), DiagnosticKind::MalformedAutolink);
    assert_eq!(d.kind(), &DiagnosticKind::MalformedAutolink);
    let inner = d.into_inner();
    assert_eq!(inner.0, span());
    assert_eq!(inner.1, DiagnosticKind::MalformedAutolink);
}

#[test]
fn messages() {
    let m = |k: DiagnosticKind| Diagnostic::new(span(), k).message();
    assert_eq!(m(DiagnosticKind::Eof), "Unexpected end of file");
    assert_eq!(
        m(DiagnosticKind::NullCharacterReference),
        "Null character reference (replaced with U+FFFD)"
    );
    assert_eq!(
        m(DiagnosticKind::DuplicateLinkDefinition("foo".to_string())),
        "Duplicate link reference definition 'foo' (first definition used)"
    );
    assert_eq!(
        m(DiagnosticKind::UnresolvedLinkReference("bar".to_string())),
        "Unresolved link reference 'bar' (rendered as literal text)"
    );
    assert_eq!(
        m(DiagnosticKind::MaxNestingDepthExceeded),
        "Maximum nesting depth exceeded (further nesting ignored)"
    );
    assert_eq!(
        m(DiagnosticKind::AbsenceOfDigitsInNumericCharacterReference),
        "Numeric character reference without digits (rendered as literal text)"
    );
}

#[test]
fn only_end_of_file_and_nesting_are_errors() {
    let e = |k: DiagnosticKind| Diagnostic::new(span(), k).is_error();
    assert!(e(DiagnosticKind::Eof));
    assert!(e(DiagnosticKind::MaxNestingDepthExceeded));
    assert!(!e(DiagnosticKind::MalformedAutolink));
    assert!(!e(DiagnosticKind::UnclosedFencedCodeBlock));
    assert!(!e(DiagnosticKind::DuplicateLinkDefinition("x".to_string())));
}

#[test]
fn every_message_is_nonempty() {
    let kinds = vec![
        DiagnosticKind::Eof,
        DiagnosticKind::MalformedCharacterReference,
        DiagnosticKind::UnknownNamedCharacterReference,
        DiagnosticKind::MissingSemicolonAfterCharacterReference,
        DiagnosticKind::CharacterReferenceOutsideUnicodeRange,
        DiagnosticKind::InvalidNumericCharacterReference,
        DiagnosticKind::NullCharacterReference,
        DiagnosticKind::SurrogateCharacterReference,
        DiagnosticKind::ControlCharacterReference,
        DiagnosticKind::NoncharacterCharacterReference,
        DiagnosticKind::UnexpectedNullCharacter,
        DiagnosticKind::InvalidEscapeSequence,
        DiagnosticKind::AbsenceOfDigitsInNumericCharacterReference,
        DiagnosticKind::UnclosedFencedCodeBlock,
        DiagnosticKind::UnclosedHtmlBlock,
        DiagnosticKind::InconsistentListMarker,
        DiagnosticKind::DuplicateLinkDefinition(String::new()),
        DiagnosticKind::UnclosedEmphasisDelimiter,
        DiagnosticKind::UnresolvedLinkReference(String::new()),
        DiagnosticKind::MalformedAutolink,
        DiagnosticKind::MalformedLinkDestination,
        DiagnosticKind::MalformedLinkTitle,
        DiagnosticKind::MaxNestingDepthExceeded,
        DiagnosticKind::InvalidUnicodeEscape,
    ];
    for k in kinds {
        assert!(!Diagnostic::new(span(), k).message().is_empty());
    }
}

#[test]
fn diagnostics_from_equal_arguments_are_equal() {
    let a = Diagnostic::new(span(), DiagnosticKind::DuplicateLinkDefinition("x".to_string()));
    let b = Diagnostic::new(span(), DiagnosticKind::DuplicateLinkDefinition("x".to_string()));
    assert_eq!(a, b);
    let c = Diagnostic::new(span(), DiagnosticKind::DuplicateLinkDefinition("y".to_string()));
    assert_ne!(a, c);
}

#[test]
fn different_labels_give_different_messages() {
    let m = |k: DiagnosticKind| Diagnostic::new(span(), k).message();
    assert_ne!(
        m(DiagnosticKind::DuplicateLinkDefinition("a".to_string())),
        m(DiagnosticKind::DuplicateLinkDefinition("b".to_string()))
    );
    assert_ne!(
        m(DiagnosticKind::DuplicateLinkDefinition("a".to_string())),
        m(DiagnosticKind::UnresolvedLinkReference("a".to_string()))
    );
    assert_ne!(m(DiagnosticKind::MalformedLinkTitle), m(DiagnosticKind::MalformedLinkDestination));
}
