//! Diagnostics that the lexer and the parser report. Markdown renders what it
//! does not understand as literal text, so most of them are warnings.
use vstd::prelude::*;
use crate::span::Span;

verus! {

/// What a diagnostic reports.
#[derive(Debug, Clone, PartialEq, Eq)]
#[non_exhaustive]
pub enum DiagnosticKind {
    /// Unexpected end of file (only when truly unexpected, not for unclosed
    /// constructs)
    Eof,
    /// Malformed character reference that will be rendered as literal text
    MalformedCharacterReference,
    /// Unknown named character reference that will be rendered as literal text
    UnknownNamedCharacterReference,
    /// Missing semicolon after character reference (rendered as literal text)
    MissingSemicolonAfterCharacterReference,
    /// Character reference value outside valid Unicode range (replaced with
    /// U+FFFD)
    CharacterReferenceOutsideUnicodeRange,
    /// Invalid numeric character reference format (rendered as literal text)
    InvalidNumericCharacterReference,
    /// Character reference resolves to null character (replaced with U+FFFD)
    NullCharacterReference,
    /// Character reference resolves to surrogate character (replaced with
    /// U+FFFD)
    SurrogateCharacterReference,
    /// Character reference resolves to control character (handled gracefully)
    ControlCharacterReference,
    /// Character reference resolves to noncharacter (handled gracefully)
    NoncharacterCharacterReference,
    /// Unexpected null character in input (replaced with U+FFFD)
    UnexpectedNullCharacter,
    /// Invalid backslash escape sequence (rendered as literal text)
    InvalidEscapeSequence,
    /// Numeric character reference without any digits (rendered as literal
    /// text)
    AbsenceOfDigitsInNumericCharacterReference,
    /// Unclosed fenced code block (rendered as literal text)
    UnclosedFencedCodeBlock,
    /// Unclosed HTML block (rendered as literal text)
    UnclosedHtmlBlock,
    /// Inconsistent list marker within the same list context (treated as
    /// separate list)
    InconsistentListMarker,
    /// Duplicate link reference definition with same label (first definition
    /// used)
    DuplicateLinkDefinition(String),
    /// Unclosed emphasis delimiter (rendered as literal text)
    UnclosedEmphasisDelimiter,
    /// Reference to undefined link label (rendered as literal text)
    UnresolvedLinkReference(String),
    /// Malformed autolink (rendered as literal text)
    MalformedAutolink,
    /// Malformed link destination (rendered as literal text)
    MalformedLinkDestination,
    /// Malformed link title (rendered as literal text)
    MalformedLinkTitle,
    /// Nesting depth exceeds implementation limits (further nesting ignored)
    MaxNestingDepthExceeded,
    /// Invalid Unicode escape sequence (rendered as literal text)
    InvalidUnicodeEscape,
}

/// The text that describes a diagnostic of kind `k`.
pub open spec fn message_text(k: DiagnosticKind) -> Seq<char> {
    match k {
        DiagnosticKind::Eof => "Unexpected end of file"@,
        DiagnosticKind::MalformedCharacterReference =>
            "Malformed character reference (rendered as literal text)"@,
        DiagnosticKind::UnknownNamedCharacterReference =>
            "Unknown named character reference (rendered as literal text)"@,
        DiagnosticKind::MissingSemicolonAfterCharacterReference =>
            "Missing semicolon after character reference (rendered as literal text)"@,
        DiagnosticKind::CharacterReferenceOutsideUnicodeRange =>
            "Character reference outside Unicode range (rendered as replacement character)"@,
        DiagnosticKind::InvalidNumericCharacterReference =>
            "Invalid numeric character reference (rendered as literal text)"@,
        DiagnosticKind::NullCharacterReference =>
            "Null character reference (replaced with U+FFFD)"@,
        DiagnosticKind::SurrogateCharacterReference =>
            "Surrogate character reference (replaced with U+FFFD)"@,
        DiagnosticKind::ControlCharacterReference =>
            "Control character reference (handled gracefully)"@,
        DiagnosticKind::NoncharacterCharacterReference =>
            "Noncharacter character reference (handled gracefully)"@,
        DiagnosticKind::UnexpectedNullCharacter =>
            "Unexpected null character (replaced with U+FFFD)"@,
        DiagnosticKind::InvalidEscapeSequence =>
            "Invalid escape sequence (rendered as literal text)"@,
        DiagnosticKind::UnclosedFencedCodeBlock =>
            "Unclosed fenced code block (rendered as literal text)"@,
        DiagnosticKind::UnclosedHtmlBlock => "Unclosed HTML block (rendered as literal text)"@,
        DiagnosticKind::InconsistentListMarker =>
            "Inconsistent list marker (treated as separate list)"@,
        DiagnosticKind::DuplicateLinkDefinition(label) => "Duplicate link reference definition '"@
            + label@ + "' (first definition used)"@,
        DiagnosticKind::UnresolvedLinkReference(label) => "Unresolved link reference '"@ + label@
            + "' (rendered as literal text)"@,
        DiagnosticKind::MalformedAutolink => "Malformed autolink (rendered as literal text)"@,
        DiagnosticKind::UnclosedEmphasisDelimiter =>
            "Unclosed emphasis delimiter (rendered as literal text)"@,
        DiagnosticKind::MalformedLinkDestination =>
            "Malformed link destination (rendered as literal text)"@,
        DiagnosticKind::MalformedLinkTitle => "Malformed link title (rendered as literal text)"@,
        DiagnosticKind::MaxNestingDepthExceeded =>
            "Maximum nesting depth exceeded (further nesting ignored)"@,
        DiagnosticKind::InvalidUnicodeEscape =>
            "Invalid Unicode escape sequence (rendered as literal text)"@,
        DiagnosticKind::AbsenceOfDigitsInNumericCharacterReference =>
            "Numeric character reference without digits (rendered as literal text)"@,
    }
}


/// The length and the first and third characters of each message; the
/// messages of the link kinds begin with a fixed text.
proof fn lemma_message_signature(k: DiagnosticKind)
    ensures
        ({
            let t = message_text(k);
            match k {
                DiagnosticKind::Eof => t.len() == 22 && t[0] == 'U' && t[2] == 'e',
                DiagnosticKind::MalformedCharacterReference => t.len() == 56 && t[0] == 'M' && t[2] == 'l',
                DiagnosticKind::UnknownNamedCharacterReference => t.len() == 60 && t[0] == 'U' && t[2] == 'k',
                DiagnosticKind::MissingSemicolonAfterCharacterReference => t.len() == 70 && t[0] == 'M' && t[2] == 's',
                DiagnosticKind::CharacterReferenceOutsideUnicodeRange => t.len() == 77 && t[0] == 'C' && t[2] == 'a',
                DiagnosticKind::InvalidNumericCharacterReference => t.len() == 62 && t[0] == 'I' && t[2] == 'v',
                DiagnosticKind::NullCharacterReference => t.len() == 47 && t[0] == 'N' && t[2] == 'l',
                DiagnosticKind::SurrogateCharacterReference => t.len() == 52 && t[0] == 'S' && t[2] == 'r',
                DiagnosticKind::ControlCharacterReference => t.len() == 48 && t[0] == 'C' && t[2] == 'n',
                DiagnosticKind::NoncharacterCharacterReference => t.len() == 53 && t[0] == 'N' && t[2] == 'n',
                DiagnosticKind::UnexpectedNullCharacter => t.len() == 48 && t[0] == 'U' && t[2] == 'e',
                DiagnosticKind::InvalidEscapeSequence => t.len() == 50 && t[0] == 'I' && t[2] == 'v',
                DiagnosticKind::UnclosedFencedCodeBlock => t.len() == 53 && t[0] == 'U' && t[2] == 'c',
                DiagnosticKind::UnclosedHtmlBlock => t.len() == 46 && t[0] == 'U' && t[2] == 'c',
                DiagnosticKind::InconsistentListMarker => t.len() == 51 && t[0] == 'I' && t[2] == 'c',
                DiagnosticKind::DuplicateLinkDefinition(label) => t[0] == 'D' && t[2] == 'p',
                DiagnosticKind::UnresolvedLinkReference(label) => t[0] == 'U' && t[2] == 'r',
                DiagnosticKind::MalformedAutolink => t.len() == 45 && t[0] == 'M' && t[2] == 'l',
                DiagnosticKind::UnclosedEmphasisDelimiter => t.len() == 54 && t[0] == 'U' && t[2] == 'c',
                DiagnosticKind::MalformedLinkDestination => t.len() == 53 && t[0] == 'M' && t[2] == 'l',
                DiagnosticKind::MalformedLinkTitle => t.len() == 47 && t[0] == 'M' && t[2] == 'l',
                DiagnosticKind::MaxNestingDepthExceeded => t.len() == 56 && t[0] == 'M' && t[2] == 'x',
                DiagnosticKind::InvalidUnicodeEscape => t.len() == 58 && t[0] == 'I' && t[2] == 'v',
                DiagnosticKind::AbsenceOfDigitsInNumericCharacterReference => t.len() == 69 && t[0] == 'N' && t[2] == 'm',
            }
        }),
{
    match k {
        DiagnosticKind::Eof => {
            reveal_strlit("Unexpected end of file");
        },
        DiagnosticKind::MalformedCharacterReference => {
            reveal_strlit("Malformed character reference (rendered as literal text)");
        },
        DiagnosticKind::UnknownNamedCharacterReference => {
            reveal_strlit("Unknown named character reference (rendered as literal text)");
        },
        DiagnosticKind::MissingSemicolonAfterCharacterReference => {
            reveal_strlit("Missing semicolon after character reference (rendered as literal text)");
        },
        DiagnosticKind::CharacterReferenceOutsideUnicodeRange => {
            reveal_strlit("Character reference outside Unicode range (rendered as replacement character)");
        },
        DiagnosticKind::InvalidNumericCharacterReference => {
            reveal_strlit("Invalid numeric character reference (rendered as literal text)");
        },
        DiagnosticKind::NullCharacterReference => {
            reveal_strlit("Null character reference (replaced with U+FFFD)");
        },
        DiagnosticKind::SurrogateCharacterReference => {
            reveal_strlit("Surrogate character reference (replaced with U+FFFD)");
        },
        DiagnosticKind::ControlCharacterReference => {
            reveal_strlit("Control character reference (handled gracefully)");
        },
        DiagnosticKind::NoncharacterCharacterReference => {
            reveal_strlit("Noncharacter character reference (handled gracefully)");
        },
        DiagnosticKind::UnexpectedNullCharacter => {
            reveal_strlit("Unexpected null character (replaced with U+FFFD)");
        },
        DiagnosticKind::InvalidEscapeSequence => {
            reveal_strlit("Invalid escape sequence (rendered as literal text)");
        },
        DiagnosticKind::UnclosedFencedCodeBlock => {
            reveal_strlit("Unclosed fenced code block (rendered as literal text)");
        },
        DiagnosticKind::UnclosedHtmlBlock => {
            reveal_strlit("Unclosed HTML block (rendered as literal text)");
        },
        DiagnosticKind::InconsistentListMarker => {
            reveal_strlit("Inconsistent list marker (treated as separate list)");
        },
        DiagnosticKind::DuplicateLinkDefinition(label) => {
            reveal_strlit("Duplicate link reference definition '");
            assert(("Duplicate link reference definition '"@ + label@ + "' (first definition used)"@)[0] == "Duplicate link reference definition '"@[0]);
            assert(("Duplicate link reference definition '"@ + label@ + "' (first definition used)"@)[2] == "Duplicate link reference definition '"@[2]);
        },
        DiagnosticKind::UnresolvedLinkReference(label) => {
            reveal_strlit("Unresolved link reference '");
            assert(("Unresolved link reference '"@ + label@ + "' (rendered as literal text)"@)[0] == "Unresolved link reference '"@[0]);
            assert(("Unresolved link reference '"@ + label@ + "' (rendered as literal text)"@)[2] == "Unresolved link reference '"@[2]);
        },
        DiagnosticKind::MalformedAutolink => {
            reveal_strlit("Malformed autolink (rendered as literal text)");
        },
        DiagnosticKind::UnclosedEmphasisDelimiter => {
            reveal_strlit("Unclosed emphasis delimiter (rendered as literal text)");
        },
        DiagnosticKind::MalformedLinkDestination => {
            reveal_strlit("Malformed link destination (rendered as literal text)");
        },
        DiagnosticKind::MalformedLinkTitle => {
            reveal_strlit("Malformed link title (rendered as literal text)");
        },
        DiagnosticKind::MaxNestingDepthExceeded => {
            reveal_strlit("Maximum nesting depth exceeded (further nesting ignored)");
        },
        DiagnosticKind::InvalidUnicodeEscape => {
            reveal_strlit("Invalid Unicode escape sequence (rendered as literal text)");
        },
        DiagnosticKind::AbsenceOfDigitsInNumericCharacterReference => {
            reveal_strlit("Numeric character reference without digits (rendered as literal text)");
        },
    }
}

/// Two kinds are the same: the same variant, with labels of the same text.
pub open spec fn same_kind(k1: DiagnosticKind, k2: DiagnosticKind) -> bool {
    match (k1, k2) {
        (DiagnosticKind::DuplicateLinkDefinition(a), DiagnosticKind::DuplicateLinkDefinition(b)) =>
            a@ == b@,
        (DiagnosticKind::UnresolvedLinkReference(a), DiagnosticKind::UnresolvedLinkReference(b)) =>
            a@ == b@,
        _ => k1 == k2,
    }
}

proof fn lemma_labelled_text(p: Seq<char>, a: Seq<char>, b: Seq<char>, x: Seq<char>)
    requires
        p + a + x == p + b + x,
    ensures
        a == b,
{
    let t = p + a + x;
    assert(t.len() == p.len() + a.len() + x.len());
    assert((p + b + x).len() == p.len() + b.len() + x.len());
    assert(a.len() == b.len());
    assert(a =~= t.subrange(p.len() as int, (p.len() + a.len()) as int));
    assert(b =~= (p + b + x).subrange(p.len() as int, (p.len() + b.len()) as int));
}

/// Different kinds, or the same link kind with labels of different text,
/// have different messages.
pub proof fn lemma_message_text_injective(k1: DiagnosticKind, k2: DiagnosticKind)
    requires
        message_text(k1) == message_text(k2),
    ensures
        same_kind(k1, k2),
{
    lemma_message_signature(k1);
    lemma_message_signature(k2);
    let t = message_text(k1);
    assert(t.len() == message_text(k2).len());
    assert(t[0] == message_text(k2)[0]);
    assert(t[2] == message_text(k2)[2]);
    match (k1, k2) {
        (DiagnosticKind::DuplicateLinkDefinition(a), DiagnosticKind::DuplicateLinkDefinition(b)) => {
            lemma_labelled_text(
                "Duplicate link reference definition '"@,
                a@,
                b@,
                "' (first definition used)"@,
            );
        },
        (DiagnosticKind::UnresolvedLinkReference(a), DiagnosticKind::UnresolvedLinkReference(b)) => {
            lemma_labelled_text(
                "Unresolved link reference '"@,
                a@,
                b@,
                "' (rendered as literal text)"@,
            );
        },
        _ => {
        },
    }
}

/// Whether a diagnostic of kind `k` is reported at error level; the others
/// are warnings.
pub open spec fn is_error_kind(k: DiagnosticKind) -> bool {
    k is Eof || k is MaxNestingDepthExceeded
}

/// A diagnostic message for Markdown parsing: a kind, and the span of source
/// text that it is about.
#[derive(Debug, Clone, PartialEq, Eq)]
pub struct Diagnostic {
    inner: Box<(Span, DiagnosticKind)>,
}

impl View for Diagnostic {
    type V = (Span, DiagnosticKind);

    /// The span that the diagnostic is about, and its kind.
    closed spec fn view(&self) -> (Span, DiagnosticKind) {
        (self.inner.0, self.inner.1)
    }
}

/// A diagnostic is its span and its kind: two diagnostics with the same
/// span and kind are equal.
pub proof fn lemma_diagnostic_view_determines(d1: Diagnostic, d2: Diagnostic)
    requires
        d1@ == d2@,
    ensures
        d1 == d2,
{
}

impl Diagnostic {
    /// The span that the diagnostic is about.
    pub open spec fn span_of(&self) -> Span {
        self@.0
    }

    /// The kind of the diagnostic.
    pub open spec fn kind_of(&self) -> DiagnosticKind {
        self@.1
    }

    pub fn kind(&self) -> (r: &DiagnosticKind)
        ensures
            *r == self.kind_of(),
    {
        &self.inner.1
    }

    pub fn into_inner(self) -> (r: Box<(Span, DiagnosticKind)>)
        ensures
            r.0 == self.span_of(),
            r.1 == self.kind_of(),
    {
        self.inner
    }

    pub fn new(span: Span, kind: DiagnosticKind) -> (r: Diagnostic)
        ensures
            r@ == (span, kind),
    {
        Diagnostic { inner: Box::new((span, kind)) }
    }

    /// The text that describes the diagnostic.
    pub fn message(&self) -> (r: String)
        ensures
            r@ == message_text(self.kind_of()),
    {
        match &self.inner.1 {
            DiagnosticKind::Eof => String::from_str("Unexpected end of file"),
            DiagnosticKind::MalformedCharacterReference => String::from_str(
                "Malformed character reference (rendered as literal text)",
            ),
            DiagnosticKind::UnknownNamedCharacterReference => String::from_str(
                "Unknown named character reference (rendered as literal text)",
            ),
            DiagnosticKind::MissingSemicolonAfterCharacterReference => String::from_str(
                "Missing semicolon after character reference (rendered as literal text)",
            ),
            DiagnosticKind::CharacterReferenceOutsideUnicodeRange => String::from_str(
                "Character reference outside Unicode range (rendered as replacement character)",
            ),
            DiagnosticKind::InvalidNumericCharacterReference => String::from_str(
                "Invalid numeric character reference (rendered as literal text)",
            ),
            DiagnosticKind::NullCharacterReference => String::from_str(
                "Null character reference (replaced with U+FFFD)",
            ),
            DiagnosticKind::SurrogateCharacterReference => String::from_str(
                "Surrogate character reference (replaced with U+FFFD)",
            ),
            DiagnosticKind::ControlCharacterReference => String::from_str(
                "Control character reference (handled gracefully)",
            ),
            DiagnosticKind::NoncharacterCharacterReference => String::from_str(
                "Noncharacter character reference (handled gracefully)",
            ),
            DiagnosticKind::UnexpectedNullCharacter => String::from_str(
                "Unexpected null character (replaced with U+FFFD)",
            ),
            DiagnosticKind::InvalidEscapeSequence => String::from_str(
                "Invalid escape sequence (rendered as literal text)",
            ),
            DiagnosticKind::UnclosedFencedCodeBlock => String::from_str(
                "Unclosed fenced code block (rendered as literal text)",
            ),
            DiagnosticKind::UnclosedHtmlBlock => String::from_str(
                "Unclosed HTML block (rendered as literal text)",
            ),
            DiagnosticKind::InconsistentListMarker => String::from_str(
                "Inconsistent list marker (treated as separate list)",
            ),
            DiagnosticKind::DuplicateLinkDefinition(label) => {
                let mut s = String::from_str("Duplicate link reference definition '");
                s.append(label.as_str());
                s.append("' (first definition used)");
                s
            },
            DiagnosticKind::UnresolvedLinkReference(label) => {
                let mut s = String::from_str("Unresolved link reference '");
                s.append(label.as_str());
                s.append("' (rendered as literal text)");
                s
            },
            DiagnosticKind::MalformedAutolink => String::from_str(
                "Malformed autolink (rendered as literal text)",
            ),
            DiagnosticKind::UnclosedEmphasisDelimiter => String::from_str(
                "Unclosed emphasis delimiter (rendered as literal text)",
            ),
            DiagnosticKind::MalformedLinkDestination => String::from_str(
                "Malformed link destination (rendered as literal text)",
            ),
            DiagnosticKind::MalformedLinkTitle => String::from_str(
                "Malformed link title (rendered as literal text)",
            ),
            DiagnosticKind::MaxNestingDepthExceeded => String::from_str(
                "Maximum nesting depth exceeded (further nesting ignored)",
            ),
            DiagnosticKind::InvalidUnicodeEscape => String::from_str(
                "Invalid Unicode escape sequence (rendered as literal text)",
            ),
            DiagnosticKind::AbsenceOfDigitsInNumericCharacterReference => String::from_str(
                "Numeric character reference without digits (rendered as literal text)",
            ),
        }
    }

    /// Whether the diagnostic is reported at error level rather than as a
    /// warning: only an unexpected end of file and too deep nesting are.
    pub fn is_error(&self) -> (r: bool)
        ensures
            r == is_error_kind(self.kind_of()),
    {
        match &self.inner.1 {
            DiagnosticKind::Eof => true,
            DiagnosticKind::MaxNestingDepthExceeded => true,
            _ => false,
        }
    }
}

/// The name that the parser reports its errors under.
pub type Error = Diagnostic;

/// The name that the parser reports the kinds of its errors under.
pub type ErrorKind = DiagnosticKind;

} // verus!
