//! The lexer as a state machine over the source text: its states, what it
//! holds between steps, and what one step does from each state.
use vstd::prelude::*;
use crate::chars::{
    spec_is_ascii_alpha, spec_is_ascii_digit, spec_is_blank_line, spec_is_control,
    char_utf8_len, spec_is_line_ending, spec_is_spacy, utf8_size,
};
use crate::diagnostic::Diagnostic;
use crate::span::{spec_span_new, BytePos, Span};
use crate::tags::{is_block_tag_name, is_raw_tag_name, lemma_raw_tag_names};
use crate::text::{
    all_eq, ascii_lower_seq, first_lf, has_char, lemma_first_lf, lemma_all_eq_leading_count, lemma_leading_count_bound, join_lines, leading_count, lines, trailing_alpha, trailing_count,
    strip_cr, trim, trim_end,
};
use crate::token::{TokenAndSpanView, TokenView};

verus! {

/// The states of the lexer.
#[derive(Debug, Clone, Copy, PartialEq, Eq, Structural)]
pub enum State {
    Data,
    ThematicBreak,
    ATXHeading,
    SetextHeading,
    IndentedCodeBlock,
    IndentedCodeChunk,
    FencedCodeBlock,
    HTMLBlock,
    HTMLTagName,
    BeforeHTMLBlockType1,
    HTMLBlockType1,
    HTMLDeclarationOpen,
    HTMLComment,
    HTMLProcessingInstruction,
    HTMLDeclaration,
    HTMLCDATASection,
    HTMLBlockType6,
    HTMLOpenTagName,
    HTMLClosingTagName,
    HTMLClosingTag,
    HTMLBlankLine,
    HTMLAttributes,
    AfterHTMLAttributes,
    HTMLAttribute,
    HTMLAttributeName,
    HTMLAttributeValueSpecification,
    HTMLAttributeValue,
    HTMLUnquotedAttribute,
    HTMLSingleQuotedAttribute,
    HTMLDoubleQuotedAttribute,
    LinkLabel,
    AfterLinkLabel,
    LinkDestination,
    BracedLinkDestination,
    UnquotedLinkDestination,
    BalancedParenthesisPairState,
    BeforeLinkTitle,
    DoubleQuotedLinkTitle,
    SingleQuotedLinkTitle,
    ParentheticalLinkTitle,
    AfterLinkTitle,
}

/// Where the scan of a run of characters stops.
#[derive(Debug, Clone, Copy, PartialEq, Eq, Structural)]
pub enum Stop {
    /// At a line feed or carriage return.
    LineEnding,
    /// At a character that is no ASCII letter.
    NonAlpha,
    /// At a greater-than sign.
    GreaterThan,
}

pub open spec fn stops_at(k: Stop, c: char) -> bool {
    match k {
        Stop::LineEnding => spec_is_line_ending(c),
        Stop::NonAlpha => !spec_is_ascii_alpha(c),
        Stop::GreaterThan => c == '>',
    }
}

/// What the lexer holds between two steps.
pub struct LexerView {
    /// The source text.
    pub text: Seq<char>,
    /// The byte position of the first character of the text.
    pub start: u32,
    /// The index of the next input character.
    pub idx: nat,
    /// The current input character: the last one consumed.
    pub cur: Option<char>,
    /// The index of the current input character.
    pub cur_idx: nat,
    /// The index where the next token's span starts.
    pub last_idx: nat,
    pub finished: bool,
    pub state: State,
    pub errors: Seq<Diagnostic>,
    /// Tokens emitted and not yet handed out, the oldest first.
    pub pending: Seq<TokenAndSpanView>,
    /// The temporary buffer.
    pub buf: Seq<char>,
    pub line_ending_count: u32,
}

impl LexerView {
    /// The byte position of the character at index `i`.
    pub open spec fn pos(self, i: nat) -> int {
        self.start + utf8_size(self.text.take(i as int))
    }

    pub open spec fn wf(self) -> bool {
        &&& self.cur_idx <= self.idx <= self.text.len()
        &&& self.last_idx <= self.text.len()
        &&& self.line_ending_count <= 1
        &&& self.start + utf8_size(self.text) <= u32::MAX
        &&& forall|i: int| 0 <= i < self.pending.len() ==> self.covers(#[trigger] self.pending[i].span)
    }

    /// `s` runs forward and lies within the source text.
    pub open spec fn covers(self, s: Span) -> bool {
        self.start <= s.lo.0 <= s.hi.0 <= self.start + utf8_size(self.text)
    }

    /// The next input character, `None` at the end of the text.
    pub open spec fn next_char(self) -> Option<char> {
        if self.idx < self.text.len() {
            Some(self.text[self.idx as int])
        } else {
            None
        }
    }

    /// Consumes the next input character, which becomes the current one.
    pub open spec fn consume(self) -> LexerView {
        LexerView {
            cur: self.next_char(),
            cur_idx: self.idx,
            idx: if self.idx < self.text.len() {
                self.idx + 1
            } else {
                self.idx
            },
            ..self
        }
    }

    /// Goes back to the current input character, so that the next step
    /// consumes it again.
    pub open spec fn reconsume(self) -> LexerView {
        LexerView { idx: self.cur_idx, ..self }
    }

    pub open spec fn reconsume_in(self, s: State) -> LexerView {
        LexerView { state: s, ..self }.reconsume()
    }

    pub open spec fn to_state(self, s: State) -> LexerView {
        LexerView { state: s, ..self }
    }

    pub open spec fn push(self, c: char) -> LexerView {
        LexerView { buf: self.buf.push(c), ..self }
    }

    pub open spec fn set_buf(self, b: Seq<char>) -> LexerView {
        LexerView { buf: b, ..self }
    }

    pub open spec fn clear(self) -> LexerView {
        self.set_buf(Seq::empty())
    }

    pub open spec fn set_line_endings(self, n: u32) -> LexerView {
        LexerView { line_ending_count: n, ..self }
    }

    /// The span from the end of the last token to the next input character.
    pub open spec fn token_span(self) -> Span {
        spec_span_new(self.pos(self.last_idx) as u32, self.pos(self.idx) as u32)
    }

    /// Emits a token whose span runs from the end of the last token to the
    /// next input character.
    pub open spec fn emit(self, t: TokenView) -> LexerView {
        LexerView {
            pending: self.pending.push(TokenAndSpanView { span: self.token_span(), token: t }),
            last_idx: self.idx,
            ..self
        }
    }

    /// After a carriage return, a line feed that follows is skipped.
    pub open spec fn skip_ws(self, c: char) -> LexerView {
        if c == '\r' && self.next_char() == Some('\n') {
            LexerView { idx: self.idx + 1, ..self }
        } else {
            self
        }
    }

    /// On a line ending inside a construct that may hold one line ending:
    /// the second one goes back to the data state.
    pub open spec fn count_line_ending(self) -> LexerView {
        if self.line_ending_count == 1 {
            self.reconsume_in(State::Data).set_line_endings(0)
        } else {
            self.set_line_endings((self.line_ending_count + 1) as u32)
        }
    }
}

/// Consumes characters up to the first one at which `k` stops, which is
/// consumed and not kept, or to the end; the others go to the end of `s`.
pub open spec fn scan_exclusive(m: LexerView, s: Seq<char>, k: Stop) -> (LexerView, Seq<char>)
    decreases m.text.len() - m.idx,
{
    let m1 = m.consume();
    match m.next_char() {
        None => (m1, s),
        Some(c) => if stops_at(k, c) {
            (m1, s)
        } else {
            scan_exclusive(m1, s.push(c), k)
        },
    }
}

/// Consumes characters up to and including the first one at which `k`
/// stops, or to the end; all of them go to the end of `s`.
pub open spec fn scan_inclusive(m: LexerView, s: Seq<char>, k: Stop) -> (LexerView, Seq<char>)
    decreases m.text.len() - m.idx,
{
    let m1 = m.consume();
    match m.next_char() {
        None => (m1, s),
        Some(c) => if stops_at(k, c) {
            (m1, s.push(c))
        } else {
            scan_inclusive(m1, s.push(c), k)
        },
    }
}

pub open spec fn three_spaces() -> Seq<char> {
    seq![' ', ' ', ' ']
}

/// `s` without its first `n` characters; empty when it is shorter.
pub open spec fn skip_chars(s: Seq<char>, n: nat) -> Seq<char> {
    if n <= s.len() {
        s.skip(n as int)
    } else {
        Seq::empty()
    }
}

/// The characters that thematic breaks are made of.
pub open spec fn is_break_marker(c: char) -> bool {
    c == '-' || c == '*' || c == '_'
}

/// The number of copies of `c` in `s`.
pub open spec fn count_char(s: Seq<char>, c: char) -> nat
    decreases s.len(),
{
    if s.len() == 0 {
        0
    } else {
        count_char(s.drop_last(), c) + if s.last() == c {
            1nat
        } else {
            0nat
        }
    }
}

/// `b` can begin a thematic break line made of `c`: at most three spaces,
/// then `c` first and nothing but `c`, spaces and tabs.
pub open spec fn starts_break(b: Seq<char>, c: char) -> bool {
    let n = leading_count(b, ' ');
    let rest = b.skip(n as int);
    n <= 3 && (rest.len() == 0 || rest[0] == c) && forall|i: int|
        0 <= i < rest.len() ==> (#[trigger] rest[i] == c || rest[i] == ' ' || rest[i] == '\t')
}

/// A thematic break line: at most three spaces, then three or more copies
/// of one of `-`, `*` and `_`, with nothing but spaces and tabs among them.
pub open spec fn is_break_line(b: Seq<char>) -> bool {
    let n = leading_count(b, ' ');
    let rest = b.skip(n as int);
    &&& n <= 3
    &&& rest.len() > 0
    &&& is_break_marker(rest[0])
    &&& forall|i: int|
        0 <= i < rest.len() ==> (#[trigger] rest[i] == rest[0] || rest[i] == ' ' || rest[i] == '\t')
    &&& count_char(rest, rest[0]) >= 3
}

/// The data state.
pub open spec fn step_data(m: LexerView) -> LexerView {
    let m1 = m.consume();
    let b = m.buf;
    match m.next_char() {
        Some(c) => if c == '=' || c == '-' {
            m1.to_state(
                if b.len() == 0 || (c == '-' && starts_break(b, c)) {
                    State::ThematicBreak
                } else {
                    State::SetextHeading
                },
            ).push(c)
        } else if c == '*' || c == '_' {
            if starts_break(b, c) {
                m1.to_state(State::ThematicBreak).push(c)
            } else {
                m1.push(c)
            }
        } else if c == ' ' {
            let n = leading_count(b, ' ');
            let rest = b.skip(n as int);
            if b == three_spaces() {
                m1.to_state(State::IndentedCodeChunk).clear()
            } else if n <= 3 && rest.len() > 0 && all_eq(rest, '#') {
                m1.to_state(State::ATXHeading).set_buf(rest)
            } else {
                m1.push(c)
            }
        } else if c == '\t' {
            let n = leading_count(b, ' ');
            if b.len() == 0 {
                m1.to_state(State::IndentedCodeBlock).clear()
            } else if 1 <= n <= 3 {
                if all_eq(b, '#') {
                    m1.to_state(State::ATXHeading)
                } else {
                    m1
                }
            } else {
                m1.push(c)
            }
        } else if c == '`' || c == '~' {
            if utf8_size(b) == 2 && all_eq(b, c) {
                m1.to_state(State::FencedCodeBlock).push(c)
            } else {
                m1.push(c)
            }
        } else if c == '[' {
            if utf8_size(b) <= 3 && leading_count(b, ' ') <= 3 {
                m1.to_state(State::LinkLabel).set_line_endings(0).clear().push(c)
            } else {
                m1.push(c)
            }
        } else if c == '>' {
            if utf8_size(b) <= 3 && all_eq(b, ' ') {
                m1.emit(TokenView::BlockQuoteStart)
            } else {
                m1.push(c)
            }
        } else if spec_is_line_ending(c) {
            let m2 = m1.skip_ws(c);
            if b.len() > 0 && spec_is_line_ending(b.last()) {
                m2.emit(TokenView::Paragraph(b)).emit(TokenView::BlankLine).clear()
            } else if b.len() > 0 {
                m2.push(c)
            } else {
                LexerView { last_idx: m2.idx, ..m2 }
            }
        } else if c == '\0' {
            m1.push('\u{fffd}')
        } else {
            m1.push(c)
        },
        None => {
            let m2 = if b.len() > 0 {
                m1.emit(TokenView::Paragraph(b)).clear()
            } else {
                m1
            };
            m2.emit(TokenView::Eof)
        },
    }
}

pub open spec fn step_thematic_break(m: LexerView) -> LexerView {
    let m1 = m.consume();
    match m.next_char() {
        Some(c) => if c == '\n' || c == '\r' {
            end_of_break_line(m1)
        } else if c == ' ' || c == '\t' || has_char(m.buf, c) {
            m1.push(c)
        } else {
            m1.reconsume_in(State::Data)
        },
        None => end_of_break_line(m1),
    }
}

/// At the end of a line read in the thematic break state: a thematic break
/// when the buffer is a thematic break line, otherwise the line stays in the
/// buffer and the data state reads the line ending again.
pub open spec fn end_of_break_line(m1: LexerView) -> LexerView {
    if is_break_line(m1.buf) {
        m1.reconsume_in(State::Data).emit(TokenView::ThematicBreak).clear()
    } else {
        m1.reconsume_in(State::Data)
    }
}

/// The ATX heading line: the buffer followed by the rest of the line, and
/// where reading it left the lexer.
pub open spec fn atx_line(m: LexerView) -> (LexerView, Seq<char>) {
    scan_exclusive(m, m.buf, Stop::LineEnding)
}

/// The heading line without its closing sequence, when it ends with one to
/// six number signs.
pub open spec fn atx_text(s: Seq<char>) -> Seq<char> {
    let closing = trailing_count(s, '#');
    if 1 <= closing <= 6 {
        s.take(s.len() - closing)
    } else {
        s
    }
}

pub open spec fn step_atx_heading(m: LexerView) -> LexerView {
    let (m1, s) = atx_line(m);
    let s2 = atx_text(s);
    let level = leading_count(s2.take(if s2.len() < 6 {
        s2.len() as int
    } else {
        6
    }), '#');
    let content = s2.skip(leading_count(s2, '#') as int);
    m1.emit(TokenView::ATXHeading { level: level as u8, content }).to_state(State::Data).clear()
}

pub open spec fn step_setext_heading(m: LexerView) -> LexerView {
    let m1 = m.consume();
    match m.next_char() {
        Some(c) => if spec_is_line_ending(c) {
            m1.skip_ws(c).emit(
                TokenView::SetextHeading {
                    level: if m.buf[0] == '=' {
                        1
                    } else {
                        2
                    },
                    content: m.buf,
                },
            )
        } else if spec_is_spacy(c) {
            m1.to_state(State::ThematicBreak)
        } else {
            m1.reconsume_in(State::Data)
        },
        None => m1.emit(
            TokenView::SetextHeading {
                level: if m.buf[0] == '=' {
                    1
                } else {
                    2
                },
                content: m.buf,
            },
        ),
    }
}

pub open spec fn setext_ok(m: LexerView) -> bool {
    (m.next_char() is None || spec_is_line_ending(m.next_char().unwrap())) ==> m.buf.len() > 0
}

pub open spec fn step_indented_code_block(m: LexerView) -> LexerView {
    let m1 = m.consume();
    let b = m.buf;
    match m.next_char() {
        Some(c) if c == ' ' => if b == three_spaces() {
            m1.to_state(State::IndentedCodeChunk).clear()
        } else {
            m1.push(c)
        },
        Some(c) if c == '\t' => if b.len() == 0 {
            m1.to_state(State::IndentedCodeChunk)
        } else {
            m1
        },
        _ => {
            let m2 = if b.len() > 0 {
                m1.emit(TokenView::IndentedCodeBlock(b)).clear()
            } else {
                m1
            };
            m2.reconsume_in(State::Data)
        },
    }
}

pub open spec fn step_indented_code_chunk(m: LexerView) -> LexerView {
    let m1 = m.consume();
    let b = m.buf;
    match m.next_char() {
        Some(c) => if spec_is_line_ending(c) {
            m1.skip_ws(c).to_state(State::IndentedCodeBlock).push(c)
        } else {
            m1.push(c)
        },
        None => if b.len() > 0 {
            m1.emit(TokenView::IndentedCodeBlock(b)).clear()
        } else {
            m1
        },
    }
}

/// Whether the buffer, at a line ending, closes a fenced code block that
/// was opened by `open_len` copies of `fence`.
pub open spec fn closes_fence(b: Seq<char>, fence: char, open_len: nat) -> bool {
    let ls = lines(b);
    ls.len() > 0 && leading_count(trim_end(ls.last()), ' ') <= 3 && trailing_count(b, fence)
        == open_len
}

/// Consumes the body of a fenced code block into the buffer, up to the line
/// ending that closes it (then `true`) or to the end of the text. Each line
/// ending goes into the buffer as a line feed, a carriage return and line
/// feed as one.
pub open spec fn fence_scan(m: LexerView, fence: char, open_len: nat) -> (LexerView, bool)
    decreases m.text.len() - m.idx,
{
    let m1 = m.consume();
    match m.next_char() {
        None => (m1, false),
        Some(c) => if spec_is_line_ending(c) {
            let m2 = m1.skip_ws(c);
            if closes_fence(m2.buf, fence, open_len) {
                (m2, true)
            } else {
                fence_scan(m2.push('\n'), fence, open_len)
            }
        } else {
            fence_scan(m1.push(c), fence, open_len)
        },
    }
}

pub open spec fn fence_char(m: LexerView) -> char {
    m.buf[0]
}

pub open spec fn fence_len(m: LexerView) -> nat {
    leading_count(m.buf, fence_char(m))
}

pub open spec fn fence_result(m: LexerView) -> (LexerView, bool) {
    fence_scan(m, fence_char(m), fence_len(m))
}

/// The step from the fenced code block state does not fail: the buffer
/// holds a character, and at least two lines once the body is read.
pub open spec fn fenced_ok(m: LexerView) -> bool {
    m.buf.len() > 0 && lines(fence_result(m).0.buf).len() >= 2
}

pub open spec fn step_fenced_code_block(m: LexerView) -> LexerView {
    let (m1, closed) = fence_result(m);
    let ls = lines(m1.buf);
    let info = trim(skip_chars(ls[0], fence_len(m)));
    let content = join_lines(ls.subrange(1, ls.len() - 1));
    let m2 = m1.emit(TokenView::FencedCodeBlock { info, content });
    let m3 = if closed {
        m2.to_state(State::Data)
    } else {
        m2.reconsume_in(State::Data)
    };
    m3.clear()
}

pub open spec fn step_html_block(m: LexerView) -> LexerView {
    let m1 = m.consume();
    let b = m.buf;
    match m.next_char() {
        Some(c) => if c == '!' {
            m1.to_state(State::HTMLDeclarationOpen).push(c)
        } else if c == '?' {
            if b == seq!['<'] {
                m1.to_state(State::HTMLProcessingInstruction).push(c)
            } else {
                m1.push(c)
            }
        } else if spec_is_ascii_alpha(c) {
            if b.len() > 0 && b[0] == '<' {
                m1.reconsume_in(State::HTMLTagName).push(c)
            } else {
                m1.push(c)
            }
        } else if c == '/' {
            if b == seq!['<'] {
                m1.to_state(State::HTMLTagName).push(c)
            } else {
                m1.push(c)
            }
        } else {
            m1.push(c)
        },
        None => m1.reconsume_in(State::Data),
    }
}

/// The tag name read in the tag name state, and where reading it left the
/// lexer.
pub open spec fn tag_name_scan(m: LexerView) -> (LexerView, Seq<char>) {
    let (m1, s) = scan_exclusive(m, Seq::empty(), Stop::NonAlpha);
    if m1.cur is Some {
        (m1.reconsume(), s)
    } else {
        (m1, s)
    }
}

pub open spec fn starts_closing(b: Seq<char>) -> bool {
    b.len() >= 2 && b[0] == '<' && b[1] == '/'
}

pub open spec fn step_html_tag_name(m: LexerView) -> LexerView {
    let (m1, s) = tag_name_scan(m);
    let t = ascii_lower_seq(s);
    if is_raw_tag_name(t) {
        if starts_closing(m1.buf) {
            m1.to_state(State::HTMLClosingTagName)
        } else {
            m1.to_state(State::BeforeHTMLBlockType1)
        }
    } else if is_block_tag_name(t) {
        m1.to_state(State::HTMLBlockType6)
    } else if starts_closing(m1.buf) {
        m1.to_state(State::HTMLClosingTagName)
    } else {
        m1.to_state(State::HTMLOpenTagName)
    }
}

pub open spec fn step_before_html_block_type1(m: LexerView) -> LexerView {
    let m1 = m.consume();
    match m.next_char() {
        Some(c) => if c == ' ' || c == '\t' || spec_is_line_ending(c) {
            m1.skip_ws(c).to_state(State::HTMLBlockType1).push(c)
        } else {
            m1.reconsume_in(State::HTMLBlock)
        },
        None => m1.emit(TokenView::HTMLBlock(m.buf)).clear().reconsume_in(State::Data),
    }
}

/// The letters just before the final `>` of `s`.
pub open spec fn tag_before_gt(s: Seq<char>) -> Seq<char> {
    trailing_alpha(s.drop_last())
}

/// Whether the line read in the HTML block of the first kind ends with an
/// end tag of the block's kind: `</`, the tag name in any case, and `>`.
pub open spec fn ends_raw_block(s: Seq<char>) -> bool {
    s.len() > 0 && s.last() == '>' && {
        let t = tag_before_gt(s);
        let k = s.len() - 1 - t.len();
        is_raw_tag_name(ascii_lower_seq(t)) && k >= 2 && s[k - 2] == '<' && s[k - 1] == '/'
    }
}

pub open spec fn step_html_block_type1(m: LexerView) -> LexerView {
    let (m1, s) = scan_inclusive(m, Seq::empty(), Stop::GreaterThan);
    let m2 = m1.emit(TokenView::HTMLBlock(m.buf));
    if ends_raw_block(s) {
        m2.to_state(State::Data).clear()
    } else {
        m2.reconsume_in(State::Data).clear()
    }
}

pub open spec fn step_html_declaration_open(m: LexerView) -> LexerView {
    let m1 = m.consume();
    let b = m.buf;
    match m.next_char() {
        Some(c) => if c == '-' {
            if b == seq!['<', '!'] {
                m1.to_state(State::HTMLComment).push(c)
            } else {
                m1.push(c)
            }
        } else if spec_is_ascii_alpha(c) {
            if b == seq!['<', '!'] {
                m1.to_state(State::HTMLDeclaration).push(c)
            } else {
                m1.push(c)
            }
        } else if c == '[' {
            if b == seq!['<', '!', '[', 'C', 'D', 'A', 'T', 'A'] {
                m1.to_state(State::HTMLCDATASection).push(c)
            } else {
                m1.push(c)
            }
        } else {
            m1.reconsume_in(State::Data)
        },
        None => m1.reconsume_in(State::Data),
    }
}

pub open spec fn step_html_declaration(m: LexerView) -> LexerView {
    let (m1, s) = scan_inclusive(m, m.buf, Stop::GreaterThan);
    let m2 = m1.set_buf(s).emit(TokenView::HTMLBlock(s));
    if s.len() > 0 && s.last() == '>' {
        m2.to_state(State::Data)
    } else {
        m2.reconsume_in(State::Data)
    }
}

pub open spec fn ends_with(s: Seq<char>, t: Seq<char>) -> bool {
    t.len() <= s.len() && s.skip(s.len() - t.len()) == t
}

/// The states that read to a `>` and check how the text read ends: HTML
/// comments, processing instructions and CDATA sections.
pub open spec fn step_html_closed_by(m: LexerView, min_len: nat, end: Seq<char>) -> LexerView {
    let (m1, s) = scan_inclusive(m, Seq::empty(), Stop::GreaterThan);
    let m2 = m1.emit(TokenView::HTMLBlock(m.buf));
    let m3 = if utf8_size(s) >= min_len && ends_with(s, end) {
        m2.to_state(State::Data)
    } else {
        m2.reconsume_in(State::Data)
    };
    m3.clear()
}

pub open spec fn step_html_comment(m: LexerView) -> LexerView {
    step_html_closed_by(m, 4, seq!['-', '-', '>'])
}

pub open spec fn step_html_processing_instruction(m: LexerView) -> LexerView {
    step_html_closed_by(m, 2, seq!['?', '>'])
}

pub open spec fn step_html_cdata_section(m: LexerView) -> LexerView {
    step_html_closed_by(m, 9, seq![']', ']', '>'])
}

pub open spec fn step_html_block_type6(m: LexerView) -> LexerView {
    let m1 = m.consume();
    match m.next_char() {
        Some(c) => if c == ' ' || c == '\t' || spec_is_line_ending(c) || c == '>' {
            m1.skip_ws(c).to_state(State::HTMLBlankLine).push(c)
        } else if c == '/' {
            m1.push(c)
        } else {
            m1.reconsume_in(State::HTMLBlock)
        },
        None => m1.emit(TokenView::HTMLBlock(m.buf)).reconsume_in(State::Data).clear(),
    }
}

pub open spec fn is_tag_name_char(c: char) -> bool {
    spec_is_ascii_alpha(c) || spec_is_ascii_digit(c) || c == '-'
}

pub open spec fn step_html_open_tag_name(m: LexerView) -> LexerView {
    let m1 = m.consume();
    match m.next_char() {
        Some(c) => if is_tag_name_char(c) {
            m1.push(c)
        } else if spec_is_spacy(c) {
            m1.skip_ws(c).reconsume_in(State::HTMLAttributes)
        } else {
            m1.reconsume_in(State::Data)
        },
        None => m1.reconsume_in(State::Data),
    }
}

pub open spec fn step_html_closing_tag_name(m: LexerView) -> LexerView {
    let m1 = m.consume();
    match m.next_char() {
        Some(c) => if is_tag_name_char(c) {
            m1.push(c)
        } else if spec_is_spacy(c) {
            m1.reconsume_in(State::HTMLClosingTag)
        } else {
            m1.reconsume_in(State::Data)
        },
        None => m1.reconsume_in(State::Data),
    }
}

pub open spec fn step_html_closing_tag(m: LexerView) -> LexerView {
    let m1 = m.consume();
    let b = m.buf;
    match m.next_char() {
        Some(c) => if spec_is_spacy(c) {
            m1.skip_ws(c).to_state(State::HTMLBlankLine).push(c)
        } else if c == '>' {
            if b.len() == 0 || b[0] == '/' {
                m1.to_state(State::HTMLBlankLine).push(c)
            } else {
                m1.to_state(State::HTMLClosingTag).push(c)
            }
        } else if c == '/' {
            m1.push(c)
        } else {
            m1.reconsume_in(State::HTMLBlock)
        },
        None => m1.emit(TokenView::HTMLBlock(b)).reconsume_in(State::Data).clear(),
    }
}

pub open spec fn step_html_blank_line(m: LexerView) -> LexerView {
    let (m1, s) = scan_inclusive(m, Seq::empty(), Stop::LineEnding);
    let ls = lines(s);
    if ls.len() > 0 && spec_is_blank_line(strip_cr(ls.last())) {
        m1.skip_ws(s.last()).emit(TokenView::HTMLBlock(m.buf)).to_state(State::Data).clear()
    } else {
        m1.emit(TokenView::HTMLBlock(m.buf)).reconsume_in(State::Data).clear()
    }
}

pub open spec fn is_attribute_start(c: char) -> bool {
    spec_is_ascii_alpha(c) || c == '_' || c == ':'
}

pub open spec fn step_html_attributes(m: LexerView) -> LexerView {
    let m1 = m.consume();
    match m.next_char() {
        Some(c) => if spec_is_spacy(c) || is_attribute_start(c) {
            m1.reconsume_in(State::HTMLAttribute).set_line_endings(0)
        } else if c == '/' || c == '>' {
            m1.reconsume_in(State::HTMLAttributes)
        } else {
            m1.reconsume_in(State::Data)
        },
        None => m1.reconsume_in(State::Data),
    }
}

pub open spec fn step_after_html_attributes(m: LexerView) -> LexerView {
    let m1 = m.consume();
    match m.next_char() {
        Some(c) => if c == ' ' || c == '\t' || c == '/' {
            m1.push(c)
        } else if spec_is_line_ending(c) {
            m1.skip_ws(c).count_line_ending().push(c)
        } else if c == '>' {
            m1.reconsume_in(State::HTMLBlankLine)
        } else {
            m1.reconsume_in(State::Data)
        },
        None => m1.reconsume_in(State::Data),
    }
}

pub open spec fn step_html_attribute(m: LexerView) -> LexerView {
    let m1 = m.consume();
    match m.next_char() {
        Some(c) => if c == ' ' || c == '\t' {
            m1
        } else if spec_is_line_ending(c) {
            m1.skip_ws(c).count_line_ending().push(c)
        } else if is_attribute_start(c) {
            m1.reconsume_in(State::HTMLAttributeName)
        } else {
            m1.reconsume_in(State::Data)
        },
        None => m1.reconsume_in(State::Data),
    }
}

pub open spec fn ends_attribute_name(b: Seq<char>) -> bool {
    b.len() > 0 && (spec_is_ascii_alpha(b.last()) || b.last() == ':' || b.last() == '.'
        || b.last() == '-')
}

pub open spec fn step_html_attribute_name(m: LexerView) -> LexerView {
    let m1 = m.consume();
    let b = m.buf;
    match m.next_char() {
        Some(c) => if is_attribute_start(c) {
            m1.push(c)
        } else if c == '.' || c == '-' {
            if b.len() == 0 {
                m1.reconsume_in(State::Data)
            } else {
                m1.push(c)
            }
        } else if ends_attribute_name(b) {
            m1.reconsume_in(State::HTMLAttributeValueSpecification).set_line_endings(0)
        } else {
            m1.reconsume_in(State::Data)
        },
        None => m1.reconsume_in(State::Data),
    }
}

pub open spec fn step_html_attribute_value_specification(m: LexerView) -> LexerView {
    let m1 = m.consume();
    match m.next_char() {
        Some(c) => if c == ' ' || c == '\t' {
            m1.push(c)
        } else if spec_is_line_ending(c) {
            m1.skip_ws(c).count_line_ending().push(c)
        } else if c == '=' {
            m1.to_state(State::HTMLAttributeValue).set_line_endings(0).push(c)
        } else {
            m1.reconsume_in(State::Data)
        },
        None => m1.reconsume_in(State::Data),
    }
}

pub open spec fn step_html_attribute_value(m: LexerView) -> LexerView {
    let m1 = m.consume();
    match m.next_char() {
        Some(c) => if c == '\'' {
            m1.to_state(State::HTMLSingleQuotedAttribute).push(c)
        } else if c == '"' {
            m1.to_state(State::HTMLDoubleQuotedAttribute).push(c)
        } else {
            m1.reconsume_in(State::HTMLUnquotedAttribute)
        },
        None => m1.reconsume_in(State::Data),
    }
}

pub open spec fn ends_unquoted_value(c: char) -> bool {
    c == '\'' || c == '"' || c == '=' || c == '<' || c == '>' || c == '`'
}

pub open spec fn step_html_unquoted_attribute(m: LexerView) -> LexerView {
    let m1 = m.consume();
    match m.next_char() {
        Some(c) => if spec_is_spacy(c) {
            m1.skip_ws(c).reconsume_in(State::HTMLAttributes)
        } else if ends_unquoted_value(c) {
            m1.reconsume_in(State::Data)
        } else {
            m1.push(c)
        },
        None => m1.reconsume_in(State::Data),
    }
}

pub open spec fn step_html_single_quoted_attribute(m: LexerView) -> LexerView {
    let m1 = m.consume();
    match m.next_char() {
        Some(c) => if c == '\'' {
            m1.to_state(State::HTMLAttributes).push(c)
        } else {
            m1.push(c)
        },
        None => m1.reconsume_in(State::Data),
    }
}

pub open spec fn step_html_double_quoted_attribute(m: LexerView) -> LexerView {
    let m1 = m.consume();
    match m.next_char() {
        Some(c) => if c == '"' {
            m1.to_state(State::HTMLAttributes).push(c)
        } else {
            m1.reconsume_in(State::Data)
        },
        None => m1.reconsume_in(State::Data),
    }
}

/// A link label holds at most this many bytes.
pub open spec fn max_label_bytes() -> nat {
    999
}

pub open spec fn step_link_label(m: LexerView) -> LexerView {
    let m1 = m.consume();
    match m.next_char() {
        Some(c) => if spec_is_spacy(c) {
            m1.skip_ws(c).reconsume_in(State::Data)
        } else if c == ']' {
            m1.to_state(State::AfterLinkLabel).push(c)
        } else if utf8_size(m.buf) == max_label_bytes() {
            m1.reconsume_in(State::Data)
        } else {
            m1.push(c)
        },
        None => m1.reconsume_in(State::Data),
    }
}

/// The index of the first `]` in `s`.
pub open spec fn first_close_bracket(s: Seq<char>) -> nat
    decreases s.len(),
{
    if s.len() == 0 || s[0] == ']' {
        0
    } else {
        1 + first_close_bracket(s.drop_first())
    }
}

pub open spec fn step_after_link_label(m: LexerView) -> LexerView {
    let m1 = m.consume();
    let b = m.buf;
    match m.next_char() {
        Some(c) => if c == ':' {
            m1.push(c)
        } else if c == ' ' || c == '\t' {
            if b[first_close_bracket(b) as int] == ':' {
                m1.push(c)
            } else {
                m1.reconsume_in(State::Data)
            }
        } else if spec_is_line_ending(c) {
            m1.skip_ws(c).count_line_ending().push(c)
        } else if b.len() > 0 && b[0] == ':' {
            m1.to_state(State::LinkDestination)
        } else {
            m1
        },
        None => m1.reconsume_in(State::Data),
    }
}

/// The step after a link label does not fail: before a space or a tab, the
/// buffer holds a `]`.
pub open spec fn after_link_label_ok(m: LexerView) -> bool {
    (m.next_char() == Some(' ') || m.next_char() == Some('\t')) ==> has_char(m.buf, ']')
}

pub open spec fn step_link_destination(m: LexerView) -> LexerView {
    let m1 = m.consume();
    match m.next_char() {
        Some(c) => if c == '<' {
            if m.buf.len() == 0 {
                m1.to_state(State::BracedLinkDestination).push(c)
            } else {
                m1.push(c)
            }
        } else {
            m1.reconsume_in(State::Data)
        },
        None => m1.reconsume_in(State::Data),
    }
}

pub open spec fn step_braced_link_destination(m: LexerView) -> LexerView {
    let m1 = m.consume();
    match m.next_char() {
        Some(c) => if c == '>' {
            m1.to_state(State::BeforeLinkTitle).push(c)
        } else if spec_is_line_ending(c) {
            m1.skip_ws(c).reconsume_in(State::Data)
        } else {
            m1.push(c)
        },
        None => m1.reconsume_in(State::Data),
    }
}

pub open spec fn step_unquoted_link_destination(m: LexerView) -> LexerView {
    let m1 = m.consume();
    let b = m.buf;
    match m.next_char() {
        Some(c) => if c == ' ' || spec_is_control(c as u32) {
            m1.reconsume_in(State::BeforeLinkTitle)
        } else if c == '(' {
            if b.len() > 0 && b.last() == '\\' {
                m1.push(c)
            } else {
                m1.reconsume_in(State::BalancedParenthesisPairState)
            }
        } else if spec_is_line_ending(c) {
            m1.skip_ws(c).reconsume_in(State::Data)
        } else {
            m1.push(c)
        },
        None => m1.reconsume_in(State::Data),
    }
}

pub open spec fn step_balanced_parenthesis_pair(m: LexerView) -> LexerView {
    let m1 = m.consume();
    match m.next_char() {
        Some(c) => if c == ')' {
            m1.reconsume_in(State::UnquotedLinkDestination)
        } else if spec_is_line_ending(c) {
            m1.skip_ws(c).reconsume_in(State::Data)
        } else {
            m1.push(c)
        },
        None => m1.reconsume_in(State::Data),
    }
}

pub open spec fn step_before_link_title(m: LexerView) -> LexerView {
    let m1 = m.consume();
    match m.next_char() {
        Some(c) => if c == ' ' || c == '\t' {
            m1.push(c)
        } else if spec_is_line_ending(c) {
            m1.skip_ws(c).count_line_ending().push(c)
        } else if c == '"' {
            m1.reconsume_in(State::DoubleQuotedLinkTitle)
        } else if c == '\'' {
            m1.reconsume_in(State::SingleQuotedLinkTitle)
        } else if c == '(' {
            m1.reconsume_in(State::ParentheticalLinkTitle)
        } else {
            m1.reconsume_in(State::Data)
        },
        None => m1.reconsume_in(State::Data),
    }
}

/// The buffer ends with `q` that no backslash escapes.
pub open spec fn ends_with_unescaped(b: Seq<char>, q: char) -> bool {
    b.len() > 0 && b.last() == q && !(b.len() >= 2 && b[b.len() - 2] == '\\')
}

/// The link title states: `close` ends the title; the buffer ending with an
/// unescaped `open` ends it too, in the data state.
pub open spec fn step_link_title(m: LexerView, close: char, open: char) -> LexerView {
    let m1 = m.consume();
    match m.next_char() {
        Some(c) => if c == close {
            m1.to_state(State::AfterLinkTitle).push(c)
        } else if ends_with_unescaped(m.buf, open) {
            m1.reconsume_in(State::Data)
        } else {
            m1.push(c)
        },
        None => m1.reconsume_in(State::Data),
    }
}

pub open spec fn step_after_link_title(m: LexerView) -> LexerView {
    let m1 = m.consume();
    match m.next_char() {
        Some(c) => if spec_is_line_ending(c) {
            m1.skip_ws(c)
        } else {
            m1.reconsume_in(State::Data)
        },
        None => m1.reconsume_in(State::Data),
    }
}

/// One step of the lexer.
#[verifier::opaque]
pub open spec fn step(m: LexerView) -> LexerView {
    match m.state {
        State::Data => step_data(m),
        State::ThematicBreak => step_thematic_break(m),
        State::ATXHeading => step_atx_heading(m),
        State::SetextHeading => step_setext_heading(m),
        State::IndentedCodeBlock => step_indented_code_block(m),
        State::IndentedCodeChunk => step_indented_code_chunk(m),
        State::FencedCodeBlock => step_fenced_code_block(m),
        State::HTMLBlock => step_html_block(m),
        State::HTMLTagName => step_html_tag_name(m),
        State::BeforeHTMLBlockType1 => step_before_html_block_type1(m),
        State::HTMLBlockType1 => step_html_block_type1(m),
        State::HTMLDeclarationOpen => step_html_declaration_open(m),
        State::HTMLComment => step_html_comment(m),
        State::HTMLProcessingInstruction => step_html_processing_instruction(m),
        State::HTMLDeclaration => step_html_declaration(m),
        State::HTMLCDATASection => step_html_cdata_section(m),
        State::HTMLBlockType6 => step_html_block_type6(m),
        State::HTMLOpenTagName => step_html_open_tag_name(m),
        State::HTMLClosingTagName => step_html_closing_tag_name(m),
        State::HTMLClosingTag => step_html_closing_tag(m),
        State::HTMLBlankLine => step_html_blank_line(m),
        State::HTMLAttributes => step_html_attributes(m),
        State::AfterHTMLAttributes => step_after_html_attributes(m),
        State::HTMLAttribute => step_html_attribute(m),
        State::HTMLAttributeName => step_html_attribute_name(m),
        State::HTMLAttributeValueSpecification => step_html_attribute_value_specification(m),
        State::HTMLAttributeValue => step_html_attribute_value(m),
        State::HTMLUnquotedAttribute => step_html_unquoted_attribute(m),
        State::HTMLSingleQuotedAttribute => step_html_single_quoted_attribute(m),
        State::HTMLDoubleQuotedAttribute => step_html_double_quoted_attribute(m),
        State::LinkLabel => step_link_label(m),
        State::AfterLinkLabel => step_after_link_label(m),
        State::LinkDestination => step_link_destination(m),
        State::BracedLinkDestination => step_braced_link_destination(m),
        State::UnquotedLinkDestination => step_unquoted_link_destination(m),
        State::BalancedParenthesisPairState => step_balanced_parenthesis_pair(m),
        State::BeforeLinkTitle => step_before_link_title(m),
        State::DoubleQuotedLinkTitle => step_link_title(m, '"', '"'),
        State::SingleQuotedLinkTitle => step_link_title(m, '\'', '\''),
        State::ParentheticalLinkTitle => step_link_title(m, ')', '\''),
        State::AfterLinkTitle => step_after_link_title(m),
    }
}

/// The step from `m` does not fail.
pub open spec fn step_ok(m: LexerView) -> bool {
    match m.state {
        State::SetextHeading => setext_ok(m),
        State::FencedCodeBlock => fenced_ok(m),
        State::AfterLinkLabel => after_link_label_ok(m),
        _ => true,
    }
}

} // verus!

verus! {

/// Runs steps from `m` until a token is pending, for at most `fuel` steps
/// that do not fail; `None` when that is not enough.
pub open spec fn drain(m: LexerView, fuel: nat) -> Option<LexerView>
    decreases fuel,
{
    if m.pending.len() > 0 {
        Some(m)
    } else if fuel == 0 || !step_ok(m) {
        None
    } else {
        drain(step(m), (fuel - 1) as nat)
    }
}

/// Where the steps from `m` stop when at most `fuel` of them are taken: at
/// a pending token, at a step that would fail, or when the fuel runs out.
pub open spec fn steps_within(m: LexerView, fuel: nat) -> LexerView
    decreases fuel,
{
    if m.pending.len() > 0 || fuel == 0 || !step_ok(m) {
        m
    } else {
        steps_within(step(m), (fuel - 1) as nat)
    }
}

/// Going on from where `f1` steps stopped short of a token, with `f2` more,
/// is the same as starting over with `f1 + f2`: the token reached, and
/// where the steps stop otherwise.
pub proof fn lemma_steps_within_resume(m: LexerView, f1: nat, f2: nat)
    requires
        drain(m, f1) is None,
    ensures
        drain(steps_within(m, f1), f2) == drain(m, f1 + f2),
        steps_within(steps_within(m, f1), f2) == steps_within(m, f1 + f2),
    decreases f1,
{
    if f1 > 0 && step_ok(m) {
        lemma_steps_within_resume(step(m), (f1 - 1) as nat, f2);
        assert((f1 - 1) as nat + f2 == (f1 + f2 - 1) as nat);
    }
}

/// From `m`, steps that do not fail lead to a pending token.
pub open spec fn reaches_token(m: LexerView) -> bool {
    exists|f: nat| #[trigger] drain(m, f) is Some
}

/// Where the steps from `m` first leave a token pending.
pub open spec fn drained(m: LexerView) -> LexerView {
    drain(m, choose|f: nat| #[trigger] drain(m, f) is Some).unwrap()
}

pub proof fn lemma_drain_more_fuel(m: LexerView, f1: nat, f2: nat)
    requires
        drain(m, f1) is Some,
        f1 <= f2,
    ensures
        drain(m, f2) == drain(m, f1),
    decreases f1,
{
    if m.pending.len() == 0 {
        lemma_drain_more_fuel(step(m), (f1 - 1) as nat, (f2 - 1) as nat);
    }
}

pub proof fn lemma_drained(m: LexerView, f: nat)
    requires
        drain(m, f) is Some,
    ensures
        drained(m) == drain(m, f).unwrap(),
        drained(m).pending.len() > 0,
{
    let g = choose|g: nat| #[trigger] drain(m, g) is Some;
    if f <= g {
        lemma_drain_more_fuel(m, f, g);
    } else {
        lemma_drain_more_fuel(m, g, f);
    }
    lemma_drain_pending(m, f);
}

pub proof fn lemma_drain_pending(m: LexerView, f: nat)
    requires
        drain(m, f) is Some,
    ensures
        drain(m, f).unwrap().pending.len() > 0,
    decreases f,
{
    if m.pending.len() == 0 {
        lemma_drain_pending(step(m), (f - 1) as nat);
    }
}

/// The state after the next token is handed out: the first pending token
/// leaves, and the lexer is finished once it was the end of file.
pub open spec fn after_next(m: LexerView) -> LexerView {
    let d = drained(m);
    if d.pending[0].token is Eof {
        LexerView { pending: d.pending.drop_first(), finished: true, ..d }
    } else {
        LexerView { pending: d.pending.drop_first(), ..d }
    }
}

/// The token that the next call hands out, if any.
pub open spec fn next_token(m: LexerView) -> Option<TokenAndSpanView> {
    if m.finished {
        None
    } else {
        let t = drained(m).pending[0];
        if t.token is Eof {
            None
        } else {
            Some(t)
        }
    }
}

} // verus!

verus! {

/// `b` is `a` but for the current character, the index of the next input
/// character and the buffer.
pub open spec fn moved_only(b: LexerView, a: LexerView) -> bool {
    b == LexerView { cur: b.cur, cur_idx: b.cur_idx, idx: b.idx, buf: b.buf, ..a }
}

/// What a step leaves as it was: the text, where it starts, the errors and
/// whether the lexer is finished.
pub open spec fn same_frame(a: LexerView, b: LexerView) -> bool {
    a.text == b.text && a.start == b.start && a.errors == b.errors && a.finished == b.finished
}

} // verus!

verus! {

/// Once the lexer has no token to hand out, it is finished, and a finished
/// lexer hands out no token.
pub proof fn lemma_no_token_is_final(m: LexerView)
    requires
        !m.finished,
        reaches_token(m),
        next_token(m) is None,
    ensures
        after_next(m).finished,
        next_token(after_next(m)) is None,
{
}

/// The tokens come out in the order in which they were emitted: handing one
/// out removes the oldest pending token and nothing else.
pub proof fn lemma_tokens_in_order(m: LexerView)
    requires
        !m.finished,
        reaches_token(m),
    ensures
        drained(m).pending.len() > 0,
        after_next(m).pending == drained(m).pending.drop_first(),
        next_token(m) is Some ==> next_token(m) == Some(drained(m).pending[0]),
{
    let f = choose|f: nat| #[trigger] drain(m, f) is Some;
    lemma_drained(m, f);
}

/// An emitted token spans from the end of the last emitted token to the
/// next input character, so a token emitted later, while the lexer has read
/// on without resetting where the next span starts, begins where this one
/// ended.
pub proof fn lemma_emit_chains(m: LexerView, t: TokenView, later: LexerView, t2: TokenView)
    requires
        m.wf(),
        m.last_idx <= m.idx,
        later.text == m.text,
        later.start == m.start,
        later.last_idx == m.emit(t).last_idx,
        m.idx <= later.idx <= m.text.len(),
    ensures
        m.emit(t).pending.last() == (TokenAndSpanView {
            span: Span { lo: BytePos(m.pos(m.last_idx) as u32), hi: BytePos(m.pos(m.idx) as u32) },
            token: t,
        }),
        m.emit(t) == (LexerView {
            pending: m.pending.push(m.emit(t).pending.last()),
            last_idx: m.idx,
            ..m
        }),
        later.emit(t2).pending.last().span.lo == m.emit(t).pending.last().span.hi,
        later.emit(t2).pending.last().span.hi == BytePos(later.pos(later.idx) as u32),
{
    let n = m.text.len() as int;
    crate::input::lemma_utf8_size_take_mono(m.text, m.last_idx as int, m.idx as int);
    crate::input::lemma_utf8_size_take_mono(m.text, m.idx as int, later.idx as int);
    crate::input::lemma_utf8_size_take_mono(m.text, later.idx as int, n);
    assert(m.text.take(n) =~= m.text);
}

/// Where `n` calls of `next` leave the lexer.
pub open spec fn after_calls(m: LexerView, n: nat) -> LexerView
    decreases n,
{
    if n == 0 {
        m
    } else {
        after_next(after_calls(m, (n - 1) as nat))
    }
}

/// Tokens already pending are handed out first in, first out: of the first
/// `n` pending tokens, none the end of file, call `k` hands out token `k`,
/// each once and none dropped.
pub proof fn lemma_pending_first_in_first_out(m: LexerView, n: nat, k: nat)
    requires
        !m.finished,
        k < n <= m.pending.len(),
        forall|i: int| 0 <= i < n ==> !(#[trigger] m.pending[i].token is Eof),
    ensures
        !after_calls(m, k).finished,
        after_calls(m, k).pending == m.pending.skip(k as int),
        reaches_token(after_calls(m, k)),
        next_token(after_calls(m, k)) == Some(m.pending[k as int]),
    decreases k,
{
    if k == 0 {
        assert(m.pending.skip(0) =~= m.pending);
    } else {
        lemma_pending_first_in_first_out(m, n, (k - 1) as nat);
        let x = after_calls(m, (k - 1) as nat);
        assert(drain(x, 0) is Some);
        lemma_drained(x, 0);
        assert(x.pending.drop_first() =~= m.pending.skip(k as int));
    }
    let y = after_calls(m, k);
    assert(drain(y, 0) is Some);
    lemma_drained(y, 0);
}

/// Going back after consuming a character puts the lexer where it was, so
/// that the next consume reads the same character again.
pub proof fn lemma_reconsume_round_trip(m: LexerView)
    ensures
        m.consume().reconsume().idx == m.idx,
        m.consume().reconsume().next_char() == m.next_char(),
        m.consume().reconsume().consume() == m.consume(),
{
}

/// A step that leaves no token pending and a lexer that already holds a
/// pending token: the next token of `m` is that of the step after it.
pub proof fn lemma_drain_step(m: LexerView)
    requires
        m.pending.len() == 0,
        step_ok(m),
        reaches_token(step(m)),
    ensures
        reaches_token(m),
        drained(m) == drained(step(m)),
{
    let f = choose|f: nat| #[trigger] drain(step(m), f) is Some;
    assert(drain(m, f + 1) == drain(step(m), f));
    lemma_drained(m, f + 1);
    lemma_drained(step(m), f);
}

/// In the data state at the end of the text, with no token pending, the
/// lexer emits the end of file (after the buffer as a paragraph when it
/// holds text), so a token is always reached there.
pub proof fn lemma_end_of_text_reaches_token(m: LexerView)
    requires
        m.state == State::Data,
        m.idx >= m.text.len(),
        m.pending.len() == 0,
    ensures
        reaches_token(m),
        drained(m).pending.last().token is Eof,
{
    reveal(step);
    assert(drain(m, 1) == drain(step(m), 0));
    assert(drain(m, 1) is Some);
    lemma_drained(m, 1);
}

} // verus!

verus! {

/// The rest of a thematic break line read in the thematic break state,
/// once its first marker is in the buffer.
proof fn lemma_break_rest(m: LexerView, j: nat)
    requires
        m.wf(),
        m.state == State::ThematicBreak,
        m.pending.len() == 0,
        m.idx <= j <= m.text.len(),
        is_break_line(m.buf + m.text.subrange(m.idx as int, j as int)),
        leading_count(m.buf + m.text.subrange(m.idx as int, j as int), ' ') < m.buf.len(),
        j == m.text.len() || spec_is_line_ending(m.text[j as int]),
    ensures
        reaches_token(m),
        drained(m).pending == seq![
            TokenAndSpanView {
                span: spec_span_new(m.pos(m.last_idx) as u32, m.pos(j) as u32),
                token: TokenView::ThematicBreak,
            },
        ],
    decreases j - m.idx,
{
    let line = m.buf + m.text.subrange(m.idx as int, j as int);
    if m.idx == j {
        assert(line =~= m.buf);
        let m1 = step(m);
        assert(m1 == end_of_break_line(m.consume())) by {
            reveal(step);
        }
        assert(drain(m, 1) == drain(m1, 0));
        lemma_drained(m, 1);
        assert(m1.pending =~= seq![
            TokenAndSpanView {
                span: spec_span_new(m.pos(m.last_idx) as u32, m.pos(j) as u32),
                token: TokenView::ThematicBreak,
            },
        ]);
    } else {
        let n = leading_count(line, ' ');
        let rest = line.skip(n as int);
        let c = m.text[m.idx as int];
        assert(line[m.buf.len() as int] == c);
        assert(rest[m.buf.len() - n] == c);
        assert(rest[0] == m.buf[n as int]);
        assert(c == rest[0] || c == ' ' || c == '\t');
        if c == rest[0] {
            assert(has_char(m.buf, c));
        }
        let m1 = step(m);
        assert(m1 == m.consume().push(c)) by {
            reveal(step);
        }
        assert(m1.buf + m1.text.subrange(m1.idx as int, j as int) =~= line);
        lemma_break_rest(m1, j);
        lemma_drain_step(m);
    }
}

/// The spaces before a thematic break line, read in the data state, then
/// its first marker.
proof fn lemma_break_indent(m: LexerView, j: nat)
    requires
        m.wf(),
        m.state == State::Data,
        m.pending.len() == 0,
        m.idx <= j <= m.text.len(),
        is_break_line(m.buf + m.text.subrange(m.idx as int, j as int)),
        m.buf.len() <= leading_count(m.buf + m.text.subrange(m.idx as int, j as int), ' '),
        j == m.text.len() || spec_is_line_ending(m.text[j as int]),
    ensures
        reaches_token(m),
        drained(m).pending == seq![
            TokenAndSpanView {
                span: spec_span_new(m.pos(m.last_idx) as u32, m.pos(j) as u32),
                token: TokenView::ThematicBreak,
            },
        ],
    decreases j - m.idx,
{
    let line = m.buf + m.text.subrange(m.idx as int, j as int);
    let n = leading_count(line, ' ');
    lemma_leading_count_bound(line, ' ');
    let b = m.buf;
    assert(all_eq(b, ' ')) by {
        assert forall|i: int| 0 <= i < b.len() implies b[i] == ' ' by {
            assert(line.take(n as int)[i] == line[i]);
        }
    }
    lemma_all_eq_leading_count(b, ' ');
    assert(b.skip(b.len() as int) =~= Seq::<char>::empty());
    assert(m.idx < j);
    let c = m.text[m.idx as int];
    assert(line[b.len() as int] == c);
    let m1 = step(m);
    if b.len() < n {
        assert(line.take(n as int)[b.len() as int] == c);
        assert(c == ' ');
        assert(b != three_spaces()) by {
            assert(three_spaces().len() == 3);
        }
        assert(m1 == m.consume().push(c)) by {
            reveal(step);
        }
        assert(m1.buf + m1.text.subrange(m1.idx as int, j as int) =~= line);
        lemma_break_indent(m1, j);
    } else {
        assert(line.skip(n as int)[0] == c);
        assert(starts_break(b, c));
        assert(m1 == m.consume().to_state(State::ThematicBreak).push(c)) by {
            reveal(step);
        }
        assert(m1.buf + m1.text.subrange(m1.idx as int, j as int) =~= line);
        lemma_break_rest(m1, j);
    }
    lemma_drain_step(m);
}

/// A thematic break line (up to three spaces, then three or more of one
/// of `-`, `*` and `_`, with only spaces and tabs among them) that the data
/// state reads with an empty buffer is a thematic break: the next token,
/// spanning from where the next span starts to the end of the line.
pub proof fn lemma_break_line_is_thematic_break(m: LexerView, j: nat)
    requires
        m.wf(),
        m.state == State::Data,
        !m.finished,
        m.buf.len() == 0,
        m.pending.len() == 0,
        m.idx <= j <= m.text.len(),
        is_break_line(m.text.subrange(m.idx as int, j as int)),
        j == m.text.len() || spec_is_line_ending(m.text[j as int]),
    ensures
        reaches_token(m),
        next_token(m) == Some(
            TokenAndSpanView {
                span: spec_span_new(m.pos(m.last_idx) as u32, m.pos(j) as u32),
                token: TokenView::ThematicBreak,
            },
        ),
{
    assert(m.buf + m.text.subrange(m.idx as int, j as int) =~= m.text.subrange(
        m.idx as int,
        j as int,
    ));
    lemma_break_indent(m, j);
}

/// A line of up to three spaces and then three or more hyphens, asterisks
/// or underscores, all the same, with only spaces and tabs among them, read
/// by the data state with an empty buffer, is handed out as a thematic break
/// spanning the line.
pub proof fn lemma_marker_line_is_thematic_break(m: LexerView, n: nat, c: char, j: nat)
    requires
        m.wf(),
        m.state == State::Data,
        !m.finished,
        m.buf.len() == 0,
        m.pending.len() == 0,
        n <= 3,
        m.idx + n < j <= m.text.len(),
        forall|i: int| m.idx <= i < m.idx + n ==> #[trigger] m.text[i] == ' ',
        c == '-' || c == '*' || c == '_',
        m.text[m.idx + n as int] == c,
        forall|i: int|
            m.idx + n <= i < j ==> #[trigger] m.text[i] == c || m.text[i] == ' ' || m.text[i]
                == '\t',
        count_char(m.text.subrange(m.idx + n as int, j as int), c) >= 3,
        j == m.text.len() || m.text[j as int] == '\n' || m.text[j as int] == '\r',
    ensures
        reaches_token(m),
        next_token(m) == Some(
            TokenAndSpanView {
                span: spec_span_new(m.pos(m.last_idx) as u32, m.pos(j) as u32),
                token: TokenView::ThematicBreak,
            },
        ),
{
    let line = m.text.subrange(m.idx as int, j as int);
    lemma_leading_count_exact(line, ' ', n);
    let rest = line.skip(n as int);
    assert(rest =~= m.text.subrange(m.idx + n as int, j as int));
    assert(rest[0] == c);
    assert(is_break_marker(c));
    assert forall|i: int| 0 <= i < rest.len() implies (#[trigger] rest[i] == rest[0] || rest[i] == ' '
        || rest[i] == '\t') by {
        assert(rest[i] == m.text[m.idx + n + i]);
    }
    assert(is_break_line(line));
    lemma_break_line_is_thematic_break(m, j);
}

/// From the thematic break state a step emits a token only at the end of a
/// line, and only a thematic break, when the line read is a thematic break
/// line.
pub proof fn lemma_thematic_break_only_on_break_lines(m: LexerView)
    requires
        m.state == State::ThematicBreak,
    ensures
        step(m).pending.len() != m.pending.len() ==> {
            &&& m.next_char() is None || spec_is_line_ending(m.next_char().unwrap())
            &&& is_break_line(m.buf)
            &&& step(m).pending == m.pending.push(step(m).pending.last())
            &&& step(m).pending.last().token is ThematicBreak
        },
{
    reveal(step);
}

/// Reading up to a line ending that ends a line without another one adds
/// the line to the end of `s`, consumes the line ending, and changes nothing
/// else but the current character.
proof fn lemma_scan_line(m: LexerView, s: Seq<char>, j: nat)
    requires
        m.idx <= j <= m.text.len(),
        forall|i: int| m.idx <= i < j ==> !spec_is_line_ending(#[trigger] m.text[i]),
        j == m.text.len() || spec_is_line_ending(m.text[j as int]),
    ensures
        ({
            let (r, t) = scan_exclusive(m, s, Stop::LineEnding);
            &&& t == s + m.text.subrange(m.idx as int, j as int)
            &&& r == (LexerView {
                cur: r.cur,
                cur_idx: r.cur_idx,
                idx: after_line(m, j),
                ..m
            })
            &&& r.cur_idx <= r.idx
        }),
    decreases j - m.idx,
{
    if m.idx == j {
        assert(s + m.text.subrange(m.idx as int, j as int) =~= s);
    } else {
        let c = m.text[m.idx as int];
        lemma_scan_line(m.consume(), s.push(c), j);
        assert(s.push(c) + m.text.subrange(m.idx + 1int, j as int) =~= s + m.text.subrange(
            m.idx as int,
            j as int,
        ));
    }
}

/// `k` copies of `c` open `u`, and no further one follows.
proof fn lemma_leading_count_exact(u: Seq<char>, c: char, k: nat)
    requires
        k <= u.len(),
        forall|i: int| 0 <= i < k ==> u[i] == c,
        k == u.len() || u[k as int] != c,
    ensures
        leading_count(u, c) == k,
{
    lemma_leading_count_bound(u, c);
    let lc = leading_count(u, c);
    if lc > k {
        assert(u.take(lc as int)[k as int] == c);
    }
}

/// The number signs of an ATX heading line, read in the data state, then
/// the space after them and the rest of the line, which ends with `h`
/// number signs.
#[verifier::rlimit(40)]
proof fn lemma_atx_open(m: LexerView, i0: nat, k: nat, h: nat, j: nat)
    requires
        m.wf(),
        m.state == State::Data,
        m.pending.len() == 0,
        1 <= k <= 6,
        h <= 6,
        i0 + k + 1 + h < j <= m.text.len(),
        m.idx == i0 + m.buf.len(),
        m.buf.len() <= k,
        m.buf == m.text.subrange(i0 as int, m.idx as int),
        forall|i: int| i0 <= i < i0 + k ==> #[trigger] m.text[i] == '#',
        m.text[i0 + k as int] == ' ',
        m.text[i0 + k + 1int] != '#',
        m.text[j - h - 1] != '#',
        forall|i: int| j - h <= i < j ==> #[trigger] m.text[i] == '#',
        forall|i: int| i0 + k < i < j ==> !spec_is_line_ending(#[trigger] m.text[i]),
        j == m.text.len() || spec_is_line_ending(m.text[j as int]),
    ensures
        reaches_token(m),
        drained(m).pending == seq![
            TokenAndSpanView {
                span: spec_span_new(
                    m.pos(m.last_idx) as u32,
                    m.pos(after_line(m, j)) as u32,
                ),
                token: TokenView::ATXHeading {
                    level: k as u8,
                    content: m.text.subrange(i0 + k + 1int, j - h),
                },
            },
        ],
    decreases k - m.buf.len(),
{
    let b = m.buf;
    let c = m.text[m.idx as int];
    let m1 = step(m);
    if b.len() < k {
        assert(c == '#');
        assert(m1 == m.consume().push(c)) by {
            reveal(step);
        }
        assert(m1.buf =~= m.text.subrange(i0 as int, m1.idx as int));
        lemma_atx_open(m1, i0, k, h, j);
    } else {
        assert(c == ' ');
        assert(all_eq(b, '#'));
        lemma_leading_count_exact(b, ' ', 0);
        assert(b.skip(0) =~= b);
        assert(b != three_spaces()) by {
            assert(three_spaces()[0] == ' ');
        }
        assert(m1 == m.consume().to_state(State::ATXHeading).set_buf(b)) by {
            reveal(step);
        }
        let u = m.text.subrange(i0 + k + 1int, j as int);
        let t = m.text.subrange(i0 + k + 1int, j - h);
        lemma_scan_line(m1, b, j);
        let (r, s) = atx_line(m1);
        assert(s == b + u);
        assert(s[s.len() - h - 1] == m.text[j - h - 1]);
        lemma_trailing_count_exact(s, '#', h);
        let s2 = atx_text(s);
        assert(s2 =~= b + t);
        let x: int = if s2.len() < 6 {
            s2.len() as int
        } else {
            6
        };
        lemma_leading_count_exact(s2.take(x), '#', k);
        lemma_leading_count_exact(s2, '#', k);
        assert(s2.skip(k as int) =~= t);
        let m2 = step(m1);
        assert(m2 == step_atx_heading(m1)) by {
            reveal(step);
        }
        assert(drain(m1, 1) == drain(m2, 0));
        assert(m2.pending =~= seq![
            TokenAndSpanView {
                span: spec_span_new(
                    m.pos(m.last_idx) as u32,
                    m.pos(after_line(m, j)) as u32,
                ),
                token: TokenView::ATXHeading { level: k as u8, content: t },
            },
        ]);
        lemma_drained(m1, 1);
    }
    lemma_drain_step(m);
}

/// An ATX heading line (one to six number signs, a space, text that
/// neither begins nor ends with a number sign, and a closing sequence of up
/// to six number signs, which may be empty) that the data state reads with
/// an empty buffer is a heading of as many levels as there are opening
/// number signs, whose content is the text without the closing sequence:
/// the next token, spanning to the line ending after it.
pub proof fn lemma_atx_heading_line(m: LexerView, k: nat, h: nat, j: nat)
    requires
        m.wf(),
        m.state == State::Data,
        !m.finished,
        m.buf.len() == 0,
        m.pending.len() == 0,
        1 <= k <= 6,
        h <= 6,
        m.idx + k + 1 + h < j <= m.text.len(),
        forall|i: int| m.idx <= i < m.idx + k ==> #[trigger] m.text[i] == '#',
        m.text[m.idx + k as int] == ' ',
        m.text[m.idx + k + 1int] != '#',
        m.text[j - h - 1] != '#',
        forall|i: int| j - h <= i < j ==> #[trigger] m.text[i] == '#',
        forall|i: int| m.idx + k < i < j ==> !spec_is_line_ending(#[trigger] m.text[i]),
        j == m.text.len() || spec_is_line_ending(m.text[j as int]),
    ensures
        reaches_token(m),
        next_token(m) == Some(
            TokenAndSpanView {
                span: spec_span_new(
                    m.pos(m.last_idx) as u32,
                    m.pos(after_line(m, j)) as u32,
                ),
                token: TokenView::ATXHeading {
                    level: k as u8,
                    content: m.text.subrange(m.idx + k + 1int, j - h),
                },
            },
        ),
{
    assert(m.buf =~= m.text.subrange(m.idx as int, m.idx as int));
    lemma_atx_open(m, m.idx, k, h, j);
}

/// The index up to which the indented code block state reads after a line
/// ending at index `j`: past the first character of the next line, or to
/// the end of the text.
pub open spec fn after_code_line(m: LexerView, j: nat) -> nat {
    if j + 1 < m.text.len() {
        (j + 2) as nat
    } else {
        (j + 1) as nat
    }
}

/// The rest of an indented code line read in the indented code chunk state.
proof fn lemma_code_chunk_line(m: LexerView, i0: nat, j: nat)
    requires
        m.wf(),
        m.state == State::IndentedCodeChunk,
        m.pending.len() == 0,
        i0 <= m.idx <= j < m.text.len(),
        m.buf == m.text.subrange(i0 as int, m.idx as int),
        forall|i: int| m.idx <= i < j ==> !spec_is_line_ending(#[trigger] m.text[i]),
        m.text[j as int] == '\n',
        j + 1 == m.text.len() || (m.text[j + 1int] != ' ' && m.text[j + 1int] != '\t'),
    ensures
        reaches_token(m),
        drained(m).pending == seq![
            TokenAndSpanView {
                span: spec_span_new(m.pos(m.last_idx) as u32, m.pos(after_code_line(m, j)) as u32),
                token: TokenView::IndentedCodeBlock(m.text.subrange(i0 as int, j + 1int)),
            },
        ],
    decreases j - m.idx,
{
    let c = m.text[m.idx as int];
    let m1 = step(m);
    if m.idx < j {
        assert(m1 == m.consume().push(c)) by {
            reveal(step);
        }
        assert(m1.buf =~= m.text.subrange(i0 as int, m1.idx as int));
        lemma_code_chunk_line(m1, i0, j);
    } else {
        assert(m1 == m.consume().to_state(State::IndentedCodeBlock).push('\n')) by {
            reveal(step);
        }
        assert(m1.buf =~= m.text.subrange(i0 as int, j + 1int));
        let m2 = step(m1);
        assert(m1.buf != three_spaces()) by {
            assert(m1.buf.last() == '\n');
        }
        assert(m2 == step_indented_code_block(m1)) by {
            reveal(step);
        }
        assert(m2.pending =~= seq![
            TokenAndSpanView {
                span: spec_span_new(m.pos(m.last_idx) as u32, m.pos(after_code_line(m, j)) as u32),
                token: TokenView::IndentedCodeBlock(m.text.subrange(i0 as int, j + 1int)),
            },
        ]);
        assert(drain(m1, 1) == drain(m2, 0));
        lemma_drained(m1, 1);
    }
    lemma_drain_step(m);
}

/// The four spaces that indent a code line, read in the data state.
proof fn lemma_code_indent(m: LexerView, i0: nat, j: nat)
    requires
        m.wf(),
        m.state == State::Data,
        m.pending.len() == 0,
        m.idx == i0 + m.buf.len(),
        m.buf.len() <= 3,
        i0 + 4 <= j < m.text.len(),
        m.buf == m.text.subrange(i0 as int, m.idx as int),
        forall|i: int| i0 <= i < i0 + 4 ==> #[trigger] m.text[i] == ' ',
        forall|i: int| i0 + 4 <= i < j ==> !spec_is_line_ending(#[trigger] m.text[i]),
        m.text[j as int] == '\n',
        j + 1 == m.text.len() || (m.text[j + 1int] != ' ' && m.text[j + 1int] != '\t'),
    ensures
        reaches_token(m),
        drained(m).pending == seq![
            TokenAndSpanView {
                span: spec_span_new(m.pos(m.last_idx) as u32, m.pos(after_code_line(m, j)) as u32),
                token: TokenView::IndentedCodeBlock(m.text.subrange(i0 + 4int, j + 1int)),
            },
        ],
    decreases 3 - m.buf.len(),
{
    let b = m.buf;
    let m1 = step(m);
    assert(m.text[m.idx as int] == ' ');
    assert(all_eq(b, ' '));
    lemma_all_eq_leading_count(b, ' ');
    assert(b.skip(b.len() as int) =~= Seq::<char>::empty());
    if b.len() < 3 {
        assert(b != three_spaces()) by {
            assert(three_spaces().len() == 3);
        }
        assert(m1 == m.consume().push(' ')) by {
            reveal(step);
        }
        assert(m1.buf =~= m.text.subrange(i0 as int, m1.idx as int));
        lemma_code_indent(m1, i0, j);
    } else {
        assert(b =~= three_spaces());
        assert(m1 == m.consume().to_state(State::IndentedCodeChunk).clear()) by {
            reveal(step);
        }
        assert(m1.buf =~= m.text.subrange(i0 + 4int, m1.idx as int));
        lemma_code_chunk_line(m1, i0 + 4, j);
    }
    lemma_drain_step(m);
}

/// A line indented by four spaces and ended by a line feed, which the next
/// line does not continue with a space or a tab, read by the data state with
/// an empty buffer, is handed out as an indented code block holding the
/// line's text after the indent and its line feed.
pub proof fn lemma_indented_code_line(m: LexerView, j: nat)
    requires
        m.wf(),
        m.state == State::Data,
        !m.finished,
        m.buf.len() == 0,
        m.pending.len() == 0,
        m.idx + 4 <= j < m.text.len(),
        forall|i: int| m.idx <= i < m.idx + 4 ==> #[trigger] m.text[i] == ' ',
        forall|i: int| m.idx + 4 <= i < j ==> !spec_is_line_ending(#[trigger] m.text[i]),
        m.text[j as int] == '\n',
        j + 1 == m.text.len() || (m.text[j + 1int] != ' ' && m.text[j + 1int] != '\t'),
    ensures
        reaches_token(m),
        next_token(m) == Some(
            TokenAndSpanView {
                span: spec_span_new(m.pos(m.last_idx) as u32, m.pos(after_code_line(m, j)) as u32),
                token: TokenView::IndentedCodeBlock(m.text.subrange(m.idx + 4int, j + 1int)),
            },
        ),
{
    assert(m.buf =~= m.text.subrange(m.idx as int, m.idx as int));
    lemma_code_indent(m, m.idx, j);
}

/// From the indented code states a step emits at most one token, and only
/// an indented code block.
pub proof fn lemma_indented_code_tokens(m: LexerView)
    requires
        m.state == State::IndentedCodeBlock || m.state == State::IndentedCodeChunk,
    ensures
        step(m).pending == m.pending || (step(m).pending == m.pending.push(step(m).pending.last())
            && step(m).pending.last().token is IndentedCodeBlock),
{
    reveal(step);
}

/// The setext heading token for the buffer `b`, spanning from index `lo`
/// to index `hi` of the text of `m`.
pub open spec fn setext_token(m: LexerView, b: Seq<char>, lo: nat, hi: nat) -> TokenAndSpanView {
    TokenAndSpanView {
        span: spec_span_new(m.pos(lo) as u32, m.pos(hi) as u32),
        token: TokenView::SetextHeading {
            level: if b[0] == '=' {
                1
            } else {
                2
            },
            content: b,
        },
    }
}

/// The index after a line that ends at index `j`: past its line ending,
/// or the end of the text.
pub open spec fn after_line(m: LexerView, j: nat) -> nat {
    if j < m.text.len() {
        (j + 1) as nat
    } else {
        j
    }
}

/// The rest of a run of equals signs read in the setext heading state.
proof fn lemma_setext_run(m: LexerView, j: nat)
    requires
        m.wf(),
        m.state == State::SetextHeading,
        m.pending.len() == 0,
        m.buf.len() > 0,
        m.idx <= j <= m.text.len(),
        forall|i: int| m.idx <= i < j ==> #[trigger] m.text[i] == '=',
        j == m.text.len() || m.text[j as int] == '\n',
    ensures
        reaches_token(m),
        drained(m).pending == seq![
            setext_token(m, m.buf + m.text.subrange(m.idx as int, j as int), m.last_idx, after_line(m, j)),
        ],
    decreases j - m.idx,
{
    if m.idx == j {
        assert(m.buf + m.text.subrange(m.idx as int, j as int) =~= m.buf);
        let m1 = step(m);
        assert(m1 == step_setext_heading(m)) by {
            reveal(step);
        }
        assert(drain(m, 1) == drain(m1, 0));
        lemma_drained(m, 1);
        assert(m1.pending =~= seq![setext_token(m, m.buf, m.last_idx, after_line(m, j))]);
    } else {
        let m1 = step(m);
        assert(m1 == m.consume().reconsume_in(State::Data)) by {
            reveal(step);
        }
        let m2 = step(m1);
        assert(m2 == m1.consume().to_state(State::SetextHeading).push('=')) by {
            reveal(step);
        }
        assert(m2.buf + m2.text.subrange(m2.idx as int, j as int) =~= m.buf + m.text.subrange(
            m.idx as int,
            j as int,
        ));
        assert(m2.buf[0] == m.buf[0]);
        lemma_setext_run(m2, j);
        lemma_drain_step(m1);
        lemma_drain_step(m);
    }
}

/// In the data state with text in the buffer, a run of equals signs up to
/// a line feed or the end of the text makes a setext heading of the buffer
/// and the run: the next token, spanning to the line feed after it. Its
/// level is the first when the buffer begins with an equals sign, and the
/// second otherwise.
pub proof fn lemma_setext_heading_underline(m: LexerView, j: nat)
    requires
        m.wf(),
        m.state == State::Data,
        !m.finished,
        m.buf.len() > 0,
        m.pending.len() == 0,
        m.idx < j <= m.text.len(),
        forall|i: int| m.idx <= i < j ==> #[trigger] m.text[i] == '=',
        j == m.text.len() || m.text[j as int] == '\n',
    ensures
        reaches_token(m),
        next_token(m) == Some(
            setext_token(m, m.buf + m.text.subrange(m.idx as int, j as int), m.last_idx, after_line(m, j)),
        ),
{
    let m1 = step(m);
    assert(m1 == m.consume().to_state(State::SetextHeading).push('=')) by {
        reveal(step);
    }
    assert(m1.buf + m1.text.subrange(m1.idx as int, j as int) =~= m.buf + m.text.subrange(
        m.idx as int,
        j as int,
    ));
    lemma_setext_run(m1, j);
    lemma_drain_step(m);
}

/// `k` copies of `c` close `u`, and no further one comes before them.
proof fn lemma_trailing_count_exact(u: Seq<char>, c: char, k: nat)
    requires
        k <= u.len(),
        forall|i: int| u.len() - k <= i < u.len() ==> u[i] == c,
        k == u.len() || u[u.len() - k - 1] != c,
    ensures
        trailing_count(u, c) == k,
    decreases k,
{
    if k > 0 {
        lemma_trailing_count_exact(u.drop_last(), c, (k - 1) as nat);
    }
}

/// Reading a run of characters without a line ending into the body of a
/// fenced code block.
proof fn lemma_fence_run(m: LexerView, fence: char, open_len: nat, p: nat)
    requires
        m.idx < p <= m.text.len(),
        forall|i: int| m.idx <= i < p ==> !spec_is_line_ending(#[trigger] m.text[i]),
    ensures
        fence_scan(m, fence, open_len) == fence_scan(
            LexerView {
                cur: Some(m.text[p - 1]),
                cur_idx: (p - 1) as nat,
                idx: p,
                buf: m.buf + m.text.subrange(m.idx as int, p as int),
                ..m
            },
            fence,
            open_len,
        ),
    decreases p - m.idx,
{
    let c = m.text[m.idx as int];
    let m1 = m.consume().push(c);
    assert(m.buf.push(c) + m.text.subrange(m.idx + 1int, p as int) =~= m.buf + m.text.subrange(
        m.idx as int,
        p as int,
    ));
    if m.idx + 1 < p {
        lemma_fence_run(m1, fence, open_len, p);
    } else {
        assert(m.buf.push(c) =~= m.buf + m.text.subrange(m.idx as int, p as int));
    }
}

/// Where the first line feed of `s` is.
proof fn lemma_first_lf_props(s: Seq<char>)
    ensures
        first_lf(s) <= s.len(),
        forall|i: int| 0 <= i < first_lf(s) ==> s[i] != '\n',
        first_lf(s) < s.len() ==> s[first_lf(s) as int] == '\n',
    decreases s.len(),
{
    if s.len() > 0 && s[0] != '\n' {
        lemma_first_lf_props(s.drop_first());
        assert forall|i: int| 0 <= i < first_lf(s) implies s[i] != '\n' by {
            if i > 0 {
                assert(s[i] == s.drop_first()[i - 1]);
            }
        }
    }
}

/// Joining lines after a first one puts a line feed between them.
proof fn lemma_join_cons(p: Seq<char>, l: Seq<Seq<char>>)
    requires
        l.len() > 0,
    ensures
        join_lines(seq![p] + l) == p + seq!['\n'] + join_lines(l),
    decreases l.len(),
{
    let pl = seq![p] + l;
    if l.len() == 1 {
        assert(pl.drop_last() =~= seq![p]);
        assert(pl.last() == l[0]);
        assert(join_lines(seq![p]) == p);
        assert(join_lines(l) == l[0]);
        assert(join_lines(pl) == join_lines(pl.drop_last()) + seq!['\n'] + pl.last());
    } else {
        lemma_join_cons(p, l.drop_last());
        assert(pl.drop_last() =~= seq![p] + l.drop_last());
        assert(pl.last() == l.last());
        assert(p + seq!['\n'] + join_lines(l.drop_last()) + seq!['\n'] + l.last() =~= p + seq!['\n']
            + (join_lines(l.drop_last()) + seq!['\n'] + l.last()));
    }
}

/// Text without carriage returns that does not end with a line feed: its
/// lines joined by line feeds give it back, and a line feed and a last line
/// after it add that line to its lines.
proof fn lemma_lines_then(body: Seq<char>, last: Seq<char>)
    requires
        body.len() > 0,
        body.last() != '\n',
        forall|i: int| 0 <= i < body.len() ==> #[trigger] body[i] != '\r',
        last.len() > 0,
        forall|i: int| 0 <= i < last.len() ==> #[trigger] last[i] != '\n',
        last.last() != '\r',
    ensures
        lines(body + seq!['\n'] + last) == lines(body) + seq![last],
        lines(body).len() > 0,
        join_lines(lines(body)) == body,
    decreases body.len(),
{
    let s = body + seq!['\n'] + last;
    lemma_first_lf_props(body);
    let k = first_lf(body) as int;
    lemma_first_lf(last, last.len() as int);
    assert(lines(last) == seq![last]);
    if k >= body.len() {
        lemma_first_lf(s, body.len() as int);
        assert(s.take(body.len() as int) =~= body);
        assert(s.skip(body.len() + 1int) =~= last);
        assert(lines(body) == seq![body]);
        assert(lines(s) =~= lines(body) + seq![last]);
    } else {
        let q = body.skip(k + 1);
        assert(q.len() > 0);
        assert(q.last() == body.last());
        assert forall|i: int| 0 <= i < q.len() implies #[trigger] q[i] != '\r' by {
            assert(q[i] == body[k + 1 + i]);
        }
        lemma_lines_then(q, last);
        let pre = body.take(k);
        assert(strip_cr(pre) == pre) by {
            if pre.len() > 0 {
                assert(pre.last() == body[k - 1]);
            }
        }
        assert(lines(body) == seq![pre] + lines(q));
        lemma_first_lf(s, k);
        assert(s.take(k) =~= pre);
        assert(s.skip(k + 1) =~= q + seq!['\n'] + last);
        assert(lines(s) =~= lines(body) + seq![last]);
        lemma_join_cons(pre, lines(q));
        assert(pre + seq!['\n'] + q =~= body);
    }
}

/// The buffer of a fenced code block: the opening line, the lines of code
/// and three backticks; the opening fence closes there, and the lines in
/// between are the code.
proof fn lemma_fence_lines(s: Seq<char>, a: int, b: int)
    requires
        3 < a,
        a + 1 < b,
        s.len() == b + 4,
        forall|i: int| 0 <= i < 3 ==> #[trigger] s[i] == '`',
        s[a] == '\n',
        s[b] == '\n',
        s[b - 1] != '\n',
        forall|i: int| b < i < b + 4 ==> #[trigger] s[i] == '`',
        forall|i: int| 3 <= i < a ==> #[trigger] s[i] != '`' && !spec_is_line_ending(s[i]),
        forall|i: int| a < i < b ==> #[trigger] s[i] != '`' && s[i] != '\r',
    ensures
        lines(s) == seq![s.take(a)] + lines(s.subrange(a + 1, b)) + seq![s.subrange(b + 1, b + 4)],
        lines(s.subrange(a + 1, b)).len() > 0,
        join_lines(lines(s.subrange(a + 1, b))) == s.subrange(a + 1, b),
        closes_fence(s, '`', 3),
{
    let info_line = s.take(a);
    let code = s.subrange(a + 1, b);
    let close = s.subrange(b + 1, b + 4);
    assert(close =~= seq!['`', '`', '`']);
    lemma_first_lf(s, a);
    let rest = s.skip(a + 1);
    assert(rest =~= code + seq!['\n'] + close);
    assert forall|i: int| 0 <= i < code.len() implies #[trigger] code[i] != '\r' by {
        assert(code[i] == s[a + 1 + i]);
    }
    lemma_lines_then(code, close);
    assert(strip_cr(info_line) == info_line) by {
        assert(info_line.last() == s[a - 1]);
    }
    assert(lines(s) =~= seq![info_line] + lines(code) + seq![close]);
    lemma_trailing_count_exact(s, '`', 3);
    assert(trim_end(close) == close);
    lemma_leading_count_exact(close, ' ', 0);
}

/// Reading lines of a fenced code block that hold no backtick and no
/// carriage return, after a buffer that does not end with a backtick: no
/// line ending closes the block, and all of it goes into the buffer.
proof fn lemma_fence_body_run(m: LexerView, open_len: nat, p: nat)
    requires
        m.idx < p <= m.text.len(),
        open_len > 0,
        m.buf.len() > 0,
        m.buf.last() != '`',
        forall|i: int| m.idx <= i < p ==> #[trigger] m.text[i] != '`' && m.text[i] != '\r',
    ensures
        fence_scan(m, '`', open_len) == fence_scan(
            LexerView {
                cur: Some(m.text[p - 1]),
                cur_idx: (p - 1) as nat,
                idx: p,
                buf: m.buf + m.text.subrange(m.idx as int, p as int),
                ..m
            },
            '`',
            open_len,
        ),
    decreases p - m.idx,
{
    let c = m.text[m.idx as int];
    let m1 = m.consume().push(c);
    lemma_trailing_count_exact(m.buf, '`', 0);
    assert(fence_scan(m, '`', open_len) == fence_scan(m1, '`', open_len));
    assert(m.buf.push(c) + m.text.subrange(m.idx + 1int, p as int) =~= m.buf + m.text.subrange(
        m.idx as int,
        p as int,
    ));
    if m.idx + 1 < p {
        lemma_fence_body_run(m1, open_len, p);
    } else {
        assert(m.buf.push(c) =~= m.buf + m.text.subrange(m.idx as int, p as int));
    }
}

/// Reading the body of a fenced code block of one line: the buffer ends up
/// holding the whole block, and the lexer stands past the line feed after
/// the closing backticks.
#[verifier::rlimit(40)]
proof fn lemma_fence_scan_block(m3: LexerView, i0: int, a: nat, b: nat)
    requires
        0 <= i0,
        m3.idx == i0 + 3,
        i0 + 3 < a,
        a + 1 < b,
        b + 4 <= m3.text.len(),
        m3.buf == m3.text.subrange(i0, i0 + 3),
        forall|i: int| i0 <= i < i0 + 3 ==> #[trigger] m3.text[i] == '`',
        m3.text[a as int] == '\n',
        m3.text[b as int] == '\n',
        forall|i: int| b < i <= b + 3 ==> #[trigger] m3.text[i] == '`',
        b + 4 == m3.text.len() || m3.text[b + 4int] == '\n',
        m3.text[b - 1] != '\n',
        forall|i: int| i0 + 3 <= i < a ==> #[trigger] m3.text[i] != '`' && !spec_is_line_ending(m3.text[i]),
        forall|i: int| a < i < b ==> #[trigger] m3.text[i] != '`' && m3.text[i] != '\r',
    ensures
        ({
            let r = fence_scan(m3, '`', 3).0;
            &&& r.buf == m3.text.subrange(i0, b + 4int)
            &&& r.idx == after_line(m3, (b + 4) as nat)
            &&& r.cur_idx == b + 4
            &&& r.text == m3.text
            &&& r.start == m3.start
            &&& r.pending == m3.pending
            &&& r.last_idx == m3.last_idx
        }),
{
    let j = (b + 4) as nat;
    let t = m3.text;
    lemma_fence_run(m3, '`', 3, a);
    let p1 = LexerView {
        cur: Some(t[a - 1]),
        cur_idx: (a - 1) as nat,
        idx: a,
        buf: m3.buf + t.subrange(i0 + 3, a as int),
        ..m3
    };
    assert(p1.buf =~= t.subrange(i0, a as int));
    lemma_trailing_count_exact(p1.buf, '`', 0);
    lemma_fence_body_run(p1, 3, b + 1);
    let q2 = LexerView {
        cur: Some(t[b as int]),
        cur_idx: b,
        idx: (b + 1) as nat,
        buf: p1.buf + t.subrange(a as int, b + 1int),
        ..p1
    };
    assert(q2.buf =~= t.subrange(i0, b + 1int));
    lemma_fence_run(q2, '`', 3, j);
    let p3 = LexerView {
        cur: Some(t[j - 1]),
        cur_idx: (j - 1) as nat,
        idx: j,
        buf: q2.buf + t.subrange(b + 1int, j as int),
        ..q2
    };
    assert(p3.buf =~= t.subrange(i0, j as int));
    lemma_fence_lines(p3.buf, a - i0, b - i0);
    assert(fence_scan(m3, '`', 3).0 == p3.consume());
}

/// The step from the fenced code block state once the opening backticks
/// of a fenced code block of one line are in the buffer.
#[verifier::rlimit(40)]
proof fn lemma_fenced_step(m3: LexerView, i0: int, a: nat, b: nat)
    requires
        m3.wf(),
        m3.state == State::FencedCodeBlock,
        m3.pending.len() == 0,
        0 <= i0,
        m3.idx == i0 + 3,
        i0 + 3 < a,
        a + 1 < b,
        b + 4 <= m3.text.len(),
        m3.buf == m3.text.subrange(i0, i0 + 3),
        forall|i: int| i0 <= i < i0 + 3 ==> #[trigger] m3.text[i] == '`',
        m3.text[a as int] == '\n',
        m3.text[b as int] == '\n',
        forall|i: int| b < i <= b + 3 ==> #[trigger] m3.text[i] == '`',
        b + 4 == m3.text.len() || m3.text[b + 4int] == '\n',
        m3.text[b - 1] != '\n',
        forall|i: int| i0 + 3 <= i < a ==> #[trigger] m3.text[i] != '`' && !spec_is_line_ending(m3.text[i]),
        forall|i: int| a < i < b ==> #[trigger] m3.text[i] != '`' && m3.text[i] != '\r',
    ensures
        reaches_token(m3),
        drained(m3).pending == seq![
            TokenAndSpanView {
                span: spec_span_new(
                    m3.pos(m3.last_idx) as u32,
                    m3.pos(after_line(m3, (b + 4) as nat)) as u32,
                ),
                token: TokenView::FencedCodeBlock {
                    info: trim(m3.text.subrange(i0 + 3, a as int)),
                    content: m3.text.subrange(a + 1int, b as int),
                },
            },
        ],
{
    let t = m3.text;
    lemma_all_eq_leading_count(m3.buf, '`');
    lemma_fence_scan_block(m3, i0, a, b);
    let r = fence_result(m3).0;
    let s = r.buf;
    lemma_fence_lines(s, a - i0, b - i0);
    let ls = lines(s);
    assert(skip_chars(ls[0], 3) =~= t.subrange(i0 + 3, a as int));
    assert(ls.subrange(1, ls.len() - 1) =~= lines(s.subrange(a - i0 + 1, b - i0)));
    assert(s.subrange(a - i0 + 1, b - i0) =~= t.subrange(a + 1int, b as int));
    let m4 = step(m3);
    assert(m4 == step_fenced_code_block(m3)) by {
        reveal(step);
    }
    assert(fenced_ok(m3));
    assert(drain(m3, 1) == drain(m4, 0));
    lemma_drained(m3, 1);
    assert(drained(m3).pending =~= seq![
        TokenAndSpanView {
            span: spec_span_new(
                m3.pos(m3.last_idx) as u32,
                m3.pos(after_line(m3, (b + 4) as nat)) as u32,
            ),
            token: TokenView::FencedCodeBlock {
                info: trim(m3.text.subrange(i0 + 3, a as int)),
                content: m3.text.subrange(a + 1int, b as int),
            },
        },
    ]);
}

proof fn lemma_backticks_size()
    ensures
        utf8_size(seq!['`']) == 1,
        utf8_size(seq!['`', '`']) == 2,
{
    assert(seq!['`'].drop_last() =~= Seq::<char>::empty());
    assert(utf8_size(Seq::<char>::empty()) == 0);
    assert(char_utf8_len('`') == 1);
    assert(utf8_size(seq!['`']) == 1);
    assert(seq!['`', '`'].drop_last() =~= seq!['`']);
    assert(seq!['`', '`'].last() == '`');
}

/// A fenced code block read in the data state with an empty buffer: three
/// backticks and an info string, a line feed, one or more lines of code, a
/// line feed and three backticks at the end of the text or before a line
/// feed, where the info string holds no backtick or line ending and the code
/// holds no backtick or carriage return and does not end with a line feed.
/// The next token is the block, whose info string is the one given without
/// the whitespace around it and whose content is all the lines of code,
/// joined by line feeds as they stand in the text, spanning to the line feed
/// after the closing backticks.
#[verifier::rlimit(100)]
pub proof fn lemma_fenced_code_block(m: LexerView, a: nat, b: nat)
    requires
        m.wf(),
        m.state == State::Data,
        !m.finished,
        m.buf.len() == 0,
        m.pending.len() == 0,
        m.idx + 3 < a,
        a + 1 < b,
        b + 4 <= m.text.len(),
        forall|i: int| m.idx <= i < m.idx + 3 ==> #[trigger] m.text[i] == '`',
        m.text[a as int] == '\n',
        m.text[b as int] == '\n',
        forall|i: int| b < i <= b + 3 ==> #[trigger] m.text[i] == '`',
        b + 4 == m.text.len() || m.text[b + 4int] == '\n',
        m.text[b - 1] != '\n',
        forall|i: int| m.idx + 3 <= i < a ==> #[trigger] m.text[i] != '`' && !spec_is_line_ending(m.text[i]),
        forall|i: int| a < i < b ==> #[trigger] m.text[i] != '`' && m.text[i] != '\r',
    ensures
        reaches_token(m),
        next_token(m) == Some(
            TokenAndSpanView {
                span: spec_span_new(
                    m.pos(m.last_idx) as u32,
                    m.pos(after_line(m, (b + 4) as nat)) as u32,
                ),
                token: TokenView::FencedCodeBlock {
                    info: trim(m.text.subrange(m.idx + 3int, a as int)),
                    content: m.text.subrange(a + 1int, b as int),
                },
            },
        ),
{
    let i0 = m.idx as int;
    let t = m.text;
    let m1 = step(m);
    assert(m1 == m.consume().push('`')) by {
        reveal(step);
    }
    let m2 = step(m1);
    lemma_backticks_size();
    assert(m1.buf =~= seq!['`']);
    assert(m2 == m1.consume().push('`')) by {
        reveal(step);
    }
    let m3 = step(m2);
    assert(m2.buf =~= seq!['`', '`']);
    assert(all_eq(m2.buf, '`'));
    assert(m3 == m2.consume().to_state(State::FencedCodeBlock).push('`')) by {
        reveal(step);
    }
    assert(m3.buf =~= t.subrange(i0, i0 + 3));
    lemma_fenced_step(m3, i0, a, b);
    lemma_drain_step(m2);
    lemma_drain_step(m1);
    lemma_drain_step(m);
}

/// A character that the data state only adds to the buffer.
pub open spec fn is_plain(c: char) -> bool {
    !(c == '=' || c == '-' || c == '*' || c == '_' || c == ' ' || c == '\t' || c == '`' || c
        == '~' || c == '[' || c == '>' || spec_is_line_ending(c) || c == '\0')
}

pub open spec fn all_plain(s: Seq<char>) -> bool {
    forall|i: int| 0 <= i < s.len() ==> is_plain(#[trigger] s[i])
}

/// The tokens that the data state emits at the end of the text: the buffer
/// as a paragraph when it holds text, then the end of file.
pub open spec fn closing_tokens(m: LexerView, b: Seq<char>) -> Seq<TokenAndSpanView> {
    let end = m.pos(m.text.len()) as u32;
    if b.len() > 0 {
        seq![
            TokenAndSpanView {
                span: spec_span_new(m.pos(m.last_idx) as u32, end),
                token: TokenView::Paragraph(b),
            },
            TokenAndSpanView { span: spec_span_new(end, end), token: TokenView::Eof },
        ]
    } else {
        seq![
            TokenAndSpanView {
                span: spec_span_new(m.pos(m.last_idx) as u32, end),
                token: TokenView::Eof,
            },
        ]
    }
}

proof fn lemma_plain_rest(m: LexerView)
    requires
        m.wf(),
        m.state == State::Data,
        m.pending.len() == 0,
        all_plain(m.text.skip(m.idx as int)),
    ensures
        reaches_token(m),
        drained(m).pending == closing_tokens(m, m.buf + m.text.skip(m.idx as int)),
    decreases m.text.len() - m.idx,
{
    if m.idx >= m.text.len() {
        reveal(step);
        assert(m.text.skip(m.idx as int) =~= Seq::<char>::empty());
        assert(m.buf + m.text.skip(m.idx as int) =~= m.buf);
        assert(drain(m, 1) == drain(step(m), 0));
        lemma_drained(m, 1);
        assert(drained(m).pending =~= closing_tokens(m, m.buf));
    } else {
        let c = m.text[m.idx as int];
        assert(m.text.skip(m.idx as int)[0] == c);
        assert(is_plain(c));
        let m1 = step(m);
        assert(m1 == m.consume().push(c)) by {
            reveal(step);
        }
        assert(m1.text.skip(m1.idx as int) =~= m.text.skip(m.idx as int).drop_first());
        assert(all_plain(m1.text.skip(m1.idx as int)));
        lemma_plain_rest(m1);
        assert(m1.buf + m1.text.skip(m1.idx as int) =~= m.buf + m.text.skip(m.idx as int));
        lemma_drain_step(m);
    }
}

/// Text without any character that opens a block is one paragraph: the
/// first token is a paragraph of all of it, spanning from the start of the
/// text to its end, and no token follows.
pub proof fn lemma_plain_text_is_one_paragraph(m: LexerView)
    requires
        m.wf(),
        m.state == State::Data,
        !m.finished,
        m.last_idx == 0,
        m.buf.len() == 0,
        m.pending.len() == 0,
        m.idx < m.text.len(),
        all_plain(m.text.skip(m.idx as int)),
    ensures
        reaches_token(m),
        next_token(m) == Some(
            TokenAndSpanView {
                span: Span {
                    lo: BytePos(m.start),
                    hi: BytePos((m.start + utf8_size(m.text)) as u32),
                },
                token: TokenView::Paragraph(m.text.skip(m.idx as int)),
            },
        ),
        reaches_token(after_next(m)),
        next_token(after_next(m)) is None,
{
    lemma_plain_rest(m);
    assert(m.buf + m.text.skip(m.idx as int) =~= m.text.skip(m.idx as int));
    assert(m.text.take(0) =~= Seq::<char>::empty());
    assert(m.text.take(m.text.len() as int) =~= m.text);
    let a = after_next(m);
    assert(a.pending.len() == 1);
    assert(drain(a, 0) is Some);
    lemma_drained(a, 0);
}

} // verus!

verus! {

/// Text read after a `[` that starts a paragraph: plain characters and
/// spaces, with every `]` after a space.
pub open spec fn bracket_rest_ok(r: Seq<char>, in_label: bool) -> bool {
    &&& forall|i: int| 0 <= i < r.len() ==> is_plain(#[trigger] r[i]) || r[i] == ' '
    &&& in_label ==> forall|i: int|
        0 <= i < r.len() && #[trigger] r[i] == ']' ==> exists|k: int| 0 <= k < i && r[k] == ' '
}

/// The rest of a paragraph that began with `[`, read in the data state or
/// in the link label state: everything read stays in the buffer.
#[verifier::rlimit(60)]
proof fn lemma_bracket_rest(m: LexerView)
    requires
        m.wf(),
        m.state == State::Data || m.state == State::LinkLabel,
        m.pending.len() == 0,
        m.buf.len() > 0,
        m.buf[0] == '[',
        bracket_rest_ok(m.text.skip(m.idx as int), m.state == State::LinkLabel),
    ensures
        reaches_token(m),
        drained(m).pending == closing_tokens(m, m.buf + m.text.skip(m.idx as int)),
    decreases (m.text.len() - m.idx) * 2 + if m.state == State::LinkLabel {
        1int
    } else {
        0int
    },
{
    let r = m.text.skip(m.idx as int);
    let b = m.buf;
    let m1 = step(m);
    if m.state == State::Data {
        if m.idx >= m.text.len() {
            reveal(step);
            assert(r =~= Seq::<char>::empty());
            assert(b + r =~= b);
            assert(drain(m, 1) == drain(step(m), 0));
            lemma_drained(m, 1);
            assert(drained(m).pending =~= closing_tokens(m, b));
            return;
        }
        let c = m.text[m.idx as int];
        assert(r[0] == c);
        if c == ' ' {
            lemma_leading_count_exact(b, ' ', 0);
            assert(b.skip(0) =~= b);
            assert(b != three_spaces()) by {
                assert(three_spaces()[0] == ' ');
            }
            assert(!all_eq(b, '#'));
        }
        assert(m1 == m.consume().push(c)) by {
            reveal(step);
        }
        let r1 = m1.text.skip(m1.idx as int);
        assert(r1 =~= r.drop_first());
        assert(bracket_rest_ok(r1, false)) by {
            assert forall|i: int| 0 <= i < r1.len() implies is_plain(#[trigger] r1[i]) || r1[i] == ' ' by {
                assert(r1[i] == r[i + 1]);
            }
        }
        lemma_bracket_rest(m1);
        assert(m1.buf + r1 =~= b + r);
    } else {
        if m.idx >= m.text.len() {
            assert(m1 == m.consume().reconsume_in(State::Data)) by {
                reveal(step);
            }
            lemma_bracket_rest(m1);
        } else {
            let c = m.text[m.idx as int];
            assert(r[0] == c);
            if spec_is_spacy(c) {
                assert(m1 == m.consume().skip_ws(c).reconsume_in(State::Data)) by {
                    reveal(step);
                }
                assert(m1.idx == m.idx);
                assert(bracket_rest_ok(m1.text.skip(m1.idx as int), false));
                lemma_bracket_rest(m1);
            } else {
                if c == ']' {
                    assert(r[0] == ']');
                    assert(false);
                }
                if utf8_size(b) == max_label_bytes() {
                    assert(m1 == m.consume().reconsume_in(State::Data)) by {
                        reveal(step);
                    }
                    assert(bracket_rest_ok(m1.text.skip(m1.idx as int), false));
                    lemma_bracket_rest(m1);
                } else {
                    assert(m1 == m.consume().push(c)) by {
                        reveal(step);
                    }
                    let r1 = m1.text.skip(m1.idx as int);
                    assert(r1 =~= r.drop_first());
                    assert(c != ' ');
                    assert(bracket_rest_ok(r1, true)) by {
                        assert forall|i: int| 0 <= i < r1.len() implies is_plain(#[trigger] r1[i])
                            || r1[i] == ' ' by {
                            assert(r1[i] == r[i + 1]);
                        }
                        assert forall|i: int| 0 <= i < r1.len() && #[trigger] r1[i] == ']' implies exists|
                            k: int,
                        | 0 <= k < i && r1[k] == ' ' by {
                            assert(r[i + 1] == ']');
                            let k = choose|k: int| 0 <= k < i + 1 && r[k] == ' ';
                            assert(k != 0);
                            assert(r1[k - 1] == ' ');
                        }
                    }
                    lemma_bracket_rest(m1);
                    assert(m1.buf + r1 =~= b + r);
                }
            }
        }
    }
    lemma_drain_step(m);
}

/// Text that begins with `[` and goes on with characters that open no block
/// and with spaces, with every `]` after a space, is one paragraph, although
/// its start is read as a link label: the first token is a paragraph of all
/// of it, spanning from where the next span starts to the end of the text.
pub proof fn lemma_bracket_text_is_one_paragraph(m: LexerView)
    requires
        m.wf(),
        m.state == State::Data,
        !m.finished,
        m.buf.len() == 0,
        m.pending.len() == 0,
        m.idx < m.text.len(),
        m.text[m.idx as int] == '[',
        forall|i: int| m.idx < i < m.text.len() ==> is_plain(#[trigger] m.text[i]) || m.text[i] == ' ',
        forall|i: int|
            m.idx < i < m.text.len() && #[trigger] m.text[i] == ']' ==> exists|k: int|
                m.idx < k < i && m.text[k] == ' ',
    ensures
        reaches_token(m),
        next_token(m) == Some(
            TokenAndSpanView {
                span: spec_span_new(m.pos(m.last_idx) as u32, m.pos(m.text.len()) as u32),
                token: TokenView::Paragraph(m.text.skip(m.idx as int)),
            },
        ),
{
    let m1 = step(m);
    lemma_leading_count_exact(m.buf, ' ', 0);
    assert(utf8_size(m.buf) == 0);
    assert(m1 == m.consume().to_state(State::LinkLabel).set_line_endings(0).clear().push('[')) by {
        reveal(step);
    }
    let r1 = m1.text.skip(m1.idx as int);
    assert(bracket_rest_ok(r1, true)) by {
        assert forall|i: int| 0 <= i < r1.len() implies is_plain(#[trigger] r1[i]) || r1[i] == ' ' by {
            assert(r1[i] == m.text[m.idx + 1 + i]);
        }
        assert forall|i: int| 0 <= i < r1.len() && #[trigger] r1[i] == ']' implies exists|k: int|
            0 <= k < i && r1[k] == ' ' by {
            assert(m.text[m.idx + 1 + i] == ']');
            let k = choose|k: int| m.idx < k < m.idx + 1 + i && m.text[k] == ' ';
            assert(r1[k - m.idx - 1] == ' ');
        }
    }
    lemma_bracket_rest(m1);
    assert(m1.buf + r1 =~= m.text.skip(m.idx as int));
    lemma_drain_step(m);
    let t = m.text.skip(m.idx as int);
    assert(t.len() > 0);
    assert(drained(m).pending[0] == closing_tokens(m1, t)[0]);
}

} // verus!

verus! {

/// Reading letters up to a character that is no letter adds them to `s`
/// and consumes that character.
proof fn lemma_scan_letters(m: LexerView, s: Seq<char>, j: nat)
    requires
        m.idx <= j < m.text.len(),
        forall|i: int| m.idx <= i < j ==> spec_is_ascii_alpha(#[trigger] m.text[i]),
        !spec_is_ascii_alpha(m.text[j as int]),
    ensures
        scan_exclusive(m, s, Stop::NonAlpha) == (
            LexerView { cur: Some(m.text[j as int]), cur_idx: j, idx: (j + 1) as nat, ..m },
            s + m.text.subrange(m.idx as int, j as int),
        ),
    decreases j - m.idx,
{
    if m.idx == j {
        assert(s + m.text.subrange(m.idx as int, j as int) =~= s);
    } else {
        let c = m.text[m.idx as int];
        lemma_scan_letters(m.consume(), s.push(c), j);
        assert(s.push(c) + m.text.subrange(m.idx + 1int, j as int) =~= s + m.text.subrange(
            m.idx as int,
            j as int,
        ));
    }
}

/// In the HTML blank line state before a line feed, the line is blank: the
/// buffer is handed out as an HTML block spanning past the line feed.
#[verifier::rlimit(60)]
proof fn lemma_html_blank_line_feed(m: LexerView)
    requires
        m.wf(),
        m.state == State::HTMLBlankLine,
        m.pending.len() == 0,
        m.idx < m.text.len(),
        m.text[m.idx as int] == '\n',
    ensures
        reaches_token(m),
        drained(m).pending == seq![
            TokenAndSpanView {
                span: spec_span_new(m.pos(m.last_idx) as u32, m.pos(m.idx + 1) as u32),
                token: TokenView::HTMLBlock(m.buf),
            },
        ],
{
    let (r, s) = scan_inclusive(m, Seq::empty(), Stop::LineEnding);
    assert(s =~= seq!['\n']);
    lemma_first_lf(s, 0);
    assert(s.take(0) =~= Seq::<char>::empty());
    assert(s.skip(1) =~= Seq::<char>::empty());
    assert(strip_cr(Seq::<char>::empty()) == Seq::<char>::empty());
    assert(lines(Seq::<char>::empty()) == Seq::<Seq<char>>::empty());
    assert(lines(s) =~= seq![Seq::<char>::empty()]);
    let m1 = step(m);
    assert(m1 == step_html_blank_line(m)) by {
        reveal(step);
    }
    assert(m1.pending =~= seq![
        TokenAndSpanView {
            span: spec_span_new(m.pos(m.last_idx) as u32, m.pos(m.idx + 1) as u32),
            token: TokenView::HTMLBlock(m.buf),
        },
    ]);
    assert(drain(m, 1) == drain(m1, 0));
    lemma_drained(m, 1);
}

/// From the HTML block state with an empty buffer, `<`, a tag name that,
/// in lower case, names HTML blocks of the sixth kind (the names that the
/// lemmas on block tag names list), `>`
/// and a line feed make an HTML block: the next token, which holds the `<`,
/// the first letter of the name and the `>`, and spans to the line feed.
#[verifier::rlimit(60)]
pub proof fn lemma_html_block_of_the_sixth_kind(m: LexerView, e: nat)
    requires
        m.wf(),
        m.state == State::HTMLBlock,
        !m.finished,
        m.buf.len() == 0,
        m.pending.len() == 0,
        m.idx + 1 < e,
        e + 1 < m.text.len(),
        m.text[m.idx as int] == '<',
        forall|i: int| m.idx < i < e ==> spec_is_ascii_alpha(#[trigger] m.text[i]),
        m.text[e as int] == '>',
        m.text[e + 1int] == '\n',
        is_block_tag_name(ascii_lower_seq(m.text.subrange(m.idx + 1int, e as int))),
    ensures
        reaches_token(m),
        next_token(m) == Some(
            TokenAndSpanView {
                span: spec_span_new(m.pos(m.last_idx) as u32, m.pos(e + 2) as u32),
                token: TokenView::HTMLBlock(seq!['<', m.text[m.idx + 1int], '>']),
            },
        ),
{
    let i0 = m.idx as int;
    let name = m.text.subrange(i0 + 1, e as int);
    let t = ascii_lower_seq(name);
    lemma_raw_tag_names();
    if is_raw_tag_name(t) {
        if t =~= seq!['p', 'r', 'e'] {
        } else if t =~= seq!['s', 'c', 'r', 'i', 'p', 't'] {
        } else if t =~= seq!['s', 't', 'y', 'l', 'e'] {
        } else {
            assert(t =~= seq!['t', 'e', 'x', 't', 'a', 'r', 'e', 'a']);
        }
    }
    assert(!is_raw_tag_name(t));
    let m1 = step(m);
    assert(!spec_is_ascii_alpha('<'));
    assert(m1 == m.consume().push('<')) by {
        reveal(step);
    }
    let c = m.text[i0 + 1];
    let m2 = step(m1);
    assert(m2 == m1.consume().reconsume_in(State::HTMLTagName).push(c)) by {
        reveal(step);
    }
    assert(m2.idx == i0 + 1);
    lemma_scan_letters(m2, Seq::empty(), e);
    assert(Seq::<char>::empty() + m.text.subrange(i0 + 1, e as int) =~= name);
    let m3 = step(m2);
    assert(m3 == LexerView { cur: Some('>'), cur_idx: e, idx: e, state: State::HTMLBlockType6, ..m2 }) by {
        reveal(step);
    }
    let m4 = step(m3);
    assert(m4 == m3.consume().to_state(State::HTMLBlankLine).push('>')) by {
        reveal(step);
    }
    assert(m4.buf =~= seq!['<', c, '>']);
    lemma_html_blank_line_feed(m4);
    lemma_drain_step(m3);
    lemma_drain_step(m2);
    lemma_drain_step(m1);
    lemma_drain_step(m);
}

} // verus!
