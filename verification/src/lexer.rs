//! The lexer: reads the source text and hands out block-level tokens.
use std::collections::VecDeque;
use vstd::prelude::*;
use crate::chars::{
    is_ascii_alpha, is_ascii_digit, is_blank_line, is_control, is_line_ending, is_spacy, utf8_size,
};
use crate::diagnostic::{Error, ErrorKind};
use crate::input::StringInput;
use crate::machine::{
    is_break_marker, starts_break, is_break_line, end_of_break_line, count_char, LexerView, Stop, stops_at, scan_exclusive, scan_inclusive, three_spaces, skip_chars, step_data, step_thematic_break, atx_line, atx_text, step_atx_heading, step_setext_heading, setext_ok, step_indented_code_block, step_indented_code_chunk, closes_fence, fence_scan, fenced_ok, step_fenced_code_block, step_html_block, starts_closing, step_html_tag_name, step_before_html_block_type1, tag_before_gt, ends_raw_block, step_html_block_type1, step_html_declaration_open, step_html_declaration, ends_with, step_html_closed_by, step_html_comment, step_html_processing_instruction, step_html_cdata_section, step_html_block_type6, step_html_open_tag_name, step_html_closing_tag_name, step_html_closing_tag, step_html_blank_line, step_html_attributes, step_after_html_attributes, step_html_attribute, step_html_attribute_name, step_html_attribute_value_specification, step_html_attribute_value, step_html_unquoted_attribute, step_html_single_quoted_attribute, step_html_double_quoted_attribute, step_link_label, first_close_bracket, step_after_link_label, after_link_label_ok, step_link_destination, step_braced_link_destination, step_unquoted_link_destination, step_balanced_parenthesis_pair, step_before_link_title, step_link_title, step_after_link_title, step, step_ok, drain, reaches_token, drained, after_next, next_token, same_frame, moved_only, steps_within, lemma_drained,
};
use crate::order::{lemma_spans_in_order, lemma_steps_within_ordered, spans_ordered};
use crate::span::{BytePos, Span};
use crate::text::{
    leading_count,
    has_char, chars_all_eq, chars_contain, chars_copy, chars_eq, chars_skip, count_leading, count_trailing, count_trailing_alpha, ascii_lower_chars, join_line_range, trailing_alpha, lines_of, string_from_chars, strip_cr_chars, trim_chars, trim_end_chars, utf8_len_capped, views,
};
use crate::tags::{is_block_tag, is_raw_tag};
use crate::token::{Token, TokenAndSpan, TokenAndSpanView, TokenView};

pub use crate::machine::State;

verus! {

pub type LexResult<T> = Result<T, ErrorKind>;

/// The lexer over a source text.
pub struct Lexer {
    input: StringInput,
    cur: Option<char>,
    /// The index of the current input character.
    cur_pos: usize,
    /// The index where the next token's span starts.
    last_token_pos: usize,
    finished: bool,
    state: State,
    errors: Vec<Error>,
    pending_tokens: VecDeque<TokenAndSpan>,
    temporary_buffer: Vec<char>,
    line_ending_count: u32,
}

impl View for Lexer {
    type V = LexerView;

    closed spec fn view(&self) -> LexerView {
        LexerView {
            text: self.input.text(),
            start: self.input.start(),
            idx: self.input.index(),
            cur: self.cur,
            cur_idx: self.cur_pos as nat,
            last_idx: self.last_token_pos as nat,
            finished: self.finished,
            state: self.state,
            errors: self.errors@,
            pending: self.pending_tokens@.map_values(|t: TokenAndSpan| t@),
            buf: self.temporary_buffer@,
            line_ending_count: self.line_ending_count,
        }
    }
}

impl Lexer {
    pub closed spec fn wf(&self) -> bool {
        self.input.wf() && self@.wf()
    }

    proof fn lemma_pos(&self)
        requires
            self.input.wf(),
        ensures
            forall|i: nat| #[trigger] self@.pos(i) == self.input.pos_at(i as int),
            self@.start + utf8_size(self@.text) <= u32::MAX,
            self.input.index() <= self.input.text().len(),
    {
        self.input.lemma_wf();
        let n = self.input.text().len() as int;
        assert(self.input.text().take(n) =~= self.input.text());
        assert(self.input.pos_at(n) <= u32::MAX);
    }

    /// A lexer that reads `input` from where it stands; a byte order mark at
    /// the very start of the text is skipped.
    pub fn new(input: StringInput) -> (r: Lexer)
        requires
            input.wf(),
        ensures
            r.wf(),
            r@.text == input.text(),
            r@.start == input.start(),
            r@.idx == (if input.index() == 0 && input.text().len() > 0 && input.text()[0]
                == '\u{feff}' {
                1nat
            } else {
                input.index()
            }),
            r@.cur is None,
            r@.cur_idx == input.index(),
            r@.last_idx == input.index(),
            !r@.finished,
            r@.state == State::Data,
            r@.errors.len() == 0,
            r@.pending.len() == 0,
            r@.buf.len() == 0,
            r@.line_ending_count == 0,
            spans_ordered(r@),
    {
        let start_pos = input.cur_index();
        let mut lexer = Lexer {
            input,
            cur: None,
            cur_pos: start_pos,
            last_token_pos: start_pos,
            finished: false,
            state: State::Data,
            errors: Vec::new(),
            pending_tokens: VecDeque::with_capacity(16),
            temporary_buffer: Vec::with_capacity(33),
            line_ending_count: 0,
        };
        proof {
            lexer.lemma_pos();
        }
        if lexer.input.is_at_start() && lexer.input.cur() == Some('\u{feff}') {
            lexer.input.bump();
        }
        proof {
            lexer.lemma_pos();
            assert(lexer@.pending =~= Seq::<crate::token::TokenAndSpanView>::empty());
        }
        lexer
    }

    /// The byte position of the next input character.
    pub fn start_pos(&self) -> (r: BytePos)
        requires
            self.wf(),
        ensures
            r.0 == self@.pos(self@.idx),
    {
        proof {
            self.lemma_pos();
        }
        self.input.cur_pos()
    }

    /// The byte position of the next input character.
    pub fn last_pos(&self) -> (r: BytePos)
        requires
            self.wf(),
        ensures
            r.0 == self@.pos(self@.idx),
    {
        proof {
            self.lemma_pos();
        }
        self.input.cur_pos()
    }

    /// Hands out the errors reported so far, and forgets them.
    pub fn take_errors(&mut self) -> (r: Vec<Error>)
        requires
            old(self).wf(),
        ensures
            final(self).wf(),
            r@ == old(self)@.errors,
            final(self)@ == (LexerView { errors: Seq::empty(), ..old(self)@ }),
    {
        let mut r: Vec<Error> = Vec::new();
        std::mem::swap(&mut r, &mut self.errors);
        proof {
            assert(self@.errors =~= Seq::<Error>::empty());
        }
        r
    }

    /// Puts the lexer in state `state`.
    pub fn set_input_state(&mut self, state: State)
        requires
            old(self).wf(),
        ensures
            final(self).wf(),
            final(self)@ == old(self)@.to_state(state),
    {
        self.state = state;
    }

    /// The next input character, which is not consumed.
    fn next_input_char(&self) -> (r: Option<char>)
        requires
            self.wf(),
        ensures
            r == self@.next_char(),
    {
        self.input.cur()
    }

    fn consume(&mut self)
        requires
            old(self).wf(),
        ensures
            final(self).wf(),
            final(self)@ == old(self)@.consume(),
    {
        self.cur = self.input.cur();
        self.cur_pos = self.input.cur_index();
        if self.cur.is_some() {
            self.input.bump();
        }
    }

    fn reconsume(&mut self)
        requires
            old(self).wf(),
        ensures
            final(self).wf(),
            final(self)@ == old(self)@.reconsume(),
    {
        self.input.reset_to(self.cur_pos);
    }

    fn reconsume_in_state(&mut self, state: State)
        requires
            old(self).wf(),
        ensures
            final(self).wf(),
            final(self)@ == old(self)@.reconsume_in(state),
    {
        self.state = state;
        self.reconsume();
    }

    /// Consumes the next input character and returns it.
    fn consume_next_char(&mut self) -> (r: Option<char>)
        requires
            old(self).wf(),
        ensures
            final(self).wf(),
            final(self)@ == old(self)@.consume(),
            r == old(self)@.next_char(),
    {
        let c = self.next_input_char();
        self.consume();
        c
    }

    /// Reports an error of kind `kind` about the current input character.
    #[allow(dead_code)]
    fn emit_error(&mut self, kind: ErrorKind)
        requires
            old(self).wf(),
        ensures
            final(self).wf(),
            final(self)@.errors == old(self)@.errors.push(final(self)@.errors.last()),
            final(self)@.errors.last()@ == (
                crate::span::spec_span_new(
                    old(self)@.pos(old(self)@.cur_idx) as u32,
                    old(self)@.pos(old(self)@.idx) as u32,
                ),
                kind,
            ),
            final(self)@ == (LexerView { errors: final(self)@.errors, ..old(self)@ }),
    {
        proof {
            self.lemma_pos();
        }
        let lo = self.input.pos_of(self.cur_pos);
        let hi = self.input.cur_pos();
        self.errors.push(Error::new(Span::new(lo, hi), kind));
    }

    fn emit_token(&mut self, token: Token)
        requires
            old(self).wf(),
        ensures
            final(self).wf(),
            final(self)@ == old(self)@.emit(token@),
    {
        proof {
            self.lemma_pos();
        }
        let cur_pos = self.input.cur_index();
        let span = Span::new(self.input.pos_of(self.last_token_pos), self.input.pos_of(cur_pos));
        self.last_token_pos = cur_pos;
        let ghost old_pending = self@.pending;
        proof {
            let len = self@.text.len() as int;
            self.input.lemma_wf();
            assert(self.input.text().take(len) =~= self.input.text());
            assert(self.input.pos_at(self.last_token_pos as int) <= self.input.pos_at(len));
            assert(self.input.pos_at(cur_pos as int) <= self.input.pos_at(len));
            assert(self@.covers(span));
        }
        self.pending_tokens.push_back(TokenAndSpan { span, token });
        proof {
            assert(self@.pending =~= old_pending.push(TokenAndSpanView { span, token: token@ }));
        }
    }

    /// After a carriage return, skips a line feed that follows it.
    fn skip_whitespaces(&mut self, c: char)
        requires
            old(self).wf(),
        ensures
            final(self).wf(),
            final(self)@ == old(self)@.skip_ws(c),
    {
        if c == '\r' && self.input.cur() == Some('\n') {
            self.input.bump();
        }
    }

    fn set_state(&mut self, state: State)
        requires
            old(self).wf(),
        ensures
            final(self).wf(),
            final(self)@ == old(self)@.to_state(state),
    {
        self.state = state;
    }

    fn push_char(&mut self, c: char)
        requires
            old(self).wf(),
        ensures
            final(self).wf(),
            final(self)@ == old(self)@.push(c),
    {
        self.temporary_buffer.push(c);
    }

    fn clear_buffer(&mut self)
        requires
            old(self).wf(),
        ensures
            final(self).wf(),
            final(self)@ == old(self)@.clear(),
    {
        self.temporary_buffer.clear();
        proof {
            assert(self.temporary_buffer@ =~= Seq::<char>::empty());
        }
    }

    fn set_line_ending_count(&mut self, n: u32)
        requires
            old(self).wf(),
            n <= 1,
        ensures
            final(self).wf(),
            final(self)@ == old(self)@.set_line_endings(n),
    {
        self.line_ending_count = n;
    }

    /// Counts a line ending: the second one goes back to the data state.
    fn count_line_ending(&mut self)
        requires
            old(self).wf(),
        ensures
            final(self).wf(),
            final(self)@ == old(self)@.count_line_ending(),
    {
        if self.line_ending_count == 1 {
            self.reconsume_in_state(State::Data);
            self.line_ending_count = 0;
        } else {
            self.line_ending_count += 1;
        }
    }

    /// The temporary buffer, as a string.
    fn buffer_string(&self) -> (r: String)
        ensures
            r@ == self@.buf,
    {
        string_from_chars(self.temporary_buffer.as_slice())
    }
}


/// Whether `b` can begin a thematic break line made of `c`.
fn starts_break_exec(b: &[char], c: char) -> (r: bool)
    ensures
        r == starts_break(b@, c),
{
    let n = count_leading(b, ' ');
    let ghost rest = b@.skip(n as int);
    if n > 3 {
        return false;
    }
    if n < b.len() && b[n] != c {
        proof {
            assert(rest[0] == b@[n as int]);
            assert(rest.len() > 0);
        }
        return false;
    }
    let mut i: usize = n;
    proof {
        if n < b.len() {
            assert(rest[0] == b@[n as int]);
        }
    }
    while i < b.len()
        invariant
            n <= i <= b@.len(),
            n <= 3,
            n == leading_count(b@, ' '),
            rest == b@.skip(n as int),
            rest.len() == 0 || rest[0] == c,
            forall|k: int| 0 <= k < i - n ==> (#[trigger] rest[k] == c || rest[k] == ' ' || rest[k] == '\t'),
        decreases b@.len() - i,
    {
        let x = b[i];
        if !(x == c || x == ' ' || x == '\t') {
            proof {
                assert(rest[i - n] == x);
            }
            return false;
        }
        i += 1;
        proof {
            assert forall|k: int| 0 <= k < i - n implies (#[trigger] rest[k] == c || rest[k] == ' '
                || rest[k] == '\t') by {
                assert(rest[k] == b@[n + k]);
            }
        }
    }
    true
}

/// Whether `b` is a thematic break line.
fn is_break_line_exec(b: &[char]) -> (r: bool)
    ensures
        r == is_break_line(b@),
{
    let n = count_leading(b, ' ');
    let ghost rest = b@.skip(n as int);
    if n > 3 || n >= b.len() {
        return false;
    }
    let m = b[n];
    proof {
        assert(rest[0] == m);
    }
    if !(m == '-' || m == '*' || m == '_') {
        return false;
    }
    let mut count: usize = 0;
    let mut i: usize = n;
    proof {
        assert(rest.subrange(0, 0).len() == 0);
    }
    while i < b.len()
        invariant
            n < b@.len(),
            n <= 3,
            n == leading_count(b@, ' '),
            is_break_marker(m),
            n <= i <= b@.len(),
            m == rest[0],
            rest == b@.skip(n as int),
            count == count_char(rest.subrange(0, i - n), m),
            count <= i - n,
            forall|k: int| 0 <= k < i - n ==> (#[trigger] rest[k] == m || rest[k] == ' ' || rest[k] == '\t'),
        decreases b@.len() - i,
    {
        let x = b[i];
        proof {
            assert(rest[i - n] == x);
        }
        if !(x == m || x == ' ' || x == '\t') {
            return false;
        }
        proof {
            assert(rest.subrange(0, i - n + 1).drop_last() =~= rest.subrange(0, i - n));
        }
        if x == m {
            count += 1;
        }
        i += 1;
    }
    proof {
        assert(rest.subrange(0, i - n) =~= rest);
    }
    count >= 3
}

impl Lexer {
    fn set_buffer(&mut self, v: Vec<char>)
        requires
            old(self).wf(),
        ensures
            final(self).wf(),
            final(self)@ == old(self)@.set_buf(v@),
    {
        self.temporary_buffer = v;
    }

    /// Whether the temporary buffer holds exactly three spaces.
    fn buffer_is_three_spaces(&self) -> (r: bool)
        ensures
            r == (self@.buf == three_spaces()),
    {
        let w = [' ', ' ', ' '];
        proof {
            assert(w@ =~= three_spaces());
        }
        let r = chars_eq(self.temporary_buffer.as_slice(), w.as_slice());
        proof {
            if !r {
                assert(!(self@.buf =~= three_spaces()));
            }
        }
        r
    }

    fn run_data(&mut self)
        requires
            old(self).wf(),
        ensures
            final(self).wf(),
            final(self)@ == step_data(old(self)@),
            same_frame(final(self)@, old(self)@),
    {
        let ghost m = self@;
        let c = self.consume_next_char();
        match c {
            Some(c) => {
                if c == '=' || c == '-' {
                    if self.temporary_buffer.len() == 0 || (c == '-' && starts_break_exec(
                        self.temporary_buffer.as_slice(),
                        c,
                    )) {
                        self.set_state(State::ThematicBreak);
                    } else {
                        self.set_state(State::SetextHeading);
                    }
                    self.push_char(c);
                } else if c == '*' || c == '_' {
                    if starts_break_exec(self.temporary_buffer.as_slice(), c) {
                        self.set_state(State::ThematicBreak);
                    }
                    self.push_char(c);
                } else if c == ' ' {
                    if self.buffer_is_three_spaces() {
                        self.set_state(State::IndentedCodeChunk);
                        self.clear_buffer();
                    } else {
                        let n = count_leading(self.temporary_buffer.as_slice(), ' ');
                        let rest = chars_skip(self.temporary_buffer.as_slice(), n);
                        if n <= 3 && rest.len() > 0 && chars_all_eq(rest.as_slice(), '#') {
                            self.set_state(State::ATXHeading);
                            self.set_buffer(rest);
                        } else {
                            self.push_char(c);
                        }
                    }
                } else if c == '\t' {
                    if self.temporary_buffer.len() == 0 {
                        self.set_state(State::IndentedCodeBlock);
                        self.clear_buffer();
                    } else {
                        let n = count_leading(self.temporary_buffer.as_slice(), ' ');
                        if 1 <= n && n <= 3 {
                            if chars_all_eq(self.temporary_buffer.as_slice(), '#') {
                                self.set_state(State::ATXHeading);
                            }
                        } else {
                            self.push_char(c);
                        }
                    }
                } else if c == '`' || c == '~' {
                    let size = utf8_len_capped(self.temporary_buffer.as_slice(), 3);
                    if size == 2 && chars_all_eq(self.temporary_buffer.as_slice(), c) {
                        self.set_state(State::FencedCodeBlock);
                    }
                    self.push_char(c);
                } else if c == '[' {
                    let size = utf8_len_capped(self.temporary_buffer.as_slice(), 4);
                    let n = count_leading(self.temporary_buffer.as_slice(), ' ');
                    if size <= 3 && n <= 3 {
                        self.set_state(State::LinkLabel);
                        self.set_line_ending_count(0);
                        self.clear_buffer();
                    }
                    self.push_char(c);
                } else if c == '>' {
                    let size = utf8_len_capped(self.temporary_buffer.as_slice(), 4);
                    if size <= 3 && chars_all_eq(self.temporary_buffer.as_slice(), ' ') {
                        self.emit_token(Token::BlockQuoteStart);
                    } else {
                        self.push_char(c);
                    }
                } else if is_line_ending(c) {
                    self.skip_whitespaces(c);
                    let len = self.temporary_buffer.len();
                    if len > 0 && is_line_ending(self.temporary_buffer[len - 1]) {
                        let s = self.buffer_string();
                        self.emit_token(Token::Paragraph(s));
                        self.emit_token(Token::BlankLine);
                        self.clear_buffer();
                    } else if len > 0 {
                        self.push_char(c);
                    } else {
                        self.last_token_pos = self.input.cur_index();
                    }
                } else if c == '\0' {
                    self.push_char('\u{fffd}');
                } else {
                    self.push_char(c);
                }
            },
            None => {
                if self.temporary_buffer.len() > 0 {
                    let s = self.buffer_string();
                    self.emit_token(Token::Paragraph(s));
                    self.clear_buffer();
                }
                self.emit_token(Token::Eof);
            },
        }
    }

    fn run_thematic_break(&mut self)
        requires
            old(self).wf(),
        ensures
            final(self).wf(),
            final(self)@ == step_thematic_break(old(self)@),
            same_frame(final(self)@, old(self)@),
    {
        match self.consume_next_char() {
            Some(c) => {
                if c == '\n' || c == '\r' {
                    self.end_break_line();
                } else if c == ' ' || c == '\t' || chars_contain(self.temporary_buffer.as_slice(), c) {
                    self.push_char(c);
                } else {
                    self.reconsume_in_state(State::Data);
                }
            },
            None => {
                self.end_break_line();
            },
        }
    }

    /// Ends a line read in the thematic break state.
    fn end_break_line(&mut self)
        requires
            old(self).wf(),
        ensures
            final(self).wf(),
            final(self)@ == end_of_break_line(old(self)@),
    {
        if is_break_line_exec(self.temporary_buffer.as_slice()) {
            self.reconsume_in_state(State::Data);
            self.emit_token(Token::ThematicBreak);
            self.clear_buffer();
        } else {
            self.reconsume_in_state(State::Data);
        }
    }

    fn run_setext_heading(&mut self)
        requires
            old(self).wf(),
            setext_ok(old(self)@),
        ensures
            final(self).wf(),
            final(self)@ == step_setext_heading(old(self)@),
            same_frame(final(self)@, old(self)@),
    {
        match self.consume_next_char() {
            Some(c) => {
                if is_line_ending(c) {
                    self.skip_whitespaces(c);
                    let level: u8 = if self.temporary_buffer[0] == '=' {
                        1
                    } else {
                        2
                    };
                    let content = self.buffer_string();
                    self.emit_token(Token::SetextHeading { level, content });
                } else if is_spacy(c) {
                    self.set_state(State::ThematicBreak);
                } else {
                    self.reconsume_in_state(State::Data);
                }
            },
            None => {
                let level: u8 = if self.temporary_buffer[0] == '=' {
                    1
                } else {
                    2
                };
                let content = self.buffer_string();
                self.emit_token(Token::SetextHeading { level, content });
            },
        }
    }

    fn run_indented_code_block(&mut self)
        requires
            old(self).wf(),
        ensures
            final(self).wf(),
            final(self)@ == step_indented_code_block(old(self)@),
            same_frame(final(self)@, old(self)@),
    {
        match self.consume_next_char() {
            Some(c) if c == ' ' => {
                if self.buffer_is_three_spaces() {
                    self.set_state(State::IndentedCodeChunk);
                    self.clear_buffer();
                } else {
                    self.push_char(c);
                }
            },
            Some(c) if c == '\t' => {
                if self.temporary_buffer.len() == 0 {
                    self.set_state(State::IndentedCodeChunk);
                }
            },
            _ => {
                if self.temporary_buffer.len() > 0 {
                    let s = self.buffer_string();
                    self.emit_token(Token::IndentedCodeBlock(s));
                    self.clear_buffer();
                }
                self.reconsume_in_state(State::Data);
            },
        }
    }

    fn run_indented_code_chunk(&mut self)
        requires
            old(self).wf(),
        ensures
            final(self).wf(),
            final(self)@ == step_indented_code_chunk(old(self)@),
            same_frame(final(self)@, old(self)@),
    {
        match self.consume_next_char() {
            Some(c) => {
                if is_line_ending(c) {
                    self.skip_whitespaces(c);
                    self.set_state(State::IndentedCodeBlock);
                    self.push_char(c);
                } else {
                    self.push_char(c);
                }
            },
            None => {
                if self.temporary_buffer.len() > 0 {
                    let s = self.buffer_string();
                    self.emit_token(Token::IndentedCodeBlock(s));
                    self.clear_buffer();
                }
            },
        }
    }
}


fn stops(k: Stop, c: char) -> (r: bool)
    ensures
        r == stops_at(k, c),
{
    match k {
        Stop::LineEnding => is_line_ending(c),
        Stop::NonAlpha => !is_ascii_alpha(c),
        Stop::GreaterThan => c == '>',
    }
}

impl Lexer {
    /// Puts back the current character, the index of the next input
    /// character and the buffer.
    fn restore(&mut self, cur: Option<char>, cur_pos: usize, idx: usize, buf: Vec<char>)
        requires
            old(self).wf(),
            cur_pos <= idx <= old(self)@.text.len(),
        ensures
            final(self).wf(),
            final(self)@ == (LexerView { cur, cur_idx: cur_pos as nat, idx: idx as nat, buf: buf@, ..old(self)@ }),
    {
        self.input.reset_to(idx);
        self.cur = cur;
        self.cur_pos = cur_pos;
        self.temporary_buffer = buf;
        proof {
            self.lemma_pos();
        }
    }
}

impl Lexer {
    /// Consumes characters up to the first one at which `k` stops, which is
    /// not kept, or to the end; the others go to the end of `init`.
    fn scan_exclusive(&mut self, init: Vec<char>, k: Stop) -> (r: Vec<char>)
        requires
            old(self).wf(),
        ensures
            final(self).wf(),
            (final(self)@, r@) == scan_exclusive(old(self)@, init@, k),
            same_frame(final(self)@, old(self)@),
            moved_only(final(self)@, old(self)@),
            final(self)@.buf == old(self)@.buf,
    {
        let ghost m0 = self@;
        let ghost s0 = init@;
        let mut s = init;
        loop
            invariant
                self.wf(),
                m0 == old(self)@,
                s0 == init@,
                scan_exclusive(self@, s@, k) == scan_exclusive(m0, s0, k),
                same_frame(self@, m0),
                moved_only(self@, m0),
                self@.buf == m0.buf,
            decreases self@.text.len() - self@.idx,
        {
            let ghost before = self@;
            let ghost sb = s@;
            let c = self.consume_next_char();
            proof {
                assert(scan_exclusive(before, sb, k) == match before.next_char() {
                    None => (before.consume(), sb),
                    Some(c) => if stops_at(k, c) {
                        (before.consume(), sb)
                    } else {
                        scan_exclusive(before.consume(), sb.push(c), k)
                    },
                });
            }
            match c {
                None => {
                    return s;
                },
                Some(c) => {
                    if stops(k, c) {
                        return s;
                    }
                    s.push(c);
                },
            }
        }
    }

    /// Consumes characters up to and including the first one at which `k`
    /// stops, or to the end; all of them go to the end of `init`.
    fn scan_inclusive(&mut self, init: Vec<char>, k: Stop) -> (r: Vec<char>)
        requires
            old(self).wf(),
        ensures
            final(self).wf(),
            (final(self)@, r@) == scan_inclusive(old(self)@, init@, k),
            same_frame(final(self)@, old(self)@),
    {
        let ghost m0 = self@;
        let ghost s0 = init@;
        let mut s = init;
        loop
            invariant
                self.wf(),
                m0 == old(self)@,
                s0 == init@,
                scan_inclusive(self@, s@, k) == scan_inclusive(m0, s0, k),
                same_frame(self@, m0),
            decreases self@.text.len() - self@.idx,
        {
            let ghost before = self@;
            let ghost sb = s@;
            let c = self.consume_next_char();
            proof {
                assert(scan_inclusive(before, sb, k) == match before.next_char() {
                    None => (before.consume(), sb),
                    Some(c) => if stops_at(k, c) {
                        (before.consume(), sb.push(c))
                    } else {
                        scan_inclusive(before.consume(), sb.push(c), k)
                    },
                });
            }
            match c {
                None => {
                    return s;
                },
                Some(c) => {
                    s.push(c);
                    if stops(k, c) {
                        return s;
                    }
                },
            }
        }
    }

    fn run_atx_heading(&mut self)
        requires
            old(self).wf(),
        ensures
            final(self).wf(),
            final(self)@ == step_atx_heading(old(self)@),
            same_frame(final(self)@, old(self)@),
    {
        let ghost m = self@;
        let mut s = self.scan_exclusive(chars_copy(self.temporary_buffer.as_slice()), Stop::LineEnding);
        let closing = count_trailing(s.as_slice(), '#');
        if 1 <= closing && closing <= 6 {
            let n = s.len() - closing;
            s.truncate(n);
        }
        proof {
            assert(s@ =~= atx_text(atx_line(m).1));
        }
        let lead = count_leading(s.as_slice(), '#');
        let six: usize = if s.len() < 6 {
            s.len()
        } else {
            6
        };
        let head = vstd::slice::slice_subrange(s.as_slice(), 0, six);
        let level = count_leading(head, '#');
        proof {
            assert(head@ =~= s@.take(six as int));
        }
        let content = chars_skip(s.as_slice(), lead);
        let content = string_from_chars(content.as_slice());
        self.emit_token(Token::ATXHeading { level: level as u8, content });
        self.set_state(State::Data);
        self.clear_buffer();
    }
}


impl Lexer {
    /// Whether the buffer, at a line ending, closes a fenced code block.
    fn closes_fence_now(&self, fence: char, open_len: usize) -> (r: bool)
        ensures
            r == closes_fence(self@.buf, fence, open_len as nat),
    {
        let ls = lines_of(self.temporary_buffer.as_slice());
        let n = ls.len();
        if n == 0 {
            return false;
        }
        let last = trim_end_chars(ls[n - 1].as_slice());
        proof {
            assert(views(ls@).last() == ls@[n - 1]@);
        }
        count_leading(last.as_slice(), ' ') <= 3 && count_trailing(
            self.temporary_buffer.as_slice(),
            fence,
        ) == open_len
    }

    /// Reads the body of a fenced code block into the buffer.
    fn fence_scan(&mut self, fence: char, open_len: usize) -> (r: bool)
        requires
            old(self).wf(),
        ensures
            final(self).wf(),
            (final(self)@, r) == fence_scan(old(self)@, fence, open_len as nat),
            same_frame(final(self)@, old(self)@),
            moved_only(final(self)@, old(self)@),
    {
        let ghost m0 = self@;
        loop
            invariant
                self.wf(),
                m0 == old(self)@,
                fence_scan(self@, fence, open_len as nat) == fence_scan(m0, fence, open_len as nat),
                same_frame(self@, m0),
                moved_only(self@, m0),
            decreases self@.text.len() - self@.idx,
        {
            let ghost before = self@;
            let c = self.consume_next_char();
            match c {
                None => {
                    return false;
                },
                Some(c) => {
                    if is_line_ending(c) {
                        self.skip_whitespaces(c);
                        if self.closes_fence_now(fence, open_len) {
                            return true;
                        }
                        self.push_char('\n');
                    } else {
                        self.push_char(c);
                    }
                },
            }
        }
    }

    /// One step from the fenced code block state; `false` when the buffer is
    /// empty, or, with the body read, when it holds fewer than two lines.
    fn run_fenced_code_block(&mut self) -> (r: bool)
        requires
            old(self).wf(),
        ensures
            final(self).wf(),
            r == fenced_ok(old(self)@),
            r ==> final(self)@ == step_fenced_code_block(old(self)@),
            !r ==> final(self)@ == old(self)@,
            same_frame(final(self)@, old(self)@),
    {
        let ghost m = self@;
        if self.temporary_buffer.len() == 0 {
            return false;
        }
        let cur0 = self.cur;
        let cur_pos0 = self.cur_pos;
        let idx0 = self.input.cur_index();
        let buf0 = chars_copy(self.temporary_buffer.as_slice());
        let fence = self.temporary_buffer[0];
        let open_len = count_leading(self.temporary_buffer.as_slice(), fence);
        let closed = self.fence_scan(fence, open_len);
        let ls = lines_of(self.temporary_buffer.as_slice());
        let n = ls.len();
        if n < 2 {
            self.restore(cur0, cur_pos0, idx0, buf0);
            proof {
                assert(self@ == m);
            }
            return false;
        }
        let first_line = &ls[0];
        proof {
            assert(views(ls@)[0] == ls@[0]@);
        }
        let info_src = if open_len <= first_line.len() {
            chars_skip(first_line.as_slice(), open_len)
        } else {
            Vec::new()
        };
        proof {
            assert(info_src@ =~= skip_chars(views(ls@)[0], open_len as nat));
        }
        let info = trim_chars(info_src.as_slice());
        let content = join_line_range(&ls, 1, n - 1);
        let info = string_from_chars(info.as_slice());
        let content = string_from_chars(content.as_slice());
        self.emit_token(Token::FencedCodeBlock { info, content });
        if closed {
            self.set_state(State::Data);
        } else {
            self.reconsume_in_state(State::Data);
        }
        self.clear_buffer();
        true
    }
}


/// Whether the line read in an HTML block of the first kind ends the block,
/// as the lexer checks it.
fn ends_raw_block_exec(s: &[char]) -> (r: bool)
    ensures
        r == ends_raw_block(s@),
{
    let n = s.len();
    if n == 0 || s[n - 1] != '>' {
        return false;
    }
    let body = vstd::slice::slice_subrange(s, 0, n - 1);
    proof {
        assert(body@ =~= s@.drop_last());
    }
    let t_len = count_trailing_alpha(body);
    let tag = vstd::slice::slice_subrange(body, n - 1 - t_len, n - 1);
    proof {
        assert(tag@ =~= tag_before_gt(s@));
    }
    let lower = ascii_lower_chars(tag);
    if !is_raw_tag(lower.as_slice()) {
        return false;
    }
    let k = n - 1 - t_len;
    k >= 2 && s[k - 2] == '<' && s[k - 1] == '/'
}

fn ends_with_chars(s: &[char], t: &[char]) -> (r: bool)
    ensures
        r == ends_with(s@, t@),
{
    if t.len() > s.len() {
        return false;
    }
    let tail = vstd::slice::slice_subrange(s, s.len() - t.len(), s.len());
    proof {
        assert(tail@ =~= s@.skip(s@.len() - t@.len()));
    }
    chars_eq(tail, t)
}

impl Lexer {
    fn buffer_equals(&self, w: &[char]) -> (r: bool)
        ensures
            r == (self@.buf == w@),
    {
        let r = chars_eq(self.temporary_buffer.as_slice(), w);
        proof {
            if !r {
                assert(!(self@.buf =~= w@));
            }
        }
        r
    }

    fn run_html_block(&mut self)
        requires
            old(self).wf(),
        ensures
            final(self).wf(),
            final(self)@ == step_html_block(old(self)@),
            same_frame(final(self)@, old(self)@),
    {
        let lt = ['<'];
        proof {
            assert(lt@ =~= seq!['<']);
        }
        match self.consume_next_char() {
            Some(c) => {
                if c == '!' {
                    self.set_state(State::HTMLDeclarationOpen);
                    self.push_char(c);
                } else if c == '?' {
                    if self.buffer_equals(lt.as_slice()) {
                        self.set_state(State::HTMLProcessingInstruction);
                    }
                    self.push_char(c);
                } else if is_ascii_alpha(c) {
                    if self.temporary_buffer.len() > 0 && self.temporary_buffer[0] == '<' {
                        self.reconsume_in_state(State::HTMLTagName);
                    }
                    self.push_char(c);
                } else if c == '/' {
                    if self.buffer_equals(lt.as_slice()) {
                        self.set_state(State::HTMLTagName);
                    }
                    self.push_char(c);
                } else {
                    self.push_char(c);
                }
            },
            None => {
                self.reconsume_in_state(State::Data);
            },
        }
    }

    fn starts_closing_tag(&self) -> (r: bool)
        ensures
            r == starts_closing(self@.buf),
    {
        self.temporary_buffer.len() >= 2 && self.temporary_buffer[0] == '<'
            && self.temporary_buffer[1] == '/'
    }

    fn run_html_tag_name(&mut self)
        requires
            old(self).wf(),
        ensures
            final(self).wf(),
            final(self)@ == step_html_tag_name(old(self)@),
            same_frame(final(self)@, old(self)@),
    {
        let s = self.scan_exclusive(Vec::new(), Stop::NonAlpha);
        if self.cur.is_some() {
            self.reconsume();
        }
        let t = ascii_lower_chars(s.as_slice());
        if is_raw_tag(t.as_slice()) {
            if self.starts_closing_tag() {
                self.set_state(State::HTMLClosingTagName);
            } else {
                self.set_state(State::BeforeHTMLBlockType1);
            }
        } else if is_block_tag(t.as_slice()) {
            self.set_state(State::HTMLBlockType6);
        } else if self.starts_closing_tag() {
            self.set_state(State::HTMLClosingTagName);
        } else {
            self.set_state(State::HTMLOpenTagName);
        }
    }

    fn run_before_html_block_type1(&mut self)
        requires
            old(self).wf(),
        ensures
            final(self).wf(),
            final(self)@ == step_before_html_block_type1(old(self)@),
            same_frame(final(self)@, old(self)@),
    {
        match self.consume_next_char() {
            Some(c) => {
                if c == ' ' || c == '\t' || is_line_ending(c) {
                    self.skip_whitespaces(c);
                    self.set_state(State::HTMLBlockType1);
                    self.push_char(c);
                } else {
                    self.reconsume_in_state(State::HTMLBlock);
                }
            },
            None => {
                let s = self.buffer_string();
                self.emit_token(Token::HTMLBlock(s));
                self.clear_buffer();
                self.reconsume_in_state(State::Data);
            },
        }
    }

    fn run_html_block_type1(&mut self)
        requires
            old(self).wf(),
        ensures
            final(self).wf(),
            final(self)@ == step_html_block_type1(old(self)@),
            same_frame(final(self)@, old(self)@),
    {
        let ghost m = self@;
        let b = self.buffer_string();
        let s = self.scan_inclusive(Vec::new(), Stop::GreaterThan);
        self.emit_token(Token::HTMLBlock(b));
        if ends_raw_block_exec(s.as_slice()) {
            self.set_state(State::Data);
            self.clear_buffer();
        } else {
            self.reconsume_in_state(State::Data);
            self.clear_buffer();
        }
    }

    fn run_html_declaration_open(&mut self)
        requires
            old(self).wf(),
        ensures
            final(self).wf(),
            final(self)@ == step_html_declaration_open(old(self)@),
            same_frame(final(self)@, old(self)@),
    {
        let open = ['<', '!'];
        let cdata = ['<', '!', '[', 'C', 'D', 'A', 'T', 'A'];
        proof {
            assert(open@ =~= seq!['<', '!']);
            assert(cdata@ =~= seq!['<', '!', '[', 'C', 'D', 'A', 'T', 'A']);
        }
        match self.consume_next_char() {
            Some(c) => {
                if c == '-' {
                    if self.buffer_equals(open.as_slice()) {
                        self.set_state(State::HTMLComment);
                    }
                    self.push_char(c);
                } else if is_ascii_alpha(c) {
                    if self.buffer_equals(open.as_slice()) {
                        self.set_state(State::HTMLDeclaration);
                    }
                    self.push_char(c);
                } else if c == '[' {
                    if self.buffer_equals(cdata.as_slice()) {
                        self.set_state(State::HTMLCDATASection);
                    }
                    self.push_char(c);
                } else {
                    self.reconsume_in_state(State::Data);
                }
            },
            None => {
                self.reconsume_in_state(State::Data);
            },
        }
    }

    fn run_html_declaration(&mut self)
        requires
            old(self).wf(),
        ensures
            final(self).wf(),
            final(self)@ == step_html_declaration(old(self)@),
            same_frame(final(self)@, old(self)@),
    {
        let buf = chars_copy(self.temporary_buffer.as_slice());
        let s = self.scan_inclusive(buf, Stop::GreaterThan);
        let t = string_from_chars(s.as_slice());
        let ends = s.len() > 0 && s[s.len() - 1] == '>';
        self.set_buffer(s);
        self.emit_token(Token::HTMLBlock(t));
        if ends {
            self.set_state(State::Data);
        } else {
            self.reconsume_in_state(State::Data);
        }
    }

    /// Reads to a `>`, emits the buffer, and checks how the text read ends.
    fn run_html_closed_by(&mut self, min_len: usize, end: &[char])
        requires
            old(self).wf(),
            min_len <= 9,
        ensures
            final(self).wf(),
            final(self)@ == step_html_closed_by(old(self)@, min_len as nat, end@),
            same_frame(final(self)@, old(self)@),
    {
        let b = self.buffer_string();
        let s = self.scan_inclusive(Vec::new(), Stop::GreaterThan);
        self.emit_token(Token::HTMLBlock(b));
        if utf8_len_capped(s.as_slice(), 10) >= min_len && ends_with_chars(s.as_slice(), end) {
            self.set_state(State::Data);
        } else {
            self.reconsume_in_state(State::Data);
        }
        self.clear_buffer();
    }

    fn run_html_comment(&mut self)
        requires
            old(self).wf(),
        ensures
            final(self).wf(),
            final(self)@ == step_html_comment(old(self)@),
            same_frame(final(self)@, old(self)@),
    {
        let end = ['-', '-', '>'];
        proof {
            assert(end@ =~= seq!['-', '-', '>']);
        }
        self.run_html_closed_by(4, end.as_slice());
    }

    fn run_html_processing_instruction(&mut self)
        requires
            old(self).wf(),
        ensures
            final(self).wf(),
            final(self)@ == step_html_processing_instruction(old(self)@),
            same_frame(final(self)@, old(self)@),
    {
        let end = ['?', '>'];
        proof {
            assert(end@ =~= seq!['?', '>']);
        }
        self.run_html_closed_by(2, end.as_slice());
    }

    fn run_html_cdata_section(&mut self)
        requires
            old(self).wf(),
        ensures
            final(self).wf(),
            final(self)@ == step_html_cdata_section(old(self)@),
            same_frame(final(self)@, old(self)@),
    {
        let end = [']', ']', '>'];
        proof {
            assert(end@ =~= seq![']', ']', '>']);
        }
        self.run_html_closed_by(9, end.as_slice());
    }

    fn run_html_block_type6(&mut self)
        requires
            old(self).wf(),
        ensures
            final(self).wf(),
            final(self)@ == step_html_block_type6(old(self)@),
            same_frame(final(self)@, old(self)@),
    {
        match self.consume_next_char() {
            Some(c) => {
                if c == ' ' || c == '\t' || is_line_ending(c) || c == '>' {
                    self.skip_whitespaces(c);
                    self.set_state(State::HTMLBlankLine);
                    self.push_char(c);
                } else if c == '/' {
                    self.push_char(c);
                } else {
                    self.reconsume_in_state(State::HTMLBlock);
                }
            },
            None => {
                let s = self.buffer_string();
                self.emit_token(Token::HTMLBlock(s));
                self.reconsume_in_state(State::Data);
                self.clear_buffer();
            },
        }
    }

    fn run_html_open_tag_name(&mut self)
        requires
            old(self).wf(),
        ensures
            final(self).wf(),
            final(self)@ == step_html_open_tag_name(old(self)@),
            same_frame(final(self)@, old(self)@),
    {
        match self.consume_next_char() {
            Some(c) => {
                if is_ascii_alpha(c) || is_ascii_digit(c) || c == '-' {
                    self.push_char(c);
                } else if is_spacy(c) {
                    self.skip_whitespaces(c);
                    self.reconsume_in_state(State::HTMLAttributes);
                } else {
                    self.reconsume_in_state(State::Data);
                }
            },
            None => {
                self.reconsume_in_state(State::Data);
            },
        }
    }

    fn run_html_closing_tag_name(&mut self)
        requires
            old(self).wf(),
        ensures
            final(self).wf(),
            final(self)@ == step_html_closing_tag_name(old(self)@),
            same_frame(final(self)@, old(self)@),
    {
        match self.consume_next_char() {
            Some(c) => {
                if is_ascii_alpha(c) || is_ascii_digit(c) || c == '-' {
                    self.push_char(c);
                } else if is_spacy(c) {
                    self.reconsume_in_state(State::HTMLClosingTag);
                } else {
                    self.reconsume_in_state(State::Data);
                }
            },
            None => {
                self.reconsume_in_state(State::Data);
            },
        }
    }

    fn run_html_closing_tag(&mut self)
        requires
            old(self).wf(),
        ensures
            final(self).wf(),
            final(self)@ == step_html_closing_tag(old(self)@),
            same_frame(final(self)@, old(self)@),
    {
        match self.consume_next_char() {
            Some(c) => {
                if is_spacy(c) {
                    self.skip_whitespaces(c);
                    self.set_state(State::HTMLBlankLine);
                    self.push_char(c);
                } else if c == '>' {
                    if self.temporary_buffer.len() == 0 || self.temporary_buffer[0] == '/' {
                        self.set_state(State::HTMLBlankLine);
                    } else {
                        self.set_state(State::HTMLClosingTag);
                    }
                    self.push_char(c);
                } else if c == '/' {
                    self.push_char(c);
                } else {
                    self.reconsume_in_state(State::HTMLBlock);
                }
            },
            None => {
                let s = self.buffer_string();
                self.emit_token(Token::HTMLBlock(s));
                self.reconsume_in_state(State::Data);
                self.clear_buffer();
            },
        }
    }

    fn run_html_blank_line(&mut self)
        requires
            old(self).wf(),
        ensures
            final(self).wf(),
            final(self)@ == step_html_blank_line(old(self)@),
            same_frame(final(self)@, old(self)@),
    {
        let b = self.buffer_string();
        let s = self.scan_inclusive(Vec::new(), Stop::LineEnding);
        let ls = lines_of(s.as_slice());
        let n = ls.len();
        let blank = if n > 0 {
            let last = strip_cr_chars(chars_copy(ls[n - 1].as_slice()));
            is_blank_line(last.as_slice())
        } else {
            false
        };
        proof {
            if n > 0 {
                assert(views(ls@).last() == ls@[n - 1]@);
            }
        }
        if blank {
            self.skip_whitespaces(s[s.len() - 1]);
            self.emit_token(Token::HTMLBlock(b));
            self.set_state(State::Data);
            self.clear_buffer();
        } else {
            self.emit_token(Token::HTMLBlock(b));
            self.reconsume_in_state(State::Data);
            self.clear_buffer();
        }
    }

    fn run_html_attributes(&mut self)
        requires
            old(self).wf(),
        ensures
            final(self).wf(),
            final(self)@ == step_html_attributes(old(self)@),
            same_frame(final(self)@, old(self)@),
    {
        match self.consume_next_char() {
            Some(c) => {
                if is_spacy(c) || is_ascii_alpha(c) || c == '_' || c == ':' {
                    self.reconsume_in_state(State::HTMLAttribute);
                    self.set_line_ending_count(0);
                } else if c == '/' || c == '>' {
                    self.reconsume_in_state(State::HTMLAttributes);
                } else {
                    self.reconsume_in_state(State::Data);
                }
            },
            None => {
                self.reconsume_in_state(State::Data);
            },
        }
    }

    fn run_after_html_attributes(&mut self)
        requires
            old(self).wf(),
        ensures
            final(self).wf(),
            final(self)@ == step_after_html_attributes(old(self)@),
            same_frame(final(self)@, old(self)@),
    {
        match self.consume_next_char() {
            Some(c) => {
                if c == ' ' || c == '\t' || c == '/' {
                    self.push_char(c);
                } else if is_line_ending(c) {
                    self.skip_whitespaces(c);
                    self.count_line_ending();
                    self.push_char(c);
                } else if c == '>' {
                    self.reconsume_in_state(State::HTMLBlankLine);
                } else {
                    self.reconsume_in_state(State::Data);
                }
            },
            None => {
                self.reconsume_in_state(State::Data);
            },
        }
    }

    fn run_html_attribute(&mut self)
        requires
            old(self).wf(),
        ensures
            final(self).wf(),
            final(self)@ == step_html_attribute(old(self)@),
            same_frame(final(self)@, old(self)@),
    {
        match self.consume_next_char() {
            Some(c) => {
                if c == ' ' || c == '\t' {
                } else if is_line_ending(c) {
                    self.skip_whitespaces(c);
                    self.count_line_ending();
                    self.push_char(c);
                } else if is_ascii_alpha(c) || c == '_' || c == ':' {
                    self.reconsume_in_state(State::HTMLAttributeName);
                } else {
                    self.reconsume_in_state(State::Data);
                }
            },
            None => {
                self.reconsume_in_state(State::Data);
            },
        }
    }

    fn run_html_attribute_name(&mut self)
        requires
            old(self).wf(),
        ensures
            final(self).wf(),
            final(self)@ == step_html_attribute_name(old(self)@),
            same_frame(final(self)@, old(self)@),
    {
        match self.consume_next_char() {
            Some(c) => {
                if is_ascii_alpha(c) || c == '_' || c == ':' {
                    self.push_char(c);
                } else if c == '.' || c == '-' {
                    if self.temporary_buffer.len() == 0 {
                        self.reconsume_in_state(State::Data);
                    } else {
                        self.push_char(c);
                    }
                } else {
                    let n = self.temporary_buffer.len();
                    let ends_name = n > 0 && {
                        let last = self.temporary_buffer[n - 1];
                        is_ascii_alpha(last) || last == ':' || last == '.' || last == '-'
                    };
                    if ends_name {
                        self.reconsume_in_state(State::HTMLAttributeValueSpecification);
                        self.set_line_ending_count(0);
                    } else {
                        self.reconsume_in_state(State::Data);
                    }
                }
            },
            None => {
                self.reconsume_in_state(State::Data);
            },
        }
    }

    fn run_html_attribute_value_specification(&mut self)
        requires
            old(self).wf(),
        ensures
            final(self).wf(),
            final(self)@ == step_html_attribute_value_specification(old(self)@),
            same_frame(final(self)@, old(self)@),
    {
        match self.consume_next_char() {
            Some(c) => {
                if c == ' ' || c == '\t' {
                    self.push_char(c);
                } else if is_line_ending(c) {
                    self.skip_whitespaces(c);
                    self.count_line_ending();
                    self.push_char(c);
                } else if c == '=' {
                    self.set_state(State::HTMLAttributeValue);
                    self.set_line_ending_count(0);
                    self.push_char(c);
                } else {
                    self.reconsume_in_state(State::Data);
                }
            },
            None => {
                self.reconsume_in_state(State::Data);
            },
        }
    }

    fn run_html_attribute_value(&mut self)
        requires
            old(self).wf(),
        ensures
            final(self).wf(),
            final(self)@ == step_html_attribute_value(old(self)@),
            same_frame(final(self)@, old(self)@),
    {
        match self.consume_next_char() {
            Some(c) => {
                if c == '\'' {
                    self.set_state(State::HTMLSingleQuotedAttribute);
                    self.push_char(c);
                } else if c == '"' {
                    self.set_state(State::HTMLDoubleQuotedAttribute);
                    self.push_char(c);
                } else {
                    self.reconsume_in_state(State::HTMLUnquotedAttribute);
                }
            },
            None => {
                self.reconsume_in_state(State::Data);
            },
        }
    }

    fn run_html_unquoted_attribute(&mut self)
        requires
            old(self).wf(),
        ensures
            final(self).wf(),
            final(self)@ == step_html_unquoted_attribute(old(self)@),
            same_frame(final(self)@, old(self)@),
    {
        match self.consume_next_char() {
            Some(c) => {
                if is_spacy(c) {
                    self.skip_whitespaces(c);
                    self.reconsume_in_state(State::HTMLAttributes);
                } else if c == '\'' || c == '"' || c == '=' || c == '<' || c == '>' || c == '`' {
                    self.reconsume_in_state(State::Data);
                } else {
                    self.push_char(c);
                }
            },
            None => {
                self.reconsume_in_state(State::Data);
            },
        }
    }

    fn run_html_single_quoted_attribute(&mut self)
        requires
            old(self).wf(),
        ensures
            final(self).wf(),
            final(self)@ == step_html_single_quoted_attribute(old(self)@),
            same_frame(final(self)@, old(self)@),
    {
        match self.consume_next_char() {
            Some(c) => {
                if c == '\'' {
                    self.set_state(State::HTMLAttributes);
                    self.push_char(c);
                } else {
                    self.push_char(c);
                }
            },
            None => {
                self.reconsume_in_state(State::Data);
            },
        }
    }

    fn run_html_double_quoted_attribute(&mut self)
        requires
            old(self).wf(),
        ensures
            final(self).wf(),
            final(self)@ == step_html_double_quoted_attribute(old(self)@),
            same_frame(final(self)@, old(self)@),
    {
        match self.consume_next_char() {
            Some(c) => {
                if c == '"' {
                    self.set_state(State::HTMLAttributes);
                    self.push_char(c);
                } else {
                    self.reconsume_in_state(State::Data);
                }
            },
            None => {
                self.reconsume_in_state(State::Data);
            },
        }
    }
}


impl Lexer {
    fn run_link_label(&mut self)
        requires
            old(self).wf(),
        ensures
            final(self).wf(),
            final(self)@ == step_link_label(old(self)@),
            same_frame(final(self)@, old(self)@),
    {
        match self.consume_next_char() {
            Some(c) => {
                if is_spacy(c) {
                    self.skip_whitespaces(c);
                    self.reconsume_in_state(State::Data);
                } else if c == ']' {
                    self.set_state(State::AfterLinkLabel);
                    self.push_char(c);
                } else if utf8_len_capped(self.temporary_buffer.as_slice(), 1000) == 999 {
                    self.reconsume_in_state(State::Data);
                } else {
                    self.push_char(c);
                }
            },
            None => {
                self.reconsume_in_state(State::Data);
            },
        }
    }

    fn run_after_link_label(&mut self)
        requires
            old(self).wf(),
            after_link_label_ok(old(self)@),
        ensures
            final(self).wf(),
            final(self)@ == step_after_link_label(old(self)@),
            same_frame(final(self)@, old(self)@),
    {
        match self.consume_next_char() {
            Some(c) => {
                if c == ':' {
                    self.push_char(c);
                } else if c == ' ' || c == '\t' {
                    let k = first_close_bracket_exec(self.temporary_buffer.as_slice());
                    if self.temporary_buffer[k] == ':' {
                        self.push_char(c);
                    } else {
                        self.reconsume_in_state(State::Data);
                    }
                } else if is_line_ending(c) {
                    self.skip_whitespaces(c);
                    self.count_line_ending();
                    self.push_char(c);
                } else if self.temporary_buffer.len() > 0 && self.temporary_buffer[0] == ':' {
                    self.set_state(State::LinkDestination);
                }
            },
            None => {
                self.reconsume_in_state(State::Data);
            },
        }
    }

    fn run_link_destination(&mut self)
        requires
            old(self).wf(),
        ensures
            final(self).wf(),
            final(self)@ == step_link_destination(old(self)@),
            same_frame(final(self)@, old(self)@),
    {
        match self.consume_next_char() {
            Some(c) => {
                if c == '<' {
                    if self.temporary_buffer.len() == 0 {
                        self.set_state(State::BracedLinkDestination);
                    }
                    self.push_char(c);
                } else {
                    self.reconsume_in_state(State::Data);
                }
            },
            None => {
                self.reconsume_in_state(State::Data);
            },
        }
    }

    fn run_braced_link_destination(&mut self)
        requires
            old(self).wf(),
        ensures
            final(self).wf(),
            final(self)@ == step_braced_link_destination(old(self)@),
            same_frame(final(self)@, old(self)@),
    {
        match self.consume_next_char() {
            Some(c) => {
                if c == '>' {
                    self.set_state(State::BeforeLinkTitle);
                    self.push_char(c);
                } else if is_line_ending(c) {
                    self.skip_whitespaces(c);
                    self.reconsume_in_state(State::Data);
                } else {
                    self.push_char(c);
                }
            },
            None => {
                self.reconsume_in_state(State::Data);
            },
        }
    }

    fn run_unquoted_link_destination(&mut self)
        requires
            old(self).wf(),
        ensures
            final(self).wf(),
            final(self)@ == step_unquoted_link_destination(old(self)@),
            same_frame(final(self)@, old(self)@),
    {
        match self.consume_next_char() {
            Some(c) => {
                if c == ' ' || is_control(c as u32) {
                    self.reconsume_in_state(State::BeforeLinkTitle);
                } else if c == '(' {
                    let n = self.temporary_buffer.len();
                    if n > 0 && self.temporary_buffer[n - 1] == '\\' {
                        self.push_char(c);
                    } else {
                        self.reconsume_in_state(State::BalancedParenthesisPairState);
                    }
                } else if is_line_ending(c) {
                    self.skip_whitespaces(c);
                    self.reconsume_in_state(State::Data);
                } else {
                    self.push_char(c);
                }
            },
            None => {
                self.reconsume_in_state(State::Data);
            },
        }
    }

    fn run_balanced_parenthesis_pair(&mut self)
        requires
            old(self).wf(),
        ensures
            final(self).wf(),
            final(self)@ == step_balanced_parenthesis_pair(old(self)@),
            same_frame(final(self)@, old(self)@),
    {
        match self.consume_next_char() {
            Some(c) => {
                if c == ')' {
                    self.reconsume_in_state(State::UnquotedLinkDestination);
                } else if is_line_ending(c) {
                    self.skip_whitespaces(c);
                    self.reconsume_in_state(State::Data);
                } else {
                    self.push_char(c);
                }
            },
            None => {
                self.reconsume_in_state(State::Data);
            },
        }
    }

    fn run_before_link_title(&mut self)
        requires
            old(self).wf(),
        ensures
            final(self).wf(),
            final(self)@ == step_before_link_title(old(self)@),
            same_frame(final(self)@, old(self)@),
    {
        match self.consume_next_char() {
            Some(c) => {
                if c == ' ' || c == '\t' {
                    self.push_char(c);
                } else if is_line_ending(c) {
                    self.skip_whitespaces(c);
                    self.count_line_ending();
                    self.push_char(c);
                } else if c == '"' {
                    self.reconsume_in_state(State::DoubleQuotedLinkTitle);
                } else if c == '\'' {
                    self.reconsume_in_state(State::SingleQuotedLinkTitle);
                } else if c == '(' {
                    self.reconsume_in_state(State::ParentheticalLinkTitle);
                } else {
                    self.reconsume_in_state(State::Data);
                }
            },
            None => {
                self.reconsume_in_state(State::Data);
            },
        }
    }

    /// The link title states: `close` ends the title, and a buffer that
    /// ends with an unescaped `open` goes back to the data state.
    fn run_link_title(&mut self, close: char, open: char)
        requires
            old(self).wf(),
        ensures
            final(self).wf(),
            final(self)@ == step_link_title(old(self)@, close, open),
            same_frame(final(self)@, old(self)@),
    {
        match self.consume_next_char() {
            Some(c) => {
                let n = self.temporary_buffer.len();
                if c == close {
                    self.set_state(State::AfterLinkTitle);
                    self.push_char(c);
                } else if n > 0 && self.temporary_buffer[n - 1] == open && !(n >= 2
                    && self.temporary_buffer[n - 2] == '\\') {
                    self.reconsume_in_state(State::Data);
                } else {
                    self.push_char(c);
                }
            },
            None => {
                self.reconsume_in_state(State::Data);
            },
        }
    }

    fn run_after_link_title(&mut self)
        requires
            old(self).wf(),
        ensures
            final(self).wf(),
            final(self)@ == step_after_link_title(old(self)@),
            same_frame(final(self)@, old(self)@),
    {
        match self.consume_next_char() {
            Some(c) => {
                if is_line_ending(c) {
                    self.skip_whitespaces(c);
                } else {
                    self.reconsume_in_state(State::Data);
                }
            },
            None => {
                self.reconsume_in_state(State::Data);
            },
        }
    }

    /// One step of the lexer from its current state.
    fn run(&mut self) -> (r: LexResult<()>)
        requires
            old(self).wf(),
            step_ok(old(self)@),
        ensures
            final(self).wf(),
            final(self)@ == step(old(self)@),
            same_frame(final(self)@, old(self)@),
            r is Ok,
    {
        proof {
            reveal(step);
        }
        match self.state {
            State::Data => self.run_data(),
            State::ThematicBreak => self.run_thematic_break(),
            State::ATXHeading => self.run_atx_heading(),
            State::SetextHeading => self.run_setext_heading(),
            State::IndentedCodeBlock => self.run_indented_code_block(),
            State::IndentedCodeChunk => self.run_indented_code_chunk(),
            State::FencedCodeBlock => {
                self.run_fenced_code_block();
            },
            State::HTMLBlock => self.run_html_block(),
            State::HTMLTagName => self.run_html_tag_name(),
            State::BeforeHTMLBlockType1 => self.run_before_html_block_type1(),
            State::HTMLBlockType1 => self.run_html_block_type1(),
            State::HTMLDeclarationOpen => self.run_html_declaration_open(),
            State::HTMLComment => self.run_html_comment(),
            State::HTMLProcessingInstruction => self.run_html_processing_instruction(),
            State::HTMLDeclaration => self.run_html_declaration(),
            State::HTMLCDATASection => self.run_html_cdata_section(),
            State::HTMLBlockType6 => self.run_html_block_type6(),
            State::HTMLOpenTagName => self.run_html_open_tag_name(),
            State::HTMLClosingTagName => self.run_html_closing_tag_name(),
            State::HTMLClosingTag => self.run_html_closing_tag(),
            State::HTMLBlankLine => self.run_html_blank_line(),
            State::HTMLAttributes => self.run_html_attributes(),
            State::AfterHTMLAttributes => self.run_after_html_attributes(),
            State::HTMLAttribute => self.run_html_attribute(),
            State::HTMLAttributeName => self.run_html_attribute_name(),
            State::HTMLAttributeValueSpecification => self.run_html_attribute_value_specification(),
            State::HTMLAttributeValue => self.run_html_attribute_value(),
            State::HTMLUnquotedAttribute => self.run_html_unquoted_attribute(),
            State::HTMLSingleQuotedAttribute => self.run_html_single_quoted_attribute(),
            State::HTMLDoubleQuotedAttribute => self.run_html_double_quoted_attribute(),
            State::LinkLabel => self.run_link_label(),
            State::AfterLinkLabel => self.run_after_link_label(),
            State::LinkDestination => self.run_link_destination(),
            State::BracedLinkDestination => self.run_braced_link_destination(),
            State::UnquotedLinkDestination => self.run_unquoted_link_destination(),
            State::BalancedParenthesisPairState => self.run_balanced_parenthesis_pair(),
            State::BeforeLinkTitle => self.run_before_link_title(),
            State::DoubleQuotedLinkTitle => self.run_link_title('"', '"'),
            State::SingleQuotedLinkTitle => self.run_link_title('\'', '\''),
            State::ParentheticalLinkTitle => self.run_link_title(')', '\''),
            State::AfterLinkTitle => self.run_after_link_title(),
        }
        Ok(())
    }
}

impl Lexer {
    /// One step of the lexer, unless that step would fail: `false` then, and
    /// the lexer is left well formed.
    fn try_run(&mut self) -> (r: bool)
        requires
            old(self).wf(),
        ensures
            final(self).wf(),
            r == step_ok(old(self)@),
            r ==> final(self)@ == step(old(self)@),
            !r ==> final(self)@ == old(self)@,
            same_frame(final(self)@, old(self)@),
    {
        proof {
            reveal(step);
        }
        match self.state {
            State::FencedCodeBlock => self.run_fenced_code_block(),
            State::SetextHeading => {
                let c = self.next_input_char();
                let at_line_end = match c {
                    None => true,
                    Some(c) => is_line_ending(c),
                };
                if at_line_end && self.temporary_buffer.len() == 0 {
                    return false;
                }
                self.run_setext_heading();
                true
            },
            State::AfterLinkLabel => {
                let c = self.next_input_char();
                let spacy = c == Some(' ') || c == Some('\t');
                if spacy && !chars_contain(self.temporary_buffer.as_slice(), ']') {
                    return false;
                }
                self.run_after_link_label();
                true
            },
            _ => {
                let _ = self.run();
                true
            },
        }
    }
}

/// The index of the first `]` in `s`.
fn first_close_bracket_exec(s: &[char]) -> (r: usize)
    requires
        has_char(s@, ']'),
    ensures
        r == first_close_bracket(s@),
        r < s@.len(),
        s@[r as int] == ']',
{
    let mut i: usize = 0;
    proof {
        assert(s@.skip(0) =~= s@);
    }
    while s[i] != ']'
        invariant
            i < s@.len(),
            has_char(s@.skip(i as int), ']'),
            first_close_bracket(s@) == i + first_close_bracket(s@.skip(i as int)),
        decreases s@.len() - i,
    {
        proof {
            assert(s@.skip(i as int).drop_first() =~= s@.skip(i + 1));
            let w = choose|j: int| 0 <= j < s@.skip(i as int).len() && s@.skip(i as int)[j] == ']';
            assert(w > 0);
            assert(s@.skip(i + 1)[w - 1] == ']');
        }
        i += 1;
    }
    i
}


impl Lexer {
    fn read_token_and_span(&mut self) -> (r: LexResult<TokenAndSpan>)
        requires
            old(self).wf(),
            !old(self)@.finished ==> reaches_token(old(self)@),
        ensures
            final(self).wf(),
            old(self)@.finished ==> r == Err::<TokenAndSpan, ErrorKind>(ErrorKind::Eof),
            old(self)@.finished ==> final(self)@ == old(self)@,
            !old(self)@.finished ==> final(self)@ == after_next(old(self)@) && match r {
                Ok(t) => Some(t@) == next_token(old(self)@),
                Err(e) => e == ErrorKind::Eof && next_token(old(self)@) is None,
            },
            r matches Ok(t) ==> old(self)@.covers(t.span),
            final(self)@.text == old(self)@.text,
            final(self)@.start == old(self)@.start,
            final(self)@.errors == old(self)@.errors,
    {
        if self.finished {
            return Err(ErrorKind::Eof);
        }
        let ghost m0 = self@;
        let ghost f0: nat = choose|f: nat| #[trigger] drain(m0, f) is Some;
        let ghost mut fuel: nat = f0;
        while self.pending_tokens.len() == 0
            invariant
                self.wf(),
                drain(self@, fuel) is Some,
                drain(self@, fuel) == drain(m0, f0),
                same_frame(self@, m0),
            decreases fuel,
        {
            let ghost before = self@;
            proof {
                assert(before.pending.len() == 0);
            }
            self.run()?;
            proof {
                fuel = (fuel - 1) as nat;
            }
        }
        proof {
            lemma_drained(m0, f0);
            assert(drained(m0) == self@);
        }
        let ghost d = self@;
        let token_and_span = match self.pending_tokens.pop_front() {
            Some(t) => t,
            None => {
                proof {
                    assert(false);
                }
                return Err(ErrorKind::Eof);
            },
        };
        proof {
            assert(self@.pending =~= d.pending.drop_first());
            assert(token_and_span@ == d.pending[0]);
            assert(d.covers(d.pending[0].span));
        }
        match &token_and_span.token {
            Token::Eof => {
                self.finished = true;
                Err(ErrorKind::Eof)
            },
            _ => Ok(token_and_span),
        }
    }

    /// Hands out the next token; `None` at the end of the text and ever
    /// after.
    ///
    /// Unless the lexer is finished, the steps up to the next token must not
    /// fail and must come to a token: from some states the lexer steps
    /// forever without emitting one (in the indented code chunk state at the
    /// end of the text, for one). A setext heading that ends the text is
    /// handed out again on every call, since the setext heading state emits
    /// it at each step there and never reaches the end of file.
    pub fn next(&mut self) -> (r: Option<TokenAndSpan>)
        requires
            old(self).wf(),
            !old(self)@.finished ==> reaches_token(old(self)@),
        ensures
            final(self).wf(),
            old(self)@.finished ==> r is None && final(self)@ == old(self)@,
            !old(self)@.finished ==> final(self)@ == after_next(old(self)@),
            match r {
                Some(t) => Some(t@) == next_token(old(self)@),
                None => next_token(old(self)@) is None,
            },
            r matches Some(t) ==> old(self)@.covers(t.span),
            final(self)@.text == old(self)@.text,
            final(self)@.start == old(self)@.start,
            final(self)@.errors == old(self)@.errors,
            spans_ordered(old(self)@) ==> spans_ordered(final(self)@),
    {
        proof {
            if spans_ordered(self@) && !self@.finished {
                lemma_spans_in_order(self@);
            }
        }
        let token_and_span = self.read_token_and_span();
        match token_and_span {
            Ok(token_and_span) => Some(token_and_span),
            Err(..) => None,
        }
    }

    /// Hands out the next token, as `next` does, within at most `fuel` steps
    /// of the lexer: `Some(None)` at the end of the text and ever after, and
    /// `None` when the fuel runs out before a token is reached or the next
    /// step would fail. After `None` the lexer stands where those steps
    /// stopped, before the step that would fail.
    pub fn next_within(&mut self, fuel: u64) -> (r: Option<Option<TokenAndSpan>>)
        requires
            old(self).wf(),
        ensures
            final(self).wf(),
            old(self)@.finished ==> r == Some(None::<TokenAndSpan>) && final(self)@ == old(
                self,
            )@,
            !old(self)@.finished ==> (r is Some <==> drain(old(self)@, fuel as nat) is Some),
            !old(self)@.finished && r is Some ==> final(self)@ == after_next(old(self)@),
            r is None ==> final(self)@ == steps_within(old(self)@, fuel as nat),
            match r {
                Some(Some(t)) => Some(t@) == next_token(old(self)@),
                Some(None) => next_token(old(self)@) is None,
                None => true,
            },
            r matches Some(Some(t)) ==> old(self)@.covers(t.span),
            final(self)@.text == old(self)@.text,
            final(self)@.start == old(self)@.start,
            final(self)@.errors == old(self)@.errors,
            spans_ordered(old(self)@) ==> spans_ordered(final(self)@),
    {
        if self.finished {
            return Some(None);
        }
        let ghost m0 = self@;
        proof {
            if spans_ordered(m0) {
                lemma_steps_within_ordered(m0, fuel as nat);
                if drain(m0, fuel as nat) is Some {
                    lemma_spans_in_order(m0);
                }
            }
        }
        let mut left: u64 = fuel;
        while self.pending_tokens.len() == 0
            invariant
                self.wf(),
                m0 == old(self)@,
                !m0.finished,
                drain(self@, left as nat) == drain(m0, fuel as nat),
                steps_within(self@, left as nat) == steps_within(m0, fuel as nat),
                spans_ordered(m0) ==> spans_ordered(steps_within(m0, fuel as nat)),
                same_frame(self@, m0),
            decreases left,
        {
            if left == 0 {
                proof {
                    assert(self@ == steps_within(m0, fuel as nat));
                }
                return None;
            }
            if !self.try_run() {
                proof {
                    assert(self@ == steps_within(m0, fuel as nat));
                }
                return None;
            }
            left = left - 1;
        }
        proof {
            assert(drain(self@, left as nat) == Some(self@));
            lemma_drained(m0, fuel as nat);
            assert(drain(self@, 0) is Some);
            lemma_drained(self@, 0);
        }
        let ghost m1 = self@;
        let t = self.read_token_and_span();
        proof {
            assert(after_next(m1) == after_next(m0));
            assert(next_token(m1) == next_token(m0));
        }
        match t {
            Ok(t) => Some(Some(t)),
            Err(..) => Some(None),
        }
    }

    /// Whether the end of the text has been handed out.
    pub fn is_finished(&self) -> (r: bool)
        ensures
            r == self@.finished,
    {
        self.finished
    }
}

} // verus!
