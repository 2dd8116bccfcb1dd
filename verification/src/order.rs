//! The order of the tokens' spans: every step keeps the spans of the pending
//! tokens in the order of the text, behind where the next span starts, so
//! the tokens are handed out in the order of the text they cover.
use vstd::prelude::*;
use crate::chars::utf8_size;
use crate::input::lemma_utf8_size_take_mono;
use crate::token::TokenView;
use crate::machine::{
    fence_scan, scan_exclusive, scan_inclusive, step, step_ok, drain,
    drained, after_next, next_token, reaches_token, lemma_drained, steps_within, LexerView, State, Stop,
    fence_char, fence_len, step_after_html_attributes, step_after_link_label, step_after_link_title, step_atx_heading, step_balanced_parenthesis_pair, step_before_html_block_type1, step_before_link_title, step_braced_link_destination, step_data, step_fenced_code_block, step_html_attribute, step_html_attribute_name, step_html_attribute_value, step_html_attribute_value_specification, step_html_attributes, step_html_blank_line, step_html_block, step_html_block_type1, step_html_block_type6, step_html_cdata_section, step_html_closing_tag, step_html_closing_tag_name, step_html_comment, step_html_declaration, step_html_declaration_open, step_html_double_quoted_attribute, step_html_open_tag_name, step_html_processing_instruction, step_html_single_quoted_attribute, step_html_tag_name, step_html_unquoted_attribute, step_indented_code_block, step_indented_code_chunk, step_link_destination, step_link_label, step_link_title, step_setext_heading, step_thematic_break, step_unquoted_link_destination,
};

verus! {

/// The spans of the pending tokens run forward, one after another, between
/// `floor` and the position where the next span starts; and the next span
/// starts no later than the next input character, or just after it in the
/// data state, which always consumes a character before it emits.
pub open spec fn ordered_from(m: LexerView, floor: int) -> bool {
    &&& m.cur_idx <= m.idx <= m.text.len()
    &&& m.last_idx <= m.text.len()
    &&& m.start + utf8_size(m.text) <= u32::MAX
    &&& (m.last_idx <= m.idx || (m.state == State::Data && m.last_idx == m.idx + 1))
    &&& floor <= m.pos(m.last_idx)
    &&& forall|i: int|
        0 <= i < m.pending.len() ==> floor <= (#[trigger] m.pending[i]).span.lo.0
            <= m.pending[i].span.hi.0 <= m.pos(m.last_idx)
    &&& forall|i: int, j: int|
        0 <= i < j < m.pending.len() ==> (#[trigger] m.pending[i]).span.hi.0
            <= (#[trigger] m.pending[j]).span.lo.0
}

/// The spans of the pending tokens follow the text in order, and the lexer
/// stands where the next span may start.
pub open spec fn spans_ordered(m: LexerView) -> bool {
    ordered_from(m, m.start as int)
}

proof fn lemma_pos_mono(m: LexerView)
    ensures
        forall|i: nat, j: nat|
            i <= j <= m.text.len() ==> #[trigger] m.pos(i) <= #[trigger] m.pos(j),
        forall|i: nat| i <= m.text.len() ==> m.start <= #[trigger] m.pos(i) <= m.start + utf8_size(m.text),
{
    assert forall|i: nat, j: nat| i <= j <= m.text.len() implies #[trigger] m.pos(i) <= #[trigger] m.pos(j) by {
        lemma_utf8_size_take_mono(m.text, i as int, j as int);
    }
    assert forall|i: nat| i <= m.text.len() implies m.start <= #[trigger] m.pos(i) <= m.start + utf8_size(m.text) by {
        lemma_utf8_size_take_mono(m.text, i as int, m.text.len() as int);
        assert(m.text.take(m.text.len() as int) =~= m.text);
    }
}

proof fn lemma_scan_exclusive_moves(m: LexerView, s: Seq<char>, k: Stop)
    requires
        m.idx <= m.text.len(),
    ensures
        ({
            let r = scan_exclusive(m, s, k).0;
            &&& r == (LexerView { cur: r.cur, cur_idx: r.cur_idx, idx: r.idx, ..m })
            &&& m.idx <= r.cur_idx <= r.idx <= m.text.len()
            &&& r.idx <= r.cur_idx + 1
        }),
    decreases m.text.len() - m.idx,
{
    if let Some(c) = m.next_char() {
        lemma_scan_exclusive_moves(m.consume(), s.push(c), k);
    }
}

proof fn lemma_scan_inclusive_moves(m: LexerView, s: Seq<char>, k: Stop)
    requires
        m.idx <= m.text.len(),
    ensures
        ({
            let r = scan_inclusive(m, s, k).0;
            &&& r == (LexerView { cur: r.cur, cur_idx: r.cur_idx, idx: r.idx, ..m })
            &&& m.idx <= r.cur_idx <= r.idx <= m.text.len()
            &&& r.idx <= r.cur_idx + 1
        }),
    decreases m.text.len() - m.idx,
{
    if let Some(c) = m.next_char() {
        lemma_scan_inclusive_moves(m.consume(), s.push(c), k);
    }
}

proof fn lemma_fence_scan_moves(m: LexerView, fence: char, open_len: nat)
    requires
        m.idx <= m.text.len(),
    ensures
        ({
            let r = fence_scan(m, fence, open_len).0;
            &&& r == (LexerView { cur: r.cur, cur_idx: r.cur_idx, idx: r.idx, buf: r.buf, ..m })
            &&& m.idx <= r.cur_idx <= r.idx <= m.text.len()
            &&& !fence_scan(m, fence, open_len).1 ==> r.idx == r.cur_idx
        }),
    decreases m.text.len() - m.idx,
{
    if let Some(c) = m.next_char() {
        let m1 = m.consume();
        let m2 = m1.skip_ws(c);
        lemma_fence_scan_moves(m1.push(c), fence, open_len);
        lemma_fence_scan_moves(m2.push('\n'), fence, open_len);
    }
}

/// Emitting a token where the next span may start keeps the spans in order.
proof fn lemma_emit_ordered(m: LexerView, t: TokenView, floor: int)
    requires
        ordered_from(m, floor),
        m.last_idx <= m.idx,
    ensures
        ordered_from(m.emit(t), floor),
{
    lemma_pos_mono(m);
    let m2 = m.emit(t);
    let n = m.pending.len();
    assert(m2.pending[n as int].span.lo.0 == m.pos(m.last_idx));
    assert(m2.pending[n as int].span.hi.0 == m.pos(m.idx));
    assert forall|i: int| 0 <= i < m2.pending.len() implies floor <= (#[trigger] m2.pending[i]).span.lo.0
        <= m2.pending[i].span.hi.0 <= m2.pos(m2.last_idx) by {
        if i < n {
            assert(m2.pending[i] == m.pending[i]);
        }
    }
    assert forall|i: int, j: int| 0 <= i < j < m2.pending.len() implies (#[trigger] m2.pending[i]).span.hi.0
        <= (#[trigger] m2.pending[j]).span.lo.0 by {
        assert(m2.pending[i] == m.pending[i]);
        if j < n {
            assert(m2.pending[j] == m.pending[j]);
        }
    }
}

proof fn lemma_emits_ordered(floor: int)
    ensures
        forall|m2: LexerView, t: TokenView|
            ordered_from(m2, floor) && m2.last_idx <= m2.idx ==> ordered_from(
                #[trigger] m2.emit(t),
                floor,
            ),
{
    assert forall|m2: LexerView, t: TokenView|
        ordered_from(m2, floor) && m2.last_idx <= m2.idx implies ordered_from(
            #[trigger] m2.emit(t),
            floor,
        ) by {
        lemma_emit_ordered(m2, t, floor);
    }
}

#[verifier::rlimit(100)]
proof fn lemma_step_ordered_0(m: LexerView, floor: int)
    requires
        ordered_from(m, floor),
        m.state == State::Data || m.state == State::ThematicBreak || m.state == State::ATXHeading || m.state == State::SetextHeading || m.state == State::IndentedCodeBlock || m.state == State::IndentedCodeChunk,
    ensures
        ordered_from(step(m), floor),
        step(m).text == m.text,
        step(m).start == m.start,
{
    lemma_pos_mono(m);
    lemma_emits_ordered(floor);
    lemma_scan_exclusive_moves(m, m.buf, Stop::LineEnding);
    lemma_scan_exclusive_moves(m, Seq::empty(), Stop::NonAlpha);
    lemma_scan_inclusive_moves(m, Seq::empty(), Stop::GreaterThan);
    lemma_scan_inclusive_moves(m, m.buf, Stop::GreaterThan);
    lemma_scan_inclusive_moves(m, Seq::empty(), Stop::LineEnding);
    lemma_fence_scan_moves(m, fence_char(m), fence_len(m));
    if m.state == State::Data {
        assert(step(m) == step_data(m)) by {
            reveal(step);
        }
        assert(ordered_from(step_data(m), floor));
    }
    if m.state == State::ThematicBreak {
        assert(step(m) == step_thematic_break(m)) by {
            reveal(step);
        }
        assert(ordered_from(step_thematic_break(m), floor));
    }
    if m.state == State::ATXHeading {
        assert(step(m) == step_atx_heading(m)) by {
            reveal(step);
        }
        assert(ordered_from(step_atx_heading(m), floor));
    }
    if m.state == State::SetextHeading {
        assert(step(m) == step_setext_heading(m)) by {
            reveal(step);
        }
        assert(ordered_from(step_setext_heading(m), floor));
    }
    if m.state == State::IndentedCodeBlock {
        assert(step(m) == step_indented_code_block(m)) by {
            reveal(step);
        }
        assert(ordered_from(step_indented_code_block(m), floor));
    }
    if m.state == State::IndentedCodeChunk {
        assert(step(m) == step_indented_code_chunk(m)) by {
            reveal(step);
        }
        assert(ordered_from(step_indented_code_chunk(m), floor));
    }
}

#[verifier::rlimit(100)]
proof fn lemma_step_ordered_1(m: LexerView, floor: int)
    requires
        ordered_from(m, floor),
        m.state == State::FencedCodeBlock || m.state == State::HTMLBlock || m.state == State::HTMLTagName || m.state == State::BeforeHTMLBlockType1 || m.state == State::HTMLBlockType1 || m.state == State::HTMLDeclarationOpen,
    ensures
        ordered_from(step(m), floor),
        step(m).text == m.text,
        step(m).start == m.start,
{
    lemma_pos_mono(m);
    lemma_emits_ordered(floor);
    lemma_scan_exclusive_moves(m, m.buf, Stop::LineEnding);
    lemma_scan_exclusive_moves(m, Seq::empty(), Stop::NonAlpha);
    lemma_scan_inclusive_moves(m, Seq::empty(), Stop::GreaterThan);
    lemma_scan_inclusive_moves(m, m.buf, Stop::GreaterThan);
    lemma_scan_inclusive_moves(m, Seq::empty(), Stop::LineEnding);
    lemma_fence_scan_moves(m, fence_char(m), fence_len(m));
    if m.state == State::FencedCodeBlock {
        assert(step(m) == step_fenced_code_block(m)) by {
            reveal(step);
        }
        assert(ordered_from(step_fenced_code_block(m), floor));
    }
    if m.state == State::HTMLBlock {
        assert(step(m) == step_html_block(m)) by {
            reveal(step);
        }
        assert(ordered_from(step_html_block(m), floor));
    }
    if m.state == State::HTMLTagName {
        assert(step(m) == step_html_tag_name(m)) by {
            reveal(step);
        }
        assert(ordered_from(step_html_tag_name(m), floor));
    }
    if m.state == State::BeforeHTMLBlockType1 {
        assert(step(m) == step_before_html_block_type1(m)) by {
            reveal(step);
        }
        assert(ordered_from(step_before_html_block_type1(m), floor));
    }
    if m.state == State::HTMLBlockType1 {
        assert(step(m) == step_html_block_type1(m)) by {
            reveal(step);
        }
        assert(ordered_from(step_html_block_type1(m), floor));
    }
    if m.state == State::HTMLDeclarationOpen {
        assert(step(m) == step_html_declaration_open(m)) by {
            reveal(step);
        }
        assert(ordered_from(step_html_declaration_open(m), floor));
    }
}

#[verifier::rlimit(100)]
proof fn lemma_step_ordered_2(m: LexerView, floor: int)
    requires
        ordered_from(m, floor),
        m.state == State::HTMLComment || m.state == State::HTMLProcessingInstruction || m.state == State::HTMLDeclaration || m.state == State::HTMLCDATASection || m.state == State::HTMLBlockType6 || m.state == State::HTMLOpenTagName,
    ensures
        ordered_from(step(m), floor),
        step(m).text == m.text,
        step(m).start == m.start,
{
    lemma_pos_mono(m);
    lemma_emits_ordered(floor);
    lemma_scan_exclusive_moves(m, m.buf, Stop::LineEnding);
    lemma_scan_exclusive_moves(m, Seq::empty(), Stop::NonAlpha);
    lemma_scan_inclusive_moves(m, Seq::empty(), Stop::GreaterThan);
    lemma_scan_inclusive_moves(m, m.buf, Stop::GreaterThan);
    lemma_scan_inclusive_moves(m, Seq::empty(), Stop::LineEnding);
    lemma_fence_scan_moves(m, fence_char(m), fence_len(m));
    if m.state == State::HTMLComment {
        assert(step(m) == step_html_comment(m)) by {
            reveal(step);
        }
        assert(ordered_from(step_html_comment(m), floor));
    }
    if m.state == State::HTMLProcessingInstruction {
        assert(step(m) == step_html_processing_instruction(m)) by {
            reveal(step);
        }
        assert(ordered_from(step_html_processing_instruction(m), floor));
    }
    if m.state == State::HTMLDeclaration {
        assert(step(m) == step_html_declaration(m)) by {
            reveal(step);
        }
        assert(ordered_from(step_html_declaration(m), floor));
    }
    if m.state == State::HTMLCDATASection {
        assert(step(m) == step_html_cdata_section(m)) by {
            reveal(step);
        }
        assert(ordered_from(step_html_cdata_section(m), floor));
    }
    if m.state == State::HTMLBlockType6 {
        assert(step(m) == step_html_block_type6(m)) by {
            reveal(step);
        }
        assert(ordered_from(step_html_block_type6(m), floor));
    }
    if m.state == State::HTMLOpenTagName {
        assert(step(m) == step_html_open_tag_name(m)) by {
            reveal(step);
        }
        assert(ordered_from(step_html_open_tag_name(m), floor));
    }
}

#[verifier::rlimit(100)]
proof fn lemma_step_ordered_3(m: LexerView, floor: int)
    requires
        ordered_from(m, floor),
        m.state == State::HTMLClosingTagName || m.state == State::HTMLClosingTag || m.state == State::HTMLBlankLine || m.state == State::HTMLAttributes || m.state == State::AfterHTMLAttributes || m.state == State::HTMLAttribute,
    ensures
        ordered_from(step(m), floor),
        step(m).text == m.text,
        step(m).start == m.start,
{
    lemma_pos_mono(m);
    lemma_emits_ordered(floor);
    lemma_scan_exclusive_moves(m, m.buf, Stop::LineEnding);
    lemma_scan_exclusive_moves(m, Seq::empty(), Stop::NonAlpha);
    lemma_scan_inclusive_moves(m, Seq::empty(), Stop::GreaterThan);
    lemma_scan_inclusive_moves(m, m.buf, Stop::GreaterThan);
    lemma_scan_inclusive_moves(m, Seq::empty(), Stop::LineEnding);
    lemma_fence_scan_moves(m, fence_char(m), fence_len(m));
    if m.state == State::HTMLClosingTagName {
        assert(step(m) == step_html_closing_tag_name(m)) by {
            reveal(step);
        }
        assert(ordered_from(step_html_closing_tag_name(m), floor));
    }
    if m.state == State::HTMLClosingTag {
        assert(step(m) == step_html_closing_tag(m)) by {
            reveal(step);
        }
        assert(ordered_from(step_html_closing_tag(m), floor));
    }
    if m.state == State::HTMLBlankLine {
        assert(step(m) == step_html_blank_line(m)) by {
            reveal(step);
        }
        assert(ordered_from(step_html_blank_line(m), floor));
    }
    if m.state == State::HTMLAttributes {
        assert(step(m) == step_html_attributes(m)) by {
            reveal(step);
        }
        assert(ordered_from(step_html_attributes(m), floor));
    }
    if m.state == State::AfterHTMLAttributes {
        assert(step(m) == step_after_html_attributes(m)) by {
            reveal(step);
        }
        assert(ordered_from(step_after_html_attributes(m), floor));
    }
    if m.state == State::HTMLAttribute {
        assert(step(m) == step_html_attribute(m)) by {
            reveal(step);
        }
        assert(ordered_from(step_html_attribute(m), floor));
    }
}

#[verifier::rlimit(100)]
proof fn lemma_step_ordered_4(m: LexerView, floor: int)
    requires
        ordered_from(m, floor),
        m.state == State::HTMLAttributeName || m.state == State::HTMLAttributeValueSpecification || m.state == State::HTMLAttributeValue || m.state == State::HTMLUnquotedAttribute || m.state == State::HTMLSingleQuotedAttribute || m.state == State::HTMLDoubleQuotedAttribute,
    ensures
        ordered_from(step(m), floor),
        step(m).text == m.text,
        step(m).start == m.start,
{
    lemma_pos_mono(m);
    lemma_emits_ordered(floor);
    lemma_scan_exclusive_moves(m, m.buf, Stop::LineEnding);
    lemma_scan_exclusive_moves(m, Seq::empty(), Stop::NonAlpha);
    lemma_scan_inclusive_moves(m, Seq::empty(), Stop::GreaterThan);
    lemma_scan_inclusive_moves(m, m.buf, Stop::GreaterThan);
    lemma_scan_inclusive_moves(m, Seq::empty(), Stop::LineEnding);
    lemma_fence_scan_moves(m, fence_char(m), fence_len(m));
    if m.state == State::HTMLAttributeName {
        assert(step(m) == step_html_attribute_name(m)) by {
            reveal(step);
        }
        assert(ordered_from(step_html_attribute_name(m), floor));
    }
    if m.state == State::HTMLAttributeValueSpecification {
        assert(step(m) == step_html_attribute_value_specification(m)) by {
            reveal(step);
        }
        assert(ordered_from(step_html_attribute_value_specification(m), floor));
    }
    if m.state == State::HTMLAttributeValue {
        assert(step(m) == step_html_attribute_value(m)) by {
            reveal(step);
        }
        assert(ordered_from(step_html_attribute_value(m), floor));
    }
    if m.state == State::HTMLUnquotedAttribute {
        assert(step(m) == step_html_unquoted_attribute(m)) by {
            reveal(step);
        }
        assert(ordered_from(step_html_unquoted_attribute(m), floor));
    }
    if m.state == State::HTMLSingleQuotedAttribute {
        assert(step(m) == step_html_single_quoted_attribute(m)) by {
            reveal(step);
        }
        assert(ordered_from(step_html_single_quoted_attribute(m), floor));
    }
    if m.state == State::HTMLDoubleQuotedAttribute {
        assert(step(m) == step_html_double_quoted_attribute(m)) by {
            reveal(step);
        }
        assert(ordered_from(step_html_double_quoted_attribute(m), floor));
    }
}

#[verifier::rlimit(100)]
proof fn lemma_step_ordered_5(m: LexerView, floor: int)
    requires
        ordered_from(m, floor),
        m.state == State::LinkLabel || m.state == State::AfterLinkLabel || m.state == State::LinkDestination || m.state == State::BracedLinkDestination || m.state == State::UnquotedLinkDestination || m.state == State::BalancedParenthesisPairState,
    ensures
        ordered_from(step(m), floor),
        step(m).text == m.text,
        step(m).start == m.start,
{
    lemma_pos_mono(m);
    lemma_emits_ordered(floor);
    lemma_scan_exclusive_moves(m, m.buf, Stop::LineEnding);
    lemma_scan_exclusive_moves(m, Seq::empty(), Stop::NonAlpha);
    lemma_scan_inclusive_moves(m, Seq::empty(), Stop::GreaterThan);
    lemma_scan_inclusive_moves(m, m.buf, Stop::GreaterThan);
    lemma_scan_inclusive_moves(m, Seq::empty(), Stop::LineEnding);
    lemma_fence_scan_moves(m, fence_char(m), fence_len(m));
    if m.state == State::LinkLabel {
        assert(step(m) == step_link_label(m)) by {
            reveal(step);
        }
        assert(ordered_from(step_link_label(m), floor));
    }
    if m.state == State::AfterLinkLabel {
        assert(step(m) == step_after_link_label(m)) by {
            reveal(step);
        }
        assert(ordered_from(step_after_link_label(m), floor));
    }
    if m.state == State::LinkDestination {
        assert(step(m) == step_link_destination(m)) by {
            reveal(step);
        }
        assert(ordered_from(step_link_destination(m), floor));
    }
    if m.state == State::BracedLinkDestination {
        assert(step(m) == step_braced_link_destination(m)) by {
            reveal(step);
        }
        assert(ordered_from(step_braced_link_destination(m), floor));
    }
    if m.state == State::UnquotedLinkDestination {
        assert(step(m) == step_unquoted_link_destination(m)) by {
            reveal(step);
        }
        assert(ordered_from(step_unquoted_link_destination(m), floor));
    }
    if m.state == State::BalancedParenthesisPairState {
        assert(step(m) == step_balanced_parenthesis_pair(m)) by {
            reveal(step);
        }
        assert(ordered_from(step_balanced_parenthesis_pair(m), floor));
    }
}

#[verifier::rlimit(100)]
proof fn lemma_step_ordered_6(m: LexerView, floor: int)
    requires
        ordered_from(m, floor),
        m.state == State::BeforeLinkTitle || m.state == State::DoubleQuotedLinkTitle || m.state == State::SingleQuotedLinkTitle || m.state == State::ParentheticalLinkTitle || m.state == State::AfterLinkTitle,
    ensures
        ordered_from(step(m), floor),
        step(m).text == m.text,
        step(m).start == m.start,
{
    lemma_pos_mono(m);
    lemma_emits_ordered(floor);
    lemma_scan_exclusive_moves(m, m.buf, Stop::LineEnding);
    lemma_scan_exclusive_moves(m, Seq::empty(), Stop::NonAlpha);
    lemma_scan_inclusive_moves(m, Seq::empty(), Stop::GreaterThan);
    lemma_scan_inclusive_moves(m, m.buf, Stop::GreaterThan);
    lemma_scan_inclusive_moves(m, Seq::empty(), Stop::LineEnding);
    lemma_fence_scan_moves(m, fence_char(m), fence_len(m));
    if m.state == State::BeforeLinkTitle {
        assert(step(m) == step_before_link_title(m)) by {
            reveal(step);
        }
        assert(ordered_from(step_before_link_title(m), floor));
    }
    if m.state == State::DoubleQuotedLinkTitle {
        assert(step(m) == step_link_title(m, '"', '"')) by {
            reveal(step);
        }
        assert(ordered_from(step_link_title(m, '"', '"'), floor));
    }
    if m.state == State::SingleQuotedLinkTitle {
        assert(step(m) == step_link_title(m, '\'', '\'')) by {
            reveal(step);
        }
        assert(ordered_from(step_link_title(m, '\'', '\''), floor));
    }
    if m.state == State::ParentheticalLinkTitle {
        assert(step(m) == step_link_title(m, ')', '\'')) by {
            reveal(step);
        }
        assert(ordered_from(step_link_title(m, ')', '\''), floor));
    }
    if m.state == State::AfterLinkTitle {
        assert(step(m) == step_after_link_title(m)) by {
            reveal(step);
        }
        assert(ordered_from(step_after_link_title(m), floor));
    }
}

/// A step keeps the spans in order.
proof fn lemma_step_ordered(m: LexerView, floor: int)
    requires
        ordered_from(m, floor),
    ensures
        ordered_from(step(m), floor),
        step(m).text == m.text,
        step(m).start == m.start,
{
    if m.state == State::Data || m.state == State::ThematicBreak || m.state == State::ATXHeading || m.state == State::SetextHeading || m.state == State::IndentedCodeBlock || m.state == State::IndentedCodeChunk {
        lemma_step_ordered_0(m, floor);
    }
    if m.state == State::FencedCodeBlock || m.state == State::HTMLBlock || m.state == State::HTMLTagName || m.state == State::BeforeHTMLBlockType1 || m.state == State::HTMLBlockType1 || m.state == State::HTMLDeclarationOpen {
        lemma_step_ordered_1(m, floor);
    }
    if m.state == State::HTMLComment || m.state == State::HTMLProcessingInstruction || m.state == State::HTMLDeclaration || m.state == State::HTMLCDATASection || m.state == State::HTMLBlockType6 || m.state == State::HTMLOpenTagName {
        lemma_step_ordered_2(m, floor);
    }
    if m.state == State::HTMLClosingTagName || m.state == State::HTMLClosingTag || m.state == State::HTMLBlankLine || m.state == State::HTMLAttributes || m.state == State::AfterHTMLAttributes || m.state == State::HTMLAttribute {
        lemma_step_ordered_3(m, floor);
    }
    if m.state == State::HTMLAttributeName || m.state == State::HTMLAttributeValueSpecification || m.state == State::HTMLAttributeValue || m.state == State::HTMLUnquotedAttribute || m.state == State::HTMLSingleQuotedAttribute || m.state == State::HTMLDoubleQuotedAttribute {
        lemma_step_ordered_4(m, floor);
    }
    if m.state == State::LinkLabel || m.state == State::AfterLinkLabel || m.state == State::LinkDestination || m.state == State::BracedLinkDestination || m.state == State::UnquotedLinkDestination || m.state == State::BalancedParenthesisPairState {
        lemma_step_ordered_5(m, floor);
    }
    if m.state == State::BeforeLinkTitle || m.state == State::DoubleQuotedLinkTitle || m.state == State::SingleQuotedLinkTitle || m.state == State::ParentheticalLinkTitle || m.state == State::AfterLinkTitle {
        lemma_step_ordered_6(m, floor);
    }
}

/// The steps up to a pending token keep the spans in order.
proof fn lemma_drain_ordered(m: LexerView, f: nat, floor: int)
    requires
        ordered_from(m, floor),
        drain(m, f) is Some,
    ensures
        ordered_from(drain(m, f).unwrap(), floor),
        drain(m, f).unwrap().text == m.text,
        drain(m, f).unwrap().start == m.start,
    decreases f,
{
    if m.pending.len() == 0 {
        lemma_step_ordered(m, floor);
        lemma_drain_ordered(step(m), (f - 1) as nat, floor);
    }
}

/// Tokens are handed out in the order of the text: the span of the token
/// handed out after another starts no earlier than where that one ends, and
/// handing a token out keeps the spans in order.
pub proof fn lemma_spans_in_order(m: LexerView)
    requires
        spans_ordered(m),
        !m.finished,
        reaches_token(m),
    ensures
        spans_ordered(after_next(m)),
        next_token(m) is Some && reaches_token(after_next(m)) && next_token(after_next(m)) is Some
            ==> next_token(m).unwrap().span.hi.0 <= next_token(after_next(m)).unwrap().span.lo.0,
{
    let f = choose|f: nat| #[trigger] drain(m, f) is Some;
    lemma_drained(m, f);
    lemma_drain_ordered(m, f, m.start as int);
    let d = drained(m);
    let a = after_next(m);
    assert(a.pending =~= d.pending.drop_first());
    assert(forall|i: int| 0 <= i < a.pending.len() ==> a.pending[i] == d.pending[i + 1]);
    assert(ordered_from(a, m.start as int));
    if next_token(m) is Some && reaches_token(a) && next_token(a) is Some {
        if a.pending.len() > 0 {
            assert(drain(a, 0) is Some);
            lemma_drained(a, 0);
            assert(d.pending[0].span.hi.0 <= d.pending[1].span.lo.0);
        } else {
            let floor = d.pos(d.last_idx);
            assert(ordered_from(a, floor));
            let g = choose|g: nat| #[trigger] drain(a, g) is Some;
            lemma_drained(a, g);
            lemma_drain_ordered(a, g, floor);
            assert(drained(a).pending[0].span.lo.0 >= floor);
        }
    }
}

/// Steps that stop short of a token keep the spans in order.
pub proof fn lemma_steps_within_ordered(m: LexerView, fuel: nat)
    requires
        spans_ordered(m),
    ensures
        spans_ordered(steps_within(m, fuel)),
    decreases fuel,
{
    if !(m.pending.len() > 0 || fuel == 0 || !step_ok(m)) {
        lemma_step_ordered(m, m.start as int);
        lemma_steps_within_ordered(step(m), (fuel - 1) as nat);
    }
}

} // verus!
