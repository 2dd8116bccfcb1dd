//! The source text that the lexer reads, one character at a time, with the
//! byte position of each character.
use vstd::prelude::*;
use crate::chars::{char_len_utf8, char_utf8_len, utf8_size};
use crate::span::BytePos;

verus! {

pub proof fn lemma_utf8_size_take_step(s: Seq<char>, i: int)
    requires
        0 <= i < s.len(),
    ensures
        utf8_size(s.take(i + 1)) == utf8_size(s.take(i)) + char_utf8_len(s[i]),
{
    assert(s.take(i + 1).drop_last() =~= s.take(i));
}

pub proof fn lemma_utf8_size_take_mono(s: Seq<char>, i: int, j: int)
    requires
        0 <= i <= j <= s.len(),
    ensures
        utf8_size(s.take(i)) + (j - i) <= utf8_size(s.take(j)),
    decreases j - i,
{
    if i < j {
        lemma_utf8_size_take_mono(s, i, j - 1);
        lemma_utf8_size_take_step(s, j - 1);
    }
}

/// The text of a source file, read one character at a time.
pub struct StringInput {
    chars: Vec<char>,
    /// `offsets[i]` is the byte position of `chars[i]`; one more entry holds
    /// the position of the end.
    offsets: Vec<u32>,
    idx: usize,
    end: BytePos,
}

impl StringInput {
    /// The characters of the text.
    pub closed spec fn text(&self) -> Seq<char> {
        self.chars@
    }

    /// The byte position of the first character.
    pub closed spec fn start(&self) -> u32 {
        self.offsets@[0]
    }

    /// The number of characters consumed so far.
    pub closed spec fn index(&self) -> nat {
        self.idx as nat
    }

    /// The end position that the input was made with.
    pub closed spec fn end(&self) -> u32 {
        self.end.0
    }

    /// The byte position of the character at index `i`.
    pub open spec fn pos_at(&self, i: int) -> int {
        self.start() + utf8_size(self.text().take(i))
    }

    pub closed spec fn wf(&self) -> bool {
        &&& self.offsets@.len() == self.chars@.len() + 1
        &&& forall|i: int|
            0 <= i <= self.chars@.len() ==> #[trigger] self.offsets@[i] == self.offsets@[0]
                + utf8_size(self.chars@.take(i))
        &&& self.idx <= self.chars@.len()
    }

    pub proof fn lemma_wf(&self)
        requires
            self.wf(),
        ensures
            self.index() <= self.text().len(),
            forall|i: int| 0 <= i <= self.text().len() ==> #[trigger] self.pos_at(i) <= u32::MAX,
            forall|i: int, j: int|
                0 <= i <= j <= self.text().len() ==> #[trigger] self.pos_at(i) + (j - i)
                    <= #[trigger] self.pos_at(j),
    {
        assert forall|i: int| 0 <= i <= self.text().len() implies #[trigger] self.pos_at(i)
            <= u32::MAX by {
            assert(self.offsets@[i] == self.pos_at(i));
        }
        assert forall|i: int, j: int| 0 <= i <= j <= self.text().len() implies #[trigger] self.pos_at(i)
            + (j - i) <= #[trigger] self.pos_at(j) by {
            lemma_utf8_size_take_mono(self.text(), i, j);
        }
    }

    /// Reads `src`, whose first byte stands at position `start`.
    pub fn new(src: &str, start: BytePos, end: BytePos) -> (r: StringInput)
        requires
            start.0 <= end.0,
            start.0 + utf8_size(src@) <= u32::MAX,
        ensures
            r.wf(),
            r.text() == src@,
            r.start() == start.0,
            r.end() == end.0,
            r.index() == 0,
    {
        let n = src.unicode_len();
        let mut chars: Vec<char> = Vec::new();
        let mut offsets: Vec<u32> = Vec::new();
        offsets.push(start.0);
        let mut pos: u32 = start.0;
        let mut i: usize = 0;
        while i < n
            invariant
                n == src@.len(),
                i <= n,
                chars@ == src@.take(i as int),
                offsets@.len() == i + 1,
                offsets@[0] == start.0,
                pos == start.0 + utf8_size(src@.take(i as int)),
                start.0 + utf8_size(src@) <= u32::MAX,
                forall|j: int|
                    0 <= j <= i ==> #[trigger] offsets@[j] == start.0 + utf8_size(src@.take(j)),
            decreases n - i,
        {
            let c = src.get_char(i);
            proof {
                lemma_utf8_size_take_step(src@, i as int);
                lemma_utf8_size_take_mono(src@, i + 1, src@.len() as int);
                assert(src@.take(src@.len() as int) =~= src@);
            }
            pos = pos + char_len_utf8(c);
            chars.push(c);
            offsets.push(pos);
            i += 1;
            assert(chars@ =~= src@.take(i as int));
        }
        assert(chars@ =~= src@);
        StringInput { chars, offsets, idx: 0, end }
    }

    /// The next character, or `None` at the end.
    pub fn cur(&self) -> (r: Option<char>)
        requires
            self.wf(),
        ensures
            r == (if self.index() < self.text().len() {
                Some(self.text()[self.index() as int])
            } else {
                None
            }),
    {
        if self.idx < self.chars.len() {
            Some(self.chars[self.idx])
        } else {
            None
        }
    }

    /// Moves past the next character.
    pub fn bump(&mut self)
        requires
            old(self).wf(),
            old(self).index() < old(self).text().len(),
        ensures
            final(self).wf(),
            final(self).text() == old(self).text(),
            final(self).start() == old(self).start(),
            final(self).end() == old(self).end(),
            final(self).index() == old(self).index() + 1,
    {
        let n = self.chars.len();
        assert(self.idx < n);
        self.idx = self.idx + 1;
    }

    /// Goes back, or forward, to the character at index `i`.
    pub fn reset_to(&mut self, i: usize)
        requires
            old(self).wf(),
            i <= old(self).text().len(),
        ensures
            final(self).wf(),
            final(self).text() == old(self).text(),
            final(self).start() == old(self).start(),
            final(self).end() == old(self).end(),
            final(self).index() == i,
    {
        self.idx = i;
    }

    /// The number of characters consumed so far.
    pub fn cur_index(&self) -> (r: usize)
        ensures
            r == self.index(),
    {
        self.idx
    }

    /// The byte position of the character at index `i`.
    pub fn pos_of(&self, i: usize) -> (r: BytePos)
        requires
            self.wf(),
            i <= self.text().len(),
        ensures
            r.0 == self.pos_at(i as int),
    {
        BytePos(self.offsets[i])
    }

    /// The byte position of the next character.
    pub fn cur_pos(&self) -> (r: BytePos)
        requires
            self.wf(),
        ensures
            r.0 == self.pos_at(self.index() as int),
    {
        BytePos(self.offsets[self.idx])
    }

    /// The byte position that the text starts at.
    pub fn start_pos(&self) -> (r: BytePos)
        requires
            self.wf(),
        ensures
            r.0 == self.start(),
    {
        BytePos(self.offsets[0])
    }

    /// The end position that the input was made with.
    pub fn end_pos(&self) -> (r: BytePos)
        ensures
            r.0 == self.end(),
    {
        self.end
    }

    /// Whether nothing has been consumed yet.
    pub fn is_at_start(&self) -> (r: bool)
        requires
            self.wf(),
        ensures
            r == (self.index() == 0),
    {
        proof {
            if self.idx > 0 {
                lemma_utf8_size_take_mono(self.chars@, 0, self.idx as int);
                assert(self.offsets@[self.idx as int] == self.offsets@[0] + utf8_size(
                    self.chars@.take(self.idx as int),
                ));
                assert(self.chars@.take(0).len() == 0);
                assert(self.offsets@[0] == self.offsets@[0] + utf8_size(self.chars@.take(0)));
            }
        }
        self.offsets[self.idx] == self.offsets[0]
    }
}

} // verus!
