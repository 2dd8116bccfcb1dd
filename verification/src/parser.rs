//! The parser's configuration and its state around the lexer.
use vstd::prelude::*;
use crate::diagnostic::Error;
use crate::lexer::Lexer;
use crate::machine::LexerView;

verus! {

/// Which extensions of CommonMark the parser accepts.
#[derive(Debug, Clone, Copy, PartialEq, Eq, PartialOrd, Ord, Hash)]
pub struct ParserConfig {
    /// GitHub Flavored Markdown.
    pub gfm: bool,
    /// MDX.
    pub mdx: bool,
}

impl Default for ParserConfig {
    fn default() -> (r: ParserConfig)
        ensures
            r == (ParserConfig { gfm: false, mdx: false }),
    {
        ParserConfig { gfm: false, mdx: false }
    }
}

/// What parsing gives: a value, or the error that stopped it.
pub type PResult<T> = Result<T, Error>;

/// A parser over the tokens of a lexer.
pub struct Parser {
    config: ParserConfig,
    input: Lexer,
    stopped: bool,
    errors: Vec<Error>,
}

impl Parser {
    /// The configuration the parser was made with.
    pub closed spec fn config_of(&self) -> ParserConfig {
        self.config
    }

    /// The state of the lexer that the parser reads from.
    pub closed spec fn input_of(&self) -> LexerView {
        self.input@
    }

    pub closed spec fn stopped_of(&self) -> bool {
        self.stopped
    }

    /// The errors reported and not yet taken.
    pub closed spec fn errors_of(&self) -> Seq<Error> {
        self.errors@
    }

    pub closed spec fn wf(&self) -> bool {
        self.input.wf()
    }

    /// A parser that reads the tokens of `input`, with no errors yet.
    pub fn new(input: Lexer, config: ParserConfig) -> (r: Parser)
        requires
            input.wf(),
        ensures
            r.wf(),
            r.config_of() == config,
            r.input_of() == input@,
            !r.stopped_of(),
            r.errors_of().len() == 0,
    {
        Parser { config, input, stopped: false, errors: Vec::new() }
    }

    /// Hands out the errors reported so far, and forgets them.
    pub fn take_errors(&mut self) -> (r: Vec<Error>)
        requires
            old(self).wf(),
        ensures
            final(self).wf(),
            r@ == old(self).errors_of(),
            final(self).errors_of().len() == 0,
            final(self).config_of() == old(self).config_of(),
            final(self).input_of() == old(self).input_of(),
            final(self).stopped_of() == old(self).stopped_of(),
    {
        let mut r: Vec<Error> = Vec::new();
        std::mem::swap(&mut r, &mut self.errors);
        r
    }

    /// The configuration the parser was made with.
    pub fn config(&self) -> (r: ParserConfig)
        ensures
            r == self.config_of(),
    {
        self.config
    }
}

} // verus!
