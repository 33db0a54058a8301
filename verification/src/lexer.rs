//! Lines of tokens: how the tokens of a source are gathered into lines.
//!
//! Cutting the source into tokens is the work of a tokenizer outside this
//! library. What stands here is what is decided on each token that it
//! hands over: whether the token joins the line, ends it, or is set
//! aside as an error.

use vstd::prelude::*;
use std::ops::Range;
use vstd::std_specs::iter::IteratorSpec;

verus! {

/// The kinds of token that the tokenizer tells apart.
#[derive(Debug, PartialEq, Eq, Clone, Copy)]
pub enum LogosToken {
    /// A name or a bracket.
    Name,
    /// The end of a line.
    Line,
    /// Text that is no token.
    Error,
}

/// A token: where it stands and its text.
#[derive(Debug, PartialEq, Eq)]
pub struct LexerToken<'a> {
    pub span: Range<usize>,
    pub token: &'a str,
}

/// A line: its tokens and the number of blanks that it starts with.
#[derive(Debug, PartialEq, Eq)]
pub struct LexerLine<'a> {
    pub tokens: Vec<LexerToken<'a>>,
    pub indent: usize,
}

/// What follows from one token.
#[derive(Debug, PartialEq, Eq)]
pub enum LineStep<'a> {
    /// The line goes on.
    More,
    /// The line is complete.
    Line(LexerLine<'a>),
    /// The source has ended and no line is open.
    End,
}

/// A line that is being gathered, and the errors set aside so far.
#[derive(Debug)]
pub struct LineBuilder<'a> {
    pub indent: usize,
    pub tokens: Vec<LexerToken<'a>>,
    pub errors: Vec<Range<usize>>,
}

/// How many blanks `text` starts with, counting from index `k`.
pub open spec fn blanks_from(text: Seq<char>, k: int) -> int
    decreases text.len() - k,
{
    if 0 <= k < text.len() && text[k] == ' ' {
        blanks_from(text, k + 1)
    } else {
        k
    }
}

/// The number of blanks that `text` starts with.
pub open spec fn leading_blanks(text: Seq<char>) -> int {
    blanks_from(text, 0)
}

/// The indentation of a line: the number of blanks that the rest of the
/// source starts with.
pub fn indent_of(remainder: &str) -> (n: usize)
    ensures
        n == leading_blanks(remainder@),
{
    broadcast use vstd::string::axiom_spec_iter;
    broadcast use vstd::string::next_postcondition;

    let mut it = remainder.chars();
    let mut n: usize = 0;
    let total = remainder.unicode_len();
    loop
        invariant
            it.obeys_prophetic_iter_laws(),
            it.decrease() is Some,
            n <= remainder@.len(),
            total == remainder@.len(),
            it.remaining() == remainder@.skip(n as int),
            blanks_from(remainder@, n as int) == leading_blanks(remainder@),
        decreases it.decrease()->0,
    {
        match it.next() {
            Some(c) => {
                assert(c == remainder@[n as int]);
                if c != ' ' {
                    return n;
                }
                proof {
                    assert(remainder@.skip(n as int).drop_first() =~= remainder@.skip(n + 1));
                }
                n += 1;
            },
            None => {
                return n;
            },
        }
    }
}

impl<'a> LineBuilder<'a> {
    /// An empty line with the given indentation, after the errors set
    /// aside so far.
    pub fn new(indent: usize, errors: Vec<Range<usize>>) -> (b: Self)
        ensures
            b.indent == indent,
            b.tokens@.len() == 0,
            b.errors == errors,
    {
        LineBuilder { indent, tokens: Vec::new(), errors }
    }

    /// What follows from the next token of the tokenizer, `None` standing
    /// for the end of the source.
    ///
    /// A name joins the line. An error is set aside, by its span. The end
    /// of a line completes the line, be it empty. The end of the source
    /// completes a line that holds a token, and ends the lines where none
    /// is open.
    pub fn feed(&mut self, kind: Option<LogosToken>, span: Range<usize>, token: &'a str) -> (step: LineStep<'a>)
        ensures
            final(self).indent == old(self).indent,
            match kind {
                Some(LogosToken::Name) => {
                    &&& step == LineStep::<'a>::More
                    &&& final(self).tokens@ == old(self).tokens@.push(LexerToken { span, token })
                    &&& final(self).errors == old(self).errors
                },
                Some(LogosToken::Error) => {
                    &&& step == LineStep::<'a>::More
                    &&& final(self).tokens == old(self).tokens
                    &&& final(self).errors@ == old(self).errors@.push(span)
                },
                Some(LogosToken::Line) => {
                    &&& step == LineStep::Line(LexerLine { tokens: old(self).tokens, indent: old(self).indent })
                    &&& final(self).tokens@.len() == 0
                    &&& final(self).errors == old(self).errors
                },
                None => {
                    &&& final(self).errors == old(self).errors
                    &&& if old(self).tokens@.len() == 0 {
                        step == LineStep::<'a>::End && final(self).tokens == old(self).tokens
                    } else {
                        step == LineStep::Line(LexerLine { tokens: old(self).tokens, indent: old(self).indent })
                            && final(self).tokens@.len() == 0
                    }
                },
            },
    {
        match kind {
            Some(LogosToken::Name) => {
                self.tokens.push(LexerToken { span, token });
                LineStep::More
            },
            Some(LogosToken::Error) => {
                self.errors.push(span);
                LineStep::More
            },
            Some(LogosToken::Line) => {
                let mut tokens: Vec<LexerToken<'a>> = Vec::new();
                std::mem::swap(&mut tokens, &mut self.tokens);
                LineStep::Line(LexerLine { tokens, indent: self.indent })
            },
            None => {
                if self.tokens.len() == 0 {
                    LineStep::End
                } else {
                    let mut tokens: Vec<LexerToken<'a>> = Vec::new();
                    std::mem::swap(&mut tokens, &mut self.tokens);
                    LineStep::Line(LexerLine { tokens, indent: self.indent })
                }
            },
        }
    }
}

} // verus!
