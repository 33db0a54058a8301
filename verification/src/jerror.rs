//! Diagnostics: what went wrong, where, and how to label it.

use vstd::prelude::*;
use vstd::string::StringExecFns;

verus! {

/// A region of the source, as start and end offsets.
pub type Span = (usize, usize);

/// A list of errors.
#[derive(Debug, PartialEq, Eq)]
pub struct JError {
    pub errors: Vec<JErrorEntry>,
}

/// One error.
#[derive(Debug, PartialEq, Eq)]
pub enum JErrorEntry {
    UnexpectedEOF(Span),
    UnexpectedChar(Span, char),
    UnexpectedStr(Span, &'static str),
    UnexpectedString(Span, String),
    NameUndefined(Span),
}

/// How serious a diagnostic is.
#[derive(Debug, PartialEq, Eq, Clone, Copy)]
pub enum Severity {
    Advice,
    Warning,
    Error,
}

/// A message attached to a region of the source.
#[derive(Debug, PartialEq, Eq)]
pub struct JErrorLabel {
    pub msg: Option<String>,
    pub span: Span,
}

/// The string that holds just `c`.
fn char_to_string(c: char) -> (s: String)
    ensures
        s@ == seq![c],
{
    let mut s = String::new();
    s.push(c);
    s
}

impl Clone for JErrorEntry {
    fn clone(&self) -> (r: Self)
        ensures
            r == *self,
    {
        match self {
            JErrorEntry::UnexpectedEOF(span) => JErrorEntry::UnexpectedEOF((span.0, span.1)),
            JErrorEntry::UnexpectedChar(span, c) => JErrorEntry::UnexpectedChar((span.0, span.1), *c),
            JErrorEntry::UnexpectedStr(span, s) => JErrorEntry::UnexpectedStr((span.0, span.1), s),
            JErrorEntry::UnexpectedString(span, s) => JErrorEntry::UnexpectedString((span.0, span.1), s.clone()),
            JErrorEntry::NameUndefined(span) => JErrorEntry::NameUndefined((span.0, span.1)),
        }
    }
}

impl Clone for JErrorLabel {
    fn clone(&self) -> (r: Self)
        ensures
            r == *self,
    {
        let msg = match &self.msg {
            Some(m) => Some(m.clone()),
            None => None,
        };
        JErrorLabel { msg, span: (self.span.0, self.span.1) }
    }
}

impl Clone for JError {
    fn clone(&self) -> (r: Self)
        ensures
            r.errors@ == self.errors@,
    {
        let mut errors: Vec<JErrorEntry> = Vec::new();
        let mut i: usize = 0;
        while i < self.errors.len()
            invariant
                i <= self.errors.len(),
                errors@ == self.errors@.take(i as int),
            decreases self.errors.len() - i,
        {
            errors.push(self.errors[i].clone());
            i += 1;
        }
        JError { errors }
    }
}

impl JErrorEntry {
    /// The region of the source that the error is about.
    pub open spec fn spec_span(&self) -> Span {
        match self {
            JErrorEntry::UnexpectedEOF(span) => *span,
            JErrorEntry::UnexpectedChar(span, _) => *span,
            JErrorEntry::UnexpectedStr(span, _) => *span,
            JErrorEntry::UnexpectedString(span, _) => *span,
            JErrorEntry::NameUndefined(span) => *span,
        }
    }

    /// The headline of the error.
    pub open spec fn spec_message(&self) -> Seq<char> {
        match self {
            JErrorEntry::NameUndefined(_) => "Name error"@,
            _ => "Parsing error"@,
        }
    }

    /// The text of the error's label.
    pub open spec fn spec_label(&self) -> Seq<char> {
        match self {
            JErrorEntry::UnexpectedEOF(_) => "Expected more input, but found end of file."@,
            JErrorEntry::UnexpectedChar(_, c) => "Expected "@ + seq![*c] + " here."@,
            JErrorEntry::UnexpectedStr(_, s) => "Expected "@ + s@ + " here."@,
            JErrorEntry::UnexpectedString(_, s) => "Expected "@ + s@ + " here."@,
            JErrorEntry::NameUndefined(_) => "This name is undefined."@,
        }
    }

    /// The region of the source that the error is about.
    pub fn span(&self) -> (r: Span)
        ensures
            r == self.spec_span(),
    {
        match self {
            JErrorEntry::UnexpectedEOF(span) => *span,
            JErrorEntry::UnexpectedChar(span, _) => *span,
            JErrorEntry::UnexpectedStr(span, _) => *span,
            JErrorEntry::UnexpectedString(span, _) => *span,
            JErrorEntry::NameUndefined(span) => *span,
        }
    }

    /// The headline of the error: a name error for an undefined name, a
    /// parsing error for everything else.
    pub fn message(&self) -> (r: String)
        ensures
            r@ == self.spec_message(),
    {
        match self {
            JErrorEntry::UnexpectedEOF(_) => String::from_str("Parsing error"),
            JErrorEntry::UnexpectedChar(_, _) => String::from_str("Parsing error"),
            JErrorEntry::UnexpectedStr(_, _) => String::from_str("Parsing error"),
            JErrorEntry::UnexpectedString(_, _) => String::from_str("Parsing error"),
            JErrorEntry::NameUndefined(_) => String::from_str("Name error"),
        }
    }

    /// Every error is an error.
    pub fn severity(&self) -> (r: Severity)
        ensures
            r == Severity::Error,
    {
        Severity::Error
    }

    /// The labels of the error: one, on the error's region, that says
    /// what was expected there.
    pub fn labels(&self) -> (r: Vec<JErrorLabel>)
        ensures
            r@.len() == 1,
            r@[0].span == self.spec_span(),
            r@[0].msg matches Some(m) && m@ == self.spec_label(),
    {
        let msg = match self {
            JErrorEntry::UnexpectedEOF(_) => String::from_str("Expected more input, but found end of file."),
            JErrorEntry::UnexpectedChar(_, c) => {
                let what = char_to_string(*c);
                String::from_str("Expected ").concat(what.as_str()).concat(" here.")
            },
            JErrorEntry::UnexpectedStr(_, s) => String::from_str("Expected ").concat(s).concat(" here."),
            JErrorEntry::UnexpectedString(_, s) => String::from_str("Expected ").concat(s.as_str()).concat(
                " here.",
            ),
            JErrorEntry::NameUndefined(_) => String::from_str("This name is undefined."),
        };
        let mut labels: Vec<JErrorLabel> = Vec::new();
        labels.push(JErrorLabel { msg: Some(msg), span: self.span() });
        labels
    }
}

impl JErrorLabel {
    /// The part of a source of `src_len` bytes that the label marks, as
    /// an offset and a length: from the start of the span up to its end,
    /// or up to the last byte of the source where the span ends beyond
    /// it.
    pub open spec fn spec_extent(&self, src_len: usize) -> (usize, usize) {
        let end = if src_len - 1 <= self.span.1 {
            src_len - 1
        } else {
            self.span.1 as int
        };
        (self.span.0, (end - self.span.0) as usize)
    }

    /// Whether the label's span starts within a source of `src_len`
    /// bytes and does not end before it starts.
    pub open spec fn spec_fits(&self, src_len: usize) -> bool {
        self.span.0 < src_len && self.span.0 <= self.span.1
    }

    /// Whether `extent` may be asked for a source of `src_len` bytes.
    pub fn fits(&self, src_len: usize) -> (b: bool)
        ensures
            b == self.spec_fits(src_len),
    {
        self.span.0 < src_len && self.span.0 <= self.span.1
    }

    /// The part of the source that the label marks, as an offset and a
    /// length.
    pub fn extent(&self, src_len: usize) -> (r: (usize, usize))
        requires
            self.spec_fits(src_len),
        ensures
            r == self.spec_extent(src_len),
            r.0 + r.1 < src_len,
    {
        let end = if src_len - 1 <= self.span.1 {
            src_len - 1
        } else {
            self.span.1
        };
        (self.span.0, end - self.span.0)
    }
}

} // verus!
