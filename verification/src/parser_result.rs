//! The outcome of a parse: success or failure, the position reached, and
//! the deepest position at which any attempt failed on the way.

use vstd::prelude::*;

verus! {

/// The deeper of two optional positions; an absent one counts as none.
pub open spec fn deeper(a: Option<int>, b: Option<int>) -> Option<int> {
    match (a, b) {
        (None, _) => b,
        (_, None) => a,
        (Some(x), Some(y)) => if x >= y { a } else { b },
    }
}

/// The mathematical outcome of a parse.
///
/// A success holds a value and the position just after what it consumed; a
/// failure holds no value and the position at which it gave up. `deepest`
/// is the deepest position at which any attempt failed on the way, if any
/// did.
pub ghost struct Outcome<V> {
    pub value: Option<V>,
    pub pos: int,
    pub deepest: Option<int>,
}

impl<V> Outcome<V> {
    /// A success on which nothing has failed yet.
    pub open spec fn ok(v: V, pos: int) -> Self {
        Outcome { value: Some(v), pos, deepest: None }
    }

    /// A failure at `pos`.
    pub open spec fn err(pos: int) -> Self {
        Outcome { value: None, pos, deepest: Some(pos) }
    }

    pub open spec fn is_ok(self) -> bool {
        self.value is Some
    }

    /// The same outcome with another value in place of a success's value.
    pub open spec fn with_value<W>(self, w: W) -> Outcome<W> {
        Outcome { value: if self.value is Some { Some(w) } else { None }, pos: self.pos, deepest: self.deepest }
    }

    /// Sequencing: `self` succeeded and `step` was parsed from where it
    /// ended. The step decides success and position; what failed on
    /// either side is kept.
    pub open spec fn followed_by<W>(self, step: Outcome<W>) -> Outcome<(V, W)> {
        Outcome {
            value: if step.value is Some { Some((self.value->0, step.value->0)) } else { None },
            pos: step.pos,
            deepest: deeper(self.deepest, step.deepest),
        }
    }

    /// Choice: `self` is the best failure so far and `candidate` the next
    /// alternative, parsed from the start of the choice. A success is
    /// kept; of two failures the one that got further, the earlier one on
    /// a tie.
    pub open spec fn or(self, candidate: Outcome<V>) -> Outcome<V> {
        Outcome {
            value: candidate.value,
            pos: if candidate.value is Some || candidate.pos > self.pos { candidate.pos } else { self.pos },
            deepest: deeper(self.deepest, candidate.deepest),
        }
    }

    /// Adds a failed attempt's deepest position to an outcome.
    pub open spec fn noting(self, d: Option<int>) -> Outcome<V> {
        Outcome { value: self.value, pos: self.pos, deepest: deeper(self.deepest, d) }
    }
}

/// The outcome of a parse, as the parser hands it on.
#[derive(Debug, PartialEq, Eq)]
pub struct ParseResult<T> {
    /// The value of a success; `None` for a failure.
    pub result: Option<T>,
    /// Just after the consumed input on success; where it gave up on failure.
    pub pos: usize,
    /// The deepest position at which any attempt failed on the way.
    pub best_error: Option<usize>,
}

/// An optional machine position as a mathematical one.
pub open spec fn lift_pos(p: Option<usize>) -> Option<int> {
    match p {
        Some(x) => Some(x as int),
        None => None,
    }
}

impl<T: View> View for ParseResult<T> {
    type V = Outcome<T::V>;

    open spec fn view(&self) -> Outcome<T::V> {
        Outcome {
            value: match self.result {
                Some(v) => Some(v@),
                None => None,
            },
            pos: self.pos as int,
            deepest: lift_pos(self.best_error),
        }
    }
}

/// The deeper of two optional positions.
pub fn deeper_pos(a: Option<usize>, b: Option<usize>) -> (r: Option<usize>)
    ensures
        lift_pos(r) == deeper(lift_pos(a), lift_pos(b)),
        r == a || r == b,
{
    match (a, b) {
        (None, _) => b,
        (_, None) => a,
        (Some(x), Some(y)) => if x >= y { a } else { b },
    }
}

impl<T> ParseResult<T> {
    /// A success with `result`, ending at `pos`; nothing has failed yet.
    pub fn new_ok(result: T, pos: usize) -> (r: Self)
        ensures
            r.result == Some(result),
            r.pos == pos,
            r.best_error is None,
    {
        ParseResult { result: Some(result), pos, best_error: None }
    }

    /// A failure at `pos`.
    pub fn new_err(pos: usize) -> (r: Self)
        ensures
            r.result is None,
            r.pos == pos,
            r.best_error == Some(pos),
    {
        ParseResult { result: None, pos, best_error: Some(pos) }
    }

    pub open spec fn spec_is_ok(&self) -> bool {
        self.result is Some
    }

    /// Whether this is a success.
    #[verifier::when_used_as_spec(spec_is_ok)]
    pub fn is_ok(&self) -> (b: bool)
        ensures
            b == self.result is Some,
    {
        self.result.is_some()
    }

    /// Transforms a success's value; position and what failed on the way
    /// stay as they are. A failure stays a failure and `f` is not called.
    pub fn map<U, F: FnOnce(T) -> U>(self, f: F) -> (r: ParseResult<U>)
        requires
            self.result matches Some(v) ==> f.requires((v,)),
        ensures
            r.pos == self.pos,
            r.best_error == self.best_error,
            r.result is Some <==> self.result is Some,
            self.result matches Some(v) ==> f.ensures((v,), r.result->0),
    {
        match self.result {
            Some(v) => ParseResult { result: Some(f(v)), pos: self.pos, best_error: self.best_error },
            None => ParseResult { result: None, pos: self.pos, best_error: self.best_error },
        }
    }

    /// A success's value replaced by `value`; a failure stays a failure.
    pub fn replace<U>(self, value: U) -> (r: ParseResult<U>)
        ensures
            r.pos == self.pos,
            r.best_error == self.best_error,
            r.result == (if self.result is Some { Some(value) } else { None::<U> }),
    {
        let found = self.result.is_some();
        ParseResult { result: if found { Some(value) } else { None }, pos: self.pos, best_error: self.best_error }
    }

    /// Sequencing composition. `self` is a success and `step` was parsed
    /// from `self.pos`: the result pairs the two values if the step
    /// succeeded and is a failure at the step's position if not. Either
    /// way it ends where the step ended and keeps the deeper of the two
    /// recorded failures.
    pub fn followed_by<U>(self, step: ParseResult<U>) -> (r: ParseResult<(T, U)>)
        requires
            self.result is Some,
        ensures
            r.pos == step.pos,
            lift_pos(r.best_error) == deeper(lift_pos(self.best_error), lift_pos(step.best_error)),
            r.result == (if step.result is Some {
                Some((self.result->0, step.result->0))
            } else {
                None::<(T, U)>
            }),
    {
        let best_error = deeper_pos(self.best_error, step.best_error);
        match (self.result, step.result) {
            (Some(a), Some(b)) => ParseResult { result: Some((a, b)), pos: step.pos, best_error },
            _ => ParseResult { result: None, pos: step.pos, best_error },
        }
    }

    /// Choice composition. `self` is the best failure so far and
    /// `candidate` the next alternative, parsed from the start of the
    /// choice. A successful candidate is kept. Of two failures the one at
    /// the deeper position is kept, the earlier one on a tie. The deeper
    /// of the two recorded failures is kept either way.
    pub fn or(self, candidate: ParseResult<T>) -> (r: ParseResult<T>)
        requires
            self.result is None,
        ensures
            r.result == candidate.result,
            r.pos == (if candidate.result is Some || candidate.pos > self.pos {
                candidate.pos
            } else {
                self.pos
            }),
            lift_pos(r.best_error) == deeper(lift_pos(self.best_error), lift_pos(candidate.best_error)),
    {
        let best_error = deeper_pos(self.best_error, candidate.best_error);
        let pos = if candidate.result.is_some() || candidate.pos > self.pos {
            candidate.pos
        } else {
            self.pos
        };
        ParseResult { result: candidate.result, pos, best_error }
    }

    /// Records a failed attempt's deepest position on this outcome.
    pub fn noting(self, failed: Option<usize>) -> (r: ParseResult<T>)
        ensures
            r.result == self.result,
            r.pos == self.pos,
            lift_pos(r.best_error) == deeper(lift_pos(self.best_error), lift_pos(failed)),
    {
        let best_error = deeper_pos(self.best_error, failed);
        ParseResult { result: self.result, pos: self.pos, best_error }
    }
}

} // verus!
