//! A token stream abstraction: a cursor over an ordered sequence of tokens,
//! with peek, consume-and-return, and end-of-stream tests — the basic
//! operations a simple compiler front end needs.

use vstd::prelude::*;
use vstd::pervasive::cloned;

verus! {

/// A cursor over a sequence of tokens. `contents` and `stream_pos` are the
/// mathematical view that the operation contracts speak of; `valid` must
/// hold before any operation is used.
pub trait Stream<T>: Sized {
    /// The cursor is well formed.
    spec fn valid(&self) -> bool;

    /// The tokens the cursor walks over.
    spec fn contents(&self) -> Seq<T>;

    /// The current read position.
    spec fn stream_pos(&self) -> int;

    /// A cursor over the given tokens, starting at the first.
    fn new(tokens: &Vec<T>) -> (s: Self)
        ensures
            s.valid(),
            s.stream_pos() == 0,
            s.contents().len() == tokens@.len(),
    ;

    /// A cursor over the given tokens, starting at the given position.
    fn new_with_pos(stream: &Vec<T>, pos: usize) -> (s: Self)
        ensures
            s.valid(),
            s.stream_pos() == pos as int,
            s.contents().len() == stream@.len(),
    ;

    /// Advance the position by one and return the token that was at the
    /// previous position.
    fn advance<'c>(&'c mut self) -> (t: &'c T)
        requires
            old(self).valid(),
            0 <= old(self).stream_pos() < old(self).contents().len(),
        ensures
            final(self).valid(),
            final(self).contents() == old(self).contents(),
            final(self).stream_pos() == old(self).stream_pos() + 1,
            *t == old(self).contents()[old(self).stream_pos()],
    ;

    /// The token `step` positions ahead of the current one, when the stream
    /// is that long.
    fn lookup<'c>(&'c self, step: usize) -> (r: Option<&'c T>)
        requires
            self.valid(),
            0 <= self.stream_pos(),
        ensures
            if self.stream_pos() + step < self.contents().len() {
                r matches Some(t) && *t == self.contents()[self.stream_pos() + step]
            } else {
                r is None
            },
    ;

    /// Advance the position by one.
    fn next(&mut self)
        requires
            old(self).valid(),
            0 <= old(self).stream_pos() < old(self).contents().len(),
        ensures
            final(self).valid(),
            final(self).contents() == old(self).contents(),
            final(self).stream_pos() == old(self).stream_pos() + 1,
    ;

    /// The token just before the current position.
    fn prev<'c>(&'c self) -> (t: &'c T)
        requires
            self.valid(),
            1 <= self.stream_pos() < self.contents().len(),
        ensures
            *t == self.contents()[self.stream_pos() - 1],
    ;

    /// The token at the current position.
    fn peek<'c>(&'c self) -> (t: &'c T)
        requires
            self.valid(),
            0 <= self.stream_pos() < self.contents().len(),
        ensures
            *t == self.contents()[self.stream_pos()],
    ;

    /// Whether the current position has passed the last token.
    fn is_end(&self) -> (b: bool)
        requires
            self.valid(),
        ensures
            b == (self.stream_pos() >= self.contents().len()),
    ;
}

/// The basic stream: the current position, the owned tokens, and their
/// count.
pub struct BasicStream<T> {
    /// The current position in the stream.
    pub pos: usize,
    /// The tokens of the stream.
    pub stream: Vec<T>,
    /// The total number of tokens.
    pub size: usize,
}

impl<T: Clone> Stream<T> for BasicStream<T> {
    open spec fn valid(&self) -> bool {
        self.size as int == self.stream@.len()
    }

    open spec fn contents(&self) -> Seq<T> {
        self.stream@
    }

    open spec fn stream_pos(&self) -> int {
        self.pos as int
    }

    fn new(tokens: &Vec<T>) -> (s: Self)
        ensures
            forall|i: int|
                0 <= i < tokens@.len() ==> cloned::<T>(tokens@[i], #[trigger] s.contents()[i]),
    {
        BasicStream::new_with_pos(tokens, 0)
    }

    fn new_with_pos(stream: &Vec<T>, pos: usize) -> (s: Self)
        ensures
            forall|i: int|
                0 <= i < stream@.len() ==> cloned::<T>(stream@[i], #[trigger] s.contents()[i]),
    {
        let copy = stream.clone();
        let size = copy.len();
        BasicStream { pos, stream: copy, size }
    }

    fn advance<'c>(&'c mut self) -> (t: &'c T) {
        self.next();
        if self.is_end() {
            &self.stream[self.size - 1]
        } else {
            self.prev()
        }
    }

    fn lookup<'c>(&'c self, step: usize) -> (r: Option<&'c T>) {
        if self.pos < self.size && step < self.size - self.pos {
            Some(&self.stream[self.pos + step])
        } else {
            None
        }
    }

    fn next(&mut self) {
        self.pos = self.pos + 1;
    }

    fn prev<'c>(&'c self) -> (t: &'c T) {
        &self.stream[self.pos - 1]
    }

    fn peek<'c>(&'c self) -> (t: &'c T) {
        &self.stream[self.pos]
    }

    fn is_end(&self) -> (b: bool) {
        if self.size == 0 {
            return true;
        }
        self.pos > self.size - 1
    }
}

} // verus!
