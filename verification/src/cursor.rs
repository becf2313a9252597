//! The peekable character cursor the parser reads from.
//!
//! The cursor owns the whole input and a position into it. `peek` views the
//! next character without consuming it; `next` consumes one character. The
//! maximal-run primitives the readers need (skip whitespace, consume a number
//! run, scan a string body) are loops over these two in [`crate::parser`],
//! so that the character that ends a run is never consumed with it.

use vstd::prelude::*;

verus! {

/// A peekable cursor over a sequence of characters.
pub struct Cursor {
    input: Vec<char>,
    position: usize,
}

impl Cursor {
    /// The characters the cursor reads, as a whole; it never changes.
    pub closed spec fn src(&self) -> Seq<char> {
        self.input@
    }

    /// The position of the next character to be consumed.
    pub closed spec fn pos(&self) -> int {
        self.position as int
    }

    /// The position never runs past the end of the input.
    pub open spec fn wf(&self) -> bool {
        0 <= self.pos() <= self.src().len()
    }

    /// A cursor at the start of the given characters.
    pub fn new(input: Vec<char>) -> (c: Cursor)
        ensures
            c.src() == input@,
            c.pos() == 0,
            c.wf(),
    {
        Cursor { input, position: 0 }
    }

    /// The next character, not consumed; `None` at the end of the input.
    pub fn peek(&self) -> (r: Option<char>)
        requires
            self.wf(),
        ensures
            r == (if self.pos() < self.src().len() {
                Some(self.src()[self.pos()])
            } else {
                None::<char>
            }),
    {
        if self.position < self.input.len() {
            Some(self.input[self.position])
        } else {
            None
        }
    }

    /// Consumes and returns the next character; `None` at the end of the
    /// input, where the cursor stays put.
    pub fn next(&mut self) -> (r: Option<char>)
        requires
            old(self).wf(),
        ensures
            final(self).wf(),
            final(self).src() == old(self).src(),
            r == (if old(self).pos() < old(self).src().len() {
                Some(old(self).src()[old(self).pos()])
            } else {
                None::<char>
            }),
            final(self).pos() == (if old(self).pos() < old(self).src().len() {
                old(self).pos() + 1
            } else {
                old(self).pos()
            }),
    {
        if self.position < self.input.len() {
            let c = self.input[self.position];
            self.position = self.position + 1;
            Some(c)
        } else {
            None
        }
    }
}

} // verus!
