use vstd::prelude::*;

use crate::tokens::Token;

verus! {

/// A cursor over a list of tokens.
#[derive(Debug)]
pub struct TokenIterator {
    pub vector: Vec<Token>,
    pub index: usize,
}

impl TokenIterator {
    /// A cursor at the first of `vector`.
    pub fn new(vector: Vec<Token>) -> (r: TokenIterator)
        ensures
            r.vector == vector,
            r.index == 0,
    {
        TokenIterator { vector, index: 0 }
    }

    /// Moves the cursor one on, also past the end, and returns the token it stood at, if
    /// any.
    pub fn next(&mut self) -> (r: Option<Token>)
        requires
            old(self).index < usize::MAX,
        ensures
            final(self).vector == old(self).vector,
            final(self).index == old(self).index + 1,
            r == if old(self).index < old(self).vector@.len() {
                Some(old(self).vector@[old(self).index as int])
            } else {
                None::<Token>
            },
    {
        let r = self.peek();
        self.index = self.index + 1;
        r
    }

    /// The token at the cursor, if any.
    pub fn peek(&self) -> (r: Option<Token>)
        ensures
            r == if self.index < self.vector@.len() {
                Some(self.vector@[self.index as int])
            } else {
                None::<Token>
            },
    {
        if self.index < self.vector.len() {
            Some(self.vector[self.index].duplicate())
        } else {
            None
        }
    }
}

} // verus!
