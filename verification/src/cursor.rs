//! A forward cursor over the input characters.

use vstd::prelude::*;

verus! {

/// A cursor over the remaining input. The classifier pulls characters from
/// it one at a time; whatever it consumes is gone, so the one character
/// that ends an identifier is handed back to the caller separately.
pub struct CharCursor {
    input: Vec<char>,
    pos: usize,
}

impl CharCursor {
    /// The cursor position lies within the input.
    pub closed spec fn wf(self) -> bool {
        self.pos <= self.input.len()
    }

    /// The characters not yet consumed.
    pub closed spec fn remaining(self) -> Seq<char> {
        self.input@.skip(self.pos as int)
    }

    /// A cursor at the start of the given input.
    pub fn new(input: Vec<char>) -> (c: CharCursor)
        ensures
            c.wf(),
            c.remaining() == input@,
    {
        let c = CharCursor { input, pos: 0 };
        proof {
            assert(c.remaining() =~= c.input@);
        }
        c
    }

    /// Consumes and returns the next character, or `None` at the end of the
    /// input.
    pub fn next(&mut self) -> (r: Option<char>)
        requires
            old(self).wf(),
        ensures
            final(self).wf(),
            old(self).remaining().len() == 0 ==> r is None && *final(self) == *old(self),
            old(self).remaining().len() > 0 ==> r == Some(old(self).remaining()[0])
                && final(self).remaining() == old(self).remaining().skip(1),
    {
        if self.pos < self.input.len() {
            let c = self.input[self.pos];
            self.pos = self.pos + 1;
            proof {
                assert(self.remaining() =~= old(self).remaining().skip(1));
            }
            Some(c)
        } else {
            None
        }
    }
}

} // verus!
