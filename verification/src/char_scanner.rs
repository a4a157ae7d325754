//! A cursor over the characters of an input text.
//!
//! The scanner exposes the character under a monotone cursor, plus
//! single-character lookahead at arbitrary offsets relative to the last
//! character already consumed. It has no semantics of its own: out-of-range
//! lookups are plain `None` results, never errors.

use crate::text::str_to_chars;
use vstd::prelude::*;

verus! {

pub struct CharScanner {
    chars: Vec<char>,
    position: usize,
}

/// The character of `chars` at mathematical index `i`, if `i` is in range.
pub open spec fn char_at(chars: Seq<char>, i: int) -> Option<char> {
    if 0 <= i < chars.len() {
        Some(chars[i])
    } else {
        None
    }
}

impl CharScanner {
    /// The full character sequence being scanned.
    pub closed spec fn text(&self) -> Seq<char> {
        self.chars@
    }

    /// The cursor: the index of the next character to be consumed.
    pub closed spec fn pos(&self) -> int {
        self.position as int
    }

    pub open spec fn wf(&self) -> bool {
        0 <= self.pos() <= self.text().len()
    }

    /// Create a new scanner from input text.
    pub fn new(input: &str) -> (s: Self)
        ensures
            s.wf(),
            s.text() == input@,
            s.pos() == 0,
    {
        Self { chars: str_to_chars(input), position: 0 }
    }

    /// The character under the cursor, without advancing.
    pub fn peek(&self) -> (r: Option<char>)
        requires
            self.wf(),
        ensures
            r == char_at(self.text(), self.pos()),
    {
        if self.position < self.chars.len() {
            Some(self.chars[self.position])
        } else {
            None
        }
    }

    /// The character at `offset` positions relative to the last character
    /// already consumed, so `peek_offset(1)` equals `peek()` and
    /// `peek_offset(-1)` is the character consumed before the current one.
    pub fn peek_offset(&self, offset: isize) -> (r: Option<char>)
        requires
            self.wf(),
        ensures
            r == char_at(self.text(), self.pos() + offset - 1),
    {
        let i: i128 = self.position as i128 + offset as i128 - 1;
        if 0 <= i && i < self.chars.len() as i128 {
            Some(self.chars[i as usize])
        } else {
            None
        }
    }

    /// Consume and return the character under the cursor; `None` once the
    /// input is exhausted. This is the only mutating operation.
    pub fn next(&mut self) -> (r: Option<char>)
        requires
            old(self).wf(),
        ensures
            final(self).wf(),
            final(self).text() == old(self).text(),
            r == char_at(final(self).text(), old(self).pos()),
            r is Some ==> final(self).pos() == old(self).pos() + 1,
            r is None ==> final(self).pos() == old(self).pos(),
    {
        if self.position < self.chars.len() {
            let ch = self.chars[self.position];
            self.position = self.position + 1;
            Some(ch)
        } else {
            None
        }
    }
}

} // verus!
