//! A cursor over the characters of a text.
use vstd::prelude::*;

verus! {

/// Reads a text one character at a time, counting positions in characters.
pub struct CharacterReader<'a> {
    text: &'a str,
    length: usize,
    index: usize,
}

impl<'a> CharacterReader<'a> {
    /// The characters being read.
    pub closed spec fn text(&self) -> Seq<char> {
        self.text@
    }

    /// How many characters have been consumed.
    pub closed spec fn position(&self) -> nat {
        self.index as nat
    }

    pub closed spec fn wf(&self) -> bool {
        self.length == self.text@.len() && self.index <= self.length
    }

    pub proof fn lemma_position_in_text(&self)
        requires
            self.wf(),
        ensures
            self.position() <= self.text().len(),
    {
    }

    pub fn new(text: &'a str) -> (r: Self)
        ensures
            r.wf(),
            r.text() == text@,
            r.position() == 0,
    {
        CharacterReader { text, length: text.unicode_len(), index: 0 }
    }

    /// Consumes and returns the character at the current position; `None` at
    /// the end of the text, where the position stays.
    pub fn next(&mut self) -> (r: Option<char>)
        requires
            old(self).wf(),
        ensures
            final(self).wf(),
            final(self).text() == old(self).text(),
            final(self).position() <= final(self).text().len(),
            old(self).position() < old(self).text().len() ==> r == Some(
                old(self).text()[old(self).position() as int],
            ) && final(self).position() == old(self).position() + 1,
            old(self).position() >= old(self).text().len() ==> r is None && final(self).position()
                == old(self).position(),
    {
        if self.index < self.length {
            let c = self.text.get_char(self.index);
            self.index = self.index + 1;
            Some(c)
        } else {
            None
        }
    }

    /// The character at the current position, without consuming it.
    pub fn peek(&self) -> (r: Option<char>)
        requires
            self.wf(),
        ensures
            self.position() < self.text().len() ==> r == Some(self.text()[self.position() as int]),
            self.position() >= self.text().len() ==> r is None,
    {
        if self.index < self.length {
            Some(self.text.get_char(self.index))
        } else {
            None
        }
    }
}

} // verus!
