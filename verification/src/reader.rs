//! A character cursor over a text: one character at a time, with lookahead, and with a
//! position that can be read and put back.
use vstd::prelude::*;
use crate::text::chars_of;

verus! {

/// The character of `input` at `pos`, if there is one.
pub open spec fn char_at(input: Seq<char>, pos: int) -> Option<char> {
    if 0 <= pos < input.len() {
        Some(input[pos])
    } else {
        None
    }
}

/// What a [`Reader`] stands for: a text and the position last read, if any.
pub struct Cursor {
    pub index: Option<usize>,
    pub contents: Seq<char>,
}

impl Cursor {
    /// The position that the next read will visit.
    pub open spec fn upcoming(self) -> int {
        match self.index {
            None => 0,
            Some(i) => i + 1,
        }
    }

    /// The character that the next read will return, without reading it.
    pub open spec fn peek(self) -> Option<char> {
        char_at(self.contents, self.upcoming())
    }

    /// The character at the position last read.
    pub open spec fn current(self) -> Option<char> {
        match self.index {
            None => None,
            Some(i) => char_at(self.contents, i as int),
        }
    }

    /// The same text with the next read at `pos`.
    pub open spec fn before(self, pos: int) -> Cursor {
        Cursor {
            index: if pos <= 0 {
                None
            } else {
                Some((pos - 1) as usize)
            },
            contents: self.contents,
        }
    }

    /// The cursor after one read.
    pub open spec fn advance(self) -> Cursor {
        self.before(self.upcoming() + 1)
    }
}

/// A cursor over the characters of a text. It starts before the first character.
#[derive(Debug)]
pub struct Reader {
    index: Option<usize>,
    contents: Vec<char>,
}

impl View for Reader {
    type V = Cursor;

    closed spec fn view(&self) -> Cursor {
        Cursor { index: self.index, contents: self.contents@ }
    }
}

impl Clone for Reader {
    /// A reader of the same text at the same position, which moves on its own.
    fn clone(&self) -> (copy: Self)
        ensures
            copy@ == self@,
    {
        let contents = self.contents.clone();
        assert(contents@ =~= self.contents@);
        Reader { index: self.index, contents }
    }
}

impl Reader {
    /// A reader of `contents` that has read nothing yet.
    pub fn new(contents: String) -> (reader: Self)
        ensures
            reader@ == (Cursor { index: None, contents: contents@ }),
    {
        Reader { index: None, contents: chars_of(contents.as_str()) }
    }

    /// Moves to the next position and returns the character there, `None` past the end.
    pub fn next(&mut self) -> (ch: Option<char>)
        requires
            old(self)@.upcoming() <= usize::MAX,
        ensures
            final(self)@ == old(self)@.advance(),
            ch == old(self)@.peek(),
    {
        let index: usize = match self.index {
            Some(i) => i + 1,
            None => 0,
        };
        self.index = Some(index);
        if index < self.contents.len() {
            Some(self.contents[index])
        } else {
            None
        }
    }

    /// The character that `next` would return, without moving.
    pub fn peek(&self) -> (ch: Option<char>)
        ensures
            ch == self@.peek(),
    {
        match self.index {
            None => if 0 < self.contents.len() {
                Some(self.contents[0])
            } else {
                None
            },
            Some(i) => if i < self.contents.len() && i + 1 < self.contents.len() {
                Some(self.contents[i + 1])
            } else {
                None
            },
        }
    }

    /// The character at the position last read, `None` before the first read and past the
    /// end.
    pub fn current(&self) -> (ch: Option<char>)
        ensures
            ch == self@.current(),
    {
        if let Some(i) = self.index {
            if i < self.contents.len() {
                return Some(self.contents[i]);
            }
        }
        None
    }

    /// A text has no more characters than the machine can count.
    pub proof fn lemma_text_fits(&self)
        ensures
            self@.contents.len() <= usize::MAX,
    {
        assert(self.contents@.len() == self.contents.len());
    }

    /// Puts the reader at `index`, as read from `index` before.
    pub fn set_index(&mut self, index: Option<usize>)
        ensures
            final(self)@ == (Cursor { index, contents: old(self)@.contents }),
    {
        self.index = index;
    }

    /// The position last read, `None` before the first read.
    pub fn index(&self) -> (index: Option<usize>)
        ensures
            index == self@.index,
    {
        self.index
    }
}

} // verus!
