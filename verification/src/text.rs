//! A mutable text sequence: a linear sequence of characters in which
//! newline characters separate lines. Positions are offsets into the
//! sequence; a range is a half-open interval of offsets.

use vstd::prelude::*;

verus! {

/// Holds whether offset `i` sits at the end of its line in `s`: either at
/// the end of the whole text, or on a newline character.
pub open spec fn line_end_at(s: Seq<char>, i: int) -> bool {
    i >= s.len() || s[i] == '\n'
}

/// A text sequence supporting character lookup, line-end queries and
/// atomic range replacement.
pub struct TextBuffer {
    chars: Vec<char>,
}

impl View for TextBuffer {
    type V = Seq<char>;

    closed spec fn view(&self) -> Seq<char> {
        self.chars@
    }
}

impl TextBuffer {
    /// An empty text sequence.
    pub fn new() -> (r: TextBuffer)
        ensures
            r@ == Seq::<char>::empty(),
    {
        TextBuffer { chars: Vec::new() }
    }

    /// A text sequence holding exactly the given characters.
    pub fn from_chars(chars: Vec<char>) -> (r: TextBuffer)
        ensures
            r@ == chars@,
    {
        TextBuffer { chars }
    }

    pub fn len(&self) -> (r: usize)
        ensures
            r == self@.len(),
    {
        self.chars.len()
    }

    pub fn char_at(&self, i: usize) -> (r: char)
        requires
            i < self@.len(),
        ensures
            r == self@[i as int],
    {
        self.chars[i]
    }

    /// The characters of the text, in order.
    pub fn chars(&self) -> (r: &Vec<char>)
        ensures
            r@ == self@,
    {
        &self.chars
    }

    /// A copy of the characters of the text.
    pub fn clone_chars(&self) -> (r: Vec<char>)
        ensures
            r@ == self@,
    {
        let mut out: Vec<char> = Vec::new();
        let mut i: usize = 0;
        while i < self.chars.len()
            invariant
                i <= self@.len(),
                out@ == self@.subrange(0, i as int),
            decreases self@.len() - i,
        {
            out.push(self.chars[i]);
            i = i + 1;
        }
        proof {
            assert(out@ =~= self@);
        }
        out
    }

    /// Whether offset `i` is at the end of its line.
    pub fn is_line_end(&self, i: usize) -> (r: bool)
        requires
            i <= self@.len(),
        ensures
            r == line_end_at(self@, i as int),
    {
        i == self.chars.len() || self.chars[i] == '\n'
    }

    /// Replaces the half-open range `[start, end)` with the given
    /// characters, as one atomic edit.
    pub fn splice(&mut self, start: usize, end: usize, replacement: &Vec<char>)
        requires
            start <= end <= old(self)@.len(),
        ensures
            final(self)@ == old(self)@.subrange(0, start as int) + replacement@
                + old(self)@.subrange(end as int, old(self)@.len() as int),
    {
        let mut out: Vec<char> = Vec::new();
        let mut i: usize = 0;
        while i < start
            invariant
                i <= start <= end <= self@.len(),
                out@ == self@.subrange(0, i as int),
            decreases start - i,
        {
            out.push(self.chars[i]);
            i = i + 1;
        }
        let mut j: usize = 0;
        while j < replacement.len()
            invariant
                start <= end <= self@.len(),
                j <= replacement@.len(),
                out@ == self@.subrange(0, start as int) + replacement@.subrange(0, j as int),
            decreases replacement@.len() - j,
        {
            out.push(replacement[j]);
            j = j + 1;
        }
        let mut k: usize = end;
        while k < self.chars.len()
            invariant
                start <= end <= k <= self@.len(),
                out@ == self@.subrange(0, start as int) + replacement@
                    + self@.subrange(end as int, k as int),
            decreases self@.len() - k,
        {
            out.push(self.chars[k]);
            k = k + 1;
        }
        proof {
            assert(replacement@.subrange(0, replacement@.len() as int) =~= replacement@);
            assert(out@ =~= self@.subrange(0, start as int) + replacement@
                + self@.subrange(end as int, self@.len() as int));
        }
        self.chars = out;
    }
}

} // verus!
