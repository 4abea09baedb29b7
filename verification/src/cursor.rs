//! A sequential, position-tracking reader over a byte source, and the
//! byte classes of the header grammar.
//!
//! The cursor is the one component every parsing stage shares.  It never
//! rewinds; the only repositioning is the single controlled [`ByteCursor::seek`]
//! performed after header parsing to hand the binary pixel decoder its
//! starting offset.

use vstd::prelude::*;

verus! {

/// True of the bytes that separate header and ASCII pixel tokens:
/// space, tab, carriage return and line feed.
pub open spec fn spec_is_whitespace(b: u8) -> bool {
    b == 0x20 || b == 0x09 || b == 0x0d || b == 0x0a
}

/// True of `#`, which starts a comment running to the end of the line.
pub open spec fn spec_is_comment_start(b: u8) -> bool {
    b == 0x23
}

/// True of the bytes that end a comment: carriage return and line feed.
pub open spec fn spec_is_line_end(b: u8) -> bool {
    b == 0x0d || b == 0x0a
}

/// True of the bytes a token is made of: anything that neither separates
/// tokens nor starts a comment.
pub open spec fn spec_is_token_byte(b: u8) -> bool {
    !spec_is_whitespace(b) && !spec_is_comment_start(b)
}

/// Whether `b` separates tokens.
pub fn is_whitespace(b: u8) -> (r: bool)
    ensures
        r == spec_is_whitespace(b),
{
    b == 0x20 || b == 0x09 || b == 0x0d || b == 0x0a
}

/// Whether `b` starts a comment.
pub fn is_comment_start(b: u8) -> (r: bool)
    ensures
        r == spec_is_comment_start(b),
{
    b == 0x23
}

/// Whether `b` ends a comment line.
pub fn is_line_end(b: u8) -> (r: bool)
    ensures
        r == spec_is_line_end(b),
{
    b == 0x0d || b == 0x0a
}

/// A reader over a byte source with a monotonically increasing position.
pub struct ByteCursor<'a> {
    bytes: &'a Vec<u8>,
    pos: usize,
}

impl<'a> ByteCursor<'a> {
    /// The bytes this cursor reads.
    pub closed spec fn data(self) -> Seq<u8> {
        self.bytes@
    }

    /// The current read position.
    pub closed spec fn spec_pos(self) -> nat {
        self.pos as nat
    }

    /// The position never runs past the end of the source.
    pub closed spec fn wf(self) -> bool {
        self.pos <= self.bytes@.len()
    }

    /// A well-formed cursor's position is within its data.
    pub proof fn lemma_wf_pos(self)
        requires
            self.wf(),
        ensures
            self.spec_pos() <= self.data().len(),
    {
    }

    /// A cursor over `bytes`, positioned at offset 0.
    pub fn new(bytes: &'a Vec<u8>) -> (c: ByteCursor<'a>)
        ensures
            c.data() == bytes@,
            c.spec_pos() == 0,
            c.wf(),
    {
        ByteCursor { bytes, pos: 0 }
    }

    /// The current byte offset from the start of the source.
    pub fn position(&self) -> (p: usize)
        ensures
            p == self.spec_pos(),
    {
        self.pos
    }

    /// Repositions the cursor.  Used exactly once per decode, after header
    /// parsing, to start the binary pixel decoder at the pixel data offset.
    pub fn seek(&mut self, pos: usize)
        requires
            pos <= old(self).data().len(),
        ensures
            final(self).data() == old(self).data(),
            final(self).spec_pos() == pos,
            final(self).wf(),
    {
        self.pos = pos;
    }

    /// Reads one byte and advances, or reports end of input.
    pub fn next_byte(&mut self) -> (r: Option<u8>)
        requires
            old(self).wf(),
        ensures
            final(self).data() == old(self).data(),
            final(self).wf(),
            match r {
                Some(b) => {
                    &&& old(self).spec_pos() < old(self).data().len()
                    &&& b == old(self).data()[old(self).spec_pos() as int]
                    &&& final(self).spec_pos() == old(self).spec_pos() + 1
                },
                None => {
                    &&& old(self).spec_pos() == old(self).data().len()
                    &&& final(self).spec_pos() == old(self).spec_pos()
                },
            },
    {
        if self.pos < self.bytes.len() {
            let b = self.bytes[self.pos];
            self.pos = self.pos + 1;
            Some(b)
        } else {
            None
        }
    }

    /// The byte at the current position, without advancing.
    pub fn peek(&self) -> (r: Option<u8>)
        requires
            self.wf(),
        ensures
            match r {
                Some(b) => {
                    &&& self.spec_pos() < self.data().len()
                    &&& b == self.data()[self.spec_pos() as int]
                },
                None => self.spec_pos() == self.data().len(),
            },
    {
        if self.pos < self.bytes.len() {
            Some(self.bytes[self.pos])
        } else {
            None
        }
    }

    /// Whether the byte at the current position is token whitespace.
    /// False at end of input.
    pub fn peek_is_whitespace(&self) -> (r: bool)
        requires
            self.wf(),
        ensures
            r == (self.spec_pos() < self.data().len() && spec_is_whitespace(
                self.data()[self.spec_pos() as int],
            )),
    {
        match self.peek() {
            Some(b) => is_whitespace(b),
            None => false,
        }
    }

    /// Whether the byte at the current position starts a comment.
    /// False at end of input.
    pub fn peek_is_comment_start(&self) -> (r: bool)
        requires
            self.wf(),
        ensures
            r == (self.spec_pos() < self.data().len() && spec_is_comment_start(
                self.data()[self.spec_pos() as int],
            )),
    {
        match self.peek() {
            Some(b) => is_comment_start(b),
            None => false,
        }
    }
}

} // verus!
