//! A cursor over the source bytes that tracks the byte offset and the
//! one-based line and column.

use vstd::prelude::*;

use crate::lexer::{CompileLimits, LanguageProfile, SourcePosition};

verus! {

pub struct Cursor<'a> {
    pub input: &'a [u8],
    pub profile: LanguageProfile,
    pub offset: usize,
    pub line: usize,
    pub column: usize,
}

/// How many bytes one step at `offset` consumes: a two-byte newline pair
/// (`\n\r` or `\r\n`) is one logical newline.
pub open spec fn step_len(input: Seq<u8>, offset: int) -> int {
    if offset >= input.len() {
        0
    } else if offset + 1 < input.len() && ((input[offset] == 10 && input[offset + 1] == 13) || (input[offset] == 13 && input[offset + 1] == 10)) {
        2
    } else {
        1
    }
}

impl<'a> Cursor<'a> {
    pub open spec fn wf(&self) -> bool {
        self.offset <= self.input@.len() <= usize::MAX
    }

    pub open spec fn at(&self, d: int) -> Option<u8> {
        if 0 <= self.offset + d < self.input@.len() {
            Some(self.input@[self.offset + d])
        } else {
            None
        }
    }

    pub fn new(input: &'a [u8], profile: LanguageProfile) -> (r: Cursor<'a>)
        ensures
            r.wf(),
            r.input == input,
            r.profile == profile,
            r.offset == 0,
            r.line == 1,
            r.column == 1,
    {
        let _len = input.len();
        Cursor { input, profile, offset: 0, line: 1, column: 1 }
    }

    pub fn peek(&self) -> (r: Option<u8>)
        requires
            self.wf(),
        ensures
            r == self.at(0),
    {
        if self.offset < self.input.len() {
            Some(self.input[self.offset])
        } else {
            None
        }
    }

    pub fn peek_n(&self, distance: usize) -> (r: Option<u8>)
        requires
            self.wf(),
        ensures
            r == self.at(distance as int),
    {
        if distance < self.input.len() - self.offset {
            Some(self.input[self.offset + distance])
        } else {
            None
        }
    }

    pub fn offset(&self) -> (r: usize)
        ensures
            r == self.offset,
    {
        self.offset
    }

    pub fn profile(&self) -> (r: LanguageProfile)
        ensures
            r == self.profile,
    {
        self.profile
    }

    pub fn position(&self) -> (r: SourcePosition)
        ensures
            r.line == self.line && r.column == self.column,
    {
        SourcePosition { line: self.line, column: self.column }
    }

    /// Steps over one byte or one logical newline; a newline moves to the
    /// first column of the next line, which must stay within the line limit,
    /// and any other byte to the next column of the same line.
    pub fn advance(&mut self, limits: &CompileLimits) -> (r: Result<(), &'static str>)
        requires
            old(self).wf(),
        ensures
            final(self).wf(),
            final(self).input == old(self).input,
            final(self).profile == old(self).profile,
            final(self).offset == old(self).offset + step_len(old(self).input@, old(self).offset as int),
            old(self).offset >= old(self).input@.len() ==> r is Ok && final(self).line == old(self).line && final(self).column == old(self).column,
            old(self).at(0) matches Some(b) && (b == 10 || b == 13) ==> {
                &&& (r is Ok <==> old(self).line < usize::MAX && old(self).line + 1 <= limits.max_lines)
                &&& r is Ok ==> final(self).line == old(self).line + 1 && final(self).column == 1
            },
            old(self).at(0) matches Some(b) && b != 10 && b != 13 ==> {
                &&& (r is Ok <==> old(self).column < usize::MAX)
                &&& r is Ok ==> final(self).line == old(self).line && final(self).column == old(self).column + 1
            },
    {
        if self.offset >= self.input.len() {
            return Ok(());
        }
        let byte = self.input[self.offset];
        if byte == 10u8 || byte == 13u8 {
            let pair = self.offset + 1 < self.input.len() && ((byte == 10u8 && self.input[self.offset + 1] == 13u8) || (byte == 13u8
                && self.input[self.offset + 1] == 10u8));
            self.offset = self.offset + 1;
            if pair {
                self.offset = self.offset + 1;
            }
            if self.line == usize::MAX {
                return Err("行數溢位");
            }
            self.line = self.line + 1;
            if self.line > limits.max_lines {
                return Err("行數超過編譯限制");
            }
            self.column = 1;
        } else {
            self.offset = self.offset + 1;
            if self.column == usize::MAX {
                return Err("欄位溢位");
            }
            self.column = self.column + 1;
        }
        Ok(())
    }
}

} // verus!
