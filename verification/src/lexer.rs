//! The stream adapter: a pull-based tokenizer over one borrowed input
//! buffer.
//!
//! Each pull skips insignificant whitespace, classifies once at the cursor,
//! and yields either a `(start, kind, end)` triple or a recoverable error
//! carrying the failing offset.  After an error the cursor moves past one
//! character so the stream continues; it ends cleanly at end of input.

use vstd::prelude::*;
use vstd::string::StringSliceAdditionalSpecFns;

use crate::chars::is_ws;
use crate::classify::classification;
use crate::classify::classify;
use crate::classify::no_token_at;
use crate::token::LexicalError;
use crate::token::Token;

verus! {

/// The whitespace skip starting at `from` stops exactly at `s`: everything
/// before `s` is insignificant whitespace and `s` is the end of input or a
/// significant byte.
pub open spec fn ws_skip_to(i: Seq<u8>, from: int, s: int) -> bool {
    &&& from <= s <= i.len()
    &&& forall|j: int| from <= j < s ==> is_ws(#[trigger] i[j])
    &&& (s == i.len() || !is_ws(i[s]))
}

/// The width in bytes of the minimal unit skipped after a classification
/// failure: one whole UTF-8-encoded character, read from its leading byte.
pub open spec fn unit_len(c: u8) -> int {
    if c < 0xc0 {
        1
    } else if c < 0xe0 {
        2
    } else if c < 0xf0 {
        3
    } else if c < 0xf8 {
        4
    } else {
        1
    }
}

/// Where the cursor stands after skipping the unmatchable unit at `off`:
/// one encoded character ahead, clipped to the end of the buffer.
pub open spec fn skip_unit(i: Seq<u8>, off: int) -> int {
    if off + unit_len(i[off]) <= i.len() {
        off + unit_len(i[off])
    } else {
        i.len() as int
    }
}

/// A pull-based tokenizer over a borrowed input buffer.  Its only mutable
/// state is the byte cursor; the buffer itself is never copied or changed.
pub struct Lexer<'a> {
    input: &'a [u8],
    pos: usize,
}

impl<'a> Lexer<'a> {
    /// The input buffer as a byte sequence.
    pub closed spec fn buf(self) -> Seq<u8> {
        self.input@
    }

    /// The byte offset where the next pull starts.
    pub closed spec fn cursor(self) -> int {
        self.pos as int
    }

    /// The cursor never leaves the buffer.
    pub closed spec fn wf(self) -> bool {
        self.pos <= self.input@.len()
    }

    /// A fresh lexer over `input`, with the cursor at the start of the
    /// buffer.
    pub fn new(input: &'a str) -> (l: Lexer<'a>)
        ensures
            l.wf(),
            l.buf() == input.spec_bytes(),
            l.cursor() == 0,
    {
        Lexer { input: input.as_bytes(), pos: 0 }
    }

    /// One pull.  Whitespace between the old cursor and the yielded item is
    /// skipped and never emitted; a `Some(Ok((s, k, e)))` is the
    /// classification of the buffer at `s`; a `Some(Err(..))` carries the
    /// offset where nothing matched, after which the cursor moves one
    /// character ahead; `None` means the rest of the buffer is whitespace,
    /// and every later pull returns `None` again.
    pub fn next(&mut self) -> (r: Option<Result<(usize, Token, usize), LexicalError>>)
        requires
            old(self).wf(),
        ensures
            final(self).wf(),
            final(self).buf() == old(self).buf(),
            match r {
                None => {
                    &&& ws_skip_to(old(self).buf(), old(self).cursor(), old(self).buf().len() as int)
                    &&& final(self).cursor() == old(self).buf().len()
                },
                Some(Ok(t)) => {
                    &&& ws_skip_to(old(self).buf(), old(self).cursor(), t.0 as int)
                    &&& classification(old(self).buf(), t.0 as int, t.1, t.2 as int)
                    &&& final(self).cursor() == t.2
                },
                Some(Err(LexicalError::NoMatch(off))) => {
                    &&& ws_skip_to(old(self).buf(), old(self).cursor(), off as int)
                    &&& off < old(self).buf().len()
                    &&& no_token_at(old(self).buf(), off as int)
                    &&& final(self).cursor() == skip_unit(old(self).buf(), off as int)
                    &&& off < final(self).cursor()
                },
            },
    {
        let ghost i = self.input@;
        let ghost p0 = self.pos as int;
        let len = self.input.len();
        let mut q = self.pos;
        while q < len && (self.input[q] == 0x20 || self.input[q] == 0x09 || self.input[q] == 0x0a
            || self.input[q] == 0x0c)
            invariant
                i == self.input@,
                len == i.len(),
                p0 <= q as int <= i.len(),
                forall|j: int| p0 <= j < q as int ==> is_ws(#[trigger] i[j]),
            decreases i.len() - q as int,
        {
            q = q + 1;
        }
        if q == len {
            self.pos = q;
            return None;
        }
        match classify(self.input, q) {
            Some((k, e)) => {
                self.pos = e;
                Some(Ok((q, k, e)))
            },
            None => {
                let c = self.input[q];
                let w: usize = if c < 0xc0 {
                    1
                } else if c < 0xe0 {
                    2
                } else if c < 0xf0 {
                    3
                } else if c < 0xf8 {
                    4
                } else {
                    1
                };
                let stop: usize = if len - q < w {
                    len
                } else {
                    q + w
                };
                self.pos = stop;
                Some(Err(LexicalError::NoMatch(q)))
            },
        }
    }
}

} // verus!
