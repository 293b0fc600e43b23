//! The mode-switching byte-to-instruction tokenizer.
//!
//! Each input byte yields at most one instruction, looked up in the table of
//! the current dialect mode. Scanning starts in mode `A`; whenever a byte
//! maps to the new-string instruction `Snew` (in either mode), the mode flips
//! before the following byte is looked up, so the dialect that interprets a
//! byte depends on the parity of the new-string operators seen so far.

use vstd::prelude::*;

verus! {

/// The dialect mode: which of the two spelling tables is active. `A` is the
/// primary dialect, in which scanning starts; `S` is the secondary one.
#[derive(Clone, Copy, Debug, PartialEq, Eq, Structural)]
pub enum LexerMode {
    A,
    S,
}

/// One of the 23 operations of the language, independent of the spelling
/// that produced it.
#[derive(Clone, Copy, Debug, PartialEq, Eq, Structural)]
pub enum Instruction {
    Inew,
    Iinc,
    Ishl,
    Iadd,
    Ineg,
    Isht,
    Itof,
    Itou,
    Finf,
    Fnan,
    Fneg,
    Snew,
    Sadd,
    Onew,
    Oadd,
    Anew,
    Aadd,
    Bnew,
    Bneg,
    Nnew,
    Gdup,
    Gpop,
    Gswp,
}

/// The other mode.
pub open spec fn flip_mode(m: LexerMode) -> LexerMode {
    match m {
        LexerMode::A => LexerMode::S,
        LexerMode::S => LexerMode::A,
    }
}

/// The primary dialect table.
pub open spec fn primary_token(c: u8) -> Option<Instruction> {
    if c == 66u8 {
        Some(Instruction::Inew)
    } else if c == 117u8 {
        Some(Instruction::Iinc)
    } else if c == 98u8 {
        Some(Instruction::Ishl)
    } else if c == 97u8 {
        Some(Instruction::Iadd)
    } else if c == 65u8 {
        Some(Instruction::Ineg)
    } else if c == 101u8 {
        Some(Instruction::Isht)
    } else if c == 105u8 {
        Some(Instruction::Itof)
    } else if c == 39u8 {
        Some(Instruction::Itou)
    } else if c == 113u8 {
        Some(Instruction::Finf)
    } else if c == 116u8 {
        Some(Instruction::Fnan)
    } else if c == 112u8 {
        Some(Instruction::Fneg)
    } else if c == 63u8 {
        Some(Instruction::Snew)
    } else if c == 33u8 {
        Some(Instruction::Sadd)
    } else if c == 126u8 {
        Some(Instruction::Onew)
    } else if c == 77u8 {
        Some(Instruction::Oadd)
    } else if c == 64u8 {
        Some(Instruction::Anew)
    } else if c == 115u8 {
        Some(Instruction::Aadd)
    } else if c == 122u8 {
        Some(Instruction::Bnew)
    } else if c == 111u8 {
        Some(Instruction::Bneg)
    } else if c == 46u8 {
        Some(Instruction::Nnew)
    } else if c == 69u8 {
        Some(Instruction::Gdup)
    } else if c == 35u8 {
        Some(Instruction::Gpop)
    } else if c == 37u8 {
        Some(Instruction::Gswp)
    } else {
        None
    }
}

/// The secondary dialect table.
pub open spec fn secondary_token(c: u8) -> Option<Instruction> {
    if c == 83u8 {
        Some(Instruction::Inew)
    } else if c == 104u8 {
        Some(Instruction::Iinc)
    } else if c == 97u8 {
        Some(Instruction::Ishl)
    } else if c == 107u8 {
        Some(Instruction::Iadd)
    } else if c == 114u8 {
        Some(Instruction::Ineg)
    } else if c == 65u8 {
        Some(Instruction::Isht)
    } else if c == 122u8 {
        Some(Instruction::Itof)
    } else if c == 105u8 {
        Some(Instruction::Itou)
    } else if c == 109u8 {
        Some(Instruction::Finf)
    } else if c == 98u8 {
        Some(Instruction::Fnan)
    } else if c == 117u8 {
        Some(Instruction::Fneg)
    } else if c == 36u8 {
        Some(Instruction::Snew)
    } else if c == 45u8 {
        Some(Instruction::Sadd)
    } else if c == 43u8 {
        Some(Instruction::Onew)
    } else if c == 103u8 {
        Some(Instruction::Oadd)
    } else if c == 118u8 {
        Some(Instruction::Anew)
    } else if c == 63u8 {
        Some(Instruction::Aadd)
    } else if c == 94u8 {
        Some(Instruction::Bnew)
    } else if c == 33u8 {
        Some(Instruction::Bneg)
    } else if c == 121u8 {
        Some(Instruction::Nnew)
    } else if c == 47u8 {
        Some(Instruction::Gdup)
    } else if c == 101u8 {
        Some(Instruction::Gpop)
    } else if c == 58u8 {
        Some(Instruction::Gswp)
    } else {
        None
    }
}

/// The instruction a byte yields under a mode, if any.
pub open spec fn token_of(m: LexerMode, c: u8) -> Option<Instruction> {
    match m {
        LexerMode::A => primary_token(c),
        LexerMode::S => secondary_token(c),
    }
}

/// The mode after scanning one byte: it flips exactly on a new-string byte.
pub open spec fn mode_after_byte(m: LexerMode, c: u8) -> LexerMode {
    if token_of(m, c) == Some(Instruction::Snew) {
        flip_mode(m)
    } else {
        m
    }
}

/// The token stream a byte sequence yields, starting in mode `m`: one
/// element per byte.
pub open spec fn tokens(m: LexerMode, input: Seq<u8>) -> Seq<Option<Instruction>>
    decreases input.len(),
{
    if input.len() == 0 {
        Seq::<Option<Instruction>>::empty()
    } else {
        seq![token_of(m, input[0])] + tokens(mode_after_byte(m, input[0]), input.drop_first())
    }
}

/// The mode after scanning a whole byte sequence.
pub open spec fn mode_after(m: LexerMode, input: Seq<u8>) -> LexerMode
    decreases input.len(),
{
    if input.len() == 0 {
        m
    } else {
        mode_after(mode_after_byte(m, input[0]), input.drop_first())
    }
}

/// How many bytes of the sequence yield `Snew`, scanning from mode `m`.
pub open spec fn snew_count(m: LexerMode, input: Seq<u8>) -> nat
    decreases input.len(),
{
    if input.len() == 0 {
        0
    } else {
        (if token_of(m, input[0]) == Some(Instruction::Snew) {
            1nat
        } else {
            0nat
        }) + snew_count(mode_after_byte(m, input[0]), input.drop_first())
    }
}

/// Mode toggling is parity-based: after scanning, the mode is the starting
/// mode exactly when the number of new-string operators seen is even, and
/// the flipped mode when it is odd.
pub proof fn lemma_mode_parity(m: LexerMode, input: Seq<u8>)
    ensures
        mode_after(m, input) == if snew_count(m, input) % 2 == 0 {
            m
        } else {
            flip_mode(m)
        },
    decreases input.len(),
{
    if input.len() > 0 {
        lemma_mode_parity(mode_after_byte(m, input[0]), input.drop_first());
    }
}

/// The bytes a lexer has not yet scanned.
pub open spec fn rem(input: Seq<u8>, pos: int) -> Seq<u8> {
    if 0 <= pos <= input.len() {
        input.skip(pos)
    } else {
        Seq::<u8>::empty()
    }
}

/// A lazy scanner over a byte buffer: a cursor plus the current mode.
#[derive(Clone)]
pub struct Lexer<'a> {
    pub input: &'a [u8],
    pub pos: usize,
    pub mode: LexerMode,
}

/// The token stream a lexer will yield from its current position and mode.
pub open spec fn remaining_tokens<'a>(l: Lexer<'a>) -> Seq<Option<Instruction>> {
    tokens(l.mode, rem(l.input@, l.pos as int))
}

/// Scanning is a pure function of the cursor state: two lexers over equal
/// bytes, at the same position and in the same mode, yield identical token
/// streams. Running the tokenizer twice over identical input therefore
/// produces identical results.
pub proof fn lemma_tokenizer_deterministic<'a, 'b>(l1: Lexer<'a>, l2: Lexer<'b>)
    requires
        l1.input@ == l2.input@,
        l1.pos == l2.pos,
        l1.mode == l2.mode,
    ensures
        remaining_tokens(l1) == remaining_tokens(l2),
{
}

impl LexerMode {
    /// The other mode.
    pub fn flipped(&self) -> (r: Self)
        ensures
            r == flip_mode(*self),
    {
        match self {
            LexerMode::A => LexerMode::S,
            LexerMode::S => LexerMode::A,
        }
    }

    /// Classifies one byte under the current mode and flips the mode if the
    /// byte is a new-string operator.
    pub fn byte_to_instruction(&mut self, c: u8) -> (r: Option<Instruction>)
        ensures
            r == token_of(*old(self), c),
            *final(self) == mode_after_byte(*old(self), c),
    {
        let tok: Option<Instruction> = match *self {
            LexerMode::A => {
                if c == 66u8 {
                    Some(Instruction::Inew)
                } else if c == 117u8 {
                    Some(Instruction::Iinc)
                } else if c == 98u8 {
                    Some(Instruction::Ishl)
                } else if c == 97u8 {
                    Some(Instruction::Iadd)
                } else if c == 65u8 {
                    Some(Instruction::Ineg)
                } else if c == 101u8 {
                    Some(Instruction::Isht)
                } else if c == 105u8 {
                    Some(Instruction::Itof)
                } else if c == 39u8 {
                    Some(Instruction::Itou)
                } else if c == 113u8 {
                    Some(Instruction::Finf)
                } else if c == 116u8 {
                    Some(Instruction::Fnan)
                } else if c == 112u8 {
                    Some(Instruction::Fneg)
                } else if c == 63u8 {
                    Some(Instruction::Snew)
                } else if c == 33u8 {
                    Some(Instruction::Sadd)
                } else if c == 126u8 {
                    Some(Instruction::Onew)
                } else if c == 77u8 {
                    Some(Instruction::Oadd)
                } else if c == 64u8 {
                    Some(Instruction::Anew)
                } else if c == 115u8 {
                    Some(Instruction::Aadd)
                } else if c == 122u8 {
                    Some(Instruction::Bnew)
                } else if c == 111u8 {
                    Some(Instruction::Bneg)
                } else if c == 46u8 {
                    Some(Instruction::Nnew)
                } else if c == 69u8 {
                    Some(Instruction::Gdup)
                } else if c == 35u8 {
                    Some(Instruction::Gpop)
                } else if c == 37u8 {
                    Some(Instruction::Gswp)
                } else {
                    None
                }
            },
            LexerMode::S => {
                if c == 83u8 {
                    Some(Instruction::Inew)
                } else if c == 104u8 {
                    Some(Instruction::Iinc)
                } else if c == 97u8 {
                    Some(Instruction::Ishl)
                } else if c == 107u8 {
                    Some(Instruction::Iadd)
                } else if c == 114u8 {
                    Some(Instruction::Ineg)
                } else if c == 65u8 {
                    Some(Instruction::Isht)
                } else if c == 122u8 {
                    Some(Instruction::Itof)
                } else if c == 105u8 {
                    Some(Instruction::Itou)
                } else if c == 109u8 {
                    Some(Instruction::Finf)
                } else if c == 98u8 {
                    Some(Instruction::Fnan)
                } else if c == 117u8 {
                    Some(Instruction::Fneg)
                } else if c == 36u8 {
                    Some(Instruction::Snew)
                } else if c == 45u8 {
                    Some(Instruction::Sadd)
                } else if c == 43u8 {
                    Some(Instruction::Onew)
                } else if c == 103u8 {
                    Some(Instruction::Oadd)
                } else if c == 118u8 {
                    Some(Instruction::Anew)
                } else if c == 63u8 {
                    Some(Instruction::Aadd)
                } else if c == 94u8 {
                    Some(Instruction::Bnew)
                } else if c == 33u8 {
                    Some(Instruction::Bneg)
                } else if c == 121u8 {
                    Some(Instruction::Nnew)
                } else if c == 47u8 {
                    Some(Instruction::Gdup)
                } else if c == 101u8 {
                    Some(Instruction::Gpop)
                } else if c == 58u8 {
                    Some(Instruction::Gswp)
                } else {
                    None
                }
            },
        };
        if let Some(Instruction::Snew) = tok {
            let flipped = self.flipped();
            *self = flipped;
        }
        tok
    }
}

impl<'a> Lexer<'a> {
    /// A fresh lexer over the whole buffer, starting in mode `A`.
    pub fn new(input: &'a [u8]) -> (r: Self)
        ensures
            r.input@ == input@,
            r.pos == 0,
            r.mode == LexerMode::A,
    {
        Lexer { input, pos: 0, mode: LexerMode::A }
    }

    /// Scans one byte: `None` once the input is exhausted, otherwise
    /// `Some` of the instruction the byte yields (or `Some(None)` for an
    /// unrecognized byte).
    pub fn next(&mut self) -> (r: Option<Option<Instruction>>)
        ensures
            old(self).pos < old(self).input@.len() ==> {
                &&& r == Some(token_of(old(self).mode, old(self).input@[old(self).pos as int]))
                &&& final(self).mode == mode_after_byte(
                    old(self).mode,
                    old(self).input@[old(self).pos as int],
                )
                &&& final(self).pos == old(self).pos + 1
                &&& final(self).input == old(self).input
            },
            old(self).pos >= old(self).input@.len() ==> r is None && *final(self) == *old(self),
    {
        if self.pos < self.input.len() {
            let c = self.input[self.pos];
            self.pos = self.pos + 1;
            Some(self.mode.byte_to_instruction(c))
        } else {
            None
        }
    }
}

} // verus!
