//! The opcode table shared by the compiler and the virtual machine.

use vstd::prelude::*;
use vstd::std_specs::convert::FromSpecImpl;

verus! {

/// One opcode of the bytecode, or the magic marker that opens every buffer.
#[derive(Debug, Copy, Clone, PartialEq, Eq, Structural)]
pub enum Grammar {
    Magic,
    Pop,
    Noop,
    Advance,
    Back,
    Integer,
    String,
    Null,
    Getvar,
    Setvar,
    GetInstance,
    Call,
    JumpIfFalse,
    Jump,
    JumpTo,
    Function,
}

impl Grammar {
    /// The byte that stands for this opcode in a buffer.
    pub open spec fn byte(self) -> u8 {
        match self {
            Grammar::Magic => 0x69,
            Grammar::Pop => 1,
            Grammar::Noop => 2,
            Grammar::Advance => 3,
            Grammar::Back => 4,
            Grammar::Integer => 5,
            Grammar::String => 6,
            Grammar::Null => 7,
            Grammar::Getvar => 8,
            Grammar::Setvar => 9,
            Grammar::GetInstance => 10,
            Grammar::Call => 11,
            Grammar::JumpIfFalse => 12,
            Grammar::Jump => 13,
            Grammar::JumpTo => 14,
            Grammar::Function => 15,
        }
    }

    /// The opcode that a byte stands for, if it stands for one.
    pub open spec fn of_byte(x: u8) -> Option<Grammar> {
        if x == 0x69 {
            Some(Grammar::Magic)
        } else if x == 1 {
            Some(Grammar::Pop)
        } else if x == 2 {
            Some(Grammar::Noop)
        } else if x == 3 {
            Some(Grammar::Advance)
        } else if x == 4 {
            Some(Grammar::Back)
        } else if x == 5 {
            Some(Grammar::Integer)
        } else if x == 6 {
            Some(Grammar::String)
        } else if x == 7 {
            Some(Grammar::Null)
        } else if x == 8 {
            Some(Grammar::Getvar)
        } else if x == 9 {
            Some(Grammar::Setvar)
        } else if x == 10 {
            Some(Grammar::GetInstance)
        } else if x == 11 {
            Some(Grammar::Call)
        } else if x == 12 {
            Some(Grammar::JumpIfFalse)
        } else if x == 13 {
            Some(Grammar::Jump)
        } else if x == 14 {
            Some(Grammar::JumpTo)
        } else if x == 15 {
            Some(Grammar::Function)
        } else {
            None
        }
    }

    /// Encodes the opcode as its byte.
    pub fn to_byte(self) -> (r: u8)
        ensures
            r == self.byte(),
            Grammar::of_byte(r) == Some(self),
    {
        match self {
            Grammar::Magic => 0x69,
            Grammar::Pop => 1,
            Grammar::Noop => 2,
            Grammar::Advance => 3,
            Grammar::Back => 4,
            Grammar::Integer => 5,
            Grammar::String => 6,
            Grammar::Null => 7,
            Grammar::Getvar => 8,
            Grammar::Setvar => 9,
            Grammar::GetInstance => 10,
            Grammar::Call => 11,
            Grammar::JumpIfFalse => 12,
            Grammar::Jump => 13,
            Grammar::JumpTo => 14,
            Grammar::Function => 15,
        }
    }

    /// Decodes a byte; `None` for a byte that is no opcode.
    pub fn from_byte(x: u8) -> (r: Option<Grammar>)
        ensures
            r == Grammar::of_byte(x),
            r is Some ==> r.unwrap().byte() == x,
    {
        if x == 0x69 {
            Some(Grammar::Magic)
        } else if x == 1 {
            Some(Grammar::Pop)
        } else if x == 2 {
            Some(Grammar::Noop)
        } else if x == 3 {
            Some(Grammar::Advance)
        } else if x == 4 {
            Some(Grammar::Back)
        } else if x == 5 {
            Some(Grammar::Integer)
        } else if x == 6 {
            Some(Grammar::String)
        } else if x == 7 {
            Some(Grammar::Null)
        } else if x == 8 {
            Some(Grammar::Getvar)
        } else if x == 9 {
            Some(Grammar::Setvar)
        } else if x == 10 {
            Some(Grammar::GetInstance)
        } else if x == 11 {
            Some(Grammar::Call)
        } else if x == 12 {
            Some(Grammar::JumpIfFalse)
        } else if x == 13 {
            Some(Grammar::Jump)
        } else if x == 14 {
            Some(Grammar::JumpTo)
        } else if x == 15 {
            Some(Grammar::Function)
        } else {
            None
        }
    }
}

impl From<Grammar> for u8 {
    fn from(g: Grammar) -> (r: u8)
        ensures
            r == g.byte(),
    {
        g.to_byte()
    }
}

impl FromSpecImpl<Grammar> for u8 {
    open spec fn obeys_from_spec() -> bool {
        true
    }

    open spec fn from_spec(g: Grammar) -> u8 {
        g.byte()
    }
}

impl From<u8> for Grammar {
    /// A byte that is no opcode reads as `Noop`.
    fn from(x: u8) -> (r: Grammar)
        ensures
            r == match Grammar::of_byte(x) {
                Some(g) => g,
                None => Grammar::Noop,
            },
    {
        match Grammar::from_byte(x) {
            Some(g) => g,
            None => Grammar::Noop,
        }
    }
}

impl FromSpecImpl<u8> for Grammar {
    open spec fn obeys_from_spec() -> bool {
        true
    }

    open spec fn from_spec(x: u8) -> Grammar {
        match Grammar::of_byte(x) {
            Some(g) => g,
            None => Grammar::Noop,
        }
    }
}

/// Decoding inverts encoding, and distinct opcodes have distinct bytes.
pub proof fn lemma_byte_round_trip(g: Grammar)
    ensures
        Grammar::of_byte(g.byte()) == Some(g),
{
}

} // verus!
