use vstd::prelude::*;

use crate::text::{decimal, push_char, push_decimal};

verus! {

/// The type of an instruction operand.
pub type OperandType = u8;

/// The operation an [`Instruction`] performs; its representation is its
/// position in this list, starting at zero.
#[derive(Copy, Clone, Debug, PartialEq, Eq, Structural)]
pub enum InstructionKind {
    Return,
    Constant,
    Add,
    Sub,
    Mult,
    Divide,
    Pop,
    Equals,
    Geq,
    Leq,
    Neq,
    Greater,
    Less,
    Print,
    Assert,
}

/// The number of instruction kinds.
pub const KIND_COUNT: u8 = 15;

/// The representation of an instruction kind.
pub open spec fn spec_repr(kind: InstructionKind) -> u8 {
    match kind {
        InstructionKind::Return => 0,
        InstructionKind::Constant => 1,
        InstructionKind::Add => 2,
        InstructionKind::Sub => 3,
        InstructionKind::Mult => 4,
        InstructionKind::Divide => 5,
        InstructionKind::Pop => 6,
        InstructionKind::Equals => 7,
        InstructionKind::Geq => 8,
        InstructionKind::Leq => 9,
        InstructionKind::Neq => 10,
        InstructionKind::Greater => 11,
        InstructionKind::Less => 12,
        InstructionKind::Print => 13,
        InstructionKind::Assert => 14,
    }
}

/// The instruction kind of a representation, if any.
pub open spec fn spec_from_repr(repr: u8) -> Option<InstructionKind> {
    if repr == 0 {
        Some(InstructionKind::Return)
    } else if repr == 1 {
        Some(InstructionKind::Constant)
    } else if repr == 2 {
        Some(InstructionKind::Add)
    } else if repr == 3 {
        Some(InstructionKind::Sub)
    } else if repr == 4 {
        Some(InstructionKind::Mult)
    } else if repr == 5 {
        Some(InstructionKind::Divide)
    } else if repr == 6 {
        Some(InstructionKind::Pop)
    } else if repr == 7 {
        Some(InstructionKind::Equals)
    } else if repr == 8 {
        Some(InstructionKind::Geq)
    } else if repr == 9 {
        Some(InstructionKind::Leq)
    } else if repr == 10 {
        Some(InstructionKind::Neq)
    } else if repr == 11 {
        Some(InstructionKind::Greater)
    } else if repr == 12 {
        Some(InstructionKind::Less)
    } else if repr == 13 {
        Some(InstructionKind::Print)
    } else if repr == 14 {
        Some(InstructionKind::Assert)
    } else {
        None
    }
}

impl InstructionKind {
    /// The representation of this kind.
    pub fn repr(&self) -> (r: u8)
        ensures
            r == spec_repr(*self),
    {
        match self {
            InstructionKind::Return => 0,
            InstructionKind::Constant => 1,
            InstructionKind::Add => 2,
            InstructionKind::Sub => 3,
            InstructionKind::Mult => 4,
            InstructionKind::Divide => 5,
            InstructionKind::Pop => 6,
            InstructionKind::Equals => 7,
            InstructionKind::Geq => 8,
            InstructionKind::Leq => 9,
            InstructionKind::Neq => 10,
            InstructionKind::Greater => 11,
            InstructionKind::Less => 12,
            InstructionKind::Print => 13,
            InstructionKind::Assert => 14,
        }
    }

    /// The kind whose representation is `repr`, if any.
    pub fn from_repr(repr: u8) -> (r: Option<Self>)
        ensures
            r == spec_from_repr(repr),
    {
        if repr == 0 {
            Some(InstructionKind::Return)
        } else if repr == 1 {
            Some(InstructionKind::Constant)
        } else if repr == 2 {
            Some(InstructionKind::Add)
        } else if repr == 3 {
            Some(InstructionKind::Sub)
        } else if repr == 4 {
            Some(InstructionKind::Mult)
        } else if repr == 5 {
            Some(InstructionKind::Divide)
        } else if repr == 6 {
            Some(InstructionKind::Pop)
        } else if repr == 7 {
            Some(InstructionKind::Equals)
        } else if repr == 8 {
            Some(InstructionKind::Geq)
        } else if repr == 9 {
            Some(InstructionKind::Leq)
        } else if repr == 10 {
            Some(InstructionKind::Neq)
        } else if repr == 11 {
            Some(InstructionKind::Greater)
        } else if repr == 12 {
            Some(InstructionKind::Less)
        } else if repr == 13 {
            Some(InstructionKind::Print)
        } else if repr == 14 {
            Some(InstructionKind::Assert)
        } else {
            None
        }
    }

    /// The name of this kind.
    pub fn name(&self) -> (r: &'static str)
        ensures
            r@ == spec_name(*self),
    {
        match self {
            InstructionKind::Return => {
                proof { reveal_strlit("Return"); }
                "Return"
            },
            InstructionKind::Constant => {
                proof { reveal_strlit("Constant"); }
                "Constant"
            },
            InstructionKind::Add => {
                proof { reveal_strlit("Add"); }
                "Add"
            },
            InstructionKind::Sub => {
                proof { reveal_strlit("Sub"); }
                "Sub"
            },
            InstructionKind::Mult => {
                proof { reveal_strlit("Mult"); }
                "Mult"
            },
            InstructionKind::Divide => {
                proof { reveal_strlit("Divide"); }
                "Divide"
            },
            InstructionKind::Pop => {
                proof { reveal_strlit("Pop"); }
                "Pop"
            },
            InstructionKind::Equals => {
                proof { reveal_strlit("Equals"); }
                "Equals"
            },
            InstructionKind::Geq => {
                proof { reveal_strlit("Geq"); }
                "Geq"
            },
            InstructionKind::Leq => {
                proof { reveal_strlit("Leq"); }
                "Leq"
            },
            InstructionKind::Neq => {
                proof { reveal_strlit("Neq"); }
                "Neq"
            },
            InstructionKind::Greater => {
                proof { reveal_strlit("Greater"); }
                "Greater"
            },
            InstructionKind::Less => {
                proof { reveal_strlit("Less"); }
                "Less"
            },
            InstructionKind::Print => {
                proof { reveal_strlit("Print"); }
                "Print"
            },
            InstructionKind::Assert => {
                proof { reveal_strlit("Assert"); }
                "Assert"
            },
        }
    }
}

/// The name of an instruction kind.
pub open spec fn spec_name(kind: InstructionKind) -> Seq<char> {
    match kind {
        InstructionKind::Return => seq!['R', 'e', 't', 'u', 'r', 'n'],
        InstructionKind::Constant => seq!['C', 'o', 'n', 's', 't', 'a', 'n', 't'],
        InstructionKind::Add => seq!['A', 'd', 'd'],
        InstructionKind::Sub => seq!['S', 'u', 'b'],
        InstructionKind::Mult => seq!['M', 'u', 'l', 't'],
        InstructionKind::Divide => seq!['D', 'i', 'v', 'i', 'd', 'e'],
        InstructionKind::Pop => seq!['P', 'o', 'p'],
        InstructionKind::Equals => seq!['E', 'q', 'u', 'a', 'l', 's'],
        InstructionKind::Geq => seq!['G', 'e', 'q'],
        InstructionKind::Leq => seq!['L', 'e', 'q'],
        InstructionKind::Neq => seq!['N', 'e', 'q'],
        InstructionKind::Greater => seq!['G', 'r', 'e', 'a', 't', 'e', 'r'],
        InstructionKind::Less => seq!['L', 'e', 's', 's'],
        InstructionKind::Print => seq!['P', 'r', 'i', 'n', 't'],
        InstructionKind::Assert => seq!['A', 's', 's', 'e', 'r', 't'],
    }
}

/// Reading a kind back from its representation gives the kind; the
/// representations are exactly the numbers below the kind count.
pub proof fn lemma_repr_round_trip(kind: InstructionKind, repr: u8)
    ensures
        spec_from_repr(spec_repr(kind)) == Some(kind),
        spec_repr(kind) < KIND_COUNT,
        spec_from_repr(repr) is Some <==> repr < KIND_COUNT,
        spec_from_repr(repr) matches Some(k) ==> spec_repr(k) == repr,
{
}

/// A single bytecode instruction: an operation and its one-byte operand.
#[derive(Copy, Clone, Debug, PartialEq, Eq, Structural)]
pub struct Instruction {
    pub kind: InstructionKind,
    pub operand: OperandType,
}

impl Instruction {
    /// An instruction of the given kind whose operand is zero.
    pub fn new(kind: InstructionKind) -> (r: Self)
        ensures
            r == (Instruction { kind, operand: 0 }),
    {
        Self { kind, operand: 0 }
    }

    /// The instruction as text: `(Kind operand)`.
    pub fn render(&self) -> (r: String)
        ensures
            r@ == seq!['('] + spec_name(self.kind) + seq![' '] + decimal(self.operand as nat) + seq![')'],
    {
        let mut s = String::new();
        push_char(&mut s, '(');
        s.append(self.kind.name());
        push_char(&mut s, ' ');
        push_decimal(&mut s, self.operand as usize);
        push_char(&mut s, ')');
        s
    }
}

} // verus!
