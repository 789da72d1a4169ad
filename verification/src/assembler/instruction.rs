use vstd::prelude::*;

use crate::text::{decimal, push_char, push_decimal};

verus! {

/// The type of an instruction operand.
pub type OperandType = u8;

/// The operation an [`Instruction`] performs; its representation is its
/// position in this list, starting at zero.
#[derive(Copy, Clone, Debug, PartialEq, Eq, Structural)]
pub enum InstructionKind {
    Return,
    Constant,
    Callq,
    MakeClosure,
    LoadUpValue,
    SetUpValue,
    PopUpValue,
    InstantiateClass,
    LoadClassAttribute,
    SetClassAttribute,
    JumpIfFalsePreserving,
    JumpIfTruePreserving,
    JumpIfFalse,
    Jmp,
    AddGlobal,
    LoadGlobal,
    SetGlobal,
    LoadLocal,
    SetLocal,
    Add,
    Sub,
    Mult,
    Divide,
    Pop,
    Equals,
    Geq,
    Leq,
    Neq,
    Greater,
    Less,
    Not,
    UnaryMinus,
    Print,
    Assert,
    MakeClass,
    Inherit,
    AddMethod,
    PushThis,
    LoadSuperMethod,
}

/// The number of instruction kinds.
pub const KIND_COUNT: u8 = 39;

/// The representation of an instruction kind.
pub open spec fn spec_repr(kind: InstructionKind) -> u8 {
    match kind {
        InstructionKind::Return => 0,
        InstructionKind::Constant => 1,
        InstructionKind::Callq => 2,
        InstructionKind::MakeClosure => 3,
        InstructionKind::LoadUpValue => 4,
        InstructionKind::SetUpValue => 5,
        InstructionKind::PopUpValue => 6,
        InstructionKind::InstantiateClass => 7,
        InstructionKind::LoadClassAttribute => 8,
        InstructionKind::SetClassAttribute => 9,
        InstructionKind::JumpIfFalsePreserving => 10,
        InstructionKind::JumpIfTruePreserving => 11,
        InstructionKind::JumpIfFalse => 12,
        InstructionKind::Jmp => 13,
        InstructionKind::AddGlobal => 14,
        InstructionKind::LoadGlobal => 15,
        InstructionKind::SetGlobal => 16,
        InstructionKind::LoadLocal => 17,
        InstructionKind::SetLocal => 18,
        InstructionKind::Add => 19,
        InstructionKind::Sub => 20,
        InstructionKind::Mult => 21,
        InstructionKind::Divide => 22,
        InstructionKind::Pop => 23,
        InstructionKind::Equals => 24,
        InstructionKind::Geq => 25,
        InstructionKind::Leq => 26,
        InstructionKind::Neq => 27,
        InstructionKind::Greater => 28,
        InstructionKind::Less => 29,
        InstructionKind::Not => 30,
        InstructionKind::UnaryMinus => 31,
        InstructionKind::Print => 32,
        InstructionKind::Assert => 33,
        InstructionKind::MakeClass => 34,
        InstructionKind::Inherit => 35,
        InstructionKind::AddMethod => 36,
        InstructionKind::PushThis => 37,
        InstructionKind::LoadSuperMethod => 38,
    }
}

/// The instruction kind of a representation, if any.
pub open spec fn spec_from_repr(repr: u8) -> Option<InstructionKind> {
    if repr == 0 {
        Some(InstructionKind::Return)
    } else if repr == 1 {
        Some(InstructionKind::Constant)
    } else if repr == 2 {
        Some(InstructionKind::Callq)
    } else if repr == 3 {
        Some(InstructionKind::MakeClosure)
    } else if repr == 4 {
        Some(InstructionKind::LoadUpValue)
    } else if repr == 5 {
        Some(InstructionKind::SetUpValue)
    } else if repr == 6 {
        Some(InstructionKind::PopUpValue)
    } else if repr == 7 {
        Some(InstructionKind::InstantiateClass)
    } else if repr == 8 {
        Some(InstructionKind::LoadClassAttribute)
    } else if repr == 9 {
        Some(InstructionKind::SetClassAttribute)
    } else if repr == 10 {
        Some(InstructionKind::JumpIfFalsePreserving)
    } else if repr == 11 {
        Some(InstructionKind::JumpIfTruePreserving)
    } else if repr == 12 {
        Some(InstructionKind::JumpIfFalse)
    } else if repr == 13 {
        Some(InstructionKind::Jmp)
    } else if repr == 14 {
        Some(InstructionKind::AddGlobal)
    } else if repr == 15 {
        Some(InstructionKind::LoadGlobal)
    } else if repr == 16 {
        Some(InstructionKind::SetGlobal)
    } else if repr == 17 {
        Some(InstructionKind::LoadLocal)
    } else if repr == 18 {
        Some(InstructionKind::SetLocal)
    } else if repr == 19 {
        Some(InstructionKind::Add)
    } else if repr == 20 {
        Some(InstructionKind::Sub)
    } else if repr == 21 {
        Some(InstructionKind::Mult)
    } else if repr == 22 {
        Some(InstructionKind::Divide)
    } else if repr == 23 {
        Some(InstructionKind::Pop)
    } else if repr == 24 {
        Some(InstructionKind::Equals)
    } else if repr == 25 {
        Some(InstructionKind::Geq)
    } else if repr == 26 {
        Some(InstructionKind::Leq)
    } else if repr == 27 {
        Some(InstructionKind::Neq)
    } else if repr == 28 {
        Some(InstructionKind::Greater)
    } else if repr == 29 {
        Some(InstructionKind::Less)
    } else if repr == 30 {
        Some(InstructionKind::Not)
    } else if repr == 31 {
        Some(InstructionKind::UnaryMinus)
    } else if repr == 32 {
        Some(InstructionKind::Print)
    } else if repr == 33 {
        Some(InstructionKind::Assert)
    } else if repr == 34 {
        Some(InstructionKind::MakeClass)
    } else if repr == 35 {
        Some(InstructionKind::Inherit)
    } else if repr == 36 {
        Some(InstructionKind::AddMethod)
    } else if repr == 37 {
        Some(InstructionKind::PushThis)
    } else if repr == 38 {
        Some(InstructionKind::LoadSuperMethod)
    } else {
        None
    }
}

impl InstructionKind {
    /// The representation of this kind.
    pub fn repr(&self) -> (r: u8)
        ensures
            r == spec_repr(*self),
    {
        match self {
            InstructionKind::Return => 0,
            InstructionKind::Constant => 1,
            InstructionKind::Callq => 2,
            InstructionKind::MakeClosure => 3,
            InstructionKind::LoadUpValue => 4,
            InstructionKind::SetUpValue => 5,
            InstructionKind::PopUpValue => 6,
            InstructionKind::InstantiateClass => 7,
            InstructionKind::LoadClassAttribute => 8,
            InstructionKind::SetClassAttribute => 9,
            InstructionKind::JumpIfFalsePreserving => 10,
            InstructionKind::JumpIfTruePreserving => 11,
            InstructionKind::JumpIfFalse => 12,
            InstructionKind::Jmp => 13,
            InstructionKind::AddGlobal => 14,
            InstructionKind::LoadGlobal => 15,
            InstructionKind::SetGlobal => 16,
            InstructionKind::LoadLocal => 17,
            InstructionKind::SetLocal => 18,
            InstructionKind::Add => 19,
            InstructionKind::Sub => 20,
            InstructionKind::Mult => 21,
            InstructionKind::Divide => 22,
            InstructionKind::Pop => 23,
            InstructionKind::Equals => 24,
            InstructionKind::Geq => 25,
            InstructionKind::Leq => 26,
            InstructionKind::Neq => 27,
            InstructionKind::Greater => 28,
            InstructionKind::Less => 29,
            InstructionKind::Not => 30,
            InstructionKind::UnaryMinus => 31,
            InstructionKind::Print => 32,
            InstructionKind::Assert => 33,
            InstructionKind::MakeClass => 34,
            InstructionKind::Inherit => 35,
            InstructionKind::AddMethod => 36,
            InstructionKind::PushThis => 37,
            InstructionKind::LoadSuperMethod => 38,
        }
    }

    /// The kind whose representation is `repr`, if any.
    pub fn from_repr(repr: u8) -> (r: Option<Self>)
        ensures
            r == spec_from_repr(repr),
    {
        if repr == 0 {
            Some(InstructionKind::Return)
        } else if repr == 1 {
            Some(InstructionKind::Constant)
        } else if repr == 2 {
            Some(InstructionKind::Callq)
        } else if repr == 3 {
            Some(InstructionKind::MakeClosure)
        } else if repr == 4 {
            Some(InstructionKind::LoadUpValue)
        } else if repr == 5 {
            Some(InstructionKind::SetUpValue)
        } else if repr == 6 {
            Some(InstructionKind::PopUpValue)
        } else if repr == 7 {
            Some(InstructionKind::InstantiateClass)
        } else if repr == 8 {
            Some(InstructionKind::LoadClassAttribute)
        } else if repr == 9 {
            Some(InstructionKind::SetClassAttribute)
        } else if repr == 10 {
            Some(InstructionKind::JumpIfFalsePreserving)
        } else if repr == 11 {
            Some(InstructionKind::JumpIfTruePreserving)
        } else if repr == 12 {
            Some(InstructionKind::JumpIfFalse)
        } else if repr == 13 {
            Some(InstructionKind::Jmp)
        } else if repr == 14 {
            Some(InstructionKind::AddGlobal)
        } else if repr == 15 {
            Some(InstructionKind::LoadGlobal)
        } else if repr == 16 {
            Some(InstructionKind::SetGlobal)
        } else if repr == 17 {
            Some(InstructionKind::LoadLocal)
        } else if repr == 18 {
            Some(InstructionKind::SetLocal)
        } else if repr == 19 {
            Some(InstructionKind::Add)
        } else if repr == 20 {
            Some(InstructionKind::Sub)
        } else if repr == 21 {
            Some(InstructionKind::Mult)
        } else if repr == 22 {
            Some(InstructionKind::Divide)
        } else if repr == 23 {
            Some(InstructionKind::Pop)
        } else if repr == 24 {
            Some(InstructionKind::Equals)
        } else if repr == 25 {
            Some(InstructionKind::Geq)
        } else if repr == 26 {
            Some(InstructionKind::Leq)
        } else if repr == 27 {
            Some(InstructionKind::Neq)
        } else if repr == 28 {
            Some(InstructionKind::Greater)
        } else if repr == 29 {
            Some(InstructionKind::Less)
        } else if repr == 30 {
            Some(InstructionKind::Not)
        } else if repr == 31 {
            Some(InstructionKind::UnaryMinus)
        } else if repr == 32 {
            Some(InstructionKind::Print)
        } else if repr == 33 {
            Some(InstructionKind::Assert)
        } else if repr == 34 {
            Some(InstructionKind::MakeClass)
        } else if repr == 35 {
            Some(InstructionKind::Inherit)
        } else if repr == 36 {
            Some(InstructionKind::AddMethod)
        } else if repr == 37 {
            Some(InstructionKind::PushThis)
        } else if repr == 38 {
            Some(InstructionKind::LoadSuperMethod)
        } else {
            None
        }
    }

    /// The name of this kind.
    pub fn name(&self) -> (r: &'static str)
        ensures
            r@ == spec_name(*self),
    {
        match self {
            InstructionKind::Return => {
                proof { reveal_strlit("Return"); }
                "Return"
            },
            InstructionKind::Constant => {
                proof { reveal_strlit("Constant"); }
                "Constant"
            },
            InstructionKind::Callq => {
                proof { reveal_strlit("Callq"); }
                "Callq"
            },
            InstructionKind::MakeClosure => {
                proof { reveal_strlit("MakeClosure"); }
                "MakeClosure"
            },
            InstructionKind::LoadUpValue => {
                proof { reveal_strlit("LoadUpValue"); }
                "LoadUpValue"
            },
            InstructionKind::SetUpValue => {
                proof { reveal_strlit("SetUpValue"); }
                "SetUpValue"
            },
            InstructionKind::PopUpValue => {
                proof { reveal_strlit("PopUpValue"); }
                "PopUpValue"
            },
            InstructionKind::InstantiateClass => {
                proof { reveal_strlit("InstantiateClass"); }
                "InstantiateClass"
            },
            InstructionKind::LoadClassAttribute => {
                proof { reveal_strlit("LoadClassAttribute"); }
                "LoadClassAttribute"
            },
            InstructionKind::SetClassAttribute => {
                proof { reveal_strlit("SetClassAttribute"); }
                "SetClassAttribute"
            },
            InstructionKind::JumpIfFalsePreserving => {
                proof { reveal_strlit("JumpIfFalsePreserving"); }
                "JumpIfFalsePreserving"
            },
            InstructionKind::JumpIfTruePreserving => {
                proof { reveal_strlit("JumpIfTruePreserving"); }
                "JumpIfTruePreserving"
            },
            InstructionKind::JumpIfFalse => {
                proof { reveal_strlit("JumpIfFalse"); }
                "JumpIfFalse"
            },
            InstructionKind::Jmp => {
                proof { reveal_strlit("Jmp"); }
                "Jmp"
            },
            InstructionKind::AddGlobal => {
                proof { reveal_strlit("AddGlobal"); }
                "AddGlobal"
            },
            InstructionKind::LoadGlobal => {
                proof { reveal_strlit("LoadGlobal"); }
                "LoadGlobal"
            },
            InstructionKind::SetGlobal => {
                proof { reveal_strlit("SetGlobal"); }
                "SetGlobal"
            },
            InstructionKind::LoadLocal => {
                proof { reveal_strlit("LoadLocal"); }
                "LoadLocal"
            },
            InstructionKind::SetLocal => {
                proof { reveal_strlit("SetLocal"); }
                "SetLocal"
            },
            InstructionKind::Add => {
                proof { reveal_strlit("Add"); }
                "Add"
            },
            InstructionKind::Sub => {
                proof { reveal_strlit("Sub"); }
                "Sub"
            },
            InstructionKind::Mult => {
                proof { reveal_strlit("Mult"); }
                "Mult"
            },
            InstructionKind::Divide => {
                proof { reveal_strlit("Divide"); }
                "Divide"
            },
            InstructionKind::Pop => {
                proof { reveal_strlit("Pop"); }
                "Pop"
            },
            InstructionKind::Equals => {
                proof { reveal_strlit("Equals"); }
                "Equals"
            },
            InstructionKind::Geq => {
                proof { reveal_strlit("Geq"); }
                "Geq"
            },
            InstructionKind::Leq => {
                proof { reveal_strlit("Leq"); }
                "Leq"
            },
            InstructionKind::Neq => {
                proof { reveal_strlit("Neq"); }
                "Neq"
            },
            InstructionKind::Greater => {
                proof { reveal_strlit("Greater"); }
                "Greater"
            },
            InstructionKind::Less => {
                proof { reveal_strlit("Less"); }
                "Less"
            },
            InstructionKind::Not => {
                proof { reveal_strlit("Not"); }
                "Not"
            },
            InstructionKind::UnaryMinus => {
                proof { reveal_strlit("UnaryMinus"); }
                "UnaryMinus"
            },
            InstructionKind::Print => {
                proof { reveal_strlit("Print"); }
                "Print"
            },
            InstructionKind::Assert => {
                proof { reveal_strlit("Assert"); }
                "Assert"
            },
            InstructionKind::MakeClass => {
                proof { reveal_strlit("MakeClass"); }
                "MakeClass"
            },
            InstructionKind::Inherit => {
                proof { reveal_strlit("Inherit"); }
                "Inherit"
            },
            InstructionKind::AddMethod => {
                proof { reveal_strlit("AddMethod"); }
                "AddMethod"
            },
            InstructionKind::PushThis => {
                proof { reveal_strlit("PushThis"); }
                "PushThis"
            },
            InstructionKind::LoadSuperMethod => {
                proof { reveal_strlit("LoadSuperMethod"); }
                "LoadSuperMethod"
            },
        }
    }
}

/// The name of an instruction kind.
pub open spec fn spec_name(kind: InstructionKind) -> Seq<char> {
    match kind {
        InstructionKind::Return => seq!['R', 'e', 't', 'u', 'r', 'n'],
        InstructionKind::Constant => seq!['C', 'o', 'n', 's', 't', 'a', 'n', 't'],
        InstructionKind::Callq => seq!['C', 'a', 'l', 'l', 'q'],
        InstructionKind::MakeClosure => seq!['M', 'a', 'k', 'e', 'C', 'l', 'o', 's', 'u', 'r', 'e'],
        InstructionKind::LoadUpValue => seq!['L', 'o', 'a', 'd', 'U', 'p', 'V', 'a', 'l', 'u', 'e'],
        InstructionKind::SetUpValue => seq!['S', 'e', 't', 'U', 'p', 'V', 'a', 'l', 'u', 'e'],
        InstructionKind::PopUpValue => seq!['P', 'o', 'p', 'U', 'p', 'V', 'a', 'l', 'u', 'e'],
        InstructionKind::InstantiateClass => seq!['I', 'n', 's', 't', 'a', 'n', 't', 'i', 'a', 't', 'e', 'C', 'l', 'a', 's', 's'],
        InstructionKind::LoadClassAttribute => seq!['L', 'o', 'a', 'd', 'C', 'l', 'a', 's', 's', 'A', 't', 't', 'r', 'i', 'b', 'u', 't', 'e'],
        InstructionKind::SetClassAttribute => seq!['S', 'e', 't', 'C', 'l', 'a', 's', 's', 'A', 't', 't', 'r', 'i', 'b', 'u', 't', 'e'],
        InstructionKind::JumpIfFalsePreserving => seq!['J', 'u', 'm', 'p', 'I', 'f', 'F', 'a', 'l', 's', 'e', 'P', 'r', 'e', 's', 'e', 'r', 'v', 'i', 'n', 'g'],
        InstructionKind::JumpIfTruePreserving => seq!['J', 'u', 'm', 'p', 'I', 'f', 'T', 'r', 'u', 'e', 'P', 'r', 'e', 's', 'e', 'r', 'v', 'i', 'n', 'g'],
        InstructionKind::JumpIfFalse => seq!['J', 'u', 'm', 'p', 'I', 'f', 'F', 'a', 'l', 's', 'e'],
        InstructionKind::Jmp => seq!['J', 'm', 'p'],
        InstructionKind::AddGlobal => seq!['A', 'd', 'd', 'G', 'l', 'o', 'b', 'a', 'l'],
        InstructionKind::LoadGlobal => seq!['L', 'o', 'a', 'd', 'G', 'l', 'o', 'b', 'a', 'l'],
        InstructionKind::SetGlobal => seq!['S', 'e', 't', 'G', 'l', 'o', 'b', 'a', 'l'],
        InstructionKind::LoadLocal => seq!['L', 'o', 'a', 'd', 'L', 'o', 'c', 'a', 'l'],
        InstructionKind::SetLocal => seq!['S', 'e', 't', 'L', 'o', 'c', 'a', 'l'],
        InstructionKind::Add => seq!['A', 'd', 'd'],
        InstructionKind::Sub => seq!['S', 'u', 'b'],
        InstructionKind::Mult => seq!['M', 'u', 'l', 't'],
        InstructionKind::Divide => seq!['D', 'i', 'v', 'i', 'd', 'e'],
        InstructionKind::Pop => seq!['P', 'o', 'p'],
        InstructionKind::Equals => seq!['E', 'q', 'u', 'a', 'l', 's'],
        InstructionKind::Geq => seq!['G', 'e', 'q'],
        InstructionKind::Leq => seq!['L', 'e', 'q'],
        InstructionKind::Neq => seq!['N', 'e', 'q'],
        InstructionKind::Greater => seq!['G', 'r', 'e', 'a', 't', 'e', 'r'],
        InstructionKind::Less => seq!['L', 'e', 's', 's'],
        InstructionKind::Not => seq!['N', 'o', 't'],
        InstructionKind::UnaryMinus => seq!['U', 'n', 'a', 'r', 'y', 'M', 'i', 'n', 'u', 's'],
        InstructionKind::Print => seq!['P', 'r', 'i', 'n', 't'],
        InstructionKind::Assert => seq!['A', 's', 's', 'e', 'r', 't'],
        InstructionKind::MakeClass => seq!['M', 'a', 'k', 'e', 'C', 'l', 'a', 's', 's'],
        InstructionKind::Inherit => seq!['I', 'n', 'h', 'e', 'r', 'i', 't'],
        InstructionKind::AddMethod => seq!['A', 'd', 'd', 'M', 'e', 't', 'h', 'o', 'd'],
        InstructionKind::PushThis => seq!['P', 'u', 's', 'h', 'T', 'h', 'i', 's'],
        InstructionKind::LoadSuperMethod => seq!['L', 'o', 'a', 'd', 'S', 'u', 'p', 'e', 'r', 'M', 'e', 't', 'h', 'o', 'd'],
    }
}

/// Reading a kind back from its representation gives the kind; the
/// representations are exactly the numbers below the kind count.
pub proof fn lemma_repr_round_trip(kind: InstructionKind, repr: u8)
    ensures
        spec_from_repr(spec_repr(kind)) == Some(kind),
        spec_repr(kind) < KIND_COUNT,
        spec_from_repr(repr) is Some <==> repr < KIND_COUNT,
        spec_from_repr(repr) matches Some(k) ==> spec_repr(k) == repr,
{
}

/// A single bytecode instruction: an operation and its one-byte operand.
#[derive(Copy, Clone, Debug, PartialEq, Eq, Structural)]
pub struct Instruction {
    pub kind: InstructionKind,
    pub operand: OperandType,
}

impl Instruction {
    /// An instruction of the given kind whose operand is zero.
    pub fn new(kind: InstructionKind) -> (r: Self)
        ensures
            r == (Instruction { kind, operand: 0 }),
    {
        Self { kind, operand: 0 }
    }

    /// The instruction as text: `(Kind operand)`.
    pub fn render(&self) -> (r: String)
        ensures
            r@ == seq!['('] + spec_name(self.kind) + seq![' '] + decimal(self.operand as nat) + seq![')'],
    {
        let mut s = String::new();
        push_char(&mut s, '(');
        s.append(self.kind.name());
        push_char(&mut s, ' ');
        push_decimal(&mut s, self.operand as usize);
        push_char(&mut s, ')');
        s
    }
}

} // verus!
