//! The instruction set: the closed set of operations, their word encodings,
//! their mnemonics and whether they take an operand word.
use vstd::prelude::*;

verus! {

/// One kind of instruction of the machine.
#[derive(Clone, Copy, Debug, PartialEq, Eq, Structural)]
pub enum Opcode {
    Add,
    Sub,
    Print,
    Jmp,
    Push,
    Pop,
    SetAcc,
    Call,
    Ret,
    Halt,
}

/// The word that encodes each instruction kind.
pub open spec fn code_of(op: Opcode) -> u32 {
    match op {
        Opcode::Add => 0x01,
        Opcode::Sub => 0x02,
        Opcode::Print => 0x03,
        Opcode::Jmp => 0x04,
        Opcode::Push => 0x05,
        Opcode::Pop => 0x06,
        Opcode::SetAcc => 0x07,
        Opcode::Call => 0x08,
        Opcode::Ret => 0x09,
        Opcode::Halt => 0x0A,
    }
}

/// The instruction kind that a word encodes, if any.
pub open spec fn op_of_code(w: u32) -> Option<Opcode> {
    if w == 0x01 {
        Some(Opcode::Add)
    } else if w == 0x02 {
        Some(Opcode::Sub)
    } else if w == 0x03 {
        Some(Opcode::Print)
    } else if w == 0x04 {
        Some(Opcode::Jmp)
    } else if w == 0x05 {
        Some(Opcode::Push)
    } else if w == 0x06 {
        Some(Opcode::Pop)
    } else if w == 0x07 {
        Some(Opcode::SetAcc)
    } else if w == 0x08 {
        Some(Opcode::Call)
    } else if w == 0x09 {
        Some(Opcode::Ret)
    } else if w == 0x0A {
        Some(Opcode::Halt)
    } else {
        None
    }
}

/// Instructions with an immediate or an address in the word that follows.
pub open spec fn takes_operand(op: Opcode) -> bool {
    match op {
        Opcode::Add | Opcode::Sub | Opcode::Jmp | Opcode::SetAcc | Opcode::Call => true,
        _ => false,
    }
}

/// Number of code words an instruction occupies.
pub open spec fn width_of(op: Opcode) -> nat {
    if takes_operand(op) {
        2
    } else {
        1
    }
}

/// The mnemonic of each instruction kind, as ASCII bytes.
pub open spec fn mnemonic_of(op: Opcode) -> Seq<u8> {
    match op {
        Opcode::Add => seq![65u8, 68u8, 68u8],
        Opcode::Sub => seq![83u8, 85u8, 66u8],
        Opcode::Print => seq![80u8, 82u8, 73u8, 78u8, 84u8],
        Opcode::Jmp => seq![74u8, 77u8, 80u8],
        Opcode::Push => seq![80u8, 85u8, 83u8, 72u8],
        Opcode::Pop => seq![80u8, 79u8, 80u8],
        Opcode::SetAcc => seq![83u8, 69u8, 84u8],
        Opcode::Call => seq![67u8, 65u8, 76u8, 76u8],
        Opcode::Ret => seq![82u8, 69u8, 84u8],
        Opcode::Halt => seq![72u8, 65u8, 76u8, 84u8],
    }
}

/// The instruction kind whose mnemonic is `tok`, if any.
pub open spec fn op_of_mnemonic(tok: Seq<u8>) -> Option<Opcode> {
    if tok == mnemonic_of(Opcode::Add) {
        Some(Opcode::Add)
    } else if tok == mnemonic_of(Opcode::Sub) {
        Some(Opcode::Sub)
    } else if tok == mnemonic_of(Opcode::Print) {
        Some(Opcode::Print)
    } else if tok == mnemonic_of(Opcode::Jmp) {
        Some(Opcode::Jmp)
    } else if tok == mnemonic_of(Opcode::Push) {
        Some(Opcode::Push)
    } else if tok == mnemonic_of(Opcode::Pop) {
        Some(Opcode::Pop)
    } else if tok == mnemonic_of(Opcode::SetAcc) {
        Some(Opcode::SetAcc)
    } else if tok == mnemonic_of(Opcode::Call) {
        Some(Opcode::Call)
    } else if tok == mnemonic_of(Opcode::Ret) {
        Some(Opcode::Ret)
    } else if tok == mnemonic_of(Opcode::Halt) {
        Some(Opcode::Halt)
    } else {
        None
    }
}

impl Opcode {
    /// The word that encodes this instruction kind.
    pub fn code(self) -> (r: u32)
        ensures
            r == code_of(self),
    {
        match self {
            Opcode::Add => 0x01,
            Opcode::Sub => 0x02,
            Opcode::Print => 0x03,
            Opcode::Jmp => 0x04,
            Opcode::Push => 0x05,
            Opcode::Pop => 0x06,
            Opcode::SetAcc => 0x07,
            Opcode::Call => 0x08,
            Opcode::Ret => 0x09,
            Opcode::Halt => 0x0A,
        }
    }

    /// Decodes a code word; `None` for a word that is no instruction.
    pub fn decode(w: u32) -> (r: Option<Opcode>)
        ensures
            r == op_of_code(w),
    {
        if w == 0x01 {
            Some(Opcode::Add)
        } else if w == 0x02 {
            Some(Opcode::Sub)
        } else if w == 0x03 {
            Some(Opcode::Print)
        } else if w == 0x04 {
            Some(Opcode::Jmp)
        } else if w == 0x05 {
            Some(Opcode::Push)
        } else if w == 0x06 {
            Some(Opcode::Pop)
        } else if w == 0x07 {
            Some(Opcode::SetAcc)
        } else if w == 0x08 {
            Some(Opcode::Call)
        } else if w == 0x09 {
            Some(Opcode::Ret)
        } else if w == 0x0A {
            Some(Opcode::Halt)
        } else {
            None
        }
    }

    /// Whether an operand word follows the opcode word.
    pub fn has_operand(self) -> (r: bool)
        ensures
            r == takes_operand(self),
    {
        match self {
            Opcode::Add | Opcode::Sub | Opcode::Jmp | Opcode::SetAcc | Opcode::Call => true,
            _ => false,
        }
    }

    /// The mnemonic of this instruction kind, as ASCII bytes.
    pub fn mnemonic(self) -> (r: Vec<u8>)
        ensures
            r@ == mnemonic_of(self),
    {
        let r = match self {
            Opcode::Add => vec![65u8, 68u8, 68u8],
            Opcode::Sub => vec![83u8, 85u8, 66u8],
            Opcode::Print => vec![80u8, 82u8, 73u8, 78u8, 84u8],
            Opcode::Jmp => vec![74u8, 77u8, 80u8],
            Opcode::Push => vec![80u8, 85u8, 83u8, 72u8],
            Opcode::Pop => vec![80u8, 79u8, 80u8],
            Opcode::SetAcc => vec![83u8, 69u8, 84u8],
            Opcode::Call => vec![67u8, 65u8, 76u8, 76u8],
            Opcode::Ret => vec![82u8, 69u8, 84u8],
            Opcode::Halt => vec![72u8, 65u8, 76u8, 84u8],
        };
        proof {
            assert(r@ =~= mnemonic_of(self));
        }
        r
    }
}

/// Every instruction kind round-trips through its code word.
pub proof fn lemma_code_round_trip(op: Opcode)
    ensures
        op_of_code(code_of(op)) == Some(op),
{
}

/// Every instruction kind is found again from its mnemonic.
pub proof fn lemma_mnemonic_round_trip(op: Opcode)
    ensures
        op_of_mnemonic(mnemonic_of(op)) == Some(op),
{
    let m = mnemonic_of(op);
    assert(m[0] == mnemonic_of(op)[0] && m[1] == mnemonic_of(op)[1]);
    assert(mnemonic_of(Opcode::Add)[0] == 65 && mnemonic_of(Opcode::Sub)[1] == 85);
    assert(mnemonic_of(Opcode::Print)[1] == 82 && mnemonic_of(Opcode::Jmp)[0] == 74);
    assert(mnemonic_of(Opcode::Push)[1] == 85 && mnemonic_of(Opcode::Pop)[1] == 79);
    assert(mnemonic_of(Opcode::SetAcc)[1] == 69 && mnemonic_of(Opcode::Call)[0] == 67);
    assert(mnemonic_of(Opcode::Ret)[0] == 82 && mnemonic_of(Opcode::Halt)[0] == 72);
    assert(mnemonic_of(Opcode::Print)[0] == 80 && mnemonic_of(Opcode::Push)[0] == 80);
    assert(mnemonic_of(Opcode::Pop)[0] == 80 && mnemonic_of(Opcode::SetAcc)[0] == 83);
    assert(mnemonic_of(Opcode::Sub)[0] == 83);
}

} // verus!
