use vstd::prelude::*;

use crate::value::Value;

verus! {

/// One bytecode instruction.
#[derive(Debug, Clone, Copy, PartialEq, Eq, Structural)]
pub enum Instruction {
    Add,
    Array(u8),
    Call(u8),
    Class(u8),
    CloseUpvalue,
    Closure(u8),
    Constant(u8),
    DefineGlobal(u8),
    Divide,
    Equal,
    False,
    GetGlobal(u8),
    GetLocal(u8),
    GetProperty(u8),
    GetSuper(u8),
    GetUpvalue(u8),
    Greater,
    Inherit,
    Invoke(u8, u8),
    Jump(u16),
    JumpIfFalse(u16),
    Less,
    Log,
    Loop(u16),
    Method(u8),
    Multiply,
    Negate,
    Nil,
    Not,
    Pop,
    Return,
    RoleImpl(u8),
    SetGlobal(u8),
    SetLocal(u8),
    SetProperty(u8),
    SetUpvalue(u8),
    Subtract,
    SuperInvoke(u8, u8),
    True,
}

impl Instruction {
    pub open spec fn is_jump(self) -> bool {
        self is Jump || self is JumpIfFalse
    }

    /// The same instruction, or for a jump of the same kind, possibly with another offset.
    pub open spec fn same_shape(self, other: Instruction) -> bool {
        match (self, other) {
            (Instruction::Jump(_), Instruction::Jump(_)) => true,
            (Instruction::JumpIfFalse(_), Instruction::JumpIfFalse(_)) => true,
            _ => self == other,
        }
    }
}

/// Code that `new` keeps in its first part, up to the offsets of its jumps.
pub open spec fn code_extends(old: Seq<Instruction>, new: Seq<Instruction>) -> bool {
    &&& old.len() <= new.len()
    &&& forall|i: int| 0 <= i < old.len() ==> old[i].same_shape(#[trigger] new[i])
}

/// A chunk of bytecode: instructions, the line of each, and the constants they use.
#[derive(Debug)]
pub struct Chunk {
    pub code: Vec<Instruction>,
    pub lines: Vec<usize>,
    pub constants: Vec<Value>,
}

impl Chunk {
    pub fn new() -> (c: Chunk)
        ensures
            c.code@.len() == 0,
            c.lines@.len() == 0,
            c.constants@.len() == 0,
    {
        Chunk { code: Vec::new(), lines: Vec::new(), constants: Vec::new() }
    }

    /// Appends an instruction written on `line`; returns its offset.
    pub fn write(&mut self, instruction: Instruction, line: usize) -> (offset: usize)
        ensures
            final(self).code@ == old(self).code@.push(instruction),
            final(self).lines@ == old(self).lines@.push(line),
            final(self).constants@ == old(self).constants@,
            offset == old(self).code@.len(),
    {
        let offset = self.code.len();
        self.code.push(instruction);
        self.lines.push(line);
        offset
    }

    /// Appends a constant; returns its index.
    pub fn add_constant(&mut self, value: Value) -> (index: usize)
        ensures
            final(self).constants@ == old(self).constants@.push(value),
            final(self).code@ == old(self).code@,
            final(self).lines@ == old(self).lines@,
            index == old(self).constants@.len(),
    {
        let index = self.constants.len();
        self.constants.push(value);
        index
    }
}

} // verus!
