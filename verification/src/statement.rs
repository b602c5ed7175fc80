//! One assembler-internal unit: a label, an instruction, or a run of literal
//! bytes, each carrying the memory address it will occupy.

use vstd::prelude::*;

use crate::instructions::Instruction;

verus! {

/// One statement of the program being assembled.
#[derive(Debug)]
pub enum Statement {
    Label { name: String, mem_addr: u16 },
    Instruction { instruction: Instruction, mem_addr: u16 },
    RawBytes { bytes: Vec<u8>, mem_addr: u16 },
}

/// The mathematical content of a `Statement`.
#[verifier::ext_equal]
pub ghost enum StmtView {
    Label { name: Seq<char>, mem_addr: u16 },
    Instruction { instruction: Instruction, mem_addr: u16 },
    RawBytes { bytes: Seq<u8>, mem_addr: u16 },
}

impl View for Statement {
    type V = StmtView;

    open spec fn view(&self) -> StmtView {
        match self {
            Statement::Label { name, mem_addr } => StmtView::Label {
                name: name@,
                mem_addr: *mem_addr,
            },
            Statement::Instruction { instruction, mem_addr } => StmtView::Instruction {
                instruction: *instruction,
                mem_addr: *mem_addr,
            },
            Statement::RawBytes { bytes, mem_addr } => StmtView::RawBytes {
                bytes: bytes@,
                mem_addr: *mem_addr,
            },
        }
    }
}

/// The statement moved to a new address, otherwise unchanged.
pub open spec fn spec_set_mem_addr(s: StmtView, new_mem_addr: u16) -> StmtView {
    match s {
        StmtView::Label { name, .. } => StmtView::Label { name, mem_addr: new_mem_addr },
        StmtView::Instruction { instruction, .. } => StmtView::Instruction {
            instruction,
            mem_addr: new_mem_addr,
        },
        StmtView::RawBytes { bytes, .. } => StmtView::RawBytes { bytes, mem_addr: new_mem_addr },
    }
}

impl Statement {
    /// Move the statement to a new address.
    pub fn set_mem_addr(&mut self, new_mem_addr: u16)
        ensures
            final(self)@ == spec_set_mem_addr(old(self)@, new_mem_addr),
    {
        match self {
            Statement::Label { mem_addr, .. } => {
                *mem_addr = new_mem_addr;
            },
            Statement::Instruction { mem_addr, .. } => {
                *mem_addr = new_mem_addr;
            },
            Statement::RawBytes { mem_addr, .. } => {
                *mem_addr = new_mem_addr;
            },
        }
    }
}

} // verus!
