use crate::ast::node::LocalVar;
use crate::codegen::code::{Condition, Instr};
use crate::semantics::tree::Frame;
use crate::semantics::word::{
    fits_signed, low_byte, quotient, sign_extension, signed, signed_pair, truth, with_low_byte,
    word,
};
use vstd::prelude::*;

verus! {

/// A model of the machine while it runs the body of an emitted program:
/// between the lines that set the frame up and those that give it up.
///
/// The model keeps the two parts of memory that the body uses apart. The
/// evaluation stack is a sequence of words, which grows and shrinks at its
/// end. The frame is the 26 slots below the frame base; it is read and
/// written through an address, and an address outside the slots is a fault.
///
/// Every instruction works on whole 64-bit words, constants included:
/// whether an assembler takes a constant of a given size is not modelled.
pub struct Machine {
    pub rax: u64,
    pub rdi: u64,
    pub rdx: u64,
    /// The two operands of the last comparison.
    pub compared: (u64, u64),
    /// The frame base, `rbp`.
    pub base: u64,
    pub stack: Seq<u64>,
    pub frame: Frame,
}

/// The offset below the frame base of the word at the address `at`.
pub open spec fn offset_at(base: u64, at: u64) -> u64 {
    word(base - at)
}

/// Whether `offset` is that of one of the 26 slots.
pub open spec fn is_slot(offset: u64) -> bool {
    LocalVar::is_slot(offset as int)
}

/// Whether the last comparison met `condition`.
pub open spec fn met(condition: Condition, compared: (u64, u64)) -> bool {
    match condition {
        Condition::Equal => compared.0 == compared.1,
        Condition::NotEqual => compared.0 != compared.1,
        Condition::Less => signed(compared.0) < signed(compared.1),
        Condition::LessOrEqual => signed(compared.0) <= signed(compared.1),
    }
}

/// The machine after the instruction `instr`, or nothing where the
/// instruction faults: a pop from the empty stack, an address outside the
/// slots, a division by zero, a quotient that `rax` cannot hold.
pub open spec fn step(instr: Instr, m: Machine) -> Option<Machine> {
    match instr {
        Instr::Push(n) => Some(Machine { stack: m.stack.push(n), ..m }),
        Instr::FrameBase => Some(Machine { rax: m.base, ..m }),
        Instr::Lower(n) => Some(Machine { rax: word(m.rax - n), ..m }),
        Instr::PushRax => Some(Machine { stack: m.stack.push(m.rax), ..m }),
        Instr::PushRdi => Some(Machine { stack: m.stack.push(m.rdi), ..m }),
        Instr::PopRax => if m.stack.len() > 0 {
            Some(Machine { rax: m.stack.last(), stack: m.stack.drop_last(), ..m })
        } else {
            None
        },
        Instr::PopRdi => if m.stack.len() > 0 {
            Some(Machine { rdi: m.stack.last(), stack: m.stack.drop_last(), ..m })
        } else {
            None
        },
        Instr::Load => if is_slot(offset_at(m.base, m.rax)) {
            Some(Machine { rax: m.frame[offset_at(m.base, m.rax)], ..m })
        } else {
            None
        },
        Instr::Store => if is_slot(offset_at(m.base, m.rax)) {
            Some(Machine { frame: m.frame.insert(offset_at(m.base, m.rax), m.rdi), ..m })
        } else {
            None
        },
        Instr::Add => Some(Machine { rax: word(m.rax + m.rdi), ..m }),
        Instr::Sub => Some(Machine { rax: word(m.rax - m.rdi), ..m }),
        Instr::Mul => Some(Machine { rax: word(m.rax * m.rdi), ..m }),
        Instr::Extend => Some(Machine { rdx: sign_extension(m.rax), ..m }),
        Instr::Divide => {
            let dividend = signed_pair(m.rdx, m.rax);
            let divisor = signed(m.rdi);
            if divisor != 0 && fits_signed(quotient(dividend, divisor)) {
                Some(
                    Machine {
                        rax: word(quotient(dividend, divisor)),
                        rdx: word(dividend - quotient(dividend, divisor) * divisor),
                        ..m
                    },
                )
            } else {
                None
            }
        },
        Instr::Compare => Some(Machine { compared: (m.rax, m.rdi), ..m }),
        Instr::SetIf(condition) => Some(
            Machine { rax: with_low_byte(m.rax, truth(met(condition, m.compared))), ..m },
        ),
        Instr::ZeroExtend => Some(Machine { rax: low_byte(m.rax), ..m }),
    }
}

/// The machine after the instructions `code` in turn, or nothing where one
/// of them faults.
pub open spec fn run(code: Seq<Instr>, m: Machine) -> Option<Machine>
    decreases code.len(),
{
    if code.len() == 0 {
        Some(m)
    } else {
        match run(code.drop_last(), m) {
            Some(before) => step(code.last(), before),
            None => None,
        }
    }
}

} // verus!
