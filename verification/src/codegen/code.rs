use crate::ast::node::{Kind, LocalVar, Node};
use vstd::prelude::*;

verus! {

/// Why the generator gave up: a node of this kind does not have the form
/// that the generator can lower.
#[derive(Debug, Clone, Copy, PartialEq, Eq)]
pub enum Error {
    UnexpectedNode(Kind),
}

/// The conditions that a comparison can ask for.
pub enum Condition {
    Equal,
    NotEqual,
    Less,
    LessOrEqual,
}

/// The instructions that the body of the emitted program is made of. Each
/// is one line of the text: see [`crate::codegen::text::line`].
pub enum Instr {
    /// Pushes a constant.
    Push(u64),
    /// Puts the frame base into `rax`.
    FrameBase,
    /// Subtracts a constant from `rax`.
    Lower(u64),
    /// Pushes `rax`.
    PushRax,
    /// Pushes `rdi`.
    PushRdi,
    /// Pops into `rax`.
    PopRax,
    /// Pops into `rdi`.
    PopRdi,
    /// Puts the word at the address in `rax` into `rax`.
    Load,
    /// Puts `rdi` into the word at the address in `rax`.
    Store,
    /// Adds `rdi` to `rax`.
    Add,
    /// Subtracts `rdi` from `rax`.
    Sub,
    /// Multiplies `rax` by `rdi`.
    Mul,
    /// Extends the sign of `rax` into `rdx`.
    Extend,
    /// Divides `rdx:rax` by `rdi`, as signed numbers.
    Divide,
    /// Compares `rax` with `rdi`, as signed numbers.
    Compare,
    /// Puts 1 into the low byte of `rax` if the last comparison met the
    /// condition, else 0.
    SetIf(Condition),
    /// Clears all of `rax` but its low byte.
    ZeroExtend,
}

/// The instructions that push the address of the slot of `var`.
pub open spec fn address(var: LocalVar) -> Seq<Instr> {
    seq![Instr::FrameBase, Instr::Lower(var.offset), Instr::PushRax]
}

/// The instructions that combine `rax` and `rdi` into `rax` as the operator
/// `kind` asks.
pub open spec fn operation(kind: Kind) -> Seq<Instr> {
    match kind {
        Kind::Add => seq![Instr::Add],
        Kind::Sub => seq![Instr::Sub],
        Kind::Mul => seq![Instr::Mul],
        Kind::Div => seq![Instr::Extend, Instr::Divide],
        Kind::Eq => seq![Instr::Compare, Instr::SetIf(Condition::Equal), Instr::ZeroExtend],
        Kind::Ne => seq![Instr::Compare, Instr::SetIf(Condition::NotEqual), Instr::ZeroExtend],
        Kind::Lt => seq![Instr::Compare, Instr::SetIf(Condition::Less), Instr::ZeroExtend],
        Kind::Le => seq![Instr::Compare, Instr::SetIf(Condition::LessOrEqual), Instr::ZeroExtend],
        _ => Seq::empty(),
    }
}

/// The instructions that leave the value of the expression `node` on top of
/// the stack, or the failure on the first node, in the order of evaluation,
/// that does not have the form that the generator can lower.
///
/// * A number is pushed.
/// * A variable has its address pushed, which is then replaced by the word
///   at that address.
/// * An assignment needs a variable on its left. Its address is pushed,
///   then the right side is evaluated, its value is stored at the address
///   and is pushed again: an assignment has the value of its right side.
/// * Any other operator needs two operands. The left one is evaluated,
///   then the right one; both are popped, combined, and the result is
///   pushed.
pub open spec fn lowered(node: Node) -> Result<Seq<Instr>, Error>
    decreases node,
{
    match node.kind {
        Kind::Number(n) => Ok(seq![Instr::Push(n)]),
        Kind::LocalVar(var) => Ok(address(var) + seq![Instr::PopRax, Instr::Load, Instr::PushRax]),
        Kind::Assign => match node.lhs {
            Some(lhs) => match lhs.kind {
                Kind::LocalVar(var) => match node.rhs {
                    Some(rhs) => match lowered(*rhs) {
                        Ok(value) => Ok(
                            address(var) + value + seq![
                                Instr::PopRdi,
                                Instr::PopRax,
                                Instr::Store,
                                Instr::PushRdi,
                            ],
                        ),
                        Err(e) => Err(e),
                    },
                    None => Err(Error::UnexpectedNode(node.kind)),
                },
                kind => Err(Error::UnexpectedNode(kind)),
            },
            None => Err(Error::UnexpectedNode(node.kind)),
        },
        kind => match node.lhs {
            Some(lhs) => match lowered(*lhs) {
                Ok(left) => match node.rhs {
                    Some(rhs) => match lowered(*rhs) {
                        Ok(right) => Ok(
                            left + right + seq![Instr::PopRdi, Instr::PopRax] + operation(kind)
                                + seq![Instr::PushRax],
                        ),
                        Err(e) => Err(e),
                    },
                    None => Err(Error::UnexpectedNode(kind)),
                },
                Err(e) => Err(e),
            },
            None => Err(Error::UnexpectedNode(kind)),
        },
    }
}

/// The form of the trees that the generator can lower: every assignment
/// has a variable on its left and an expression of that form on its right,
/// and every other operator has two operands of that form.
pub open spec fn lowerable(node: Node) -> bool
    decreases node,
{
    match node.kind {
        Kind::Number(_) | Kind::LocalVar(_) => true,
        Kind::Assign => {
            &&& node.lhs matches Some(lhs)
            &&& lhs.kind is LocalVar
            &&& node.rhs matches Some(rhs)
            &&& lowerable(*rhs)
        },
        _ => {
            &&& node.lhs matches Some(lhs)
            &&& node.rhs matches Some(rhs)
            &&& lowerable(*lhs)
            &&& lowerable(*rhs)
        },
    }
}

/// Whether every assignment in the tree `node` has a variable on its left.
pub open spec fn assigns_to_variables(node: Node) -> bool
    decreases node,
{
    &&& node.kind is Assign ==> (node.lhs matches Some(lhs) ==> lhs.kind is LocalVar)
    &&& node.lhs matches Some(lhs) ==> assigns_to_variables(*lhs)
    &&& node.rhs matches Some(rhs) ==> assigns_to_variables(*rhs)
}

/// The generator lowers the trees of the form that it can lower, and no
/// others.
pub proof fn lemma_lowered_when_lowerable(node: Node)
    ensures
        lowered(node) is Ok <==> lowerable(node),
    decreases node,
{
    if let Some(lhs) = node.lhs {
        lemma_lowered_when_lowerable(*lhs);
    }
    if let Some(rhs) = node.rhs {
        lemma_lowered_when_lowerable(*rhs);
    }
}

/// Of the trees that the parser builds, the generator lowers those in
/// which every assignment has a variable on its left, and no others.
pub proof fn lemma_well_formed_lowered(node: Node)
    requires
        node.well_formed(),
    ensures
        lowered(node) is Ok <==> assigns_to_variables(node),
    decreases node,
{
    if let Some(lhs) = node.lhs {
        lemma_well_formed_lowered(*lhs);
    }
    if let Some(rhs) = node.rhs {
        lemma_well_formed_lowered(*rhs);
    }
}

/// The instructions of the statements `program`: each statement is
/// evaluated and its value is popped.
pub open spec fn lowered_all(program: Seq<Node>) -> Result<Seq<Instr>, Error>
    decreases program.len(),
{
    if program.len() == 0 {
        Ok(Seq::empty())
    } else {
        match lowered_all(program.drop_last()) {
            Ok(before) => match lowered(program.last()) {
                Ok(code) => Ok(before + code + seq![Instr::PopRax]),
                Err(e) => Err(e),
            },
            Err(e) => Err(e),
        }
    }
}

} // verus!
