use crate::ast::node::{Kind, Node};
use crate::semantics::word::combine;
use vstd::prelude::*;

verus! {

/// The values of the variables, by the offset of their slots.
pub type Frame = Map<u64, u64>;

/// The value of the expression `node` where the variables hold `frame`,
/// and what the variables hold afterwards; or nothing, where a division
/// has no quotient or the tree does not have the form of an expression.
///
/// * A number has its own value.
/// * A variable has the value that it holds.
/// * An assignment has the value of its right side, which the variable on
///   its left holds afterwards.
/// * Any other operator has its left operand evaluated first, then its
///   right operand, and combines their values.
pub open spec fn value(node: Node, frame: Frame) -> Option<(u64, Frame)>
    decreases node,
{
    match node.kind {
        Kind::Number(n) => Some((n, frame)),
        Kind::LocalVar(var) => Some((frame[var.offset], frame)),
        Kind::Assign => match (node.lhs, node.rhs) {
            (Some(lhs), Some(rhs)) => match (lhs.kind, value(*rhs, frame)) {
                (Kind::LocalVar(var), Some((v, after))) => Some((v, after.insert(var.offset, v))),
                _ => None,
            },
            _ => None,
        },
        kind => match (node.lhs, node.rhs) {
            (Some(lhs), Some(rhs)) => match value(*lhs, frame) {
                Some((a, between)) => match value(*rhs, between) {
                    Some((b, after)) => match combine(kind, a, b) {
                        Some(v) => Some((v, after)),
                        None => None,
                    },
                    None => None,
                },
                None => None,
            },
            _ => None,
        },
    }
}

/// The values of the statements `program` in turn, where the variables
/// hold `frame` at first, and what the variables hold afterwards; or
/// nothing, where one of the statements has no value.
pub open spec fn values(program: Seq<Node>, frame: Frame) -> Option<(Seq<u64>, Frame)>
    decreases program.len(),
{
    if program.len() == 0 {
        Some((Seq::empty(), frame))
    } else {
        match values(program.drop_last(), frame) {
            Some((before, between)) => match value(program.last(), between) {
                Some((v, after)) => Some((before.push(v), after)),
                None => None,
            },
            None => None,
        }
    }
}

} // verus!
