use crate::ast::laws::lemma_program_well_formed;
use crate::ast::node::{Kind, LocalVar, Node};
use crate::ast::parser::program;
use crate::lex::token::Token;
use crate::codegen::code::{address, lowered, lowered_all, operation, Condition, Instr};
use crate::semantics::machine::{met, run, step, Machine};
use crate::semantics::tree::{value, values, Frame};
use crate::semantics::word::{
    combine, lemma_low_byte, lemma_sign_extension, lemma_word_down_and_back, truth, word,
};
use vstd::prelude::*;

verus! {

proof fn lemma_run_push(code: Seq<Instr>, instr: Instr, m: Machine)
    ensures
        run(code.push(instr), m) == match run(code, m) {
            Some(before) => step(instr, before),
            None => None,
        },
{
    assert(code.push(instr).drop_last() =~= code);
}

/// To run instructions is to run those in front and then the others.
pub proof fn lemma_run_concat(front: Seq<Instr>, back: Seq<Instr>, m: Machine)
    ensures
        run(front + back, m) == match run(front, m) {
            Some(between) => run(back, between),
            None => None,
        },
    decreases back.len(),
{
    if back.len() == 0 {
        assert(front + back =~= front);
    } else {
        lemma_run_concat(front, back.drop_last(), m);
        assert((front + back).drop_last() =~= front + back.drop_last());
    }
}

proof fn lemma_run_one(a: Instr, m: Machine)
    ensures
        run(seq![a], m) == step(a, m),
{
    lemma_run_push(Seq::empty(), a, m);
    assert(seq![a] =~= Seq::<Instr>::empty().push(a));
}

proof fn lemma_run_two(a: Instr, b: Instr, m: Machine)
    ensures
        run(seq![a, b], m) == match step(a, m) {
            Some(m1) => step(b, m1),
            None => None,
        },
{
    lemma_run_one(a, m);
    lemma_run_push(seq![a], b, m);
    assert(seq![a, b] =~= seq![a].push(b));
}

proof fn lemma_run_three(a: Instr, b: Instr, c: Instr, m: Machine)
    ensures
        run(seq![a, b, c], m) == match run(seq![a, b], m) {
            Some(m2) => step(c, m2),
            None => None,
        },
{
    lemma_run_push(seq![a, b], c, m);
    assert(seq![a, b, c] =~= seq![a, b].push(c));
}

proof fn lemma_run_four(a: Instr, b: Instr, c: Instr, d: Instr, m: Machine)
    ensures
        run(seq![a, b, c, d], m) == match run(seq![a, b, c], m) {
            Some(m3) => step(d, m3),
            None => None,
        },
{
    lemma_run_push(seq![a, b, c], d, m);
    assert(seq![a, b, c, d] =~= seq![a, b, c].push(d));
}

/// The instructions for the address of a variable push that address.
proof fn lemma_address(var: LocalVar, m: Machine)
    ensures
        run(address(var), m) == Some(addressed(var, m)),
{
    lemma_run_two(Instr::FrameBase, Instr::Lower(var.offset), m);
    lemma_run_three(Instr::FrameBase, Instr::Lower(var.offset), Instr::PushRax, m);
}

/// The instructions for an operator put into `rax` what the operator makes
/// of `rax` and `rdi`, and fault where it makes nothing of them.
proof fn lemma_operation(kind: Kind, m: Machine)
    requires
        kind.is_operation(),
    ensures
        match combine(kind, m.rax, m.rdi) {
            Some(v) => run(operation(kind), m) matches Some(after) && after.rax == v && after.stack
                == m.stack && after.frame == m.frame && after.base == m.base,
            None => run(operation(kind), m) is None,
        },
{
    match kind {
        Kind::Add => lemma_run_one(Instr::Add, m),
        Kind::Sub => lemma_run_one(Instr::Sub, m),
        Kind::Mul => lemma_run_one(Instr::Mul, m),
        Kind::Div => {
            lemma_run_two(Instr::Extend, Instr::Divide, m);
            lemma_sign_extension(m.rax);
        },
        Kind::Eq => lemma_comparison(Condition::Equal, m),
        Kind::Ne => lemma_comparison(Condition::NotEqual, m),
        Kind::Lt => lemma_comparison(Condition::Less, m),
        Kind::Le => lemma_comparison(Condition::LessOrEqual, m),
        _ => {},
    }
}

/// The three instructions of a comparison put 1 or 0 into `rax`.
proof fn lemma_comparison(condition: Condition, m: Machine)
    ensures
        run(seq![Instr::Compare, Instr::SetIf(condition), Instr::ZeroExtend], m) == Some(
            Machine {
                rax: truth(met(condition, (m.rax, m.rdi))),
                compared: (m.rax, m.rdi),
                ..m
            },
        ),
{
    lemma_run_two(Instr::Compare, Instr::SetIf(condition), m);
    lemma_run_three(Instr::Compare, Instr::SetIf(condition), Instr::ZeroExtend, m);
    lemma_low_byte(m.rax, truth(met(condition, (m.rax, m.rdi))));
}

/// Whether the instructions that the generator emits for the expression
/// `node` compute its value on the machine `m`.
///
/// Where the expression has a value, the instructions leave the machine
/// with that value pushed on the stack, what was on the stack before still
/// below it, and the variables holding what the expression leaves them.
/// Where the expression has no value, because it divides by zero or has a
/// quotient that does not fit, the instructions fault.
pub open spec fn computes(node: Node, m: Machine) -> bool {
    match value(node, m.frame) {
        Some((v, frame)) => {
            &&& run(lowered(node)->Ok_0, m) matches Some(after)
            &&& after.stack == m.stack.push(v)
            &&& after.frame == frame
            &&& after.base == m.base
        },
        None => run(lowered(node)->Ok_0, m) is None,
    }
}

/// The machine `m` after the address of `var` was pushed.
spec fn addressed(var: LocalVar, m: Machine) -> Machine {
    Machine {
        rax: word(m.base - var.offset),
        stack: m.stack.push(word(m.base - var.offset)),
        ..m
    }
}

proof fn lemma_variable_computes(var: LocalVar, m: Machine)
    requires
        var.in_frame(),
    ensures
        computes(Node::leaf(Kind::LocalVar(var)), m),
{
    let tail = seq![Instr::PopRax, Instr::Load, Instr::PushRax];
    lemma_run_concat(address(var), tail, m);
    lemma_address(var, m);
    let pushed = addressed(var, m);
    lemma_word_down_and_back(m.base, var.offset);
    lemma_run_two(Instr::PopRax, Instr::Load, pushed);
    lemma_run_three(Instr::PopRax, Instr::Load, Instr::PushRax, pushed);
    assert(pushed.stack.drop_last() =~= m.stack);
}

proof fn lemma_assign_computes(var: LocalVar, rhs: Node, m: Machine)
    requires
        var.in_frame(),
        lowered(rhs) is Ok,
        computes(rhs, addressed(var, m)),
    ensures
        computes(Node::binary(Kind::Assign, Node::leaf(Kind::LocalVar(var)), rhs), m),
{
    let code = lowered(rhs)->Ok_0;
    let tail = seq![Instr::PopRdi, Instr::PopRax, Instr::Store, Instr::PushRdi];
    let pushed = addressed(var, m);
    lemma_run_concat(address(var) + code, tail, m);
    lemma_run_concat(address(var), code, m);
    lemma_address(var, m);
    if let Some((v, frame)) = value(rhs, m.frame) {
        let evaluated = run(code, pushed)->Some_0;
        lemma_word_down_and_back(m.base, var.offset);
        lemma_run_two(Instr::PopRdi, Instr::PopRax, evaluated);
        lemma_run_three(Instr::PopRdi, Instr::PopRax, Instr::Store, evaluated);
        lemma_run_four(Instr::PopRdi, Instr::PopRax, Instr::Store, Instr::PushRdi, evaluated);
        assert(evaluated.stack.drop_last() =~= pushed.stack);
        assert(pushed.stack.drop_last() =~= m.stack);
    }
}

proof fn lemma_operator_computes(kind: Kind, lhs: Node, rhs: Node, m: Machine)
    requires
        kind.is_operation(),
        lowered(lhs) is Ok,
        lowered(rhs) is Ok,
        computes(lhs, m),
        run(lowered(lhs)->Ok_0, m) matches Some(first) ==> computes(rhs, first),
    ensures
        computes(Node::binary(kind, lhs, rhs), m),
{
    let left = lowered(lhs)->Ok_0;
    let right = lowered(rhs)->Ok_0;
    let pops = seq![Instr::PopRdi, Instr::PopRax];
    let push = seq![Instr::PushRax];
    lemma_run_concat(left + right + pops + operation(kind), push, m);
    lemma_run_concat(left + right + pops, operation(kind), m);
    lemma_run_concat(left + right, pops, m);
    lemma_run_concat(left, right, m);
    if let Some((a, between)) = value(lhs, m.frame) {
        let first = run(left, m)->Some_0;
        if let Some((b, frame)) = value(rhs, between) {
            let second = run(right, first)->Some_0;
            lemma_run_two(Instr::PopRdi, Instr::PopRax, second);
            let popped = run(pops, second)->Some_0;
            assert(second.stack.drop_last() =~= first.stack);
            assert(first.stack.drop_last() =~= m.stack);
            assert(popped.rax == a && popped.rdi == b);
            lemma_operation(kind, popped);
            if let Some(v) = combine(kind, a, b) {
                let combined = run(operation(kind), popped)->Some_0;
                lemma_run_one(Instr::PushRax, combined);
            }
        }
    }
}

/// The emitted instructions compute the value of the expression: see
/// [`computes`].
pub proof fn lemma_expression_correct(node: Node, m: Machine)
    requires
        node.well_formed(),
        lowered(node) is Ok,
    ensures
        computes(node, m),
    decreases node,
{
    match node.kind {
        Kind::Number(n) => {
            lemma_run_one(Instr::Push(n), m);
        },
        Kind::LocalVar(var) => {
            assert(node == Node::leaf(Kind::LocalVar(var)));
            lemma_variable_computes(var, m);
        },
        Kind::Assign => {
            let lhs = *node.lhs->Some_0;
            let rhs = *node.rhs->Some_0;
            let var = lhs.kind->LocalVar_0;
            assert(lhs.well_formed());
            assert(lhs == Node::leaf(Kind::LocalVar(var)));
            assert(node == Node::binary(Kind::Assign, lhs, rhs));
            lemma_expression_correct(rhs, addressed(var, m));
            lemma_assign_computes(var, rhs, m);
        },
        kind => {
            let lhs = *node.lhs->Some_0;
            let rhs = *node.rhs->Some_0;
            assert(node == Node::binary(kind, lhs, rhs));
            lemma_expression_correct(lhs, m);
            if let Some(first) = run(lowered(lhs)->Ok_0, m) {
                lemma_expression_correct(rhs, first);
            }
            lemma_operator_computes(kind, lhs, rhs, m);
        },
    }
}

/// The emitted instructions run the statements.
///
/// Where every one of the statements `program` has a value, the
/// instructions that the generator emits for them leave the stack as it
/// was, the variables holding what the statements leave them, and in `rax`
/// the value of the last statement. Where a statement has no value, the
/// instructions fault.
pub proof fn lemma_program_correct(program: Seq<Node>, m: Machine)
    requires
        forall|i: int| 0 <= i < program.len() ==> (#[trigger] program[i]).well_formed(),
        lowered_all(program) is Ok,
    ensures
        match values(program, m.frame) {
            Some((results, frame)) => {
                &&& run(lowered_all(program)->Ok_0, m) matches Some(after)
                &&& after.stack == m.stack
                &&& after.frame == frame
                &&& after.base == m.base
                &&& results.len() == program.len()
                &&& results.len() > 0 ==> after.rax == results.last()
            },
            None => run(lowered_all(program)->Ok_0, m) is None,
        },
    decreases program.len(),
{
    if program.len() > 0 {
        let before = lowered_all(program.drop_last())->Ok_0;
        let code = lowered(program.last())->Ok_0;
        lemma_program_correct(program.drop_last(), m);
        lemma_run_concat(before, code, m);
        lemma_run_push(before + code, Instr::PopRax, m);
        assert(before + code + seq![Instr::PopRax] =~= (before + code).push(Instr::PopRax));
        if let Some((results, between)) = values(program.drop_last(), m.frame) {
            let ran = run(before, m)->Some_0;
            lemma_expression_correct(program.last(), ran);
            if let Some((v, frame)) = value(program.last(), between) {
                let evaluated = run(code, ran)->Some_0;
                assert(evaluated.stack.drop_last() =~= ran.stack);
            }
        }
    }
}

/// The emitted instructions run what the parser read.
///
/// Where the parser makes statements of the tokens `ts` and the generator
/// lowers them, the instructions do what the statements say: see
/// [`lemma_program_correct`].
pub proof fn lemma_parsed_program_correct(ts: Seq<Token>, m: Machine)
    requires
        program(ts) matches Ok(nodes) && lowered_all(nodes) is Ok,
    ensures
        ({
            let nodes = program(ts)->Ok_0;
            let code = lowered_all(nodes)->Ok_0;
            match values(nodes, m.frame) {
                Some((results, frame)) => {
                    &&& run(code, m) matches Some(after)
                    &&& after.stack == m.stack
                    &&& after.frame == frame
                    &&& after.base == m.base
                    &&& results.len() == nodes.len()
                    &&& results.len() > 0 ==> after.rax == results.last()
                },
                None => run(code, m) is None,
            }
        }),
{
    lemma_program_well_formed(ts);
    lemma_program_correct(program(ts)->Ok_0, m);
}

/// A variable that is read after it was assigned has the value that was
/// assigned, and an assignment changes no other variable.
pub proof fn lemma_read_after_write(x: char, rhs: Node, frame: Frame)
    requires
        LocalVar::is_name(x),
    ensures
        ({
            let var = LocalVar { offset: LocalVar::offset_of(x) as u64 };
            let assignment = Node::binary(Kind::Assign, Node::leaf(Kind::LocalVar(var)), rhs);
            match (value(rhs, frame), value(assignment, frame)) {
                (Some((v, between)), Some((assigned, after))) => {
                    &&& assigned == v
                    &&& value(Node::leaf(Kind::LocalVar(var)), after) == Some((v, after))
                    &&& forall|y: char|
                        LocalVar::is_name(y) && y != x ==> after[LocalVar::offset_of(y) as u64]
                            == between[#[trigger] (LocalVar::offset_of(y) as u64)]
                },
                (None, None) => true,
                _ => false,
            }
        }),
{
}

/// The emitted instructions read what they wrote.
///
/// The instructions for the two statements `x = rhs; x;` leave in `rax`
/// the value of `rhs`: the variable is read from the slot that the
/// assignment wrote.
pub proof fn lemma_emitted_read_after_write(x: char, rhs: Node, m: Machine)
    requires
        LocalVar::is_name(x),
        rhs.well_formed(),
        lowered(rhs) is Ok,
    ensures
        ({
            let var = Node::leaf(
                Kind::LocalVar(LocalVar { offset: LocalVar::offset_of(x) as u64 }),
            );
            let statements = seq![Node::binary(Kind::Assign, var, rhs), var];
            &&& lowered_all(statements) matches Ok(code)
            &&& match value(rhs, m.frame) {
                Some((v, _)) => run(code, m) matches Some(after) && after.rax == v && after.stack
                    == m.stack,
                None => run(code, m) is None,
            }
        }),
{
    let var = Node::leaf(Kind::LocalVar(LocalVar { offset: LocalVar::offset_of(x) as u64 }));
    let assignment = Node::binary(Kind::Assign, var, rhs);
    let statements = seq![assignment, var];
    let first = seq![assignment];
    let none = Seq::<Node>::empty();
    assert(statements.drop_last() =~= first);
    assert(first.drop_last() =~= none);
    assert(first.last() == assignment && statements.last() == var);
    assert(lowered(assignment) is Ok);
    assert(lowered(var) is Ok);
    assert(lowered_all(none) is Ok);
    assert(lowered_all(first) is Ok);
    assert(lowered_all(statements) is Ok);
    assert(var.well_formed());
    assert(assignment.well_formed());
    lemma_read_after_write(x, rhs, m.frame);
    lemma_program_correct(statements, m);
    assert(values(none, m.frame) == Some((Seq::<u64>::empty(), m.frame)));
    assert(values(first, m.frame) == match value(assignment, m.frame) {
        Some((v, after)) => Some((Seq::<u64>::empty().push(v), after)),
        None => None,
    });
}

} // verus!
