use crate::ast::node::{Kind, Node, Program};
use crate::codegen::code::{address, lowered, lowered_all, operation, Condition, Error, Instr};
use crate::codegen::text::{
    assembly, decimal, digit, epilogue_lines, header, lemma_listing_assignment,
    lemma_listing_concat, lemma_listing_one, lemma_listing_operator, lemma_listing_push,
    lemma_listing_three, lemma_listing_two, lemma_listing_variable, line, listing, prologue_lines,
};
use vstd::prelude::*;
use vstd::string::StringExecFns;

verus! {

fn digit_text(d: u64) -> (text: &'static str)
    requires
        d < 10,
    ensures
        text@ == digit(d),
{
    match d {
        0 => "0",
        1 => "1",
        2 => "2",
        3 => "3",
        4 => "4",
        5 => "5",
        6 => "6",
        7 => "7",
        8 => "8",
        _ => "9",
    }
}

/// Appends the number `n` in base ten.
fn put_decimal(out: &mut String, n: u64)
    ensures
        final(out)@ == old(out)@ + decimal(n),
    decreases n,
{
    if n >= 10 {
        put_decimal(out, n / 10);
    }
    out.append(digit_text(n % 10));
    assert(old(out)@ + decimal(n / 10) + digit(n % 10) =~= old(out)@ + (decimal(n / 10) + digit(
        n % 10,
    )));
}

/// Appends the line of the instruction `instr`.
fn emit(out: &mut String, instr: Instr)
    ensures
        final(out)@ == old(out)@ + line(instr),
{
    match instr {
        Instr::Push(n) => {
            out.append("  push ");
            put_decimal(out, n);
            out.append("\n");
            assert(old(out)@ + "  push "@ + decimal(n) + "\n"@ =~= old(out)@ + ("  push "@
                + decimal(n) + "\n"@));
        },
        Instr::FrameBase => out.append("  mov rax, rbp\n"),
        Instr::Lower(n) => {
            out.append("  sub rax, ");
            put_decimal(out, n);
            out.append("\n");
            assert(old(out)@ + "  sub rax, "@ + decimal(n) + "\n"@ =~= old(out)@ + ("  sub rax, "@
                + decimal(n) + "\n"@));
        },
        Instr::PushRax => out.append("  push rax\n"),
        Instr::PushRdi => out.append("  push rdi\n"),
        Instr::PopRax => out.append("  pop rax\n"),
        Instr::PopRdi => out.append("  pop rdi\n"),
        Instr::Load => out.append("  mov rax, [rax]\n"),
        Instr::Store => out.append("  mov [rax], rdi\n"),
        Instr::Add => out.append("  add rax, rdi\n"),
        Instr::Sub => out.append("  sub rax, rdi\n"),
        Instr::Mul => out.append("  imul rax, rdi\n"),
        Instr::Extend => out.append("  cqo\n"),
        Instr::Divide => out.append("  idiv rdi\n"),
        Instr::Compare => out.append("  cmp rax, rdi\n"),
        Instr::SetIf(Condition::Equal) => out.append("  sete al\n"),
        Instr::SetIf(Condition::NotEqual) => out.append("  setne al\n"),
        Instr::SetIf(Condition::Less) => out.append("  setl al\n"),
        Instr::SetIf(Condition::LessOrEqual) => out.append("  setle al\n"),
        Instr::ZeroExtend => out.append("  movzb rax, al\n"),
    }
}

/// Appends what stands before the first instruction.
fn pre_gen(out: &mut String)
    ensures
        final(out)@ == old(out)@ + header(),
{
    out.append(".intel_syntax noprefix\n");
    out.append(".global main\n");
    out.append("main:\n");
    assert(old(out)@ + ".intel_syntax noprefix\n"@ + ".global main\n"@ + "main:\n"@ =~= old(out)@
        + header());
}

/// Appends the lines that set up the frame.
fn prologue(out: &mut String)
    ensures
        final(out)@ == old(out)@ + prologue_lines(),
{
    out.append("  push rbp\n");
    out.append("  mov rbp, rsp\n");
    out.append("  sub rsp, 208\n");
    assert(old(out)@ + "  push rbp\n"@ + "  mov rbp, rsp\n"@ + "  sub rsp, 208\n"@ =~= old(out)@
        + prologue_lines());
}

/// Appends the lines that give the frame up and return.
fn epilogue(out: &mut String)
    ensures
        final(out)@ == old(out)@ + epilogue_lines(),
{
    out.append("  mov rsp, rbp\n");
    out.append("  pop rbp\n");
    out.append("  ret\n");
    assert(old(out)@ + "  mov rsp, rbp\n"@ + "  pop rbp\n"@ + "  ret\n"@ =~= old(out)@
        + epilogue_lines());
}

/// Appends the instructions that combine `rax` and `rdi` into `rax` as the
/// operator `kind` asks.
fn gen_operation(out: &mut String, kind: Kind)
    ensures
        final(out)@ == old(out)@ + listing(operation(kind)),
{
    proof {
        lemma_listing_one(Instr::Add);
        lemma_listing_one(Instr::Sub);
        lemma_listing_one(Instr::Mul);
        lemma_listing_two(Instr::Extend, Instr::Divide);
        lemma_listing_three(Instr::Compare, Instr::SetIf(Condition::Equal), Instr::ZeroExtend);
        lemma_listing_three(Instr::Compare, Instr::SetIf(Condition::NotEqual), Instr::ZeroExtend);
        lemma_listing_three(Instr::Compare, Instr::SetIf(Condition::Less), Instr::ZeroExtend);
        lemma_listing_three(
            Instr::Compare,
            Instr::SetIf(Condition::LessOrEqual),
            Instr::ZeroExtend,
        );
    }
    match kind {
        Kind::Add => emit(out, Instr::Add),
        Kind::Sub => emit(out, Instr::Sub),
        Kind::Mul => emit(out, Instr::Mul),
        Kind::Div => {
            emit(out, Instr::Extend);
            emit(out, Instr::Divide);
        },
        Kind::Eq => {
            emit(out, Instr::Compare);
            emit(out, Instr::SetIf(Condition::Equal));
            emit(out, Instr::ZeroExtend);
        },
        Kind::Ne => {
            emit(out, Instr::Compare);
            emit(out, Instr::SetIf(Condition::NotEqual));
            emit(out, Instr::ZeroExtend);
        },
        Kind::Lt => {
            emit(out, Instr::Compare);
            emit(out, Instr::SetIf(Condition::Less));
            emit(out, Instr::ZeroExtend);
        },
        Kind::Le => {
            emit(out, Instr::Compare);
            emit(out, Instr::SetIf(Condition::LessOrEqual));
            emit(out, Instr::ZeroExtend);
        },
        _ => {},
    }
    assert(out@ =~= old(out)@ + listing(operation(kind)));
}

/// Appends the instructions that push the address of the variable `node`.
fn gen_local_var(out: &mut String, node: &Node) -> (r: Result<(), Error>)
    ensures
        match node.kind {
            Kind::LocalVar(var) => r is Ok && final(out)@ == old(out)@ + listing(address(var)),
            kind => r == Err::<(), Error>(Error::UnexpectedNode(kind)),
        },
{
    match node.kind {
        Kind::LocalVar(var) => {
            emit(out, Instr::FrameBase);
            emit(out, Instr::Lower(var.offset));
            emit(out, Instr::PushRax);
            proof {
                lemma_listing_three(Instr::FrameBase, Instr::Lower(var.offset), Instr::PushRax);
                assert(out@ =~= old(out)@ + listing(address(var)));
            }
            Ok(())
        },
        kind => Err(Error::UnexpectedNode(kind)),
    }
}

/// The lines of the instructions of the expression `node`.
spec fn lowered_text(node: Node) -> Seq<char> {
    listing(lowered(node)->Ok_0)
}

/// Appends the instructions that leave the value of the expression `node`
/// on top of the stack.
fn gen(out: &mut String, node: &Node) -> (r: Result<(), Error>)
    ensures
        match lowered(*node) {
            Ok(code) => r is Ok && final(out)@ == old(out)@ + listing(code),
            Err(e) => r == Err::<(), Error>(e),
        },
    decreases node,
{
    match node.kind {
        Kind::Number(n) => {
            emit(out, Instr::Push(n));
            proof {
                lemma_listing_one(Instr::Push(n));
            }
            return Ok(());
        },
        Kind::LocalVar(var) => {
            gen_local_var(out, node)?;
            emit(out, Instr::PopRax);
            emit(out, Instr::Load);
            emit(out, Instr::PushRax);
            proof {
                lemma_listing_variable(address(var));
                assert(out@ =~= old(out)@ + lowered_text(*node));
            }
            return Ok(());
        },
        Kind::Assign => {
            let lhs = match &node.lhs {
                Some(lhs) => lhs,
                None => return Err(Error::UnexpectedNode(node.kind)),
            };
            gen_local_var(out, lhs)?;
            let rhs = match &node.rhs {
                Some(rhs) => rhs,
                None => return Err(Error::UnexpectedNode(node.kind)),
            };
            gen(out, rhs)?;
            emit(out, Instr::PopRdi);
            emit(out, Instr::PopRax);
            emit(out, Instr::Store);
            emit(out, Instr::PushRdi);
            proof {
                lemma_listing_assignment(address(lhs.kind->LocalVar_0), lowered(**rhs)->Ok_0);
                assert(out@ =~= old(out)@ + lowered_text(*node));
            }
            return Ok(());
        },
        _ => {},
    }
    let lhs = match &node.lhs {
        Some(lhs) => lhs,
        None => return Err(Error::UnexpectedNode(node.kind)),
    };
    gen(out, lhs)?;
    let rhs = match &node.rhs {
        Some(rhs) => rhs,
        None => return Err(Error::UnexpectedNode(node.kind)),
    };
    gen(out, rhs)?;
    emit(out, Instr::PopRdi);
    emit(out, Instr::PopRax);
    gen_operation(out, node.kind);
    emit(out, Instr::PushRax);
    proof {
        lemma_listing_operator(lowered(**lhs)->Ok_0, lowered(**rhs)->Ok_0, operation(node.kind));
        assert(out@ =~= old(out)@ + lowered_text(*node));
    }
    Ok(())
}

/// Appends the instructions of the statements `program`: each statement is
/// evaluated and its value is popped.
fn main_gen(out: &mut String, program: &Program) -> (r: Result<(), Error>)
    ensures
        match lowered_all(program@) {
            Ok(code) => r is Ok && final(out)@ == old(out)@ + listing(code),
            Err(e) => r == Err::<(), Error>(e),
        },
{
    let mut i: usize = 0;
    assert(program@.take(0) =~= Seq::<Node>::empty());
    assert(out@ =~= old(out)@ + listing(Seq::<Instr>::empty()));
    while i < program.len()
        invariant
            i <= program.len(),
            lowered_all(program@.take(i as int)) matches Ok(code) && out@ == old(out)@ + listing(
                code,
            ),
        decreases program.len() - i,
    {
        let ghost before = lowered_all(program@.take(i as int))->Ok_0;
        proof {
            assert(program@.take(i + 1).drop_last() =~= program@.take(i as int));
            if lowered_all(program@.take(i + 1)) is Err {
                lemma_lowered_all_fails(program@, i + 1);
            }
        }
        gen(out, &program[i])?;
        emit(out, Instr::PopRax);
        proof {
            let code = lowered(program@[i as int])->Ok_0;
            lemma_listing_concat(before, code);
            lemma_listing_push(before + code, Instr::PopRax);
            assert(before + code + seq![Instr::PopRax] =~= (before + code).push(Instr::PopRax));
            assert(out@ =~= old(out)@ + (listing(before) + listing(code) + line(Instr::PopRax)));
        }
        i = i + 1;
    }
    assert(program@.take(i as int) =~= program@);
    Ok(())
}

/// The first statement that cannot be lowered is the failure of all the
/// statements.
proof fn lemma_lowered_all_fails(program: Seq<Node>, n: int)
    requires
        0 <= n <= program.len(),
        lowered_all(program.take(n)) is Err,
    ensures
        lowered_all(program) == lowered_all(program.take(n)),
    decreases program.len() - n,
{
    if n < program.len() {
        assert(program.take(n + 1).drop_last() =~= program.take(n));
        lemma_lowered_all_fails(program, n + 1);
    } else {
        assert(program.take(n) =~= program);
    }
}

/// What [`generate`] returns for the statements `program`: the text of
/// their instructions, or the failure of the first statement that has
/// none.
pub open spec fn generated(program: Seq<Node>, r: Result<String, crate::error::Error>) -> bool {
    match lowered_all(program) {
        Ok(code) => r matches Ok(text) && text@ == assembly(code),
        Err(e) => r matches Err(crate::error::Error::Asm(cause)) && cause == e,
    }
}

/// The same statements have the same text: two results of [`generate`]
/// for them agree character by character, or are the same failure.
pub proof fn lemma_generate_deterministic(
    program: Seq<Node>,
    first: Result<String, crate::error::Error>,
    second: Result<String, crate::error::Error>,
)
    requires
        generated(program, first),
        generated(program, second),
    ensures
        match (first, second) {
            (Ok(a), Ok(b)) => a@ == b@,
            (Err(a), Err(b)) => a == b,
            _ => false,
        },
{
}

/// Generates the assembly text of the statements `program`.
///
/// The text is the header, the lines that set up the frame, the lines of
/// the instructions of each statement in turn, and the lines that give the
/// frame up. A tree that does not have the form that the parser builds, an
/// operator without an operand or an assignment to what is no variable,
/// is the failure of the whole.
pub fn generate(program: Program) -> (r: Result<String, crate::error::Error>)
    ensures
        generated(program@, r),
{
    let mut out = String::new();
    pre_gen(&mut out);
    prologue(&mut out);
    match main_gen(&mut out, &program) {
        Ok(()) => {
            epilogue(&mut out);
            assert(out@ =~= assembly(lowered_all(program@)->Ok_0));
            Ok(out)
        },
        Err(e) => Err(crate::error::Error::from(e)),
    }
}

} // verus!
