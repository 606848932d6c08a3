use crate::codegen::code::{Condition, Instr};
use vstd::prelude::*;

verus! {

/// The digit `d` as text.
pub open spec fn digit(d: u64) -> Seq<char> {
    match d {
        0 => "0"@,
        1 => "1"@,
        2 => "2"@,
        3 => "3"@,
        4 => "4"@,
        5 => "5"@,
        6 => "6"@,
        7 => "7"@,
        8 => "8"@,
        _ => "9"@,
    }
}

/// The number `n` in base ten, without leading zeros.
pub open spec fn decimal(n: u64) -> Seq<char>
    decreases n,
{
    if n < 10 {
        digit(n)
    } else {
        decimal(n / 10) + digit(n % 10)
    }
}

/// The line of text that stands for the instruction `instr`.
pub open spec fn line(instr: Instr) -> Seq<char> {
    match instr {
        Instr::Push(n) => "  push "@ + decimal(n) + "\n"@,
        Instr::FrameBase => "  mov rax, rbp\n"@,
        Instr::Lower(n) => "  sub rax, "@ + decimal(n) + "\n"@,
        Instr::PushRax => "  push rax\n"@,
        Instr::PushRdi => "  push rdi\n"@,
        Instr::PopRax => "  pop rax\n"@,
        Instr::PopRdi => "  pop rdi\n"@,
        Instr::Load => "  mov rax, [rax]\n"@,
        Instr::Store => "  mov [rax], rdi\n"@,
        Instr::Add => "  add rax, rdi\n"@,
        Instr::Sub => "  sub rax, rdi\n"@,
        Instr::Mul => "  imul rax, rdi\n"@,
        Instr::Extend => "  cqo\n"@,
        Instr::Divide => "  idiv rdi\n"@,
        Instr::Compare => "  cmp rax, rdi\n"@,
        Instr::SetIf(Condition::Equal) => "  sete al\n"@,
        Instr::SetIf(Condition::NotEqual) => "  setne al\n"@,
        Instr::SetIf(Condition::Less) => "  setl al\n"@,
        Instr::SetIf(Condition::LessOrEqual) => "  setle al\n"@,
        Instr::ZeroExtend => "  movzb rax, al\n"@,
    }
}

/// The lines of the instructions `code`, one after the other.
pub open spec fn listing(code: Seq<Instr>) -> Seq<char>
    decreases code.len(),
{
    if code.len() == 0 {
        Seq::empty()
    } else {
        listing(code.drop_last()) + line(code.last())
    }
}

/// What stands before the first instruction: the syntax of the text, and
/// the label at which the program starts.
pub open spec fn header() -> Seq<char> {
    ".intel_syntax noprefix\n"@ + ".global main\n"@ + "main:\n"@
}

/// The lines that save the caller's frame base, set up the frame, and keep
/// its 208 bytes free.
pub open spec fn prologue_lines() -> Seq<char> {
    "  push rbp\n"@ + "  mov rbp, rsp\n"@ + "  sub rsp, 208\n"@
}

/// The lines that give the frame up, restore the caller's frame base, and
/// return.
pub open spec fn epilogue_lines() -> Seq<char> {
    "  mov rsp, rbp\n"@ + "  pop rbp\n"@ + "  ret\n"@
}

/// The text of the program whose body is the instructions `body`.
pub open spec fn assembly(body: Seq<Instr>) -> Seq<char> {
    header() + prologue_lines() + listing(body) + epilogue_lines()
}

/// The lines of instructions and one more.
pub proof fn lemma_listing_push(code: Seq<Instr>, instr: Instr)
    ensures
        listing(code.push(instr)) == listing(code) + line(instr),
{
    assert(code.push(instr).drop_last() =~= code);
}

/// The lines of one instruction.
pub proof fn lemma_listing_one(a: Instr)
    ensures
        listing(seq![a]) == line(a),
{
    lemma_listing_push(Seq::empty(), a);
    assert(seq![a] =~= Seq::<Instr>::empty().push(a));
    assert(Seq::<char>::empty() + line(a) =~= line(a));
}

/// The lines of two instructions.
pub proof fn lemma_listing_two(a: Instr, b: Instr)
    ensures
        listing(seq![a, b]) == line(a) + line(b),
{
    lemma_listing_one(a);
    lemma_listing_push(seq![a], b);
    assert(seq![a, b] =~= seq![a].push(b));
}

/// The lines of three instructions.
pub proof fn lemma_listing_three(a: Instr, b: Instr, c: Instr)
    ensures
        listing(seq![a, b, c]) == line(a) + line(b) + line(c),
{
    lemma_listing_two(a, b);
    lemma_listing_push(seq![a, b], c);
    assert(seq![a, b, c] =~= seq![a, b].push(c));
}

/// The lines of four instructions.
pub proof fn lemma_listing_four(a: Instr, b: Instr, c: Instr, d: Instr)
    ensures
        listing(seq![a, b, c, d]) == line(a) + line(b) + line(c) + line(d),
{
    lemma_listing_three(a, b, c);
    lemma_listing_push(seq![a, b, c], d);
    assert(seq![a, b, c, d] =~= seq![a, b, c].push(d));
}

/// The lines of instructions are those of the ones in front and then
/// those of the others.
pub proof fn lemma_listing_concat(front: Seq<Instr>, back: Seq<Instr>)
    ensures
        listing(front + back) == listing(front) + listing(back),
    decreases back.len(),
{
    if back.len() == 0 {
        assert(front + back =~= front);
        assert(listing(front) + listing(back) =~= listing(front));
    } else {
        lemma_listing_concat(front, back.drop_last());
        assert((front + back).drop_last() =~= front + back.drop_last());
        assert(listing(front) + listing(back.drop_last()) + line(back.last()) =~= listing(front)
            + (listing(back.drop_last()) + line(back.last())));
    }
}

/// The lines of what is emitted for a variable.
pub proof fn lemma_listing_variable(target: Seq<Instr>)
    ensures
        listing(target + seq![Instr::PopRax, Instr::Load, Instr::PushRax]) == listing(target)
            + line(Instr::PopRax) + line(Instr::Load) + line(Instr::PushRax),
{
    let tail = seq![Instr::PopRax, Instr::Load, Instr::PushRax];
    lemma_listing_three(Instr::PopRax, Instr::Load, Instr::PushRax);
    lemma_listing_concat(target, tail);
    assert(listing(target) + (line(Instr::PopRax) + line(Instr::Load) + line(Instr::PushRax))
        =~= listing(target) + line(Instr::PopRax) + line(Instr::Load) + line(Instr::PushRax));
}

/// The lines of what is emitted for an assignment.
pub proof fn lemma_listing_assignment(target: Seq<Instr>, value: Seq<Instr>)
    ensures
        listing(
            target + value + seq![Instr::PopRdi, Instr::PopRax, Instr::Store, Instr::PushRdi],
        ) == listing(target) + listing(value) + line(Instr::PopRdi) + line(Instr::PopRax) + line(
            Instr::Store,
        ) + line(Instr::PushRdi),
{
    let tail = seq![Instr::PopRdi, Instr::PopRax, Instr::Store, Instr::PushRdi];
    lemma_listing_four(Instr::PopRdi, Instr::PopRax, Instr::Store, Instr::PushRdi);
    lemma_listing_concat(target, value);
    lemma_listing_concat(target + value, tail);
    assert(listing(target) + listing(value) + (line(Instr::PopRdi) + line(Instr::PopRax) + line(
        Instr::Store,
    ) + line(Instr::PushRdi)) =~= listing(target) + listing(value) + line(Instr::PopRdi) + line(
        Instr::PopRax,
    ) + line(Instr::Store) + line(Instr::PushRdi));
}

/// The lines of what is emitted for an operator with its operands.
pub proof fn lemma_listing_operator(left: Seq<Instr>, right: Seq<Instr>, operation: Seq<Instr>)
    ensures
        listing(
            left + right + seq![Instr::PopRdi, Instr::PopRax] + operation + seq![Instr::PushRax],
        ) == listing(left) + listing(right) + line(Instr::PopRdi) + line(Instr::PopRax) + listing(
            operation,
        ) + line(Instr::PushRax),
{
    let pops = seq![Instr::PopRdi, Instr::PopRax];
    let push = seq![Instr::PushRax];
    lemma_listing_two(Instr::PopRdi, Instr::PopRax);
    lemma_listing_one(Instr::PushRax);
    lemma_listing_concat(left, right);
    lemma_listing_concat(left + right, pops);
    lemma_listing_concat(left + right + pops, operation);
    lemma_listing_concat(left + right + pops + operation, push);
    assert(listing(left) + listing(right) + (line(Instr::PopRdi) + line(Instr::PopRax))
        =~= listing(left) + listing(right) + line(Instr::PopRdi) + line(Instr::PopRax));
}

} // verus!
