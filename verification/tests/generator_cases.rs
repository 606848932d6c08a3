use r9cc::ast::{Kind, LocalVar, Node};
use r9cc::codegen::Error as GenerateError;
use r9cc::{generate, parse, tokenize, Error};
use std::collections::HashMap;

const STACK_TOP: u64 = 0x8000;
const CALLER_BASE: u64 = 0x1234_5678;
const RETURN_ADDRESS: u64 = 0xdead_beef;

/// The registers and the memory of a machine that runs the emitted text
/// line by line. Memory is held by the word.
struct Cpu {
    rax: u64,
    rdi: u64,
    rdx: u64,
    rsp: u64,
    rbp: u64,
    compared: (i64, i64),
    memory: HashMap<u64, u64>,
    returned: bool,
}

impl Cpu {
    fn new() -> Cpu {
        let mut cpu = Cpu {
            rax: 0x1111,
            rdi: 0x2222,
            rdx: 0x3333,
            rsp: STACK_TOP,
            rbp: CALLER_BASE,
            compared: (0, 0),
            memory: HashMap::new(),
            returned: false,
        };
        cpu.push(RETURN_ADDRESS);
        cpu
    }

    fn push(&mut self, word: u64) {
        self.rsp -= 8;
        self.memory.insert(self.rsp, word);
    }

    fn pop(&mut self) -> u64 {
        let word = self.memory[&self.rsp];
        self.rsp += 8;
        word
    }

    fn get(&self, register: &str) -> u64 {
        match register {
            "rax" => self.rax,
            "rdi" => self.rdi,
            "rbp" => self.rbp,
            "rsp" => self.rsp,
            other => match other.parse::<u64>() {
                Ok(n) => n,
                Err(_) => panic!("no operand: {}", other),
            },
        }
    }

    fn set(&mut self, register: &str, word: u64) {
        match register {
            "rax" => self.rax = word,
            "rdi" => self.rdi = word,
            "rbp" => self.rbp = word,
            "rsp" => self.rsp = word,
            other => panic!("no register: {}", other),
        }
    }

    fn set_low_byte(&mut self, bit: bool) {
        self.rax = (self.rax & !0xff) | (bit as u64);
    }

    /// Runs one line. A division without a quotient is the error.
    fn line(&mut self, line: &str) -> Result<(), String> {
        assert!(!self.returned, "a line behind the return");
        let line = line.strip_prefix("  ").expect("an instruction is indented");
        let (mnemonic, operands) = match line.split_once(' ') {
            Some((mnemonic, operands)) => (mnemonic, operands),
            None => (line, ""),
        };
        let operands: Vec<&str> = if operands.is_empty() {
            vec![]
        } else {
            operands.split(", ").collect()
        };
        match (mnemonic, operands.as_slice()) {
            ("push", [source]) => {
                let word = self.get(source);
                self.push(word)
            }
            ("pop", [target]) => {
                let word = self.pop();
                self.set(target, word)
            }
            ("mov", ["rax", "[rax]"]) => self.rax = self.memory[&self.rax],
            ("mov", ["[rax]", "rdi"]) => {
                self.memory.insert(self.rax, self.rdi);
            }
            ("mov", [target, source]) => {
                let word = self.get(source);
                self.set(target, word)
            }
            ("add", [target, source]) => {
                let word = self.get(target).wrapping_add(self.get(source));
                self.set(target, word)
            }
            ("sub", [target, source]) => {
                let word = self.get(target).wrapping_sub(self.get(source));
                self.set(target, word)
            }
            ("imul", ["rax", "rdi"]) => self.rax = self.rax.wrapping_mul(self.rdi),
            ("cqo", []) => self.rdx = if (self.rax as i64) < 0 { u64::MAX } else { 0 },
            ("idiv", ["rdi"]) => {
                let dividend = (((self.rdx as u128) << 64) | self.rax as u128) as i128;
                let divisor = self.rdi as i64 as i128;
                if divisor == 0 {
                    return Err("division by zero".to_string());
                }
                let quotient = dividend / divisor;
                if quotient < i64::MIN as i128 || quotient > i64::MAX as i128 {
                    return Err("quotient out of range".to_string());
                }
                self.rax = quotient as i64 as u64;
                self.rdx = (dividend % divisor) as i64 as u64;
            }
            ("cmp", ["rax", "rdi"]) => self.compared = (self.rax as i64, self.rdi as i64),
            ("sete", ["al"]) => self.set_low_byte(self.compared.0 == self.compared.1),
            ("setne", ["al"]) => self.set_low_byte(self.compared.0 != self.compared.1),
            ("setl", ["al"]) => self.set_low_byte(self.compared.0 < self.compared.1),
            ("setle", ["al"]) => self.set_low_byte(self.compared.0 <= self.compared.1),
            ("movzb", ["rax", "al"]) => self.rax &= 0xff,
            ("ret", []) => {
                assert_eq!(self.pop(), RETURN_ADDRESS);
                self.returned = true;
            }
            other => panic!("no instruction: {:?}", other),
        }
        Ok(())
    }
}

/// Runs the emitted text and returns what `rax` holds at the return, and
/// what the variables hold then.
fn run(text: &str) -> Result<(u64, HashMap<char, u64>), String> {
    let mut lines = text.lines();
    assert_eq!(lines.next(), Some(".intel_syntax noprefix"));
    assert_eq!(lines.next(), Some(".global main"));
    assert_eq!(lines.next(), Some("main:"));
    assert!(text.ends_with('\n'));
    let mut cpu = Cpu::new();
    for line in lines {
        cpu.line(line)?;
    }
    assert!(cpu.returned);
    assert_eq!(cpu.rsp, STACK_TOP);
    assert_eq!(cpu.rbp, CALLER_BASE);
    let base = STACK_TOP - 16;
    let mut variables = HashMap::new();
    for name in 'a'..='z' {
        if let Some(word) = cpu.memory.get(&(base - LocalVar::of(name).offset)) {
            variables.insert(name, *word);
        }
    }
    Ok((cpu.rax, variables))
}

fn compile(input: &str) -> String {
    generate(parse(tokenize(input).unwrap()).unwrap()).unwrap()
}

fn result(input: &str) -> u64 {
    run(&compile(input)).unwrap().0
}

fn body(text: &str) -> &str {
    let text = text
        .strip_prefix(
            ".intel_syntax noprefix\n.global main\nmain:\n  push rbp\n  mov rbp, rsp\n  sub rsp, 208\n",
        )
        .unwrap();
    text.strip_suffix("  mov rsp, rbp\n  pop rbp\n  ret\n").unwrap()
}

#[test]
fn program_is_emitted_line_by_line() {
    let expected = "\
.intel_syntax noprefix
.global main
main:
  push rbp
  mov rbp, rsp
  sub rsp, 208
  mov rax, rbp
  sub rax, 8
  push rax
  push 3
  pop rdi
  pop rax
  mov [rax], rdi
  push rdi
  pop rax
  mov rax, rbp
  sub rax, 16
  push rax
  push 5
  pop rdi
  pop rax
  mov [rax], rdi
  push rdi
  pop rax
  mov rax, rbp
  sub rax, 8
  push rax
  pop rax
  mov rax, [rax]
  push rax
  mov rax, rbp
  sub rax, 16
  push rax
  pop rax
  mov rax, [rax]
  push rax
  pop rdi
  pop rax
  add rax, rdi
  push rax
  pop rax
  mov rsp, rbp
  pop rbp
  ret
";
    assert_eq!(compile("a=3;b=5;a+b;"), expected);
}

#[test]
fn last_statement_is_the_result() {
    let (rax, variables) = run(&compile("a=3;b=5;a+b;")).unwrap();
    assert_eq!(rax, 8);
    assert_eq!(variables[&'a'], 3);
    assert_eq!(variables[&'b'], 5);
}

#[test]
fn empty_program_is_frame_and_return() {
    assert_eq!(
        generate(vec![]).unwrap(),
        ".intel_syntax noprefix\n.global main\nmain:\n  push rbp\n  mov rbp, rsp\n  sub rsp, 208\n  mov rsp, rbp\n  pop rbp\n  ret\n"
    );
    assert_eq!(body(&compile("")), "");
}

#[test]
fn number_is_pushed_in_base_ten() {
    assert_eq!(body(&compile("0;")), "  push 0\n  pop rax\n");
    assert_eq!(body(&compile("9;")), "  push 9\n  pop rax\n");
    assert_eq!(body(&compile("10;")), "  push 10\n  pop rax\n");
    assert_eq!(body(&compile("1000;")), "  push 1000\n  pop rax\n");
    assert_eq!(body(&compile("0042;")), "  push 42\n  pop rax\n");
    assert_eq!(
        body(&compile("18446744073709551615;")),
        "  push 18446744073709551615\n  pop rax\n"
    );
    assert_eq!(
        body(&generate(vec![Node::number(1234567890)]).unwrap()),
        "  push 1234567890\n  pop rax\n"
    );
}

#[test]
fn variable_is_read_through_its_address() {
    assert_eq!(
        body(&compile("z;")),
        "  mov rax, rbp\n  sub rax, 208\n  push rax\n  pop rax\n  mov rax, [rax]\n  push rax\n  pop rax\n"
    );
}

#[test]
fn operators_have_their_instructions() {
    let lines = |kind: Kind| {
        let text = generate(vec![Node::ops(kind, 6, 3)]).unwrap();
        let text = body(&text)
            .strip_prefix("  push 6\n  push 3\n  pop rdi\n  pop rax\n")
            .unwrap()
            .to_string();
        text.strip_suffix("  push rax\n  pop rax\n").unwrap().to_string()
    };
    assert_eq!(lines(Kind::Add), "  add rax, rdi\n");
    assert_eq!(lines(Kind::Sub), "  sub rax, rdi\n");
    assert_eq!(lines(Kind::Mul), "  imul rax, rdi\n");
    assert_eq!(lines(Kind::Div), "  cqo\n  idiv rdi\n");
    assert_eq!(lines(Kind::Eq), "  cmp rax, rdi\n  sete al\n  movzb rax, al\n");
    assert_eq!(lines(Kind::Ne), "  cmp rax, rdi\n  setne al\n  movzb rax, al\n");
    assert_eq!(lines(Kind::Lt), "  cmp rax, rdi\n  setl al\n  movzb rax, al\n");
    assert_eq!(lines(Kind::Le), "  cmp rax, rdi\n  setle al\n  movzb rax, al\n");
}

#[test]
fn left_operand_is_evaluated_first() {
    assert_eq!(
        body(&compile("1-2;")),
        "  push 1\n  push 2\n  pop rdi\n  pop rax\n  sub rax, rdi\n  push rax\n  pop rax\n"
    );
    // The left assignment runs before the right operand reads the variable.
    assert_eq!(result("(a=2)*a;"), 4);
    assert_eq!(result("a=5;a-(a=1);"), 4);
}

#[test]
fn same_tree_gives_the_same_text() {
    let first = generate(parse(tokenize("a=1;b=a*2+3;b/(a+1);").unwrap()).unwrap()).unwrap();
    let second = generate(parse(tokenize("a=1;b=a*2+3;b/(a+1);").unwrap()).unwrap()).unwrap();
    assert_eq!(first, second);
    assert_eq!(first.as_bytes(), second.as_bytes());
}

#[test]
fn variable_holds_what_was_assigned() {
    assert_eq!(result("a=7;a;"), 7);
    assert_eq!(result("z=9;z;"), 9);
    assert_eq!(result("a=1;a=2;a;"), 2);
    assert_eq!(result("a=7;"), 7);
}

#[test]
fn variables_do_not_share_slots() {
    let mut source = String::new();
    for (index, name) in ('a'..='z').enumerate() {
        source.push_str(&format!("{}={};", name, index + 100));
    }
    let (_, variables) = run(&compile(&source)).unwrap();
    for (index, name) in ('a'..='z').enumerate() {
        assert_eq!(variables[&name], index as u64 + 100);
    }
    assert_eq!(result("a=1;b=2;a;"), 1);
    assert_eq!(result("y=1;z=2;y;"), 1);
}

#[test]
fn assignment_has_the_value_of_its_right_side() {
    let (rax, variables) = run(&compile("a=b=3;")).unwrap();
    assert_eq!(rax, 3);
    assert_eq!(variables[&'a'], 3);
    assert_eq!(variables[&'b'], 3);
    assert_eq!(result("a=(b=4)+1;a*b;"), 20);
}

#[test]
fn arithmetic_is_computed() {
    assert_eq!(result("1+2*3;"), 7);
    assert_eq!(result("(1+2)*3;"), 9);
    assert_eq!(result("(2+3)*4-10/2;"), 15);
    assert_eq!(result("7/2;"), 3);
    assert_eq!(result("100-1-1;"), 98);
}

#[test]
fn arithmetic_wraps_around() {
    assert_eq!(result("18446744073709551615+1;"), 0);
    assert_eq!(result("0-1;"), u64::MAX);
    assert_eq!(result("-1;"), u64::MAX);
    assert_eq!(result("9223372036854775808*2;"), 0);
    assert_eq!(result("-3*+5;") as i64, -15);
}

#[test]
fn division_rounds_toward_zero() {
    assert_eq!(result("-7/2;") as i64, -3);
    assert_eq!(result("7/-2;") as i64, -3);
    assert_eq!(result("-7/-2;") as i64, 3);
    assert_eq!(result("-1/2;"), 0);
}

#[test]
fn division_without_quotient_faults() {
    assert!(run(&compile("1/0;")).is_err());
    assert!(run(&compile("9223372036854775808/-1;")).is_err());
    assert!(run(&compile("a=0;5/a;")).is_err());
}

#[test]
fn comparisons_give_one_or_zero() {
    assert_eq!(result("1==1;"), 1);
    assert_eq!(result("1==2;"), 0);
    assert_eq!(result("1!=2;"), 1);
    assert_eq!(result("1!=1;"), 0);
    assert_eq!(result("1<2;"), 1);
    assert_eq!(result("2<2;"), 0);
    assert_eq!(result("2<=2;"), 1);
    assert_eq!(result("3<=2;"), 0);
    assert_eq!(result("2>1;"), 1);
    assert_eq!(result("1>1;"), 0);
    assert_eq!(result("1>=1;"), 1);
    assert_eq!(result("0>=1;"), 0);
    assert_eq!(result("4660==4660;"), 1);
}

#[test]
fn comparisons_are_of_signed_numbers() {
    assert_eq!(result("-1<0;"), 1);
    assert_eq!(result("18446744073709551615<0;"), 1);
    assert_eq!(result("0<=-1;"), 0);
    assert_eq!(result("-2>-3;"), 1);
}

#[test]
fn assignment_to_what_is_no_variable_fails() {
    assert_eq!(
        generate(parse(tokenize("1=2;").unwrap()).unwrap()),
        Err(Error::Asm(GenerateError::UnexpectedNode(Kind::Number(1))))
    );
    assert_eq!(
        generate(parse(tokenize("a=3;a+1=2;").unwrap()).unwrap()),
        Err(Error::Asm(GenerateError::UnexpectedNode(Kind::Add)))
    );
    assert_eq!(
        generate(parse(tokenize("(a=1)=2;").unwrap()).unwrap()),
        Err(Error::Asm(GenerateError::UnexpectedNode(Kind::Assign)))
    );
}

#[test]
fn operator_without_operand_fails() {
    let failure = |node: Node| match generate(vec![node]) {
        Err(Error::Asm(GenerateError::UnexpectedNode(kind))) => kind,
        other => panic!("no failure: {:?}", other),
    };
    assert_eq!(failure(Node::new(Kind::Add, None, None)), Kind::Add);
    assert_eq!(
        failure(Node::new(Kind::Mul, Node::link(Node::number(1)), None)),
        Kind::Mul
    );
    assert_eq!(
        failure(Node::new(Kind::Lt, None, Node::link(Node::number(1)))),
        Kind::Lt
    );
    assert_eq!(failure(Node::new(Kind::Assign, None, None)), Kind::Assign);
    assert_eq!(
        failure(Node::new(Kind::Assign, Node::link(Node::local_var(8)), None)),
        Kind::Assign
    );
    assert_eq!(
        failure(Node::new(Kind::Assign, Node::link(Node::number(4)), None)),
        Kind::Number(4)
    );
    // The left operand fails before the right one is looked at.
    assert_eq!(
        failure(Node::with(
            Kind::Sub,
            Node::new(Kind::Div, None, None),
            Node::new(Kind::Eq, None, None),
        )),
        Kind::Div
    );
    assert_eq!(
        failure(Node::with(
            Kind::Sub,
            Node::number(1),
            Node::new(Kind::Eq, None, None),
        )),
        Kind::Eq
    );
}

#[test]
fn first_statement_that_fails_is_the_failure() {
    assert_eq!(
        generate(vec![
            Node::number(1),
            Node::new(Kind::Ne, None, None),
            Node::new(Kind::Le, None, None),
        ]),
        Err(Error::Asm(GenerateError::UnexpectedNode(Kind::Ne)))
    );
}

#[test]
fn children_of_a_leaf_are_not_lowered() {
    let leaf = Node::new(Kind::Number(5), Node::link(Node::number(1)), None);
    assert_eq!(body(&generate(vec![leaf]).unwrap()), "  push 5\n  pop rax\n");
}
