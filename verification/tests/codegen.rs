use exprc::codegen::{append_decimal, codegen, CodeGen};
use exprc::driver::{compile, CompileError};
use exprc::parser::{parse, AstNode, Expected, Node, SyntaxError};
use exprc::tokenize::{tokenize, ScanError};

fn tree(input: &str) -> Node {
    parse(&tokenize(input).unwrap()).unwrap()
}

fn num(v: i32) -> Node {
    Box::new(AstNode::Num(v))
}

/// Runs emitted text on a machine with two 64-bit registers and a stack,
/// and returns what the accumulator holds at the `ret`.
fn run(text: &str) -> i64 {
    let mut lines = text.lines();
    assert_eq!(lines.next(), Some("  .global main"));
    assert_eq!(lines.next(), Some("main:"));
    let (mut rax, mut rdi, mut rdx): (i64, i64, i64) = (0, 0, 0);
    let mut stack: Vec<i64> = Vec::new();
    let mut flags: Option<(bool, bool)> = None;
    for line in lines {
        let line = line.strip_prefix("  ").unwrap();
        if let Some(rest) = line.strip_prefix("mov $") {
            rax = rest.strip_suffix(", %rax").unwrap().parse().unwrap();
            continue;
        }
        match line {
            "neg %rax" => {
                rax = rax.wrapping_neg();
                flags = None;
            }
            "push %rax" => stack.push(rax),
            "pop %rdi" => rdi = stack.pop().unwrap(),
            "add %rdi, %rax" => {
                rax = rax.wrapping_add(rdi);
                flags = None;
            }
            "sub %rdi, %rax" => {
                rax = rax.wrapping_sub(rdi);
                flags = None;
            }
            "imul %rdi, %rax" => {
                rax = rax.wrapping_mul(rdi);
                flags = None;
            }
            "cqo" => rdx = if rax < 0 { -1 } else { 0 },
            "idiv %rdi" => {
                let dividend = ((rdx as i128) << 64) | (rax as u64 as i128);
                rax = i64::try_from(dividend / rdi as i128).unwrap();
                rdx = (dividend % rdi as i128) as i64;
                flags = None;
            }
            "cmp %rdi, %rax" => flags = Some((rax == rdi, rax < rdi)),
            "sete %al" => rax = (rax & !0xff) | flags.unwrap().0 as i64,
            "setne %al" => rax = (rax & !0xff) | !flags.unwrap().0 as i64,
            "setl %al" => rax = (rax & !0xff) | flags.unwrap().1 as i64,
            "setle %al" => rax = (rax & !0xff) | (flags.unwrap().0 || flags.unwrap().1) as i64,
            "movzb %al, %rax" => rax &= 0xff,
            "ret" => {
                assert!(stack.is_empty());
                return rax;
            }
            other => panic!("unknown instruction: {}", other),
        }
    }
    panic!("no ret");
}

#[test]
fn a_literal_is_loaded() {
    assert_eq!(
        codegen(&AstNode::Num(42)),
        "  .global main\nmain:\n  mov $42, %rax\n  ret\n"
    );
}

#[test]
fn a_negation_negates_in_place() {
    assert_eq!(
        codegen(&tree("-5")),
        "  .global main\nmain:\n  mov $5, %rax\n  neg %rax\n  ret\n"
    );
}

#[test]
fn a_binary_node_computes_its_right_operand_first() {
    assert_eq!(
        codegen(&tree("1+2")),
        "  .global main\nmain:\n  mov $2, %rax\n  push %rax\n  mov $1, %rax\n  pop %rdi\n  add %rdi, %rax\n  ret\n"
    );
}

#[test]
fn each_operator_has_its_instructions() {
    let body = |input: &str| -> String {
        let text = codegen(&tree(input));
        let text = text
            .strip_prefix("  .global main\nmain:\n  mov $2, %rax\n  push %rax\n  mov $1, %rax\n  pop %rdi\n")
            .unwrap();
        text.strip_suffix("  ret\n").unwrap().to_string()
    };
    assert_eq!(body("1+2"), "  add %rdi, %rax\n");
    assert_eq!(body("1-2"), "  sub %rdi, %rax\n");
    assert_eq!(body("1*2"), "  imul %rdi, %rax\n");
    assert_eq!(body("1/2"), "  cqo\n  idiv %rdi\n");
    assert_eq!(
        body("1==2"),
        "  cmp %rdi, %rax\n  sete %al\n  movzb %al, %rax\n"
    );
    assert_eq!(
        body("1!=2"),
        "  cmp %rdi, %rax\n  setne %al\n  movzb %al, %rax\n"
    );
    assert_eq!(
        body("1<2"),
        "  cmp %rdi, %rax\n  setl %al\n  movzb %al, %rax\n"
    );
    assert_eq!(
        body("1<=2"),
        "  cmp %rdi, %rax\n  setle %al\n  movzb %al, %rax\n"
    );
    assert_eq!(
        body("2>1"),
        "  cmp %rdi, %rax\n  setl %al\n  movzb %al, %rax\n"
    );
    assert_eq!(
        body("2>=1"),
        "  cmp %rdi, %rax\n  setle %al\n  movzb %al, %rax\n"
    );
}

#[test]
fn the_whole_text_of_a_nested_expression() {
    assert_eq!(
        codegen(&tree("1+2*3")),
        concat_lines(&[
            "  .global main",
            "main:",
            "  mov $3, %rax",
            "  push %rax",
            "  mov $2, %rax",
            "  pop %rdi",
            "  imul %rdi, %rax",
            "  push %rax",
            "  mov $1, %rax",
            "  pop %rdi",
            "  add %rdi, %rax",
            "  ret",
        ])
    );
}

fn concat_lines(lines: &[&str]) -> String {
    lines.iter().map(|l| format!("{}\n", l)).collect()
}

#[test]
fn literals_are_written_in_decimal() {
    let written = |v: i32| -> String {
        let mut out = String::from(">");
        append_decimal(&mut out, v);
        out
    };
    assert_eq!(written(0), ">0");
    assert_eq!(written(7), ">7");
    assert_eq!(written(10), ">10");
    assert_eq!(written(1203), ">1203");
    assert_eq!(written(-1), ">-1");
    assert_eq!(written(-90), ">-90");
    assert_eq!(written(i32::MAX), ">2147483647");
    assert_eq!(written(i32::MIN), ">-2147483648");
    for v in [-100000, -12345, -11, -10, -9, 9, 11, 99, 100, 101, 65535, 1000000] {
        assert_eq!(written(v), format!(">{}", v));
    }
}

#[test]
fn a_negative_literal_is_loaded_with_its_sign() {
    assert_eq!(
        codegen(&AstNode::Num(-7)),
        "  .global main\nmain:\n  mov $-7, %rax\n  ret\n"
    );
}

#[test]
fn the_simulated_stack_is_balanced() {
    for input in ["1", "-1", "1+2", "1+2*3", "(1+2)*(3-4)/5", "1<2==3>=4", "-(1-(2-(3-4)))"] {
        let mut state = CodeGen::new();
        assert_eq!(state.depth(), 0);
        state.gen_expr(&tree(input));
        assert_eq!(state.depth(), 0, "{}", input);
        let text = state.gen();
        let pushes = text.matches("  push ").count();
        let pops = text.matches("  pop ").count();
        assert_eq!(pushes, pops, "{}", input);
    }
}

#[test]
fn gen_expr_appends_to_what_was_written() {
    let mut state = CodeGen::new();
    state.gen_expr(&AstNode::Num(1));
    state.gen_expr(&AstNode::Neg(num(2)));
    assert_eq!(
        state.gen(),
        "  mov $1, %rax\n  mov $2, %rax\n  neg %rax\n"
    );
}

#[test]
fn the_emitted_code_computes_the_value() {
    let inputs = [
        "0",
        "42",
        "2+2",
        "1+2*3",
        "(1+2)*3",
        "7/2",
        "-7/2",
        "7/-2",
        "-7/-2",
        "10-3-2",
        "100/10/5",
        "3 > 1",
        "1 < 3",
        "1 > 3",
        "2 >= 2",
        "2 <= 1",
        "1 == 1",
        "1 != 1",
        "1==2<3+4*-5",
        "-(1-(2-(3-4)))",
        "(1<2)+(3<4)*10",
        "2147483647*2",
        "-2147483647-2",
        "1000000*1000000/1000",
        "255+1 == 256",
        "(511 < 512) + 256",
    ];
    for input in inputs {
        let node = tree(input);
        let expected = evaluate64(&node);
        assert_eq!(run(&codegen(&node)), expected, "{}", input);
        if let Some(v) = node.evaluate() {
            assert_eq!(v as i64, expected, "{}", input);
        }
    }
}

fn evaluate64(node: &AstNode) -> i64 {
    match node {
        AstNode::Num(v) => *v as i64,
        AstNode::Neg(a) => -evaluate64(a),
        AstNode::Add(a, b) => evaluate64(a) + evaluate64(b),
        AstNode::Sub(a, b) => evaluate64(a) - evaluate64(b),
        AstNode::Mul(a, b) => evaluate64(a) * evaluate64(b),
        AstNode::Div(a, b) => evaluate64(a) / evaluate64(b),
        AstNode::Eq(a, b) => (evaluate64(a) == evaluate64(b)) as i64,
        AstNode::Ne(a, b) => (evaluate64(a) != evaluate64(b)) as i64,
        AstNode::Lt(a, b) => (evaluate64(a) < evaluate64(b)) as i64,
        AstNode::Le(a, b) => (evaluate64(a) <= evaluate64(b)) as i64,
    }
}

#[test]
fn precedence_in_the_emitted_code() {
    assert_eq!(run(&codegen(&tree("1+2*3"))), 7);
    assert_eq!(run(&codegen(&tree("(1+2)*3"))), 9);
}

#[test]
fn division_in_the_emitted_code() {
    assert_eq!(run(&codegen(&tree("7/2"))), 3);
    assert_eq!(run(&codegen(&tree("-7/2"))), -3);
}

#[test]
fn greater_and_swapped_less_give_the_same_text() {
    assert_eq!(codegen(&tree("3 > 1")), codegen(&tree("1 < 3")));
    assert_eq!(codegen(&tree("3 >= 1")), codegen(&tree("1 <= 3")));
    assert_eq!(run(&codegen(&tree("3 > 1"))), 1);
}

#[test]
fn compile_runs_the_whole_pipeline() {
    assert_eq!(
        compile(" 1 + 2 ").unwrap(),
        "  .global main\nmain:\n  mov $2, %rax\n  push %rax\n  mov $1, %rax\n  pop %rdi\n  add %rdi, %rax\n  ret\n"
    );
    assert_eq!(compile("1+2*3").unwrap(), codegen(&tree("1+2*3")));
}

#[test]
fn compile_fails_where_scanning_fails() {
    assert_eq!(
        compile("1 + b"),
        Err(CompileError::Scan(ScanError::UnexpectedCharacter {
            position: 4
        }))
    );
    assert_eq!(
        compile("99999999999"),
        Err(CompileError::Scan(ScanError::NumericOverflow {
            position: 0
        }))
    );
    assert_eq!(
        compile("(1 + b"),
        Err(CompileError::Scan(ScanError::UnexpectedCharacter {
            position: 5
        }))
    );
}

#[test]
fn compile_fails_where_parsing_fails() {
    assert_eq!(
        compile("(1+2"),
        Err(CompileError::Syntax(SyntaxError {
            position: 4,
            expected: Expected::CloseParen
        }))
    );
    assert_eq!(
        compile("1+2)"),
        Err(CompileError::Syntax(SyntaxError {
            position: 3,
            expected: Expected::End
        }))
    );
    assert_eq!(
        compile(""),
        Err(CompileError::Syntax(SyntaxError {
            position: 0,
            expected: Expected::Expression
        }))
    );
}
