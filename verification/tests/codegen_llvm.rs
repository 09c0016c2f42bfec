use exprc::codegen_llvm::{bitcode, codegen, gen_expr};
use exprc::ir::{IrBlock, IrFunction, IrModule, Operation, Predicate};
use exprc::parser::{parse, AstNode, Node};
use exprc::tokenize::tokenize;
use inkwell::context::Context;
use inkwell::memory_buffer::MemoryBuffer;
use inkwell::module::Module;

fn tree(input: &str) -> Node {
    parse(&tokenize(input).unwrap()).unwrap()
}

/// The bitcode of the module that the tree is lowered to.
fn emitted(node: &AstNode) -> Vec<u8> {
    bitcode(&codegen(node)).unwrap()
}

fn operations(input: &str) -> Vec<Operation> {
    codegen(&tree(input)).function.entry.operations
}

/// What LLVM prints for the module that it reads from `bytes`.
fn printed(bytes: &[u8]) -> String {
    let context = Context::create();
    let buffer = MemoryBuffer::create_from_memory_range_copy(bytes, "module");
    let module = Module::parse_bitcode_from_buffer(&buffer, &context).unwrap();
    assert!(module.verify().is_ok());
    module.print_to_string().to_string()
}

/// The value that a block returns in wrapping 32-bit arithmetic, and
/// whether each operand is defined before its use with the right width.
fn returned(block: &IrBlock) -> Option<i32> {
    let mut values: Vec<(i32, bool)> = Vec::new();
    for (i, operation) in block.operations.iter().enumerate() {
        let word = |a: usize| -> i32 {
            assert!(a < i);
            assert!(!values[a].1);
            values[a].0
        };
        let value = match *operation {
            Operation::Const(v) => (v, false),
            Operation::Neg(a) => (word(a).wrapping_neg(), false),
            Operation::Add(a, b) => (word(a).wrapping_add(word(b)), false),
            Operation::Sub(a, b) => (word(a).wrapping_sub(word(b)), false),
            Operation::Mul(a, b) => (word(a).wrapping_mul(word(b)), false),
            Operation::SDiv(a, b) => (word(a).checked_div(word(b))?, false),
            Operation::Compare(predicate, a, b) => {
                let (x, y) = (word(a), word(b));
                let holds = match predicate {
                    Predicate::Eq => x == y,
                    Predicate::Ne => x != y,
                    Predicate::Slt => x < y,
                    Predicate::Sle => x <= y,
                };
                (holds as i32, true)
            }
            Operation::ZExt(a) => {
                assert!(a < i);
                assert!(values[a].1);
                (values[a].0, false)
            }
        };
        values.push(value);
    }
    assert!(!values[block.result].1);
    Some(values[block.result].0)
}

#[test]
fn a_literal_is_one_constant() {
    let module = codegen(&AstNode::Num(42));
    assert_eq!(
        module,
        IrModule {
            name: "main".to_string(),
            function: IrFunction {
                name: "main".to_string(),
                entry: IrBlock {
                    label: "entry".to_string(),
                    operations: vec![Operation::Const(42)],
                    result: 0,
                },
            },
        }
    );
}

#[test]
fn operands_are_lowered_left_then_right() {
    assert_eq!(
        operations("1+2*3"),
        vec![
            Operation::Const(1),
            Operation::Const(2),
            Operation::Const(3),
            Operation::Mul(1, 2),
            Operation::Add(0, 3),
        ]
    );
    assert_eq!(
        operations("(1+2)*3"),
        vec![
            Operation::Const(1),
            Operation::Const(2),
            Operation::Add(0, 1),
            Operation::Const(3),
            Operation::Mul(2, 3),
        ]
    );
}

#[test]
fn each_node_has_its_operation() {
    assert_eq!(
        operations("-5"),
        vec![Operation::Const(5), Operation::Neg(0)]
    );
    let last = |input: &str| -> Vec<Operation> { operations(input).split_off(2) };
    assert_eq!(last("1+2"), vec![Operation::Add(0, 1)]);
    assert_eq!(last("1-2"), vec![Operation::Sub(0, 1)]);
    assert_eq!(last("1*2"), vec![Operation::Mul(0, 1)]);
    assert_eq!(last("1/2"), vec![Operation::SDiv(0, 1)]);
    assert_eq!(
        last("1==2"),
        vec![Operation::Compare(Predicate::Eq, 0, 1), Operation::ZExt(2)]
    );
    assert_eq!(
        last("1!=2"),
        vec![Operation::Compare(Predicate::Ne, 0, 1), Operation::ZExt(2)]
    );
    assert_eq!(
        last("1<2"),
        vec![Operation::Compare(Predicate::Slt, 0, 1), Operation::ZExt(2)]
    );
    assert_eq!(
        last("1<=2"),
        vec![Operation::Compare(Predicate::Sle, 0, 1), Operation::ZExt(2)]
    );
}

#[test]
fn the_block_returns_its_last_value() {
    for input in ["1", "-1", "1+2*3", "(1<2)+(3<4)", "1==2<3+4*-5"] {
        let module = codegen(&tree(input));
        let block = &module.function.entry;
        assert_eq!(block.result, block.operations.len() - 1);
        assert_eq!(module.name, "main");
        assert_eq!(module.function.name, "main");
        assert_eq!(block.label, "entry");
    }
}

#[test]
fn gen_expr_appends_and_returns_the_position() {
    let mut operations = vec![Operation::Const(9)];
    let at = gen_expr(&tree("1<2"), &mut operations);
    assert_eq!(at, 4);
    assert_eq!(
        operations,
        vec![
            Operation::Const(9),
            Operation::Const(1),
            Operation::Const(2),
            Operation::Compare(Predicate::Slt, 1, 2),
            Operation::ZExt(3),
        ]
    );
}

#[test]
fn the_block_computes_the_value() {
    let inputs = [
        "0",
        "2+2",
        "1+2*3",
        "(1+2)*3",
        "7/2",
        "-7/2",
        "7/-2",
        "10-3-2",
        "3 > 1",
        "1 < 3",
        "1 > 3",
        "2 >= 2",
        "1 == 1",
        "1 != 1",
        "1==2<3+4*-5",
        "(1<2)+(3<4)*10",
        "-(1-(2-(3-4)))",
    ];
    for input in inputs {
        let node = tree(input);
        let expected = node.evaluate();
        assert!(expected.is_some());
        assert_eq!(returned(&codegen(&node).function.entry), expected, "{}", input);
    }
}

#[test]
fn precedence_in_the_block() {
    assert_eq!(returned(&codegen(&tree("1+2*3")).function.entry), Some(7));
    assert_eq!(returned(&codegen(&tree("(1+2)*3")).function.entry), Some(9));
}

#[test]
fn division_in_the_block() {
    assert_eq!(returned(&codegen(&tree("7/2")).function.entry), Some(3));
    assert_eq!(returned(&codegen(&tree("-7/2")).function.entry), Some(-3));
    assert_eq!(returned(&codegen(&tree("1/0")).function.entry), None);
}

#[test]
fn the_module_holds_one_function_main() {
    let text = printed(&emitted(&tree("1+2*3")));
    assert!(text.contains("define i32 @main()"), "{}", text);
    assert!(text.contains("entry:"), "{}", text);
    assert_eq!(text.matches("define ").count(), 1, "{}", text);
    assert_eq!(text.matches("ret i32").count(), 1, "{}", text);
}

#[test]
fn the_module_returns_the_value() {
    // The builder folds operations on constants, so the value shows in the
    // return.
    let cases = [
        ("42", "ret i32 42"),
        ("1+2*3", "ret i32 7"),
        ("(1+2)*3", "ret i32 9"),
        ("7/2", "ret i32 3"),
        ("-7/2", "ret i32 -3"),
        ("10-3-2", "ret i32 5"),
        ("3 > 1", "ret i32 1"),
        ("1 > 3", "ret i32 0"),
        ("2 <= 2", "ret i32 1"),
        ("1 == 2", "ret i32 0"),
        ("1 != 2", "ret i32 1"),
        ("(1<2)+(3<4)", "ret i32 2"),
        ("-5", "ret i32 -5"),
    ];
    for (input, expected) in cases {
        let text = printed(&emitted(&tree(input)));
        assert!(text.contains(expected), "{}: {}", input, text);
    }
}

#[test]
fn a_negative_constant_keeps_its_value() {
    let text = printed(&emitted(&AstNode::Num(-7)));
    assert!(text.contains("ret i32 -7"), "{}", text);
    let text = printed(&emitted(&AstNode::Num(i32::MIN)));
    assert!(text.contains("ret i32 -2147483648"), "{}", text);
}

#[test]
fn a_division_by_zero_still_gives_a_module() {
    let bytes = emitted(&tree("1/0"));
    let text = printed(&bytes);
    assert!(text.contains("define i32 @main()"), "{}", text);
}

#[test]
fn the_bytes_are_bitcode() {
    let bytes = emitted(&tree("1+2"));
    assert_eq!(&bytes[..4], &[b'B', b'C', 0xc0, 0xde]);
}

#[test]
fn the_names_of_the_module_are_handed_on() {
    let mut module = codegen(&tree("1+2"));
    module.name = "other".to_string();
    module.function.name = "start".to_string();
    let text = printed(&bitcode(&module).unwrap());
    assert!(text.contains("define i32 @start()"), "{}", text);
    assert!(text.contains("other"), "{}", text);
}

#[test]
fn greater_and_swapped_less_give_the_same_module() {
    assert_eq!(codegen(&tree("3 > 1")), codegen(&tree("1 < 3")));
    assert_eq!(
        printed(&emitted(&tree("3 > 1"))),
        printed(&emitted(&tree("1 < 3")))
    );
}

#[test]
fn lowered_modules_are_well_formed() {
    for input in ["1", "-1", "1+2*3", "(1<2)+(3<4)", "1==2<3+4*-5", "1/0"] {
        let module = codegen(&tree(input));
        assert!(module.is_well_formed(), "{}", input);
        assert!(module.function.entry.is_well_formed(), "{}", input);
    }
}

fn block(operations: Vec<Operation>, result: usize) -> IrBlock {
    IrBlock {
        label: "entry".to_string(),
        operations,
        result,
    }
}

#[test]
fn malformed_blocks_are_told_apart() {
    // No operation at all, or a result that is none of the values.
    assert!(!block(vec![], 0).is_well_formed());
    assert!(!block(vec![Operation::Const(1)], 1).is_well_formed());
    // An operand that is not defined before its use.
    assert!(!block(vec![Operation::Neg(0)], 0).is_well_formed());
    assert!(!block(vec![Operation::Const(1), Operation::Add(0, 1)], 1).is_well_formed());
    assert!(!block(vec![Operation::Const(1), Operation::Add(2, 0)], 1).is_well_formed());
    // A one-bit value where a 32-bit value is asked for, and the reverse.
    let compared = vec![
        Operation::Const(1),
        Operation::Const(2),
        Operation::Compare(Predicate::Slt, 0, 1),
    ];
    assert!(!block(compared.clone(), 2).is_well_formed());
    assert!(block(compared.clone(), 1).is_well_formed());
    let mut added = compared.clone();
    added.push(Operation::Add(2, 0));
    assert!(!block(added, 3).is_well_formed());
    let mut widened = compared.clone();
    widened.push(Operation::ZExt(2));
    assert!(block(widened, 3).is_well_formed());
    let mut widened_word = compared.clone();
    widened_word.push(Operation::ZExt(1));
    assert!(!block(widened_word, 3).is_well_formed());
    let mut compared_bit = compared;
    compared_bit.push(Operation::Compare(Predicate::Eq, 2, 0));
    assert!(!block(compared_bit, 0).is_well_formed());
}

#[test]
fn every_well_formed_block_is_built() {
    // Operations of each kind, and operands that are not the values next
    // before: the builder hands back values of the widths that the
    // operations define, so the module is built.
    let operations = vec![
        Operation::Const(6),
        Operation::Const(-3),
        Operation::Compare(Predicate::Sle, 1, 0),
        Operation::Neg(1),
        Operation::ZExt(2),
        Operation::SDiv(0, 3),
        Operation::Compare(Predicate::Ne, 5, 4),
        Operation::Mul(5, 0),
        Operation::Sub(7, 4),
        Operation::ZExt(6),
        Operation::Add(8, 9),
    ];
    let module = IrModule {
        name: "main".to_string(),
        function: IrFunction {
            name: "main".to_string(),
            entry: block(operations, 10),
        },
    };
    assert!(module.is_well_formed());
    assert_eq!(returned(&module.function.entry), Some(12));
    let text = printed(&bitcode(&module).unwrap());
    assert!(text.contains("ret i32 12"), "{}", text);
}
