//! The register machine that the emitted text is written for, and the
//! proof that the emitted code computes the value of its expression.

use vstd::prelude::*;
use crate::codegen::{combined, lower, operands, Instr};
use crate::eval::{apply, lemma_eval_within_is_value, quotient, truth};
use crate::parser::AstNode;

verus! {

/// What the last comparison found.
pub struct Flags {
    pub equal: bool,
    pub less: bool,
}

/// The state of the register machine that the emitted text is written for.
/// A register holds a signed 64-bit number.
pub struct Machine {
    /// The accumulator, `%rax`.
    pub rax: int,
    /// The secondary register, `%rdi`.
    pub rdi: int,
    /// The upper half of a dividend, `%rdx`.
    pub rdx: int,
    /// The stack, with its top last.
    pub stack: Seq<int>,
    /// What the last comparison found; `None` where an instruction has
    /// left the flags undefined since.
    pub flags: Option<Flags>,
}

/// The signed 64-bit number that the low 64 bits of `x` write.
pub open spec fn wrap(x: int) -> int {
    let low = x % 0x1_0000_0000_0000_0000;
    if low >= 0x8000_0000_0000_0000 {
        low - 0x1_0000_0000_0000_0000
    } else {
        low
    }
}

/// Whether `x` is a signed 64-bit number.
pub open spec fn is_word(x: int) -> bool {
    -0x8000_0000_0000_0000 <= x < 0x8000_0000_0000_0000
}

/// The accumulator with its low byte replaced by `bit`.
pub open spec fn with_low_byte(rax: int, bit: int) -> int {
    rax - rax % 256 + bit
}

/// The state after a `set` instruction that writes `holds` into the low
/// byte of the accumulator.
pub open spec fn set_byte(m: Machine, holds: bool) -> Machine {
    Machine { rax: with_low_byte(m.rax, truth(holds)), ..m }
}

/// The state after one instruction, or `None` where the instruction
/// faults: a pop from an empty stack, a division by zero or with a quotient
/// that does not fit in 64 bits, and a `set` instruction while the flags
/// are undefined.
pub open spec fn step(m: Machine, instr: Instr) -> Option<Machine> {
    match instr {
        Instr::LoadImm(v) => Some(Machine { rax: v as int, ..m }),
        Instr::Neg => Some(Machine { rax: wrap(-m.rax), flags: None, ..m }),
        Instr::Push => Some(Machine { stack: m.stack.push(m.rax), ..m }),
        Instr::Pop => if m.stack.len() > 0 {
            Some(Machine { rdi: m.stack.last(), stack: m.stack.drop_last(), ..m })
        } else {
            None
        },
        Instr::Add => Some(Machine { rax: wrap(m.rax + m.rdi), flags: None, ..m }),
        Instr::Sub => Some(Machine { rax: wrap(m.rax - m.rdi), flags: None, ..m }),
        Instr::Mul => Some(Machine { rax: wrap(m.rax * m.rdi), flags: None, ..m }),
        Instr::SignExtend => Some(
            Machine {
                rdx: if m.rax < 0 {
                    -1
                } else {
                    0
                },
                ..m
            },
        ),
        Instr::Div => {
            let dividend = m.rdx * 0x1_0000_0000_0000_0000 + m.rax % 0x1_0000_0000_0000_0000;
            if m.rdi != 0 && is_word(quotient(dividend, m.rdi)) {
                Some(
                    Machine {
                        rax: quotient(dividend, m.rdi),
                        rdx: dividend - quotient(dividend, m.rdi) * m.rdi,
                        flags: None,
                        ..m
                    },
                )
            } else {
                None
            }
        },
        Instr::Compare => Some(
            Machine { flags: Some(Flags { equal: m.rax == m.rdi, less: m.rax < m.rdi }), ..m },
        ),
        Instr::SetEq => match m.flags {
            Some(flags) => Some(set_byte(m, flags.equal)),
            None => None,
        },
        Instr::SetNe => match m.flags {
            Some(flags) => Some(set_byte(m, !flags.equal)),
            None => None,
        },
        Instr::SetLt => match m.flags {
            Some(flags) => Some(set_byte(m, flags.less)),
            None => None,
        },
        Instr::SetLe => match m.flags {
            Some(flags) => Some(set_byte(m, flags.less || flags.equal)),
            None => None,
        },
        Instr::ZeroExtend => Some(Machine { rax: m.rax % 256, ..m }),
    }
}

/// The state after a sequence of instructions, or `None` where one of them
/// faults.
pub open spec fn run(m: Machine, code: Seq<Instr>) -> Option<Machine>
    decreases code.len(),
{
    if code.len() == 0 {
        Some(m)
    } else {
        match run(m, code.drop_last()) {
            Some(before) => step(before, code.last()),
            None => None,
        }
    }
}

/// Running a sequence and one more instruction is running the sequence and
/// then the instruction.
pub proof fn lemma_run_push(m: Machine, code: Seq<Instr>, instr: Instr)
    ensures
        run(m, code.push(instr)) == match run(m, code) {
            Some(before) => step(before, instr),
            None => None,
        },
{
    assert(code.push(instr).drop_last() =~= code);
}

/// Running two sequences, one after the other, is running the first and
/// then the second from the state that the first leaves.
pub proof fn lemma_run_concat(m: Machine, a: Seq<Instr>, b: Seq<Instr>)
    ensures
        run(m, a + b) == match run(m, a) {
            Some(between) => run(between, b),
            None => None,
        },
    decreases b.len(),
{
    if b.len() == 0 {
        assert(a + b =~= a);
    } else {
        lemma_run_concat(m, a, b.drop_last());
        assert((a + b).drop_last() =~= a + b.drop_last());
    }
}

/// A signed 64-bit number is what its low 64 bits write.
pub proof fn lemma_wrap_word(x: int)
    requires
        is_word(x),
    ensures
        wrap(x) == x,
{
}

/// The dividend that the sign extension of a 64-bit number sets up is
/// that number.
proof fn lemma_dividend(x: int)
    requires
        is_word(x),
    ensures
        (if x < 0 {
            -1
        } else {
            0int
        }) * 0x1_0000_0000_0000_0000 + x % 0x1_0000_0000_0000_0000 == x,
{
}

/// An arithmetic instruction, run with the operands in the two registers,
/// leaves the value of its node in the accumulator.
proof fn lemma_arithmetic_computes(t: AstNode, m: Machine, both: Seq<Instr>)
    requires
        t is Add || t is Sub || t is Mul,
        run(m, both) is Some,
        apply(t, run(m, both)->0.rax, run(m, both)->0.rdi) matches Some(v) && is_word(v),
    ensures
        run(m, combined(t, both)) matches Some(end) && Some(end.rax) == apply(
            t,
            run(m, both)->0.rax,
            run(m, both)->0.rdi,
        ) && end.stack == run(m, both)->0.stack,
{
    let v = apply(t, run(m, both)->0.rax, run(m, both)->0.rdi)->0;
    lemma_wrap_word(v);
    if t is Add {
        lemma_run_push(m, both, Instr::Add);
    } else if t is Sub {
        lemma_run_push(m, both, Instr::Sub);
    } else {
        lemma_run_push(m, both, Instr::Mul);
    }
}

/// The sign extension and the division, run with the operands in the two
/// registers, leave the quotient in the accumulator.
proof fn lemma_division_computes(t: AstNode, m: Machine, both: Seq<Instr>)
    requires
        t is Div,
        run(m, both) is Some,
        is_word(run(m, both)->0.rax),
        apply(t, run(m, both)->0.rax, run(m, both)->0.rdi) matches Some(v) && is_word(v),
    ensures
        run(m, combined(t, both)) matches Some(end) && Some(end.rax) == apply(
            t,
            run(m, both)->0.rax,
            run(m, both)->0.rdi,
        ) && end.stack == run(m, both)->0.stack,
{
    let before = run(m, both)->0;
    lemma_dividend(before.rax);
    lemma_run_push(m, both, Instr::SignExtend);
    lemma_run_push(m, both.push(Instr::SignExtend), Instr::Div);
}

/// The low byte of the accumulator after a `set` instruction is the bit
/// that the instruction wrote.
proof fn lemma_low_byte(rax: int, bit: int)
    requires
        bit == 0 || bit == 1,
    ensures
        with_low_byte(rax, bit) % 256 == bit,
{
    let high = rax / 256;
    assert(rax - rax % 256 == 256 * high);
    assert((256 * high + bit) % 256 == bit) by (nonlinear_arith)
        requires
            bit == 0 || bit == 1,
    ;
}

/// A `set` instruction that finds the flags defined, and the zero
/// extension after it, leave in the accumulator the bit that the
/// instruction wrote.
proof fn lemma_set_computes(m: Machine, code: Seq<Instr>, set: Instr, holds: bool)
    requires
        run(m, code) is Some,
        step(run(m, code)->0, set) == Some(set_byte(run(m, code)->0, holds)),
    ensures
        run(m, code.push(set).push(Instr::ZeroExtend)) matches Some(end) && end.rax == truth(holds)
            && end.stack == run(m, code)->0.stack,
{
    let before = run(m, code)->0;
    lemma_run_push(m, code, set);
    lemma_run_push(m, code.push(set), Instr::ZeroExtend);
    lemma_low_byte(before.rax, truth(holds));
    let between = set_byte(before, holds);
    assert(step(between, Instr::ZeroExtend) == Some(Machine { rax: between.rax % 256, ..between }));
}

/// The comparison, the `set` instruction of the node's predicate and the
/// zero extension, run with the operands in the two registers, leave 1 in
/// the accumulator where the comparison holds and 0 where it does not.
proof fn lemma_comparison_computes(t: AstNode, m: Machine, both: Seq<Instr>)
    requires
        t is Eq || t is Ne || t is Lt || t is Le,
        run(m, both) is Some,
    ensures
        run(m, combined(t, both)) matches Some(end) && Some(end.rax) == apply(
            t,
            run(m, both)->0.rax,
            run(m, both)->0.rdi,
        ) && end.stack == run(m, both)->0.stack,
{
    let before = run(m, both)->0;
    lemma_run_push(m, both, Instr::Compare);
    let code = both.push(Instr::Compare);
    let flagged = run(m, code)->0;
    assert(flagged == Machine {
        flags: Some(Flags { equal: before.rax == before.rdi, less: before.rax < before.rdi }),
        ..before
    });
    if t is Eq {
        lemma_set_computes(m, code, Instr::SetEq, before.rax == before.rdi);
    } else if t is Ne {
        lemma_set_computes(m, code, Instr::SetNe, before.rax != before.rdi);
    } else if t is Lt {
        lemma_set_computes(m, code, Instr::SetLt, before.rax < before.rdi);
    } else {
        lemma_set_computes(m, code, Instr::SetLe, before.rax <= before.rdi);
    }
}

/// The instructions that combine the two registers, run with the operands
/// in them, leave the value of the node in the accumulator.
proof fn lemma_combined_computes(t: AstNode, m: Machine, both: Seq<Instr>)
    requires
        t !is Num,
        t !is Neg,
        run(m, both) is Some,
        is_word(run(m, both)->0.rax),
        apply(t, run(m, both)->0.rax, run(m, both)->0.rdi) matches Some(v) && is_word(v),
    ensures
        run(m, combined(t, both)) matches Some(end) && Some(end.rax) == apply(
            t,
            run(m, both)->0.rax,
            run(m, both)->0.rdi,
        ) && end.stack == run(m, both)->0.stack,
{
    if t is Add || t is Sub || t is Mul {
        lemma_arithmetic_computes(t, m, both);
    } else if t is Div {
        lemma_division_computes(t, m, both);
    } else {
        lemma_comparison_computes(t, m, both);
    }
}

/// The code for both operands of a node leaves the value of the left
/// operand in the accumulator and that of the right operand in the
/// secondary register, and the stack as it was.
proof fn lemma_operands_compute(a: AstNode, b: AstNode, m: Machine)
    requires
        a.eval64() is Some,
        b.eval64() is Some,
    ensures
        run(m, operands(lower(a), lower(b))) matches Some(end) && end.rax == a.eval64()->0
            && end.rdi == b.eval64()->0 && end.stack == m.stack,
    decreases
        if a.height() >= b.height() {
            a.height()
        } else {
            b.height()
        },
        1nat,
{
    lemma_lower_computes(b, m);
    let right = run(m, lower(b))->0;
    lemma_run_push(m, lower(b), Instr::Push);
    let pushed = run(m, lower(b).push(Instr::Push))->0;
    lemma_lower_computes(a, pushed);
    lemma_run_push(pushed, lower(a), Instr::Pop);
    lemma_run_concat(m, lower(b).push(Instr::Push), lower(a).push(Instr::Pop));
    assert(pushed.stack.drop_last() =~= m.stack);
}

/// The emitted code computes the value of the expression.
///
/// Started in any state, the code of an expression that has a value in
/// signed 64-bit arithmetic without overflow runs without a fault, leaves
/// that value in the accumulator, and leaves the stack as it found it. The
/// value is the value of the expression in the integers.
pub proof fn lemma_lower_computes(t: AstNode, m: Machine)
    requires
        t.eval64() is Some,
    ensures
        run(m, lower(t)) matches Some(end) && end.rax == t.eval64()->0 && end.stack == m.stack,
        t.eval64() == t.value(),
    decreases t.height(), 0nat,
{
    lemma_eval_within_is_value(t, i64::MIN as int, i64::MAX as int);
    match t {
        AstNode::Num(v) => {
            lemma_run_push(m, Seq::<Instr>::empty(), Instr::LoadImm(v));
            assert(lower(t) =~= Seq::<Instr>::empty().push(Instr::LoadImm(v)));
        },
        AstNode::Neg(a) => {
            lemma_lower_computes(*a, m);
            lemma_run_push(m, lower(*a), Instr::Neg);
        },
        AstNode::Add(a, b)
        | AstNode::Sub(a, b)
        | AstNode::Mul(a, b)
        | AstNode::Div(a, b)
        | AstNode::Eq(a, b)
        | AstNode::Ne(a, b)
        | AstNode::Lt(a, b)
        | AstNode::Le(a, b) => {
            lemma_operands_compute(*a, *b, m);
            lemma_combined_computes(t, m, operands(lower(*a), lower(*b)));
        },
    }
}

} // verus!
