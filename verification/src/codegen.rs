//! The textual backend: from the tree to assembly text for a machine with
//! an accumulator, a secondary register and a stack.

use vstd::prelude::*;
use vstd::string::*;
use crate::parser::AstNode;

verus! {

/// The character that writes the decimal digit `d`.
pub open spec fn digit_char(d: int) -> char {
    if d == 0 {
        '0'
    } else if d == 1 {
        '1'
    } else if d == 2 {
        '2'
    } else if d == 3 {
        '3'
    } else if d == 4 {
        '4'
    } else if d == 5 {
        '5'
    } else if d == 6 {
        '6'
    } else if d == 7 {
        '7'
    } else if d == 8 {
        '8'
    } else {
        '9'
    }
}

/// The decimal digits of `n`, most significant first, without leading zeros.
pub open spec fn decimal_digits(n: nat) -> Seq<char>
    decreases n,
{
    if n < 10 {
        seq![digit_char(n as int)]
    } else {
        decimal_digits(n / 10).push(digit_char((n % 10) as int))
    }
}

/// The decimal text of `v`: a minus sign for a negative number, then its digits.
pub open spec fn decimal(v: int) -> Seq<char> {
    if v < 0 {
        seq!['-'] + decimal_digits((-v) as nat)
    } else {
        decimal_digits(v as nat)
    }
}

/// The one-character text of the decimal digit `d`.
fn digit_text(d: u64) -> (text: &'static str)
    requires
        d < 10,
    ensures
        text@ == seq![digit_char(d as int)],
{
    proof {
        reveal_strlit("0");
        reveal_strlit("1");
        reveal_strlit("2");
        reveal_strlit("3");
        reveal_strlit("4");
        reveal_strlit("5");
        reveal_strlit("6");
        reveal_strlit("7");
        reveal_strlit("8");
        reveal_strlit("9");
    }
    let text = if d == 0 {
        "0"
    } else if d == 1 {
        "1"
    } else if d == 2 {
        "2"
    } else if d == 3 {
        "3"
    } else if d == 4 {
        "4"
    } else if d == 5 {
        "5"
    } else if d == 6 {
        "6"
    } else if d == 7 {
        "7"
    } else if d == 8 {
        "8"
    } else {
        "9"
    };
    assert(text@ =~= seq![digit_char(d as int)]);
    text
}

/// Appends the decimal digits of `n` to `out`.
fn append_digits(out: &mut String, n: u64)
    ensures
        final(out)@ == old(out)@ + decimal_digits(n as nat),
    decreases n,
{
    if n >= 10 {
        append_digits(out, n / 10);
    }
    out.append(digit_text(n % 10));
}

/// Appends the decimal text of `v` to `out`.
pub fn append_decimal(out: &mut String, v: i32)
    ensures
        final(out)@ == old(out)@ + decimal(v as int),
{
    if v < 0 {
        proof {
            reveal_strlit("-");
        }
        out.append("-");
        let magnitude: u64 = (-(v as i64)) as u64;
        append_digits(out, magnitude);
        assert(out@ =~= old(out)@ + decimal(v as int));
    } else {
        append_digits(out, v as u64);
    }
}

/// One instruction of the register machine that the emitted text is written for.
///
/// The machine has an accumulator (`%rax`), a secondary register (`%rdi`), a
/// register that holds the upper half of a dividend (`%rdx`) and a stack.
#[derive(Debug, Clone, Copy, PartialEq, Eq)]
pub enum Instr {
    /// Loads a constant into the accumulator.
    LoadImm(i32),
    /// Negates the accumulator.
    Neg,
    /// Pushes the accumulator onto the stack.
    Push,
    /// Pops the top of the stack into the secondary register.
    Pop,
    /// Adds the secondary register to the accumulator.
    Add,
    /// Subtracts the secondary register from the accumulator.
    Sub,
    /// Multiplies the accumulator by the secondary register.
    Mul,
    /// Sign-extends the accumulator into the double-width dividend.
    SignExtend,
    /// Divides the double-width dividend by the secondary register; the
    /// quotient lands in the accumulator.
    Div,
    /// Compares the accumulator against the secondary register.
    Compare,
    /// Sets the low byte of the accumulator to 1 if the compared values were
    /// equal, else to 0.
    SetEq,
    /// As `SetEq`, for "not equal".
    SetNe,
    /// As `SetEq`, for "less than" (signed).
    SetLt,
    /// As `SetEq`, for "less than or equal" (signed).
    SetLe,
    /// Zero-extends the low byte of the accumulator into the whole register.
    ZeroExtend,
}

impl Instr {
    /// The line of assembly text that writes this instruction.
    pub open spec fn text(self) -> Seq<char> {
        match self {
            Instr::LoadImm(v) => "  mov $"@ + decimal(v as int) + ", %rax\n"@,
            Instr::Neg => "  neg %rax\n"@,
            Instr::Push => "  push %rax\n"@,
            Instr::Pop => "  pop %rdi\n"@,
            Instr::Add => "  add %rdi, %rax\n"@,
            Instr::Sub => "  sub %rdi, %rax\n"@,
            Instr::Mul => "  imul %rdi, %rax\n"@,
            Instr::SignExtend => "  cqo\n"@,
            Instr::Div => "  idiv %rdi\n"@,
            Instr::Compare => "  cmp %rdi, %rax\n"@,
            Instr::SetEq => "  sete %al\n"@,
            Instr::SetNe => "  setne %al\n"@,
            Instr::SetLt => "  setl %al\n"@,
            Instr::SetLe => "  setle %al\n"@,
            Instr::ZeroExtend => "  movzb %al, %rax\n"@,
        }
    }
}

/// The text of a sequence of instructions: their lines, one after the other.
pub open spec fn render(code: Seq<Instr>) -> Seq<char>
    decreases code.len(),
{
    if code.len() == 0 {
        Seq::<char>::empty()
    } else {
        render(code.drop_last()) + code.last().text()
    }
}

/// The code that leaves the left operand in the accumulator and the right
/// operand in the secondary register: the right operand is computed first
/// and kept on the stack while the left one is computed.
pub open spec fn operands(lhs: Seq<Instr>, rhs: Seq<Instr>) -> Seq<Instr> {
    rhs.push(Instr::Push) + lhs.push(Instr::Pop)
}

/// The code of a node with two operands: `both`, the code that brings the
/// operands into the two registers, and then the instructions that combine
/// the registers into the accumulator.
///
/// A division sign-extends the accumulator into the double-width dividend
/// first. A comparison sets the low byte of the accumulator by the flag
/// that stands for its predicate, and zero-extends that byte.
pub open spec fn combined(t: AstNode, both: Seq<Instr>) -> Seq<Instr> {
    match t {
        AstNode::Add(_, _) => both.push(Instr::Add),
        AstNode::Sub(_, _) => both.push(Instr::Sub),
        AstNode::Mul(_, _) => both.push(Instr::Mul),
        AstNode::Div(_, _) => both.push(Instr::SignExtend).push(Instr::Div),
        AstNode::Eq(_, _) => both.push(Instr::Compare).push(Instr::SetEq).push(Instr::ZeroExtend),
        AstNode::Ne(_, _) => both.push(Instr::Compare).push(Instr::SetNe).push(Instr::ZeroExtend),
        AstNode::Lt(_, _) => both.push(Instr::Compare).push(Instr::SetLt).push(Instr::ZeroExtend),
        AstNode::Le(_, _) => both.push(Instr::Compare).push(Instr::SetLe).push(Instr::ZeroExtend),
        _ => both,
    }
}

/// The instructions that compute the value of an expression tree into the
/// accumulator.
pub open spec fn lower(t: AstNode) -> Seq<Instr>
    decreases t,
{
    match t {
        AstNode::Num(v) => seq![Instr::LoadImm(v)],
        AstNode::Neg(a) => lower(*a).push(Instr::Neg),
        AstNode::Add(a, b)
        | AstNode::Sub(a, b)
        | AstNode::Mul(a, b)
        | AstNode::Div(a, b)
        | AstNode::Eq(a, b)
        | AstNode::Ne(a, b)
        | AstNode::Lt(a, b)
        | AstNode::Le(a, b) => combined(t, operands(lower(*a), lower(*b))),
    }
}

/// The whole assembly text for an expression tree: the declaration of the
/// entry point, its label, the instructions and the return.
pub open spec fn program_text(t: AstNode) -> Seq<char> {
    "  .global main\n"@ + "main:\n"@ + render(lower(t)) + "  ret\n"@
}

/// The text of an instruction sequence extended by one instruction.
pub proof fn lemma_render_push(code: Seq<Instr>, instr: Instr)
    ensures
        render(code.push(instr)) == render(code) + instr.text(),
{
    assert(code.push(instr).drop_last() =~= code);
}

/// The text of two instruction sequences, one after the other.
pub proof fn lemma_render_concat(a: Seq<Instr>, b: Seq<Instr>)
    ensures
        render(a + b) == render(a) + render(b),
    decreases b.len(),
{
    if b.len() == 0 {
        assert(a + b =~= a);
        assert(render(a) + render(b) =~= render(a));
    } else {
        lemma_render_concat(a, b.drop_last());
        assert((a + b).drop_last() =~= a + b.drop_last());
        assert(render(a + b) =~= render(a) + render(b));
    }
}

/// The depth of the stack after `code`, started at the depth `depth`:
/// each push adds one and each pop takes one away. `None` where a pop finds
/// the stack empty.
pub open spec fn depth_after(depth: nat, code: Seq<Instr>) -> Option<nat>
    decreases code.len(),
{
    if code.len() == 0 {
        Some(depth)
    } else {
        match depth_after(depth, code.drop_last()) {
            Some(before) => match code.last() {
                Instr::Push => Some(before + 1),
                Instr::Pop => if before > 0 {
                    Some((before - 1) as nat)
                } else {
                    None
                },
                _ => Some(before),
            },
            None => None,
        }
    }
}

/// The depth after two instruction sequences, one after the other.
pub proof fn lemma_depth_concat(depth: nat, a: Seq<Instr>, b: Seq<Instr>)
    ensures
        depth_after(depth, a + b) == match depth_after(depth, a) {
            Some(between) => depth_after(between, b),
            None => None,
        },
    decreases b.len(),
{
    if b.len() == 0 {
        assert(a + b =~= a);
    } else {
        lemma_depth_concat(depth, a, b.drop_last());
        assert((a + b).drop_last() =~= a + b.drop_last());
    }
}

/// The depth after an instruction sequence and one more instruction that
/// neither pushes nor pops.
proof fn lemma_depth_push(depth: nat, code: Seq<Instr>, instr: Instr)
    requires
        instr != Instr::Push,
        instr != Instr::Pop,
    ensures
        depth_after(depth, code.push(instr)) == depth_after(depth, code),
{
    assert(code.push(instr).drop_last() =~= code);
}

/// The code of an expression tree is balanced: started at any depth, no
/// pop finds the stack empty, and the stack is as deep afterwards as it was
/// before.
pub proof fn lemma_lower_balanced(t: AstNode, depth: nat)
    ensures
        depth_after(depth, lower(t)) == Some(depth),
    decreases t,
{
    match t {
        AstNode::Num(v) => {
            lemma_depth_push(depth, Seq::empty(), Instr::LoadImm(v));
            assert(lower(t) =~= Seq::<Instr>::empty().push(Instr::LoadImm(v)));
        },
        AstNode::Neg(a) => {
            lemma_lower_balanced(*a, depth);
            lemma_depth_push(depth, lower(*a), Instr::Neg);
        },
        AstNode::Add(a, b)
        | AstNode::Sub(a, b)
        | AstNode::Mul(a, b)
        | AstNode::Div(a, b)
        | AstNode::Eq(a, b)
        | AstNode::Ne(a, b)
        | AstNode::Lt(a, b)
        | AstNode::Le(a, b) => {
            lemma_lower_balanced(*b, depth);
            lemma_lower_balanced(*a, depth + 1);
            let right = lower(*b).push(Instr::Push);
            let left = lower(*a).push(Instr::Pop);
            assert(right.drop_last() =~= lower(*b));
            assert(left.drop_last() =~= lower(*a));
            lemma_depth_concat(depth, right, left);
            let both = operands(lower(*a), lower(*b));
            lemma_combined_balanced(t, depth, both);
        },
    }
}

/// The instructions that combine the two registers neither push nor pop.
proof fn lemma_combined_balanced(t: AstNode, depth: nat, both: Seq<Instr>)
    ensures
        depth_after(depth, combined(t, both)) == depth_after(depth, both),
{
    match t {
        AstNode::Add(_, _) => lemma_depth_push(depth, both, Instr::Add),
        AstNode::Sub(_, _) => lemma_depth_push(depth, both, Instr::Sub),
        AstNode::Mul(_, _) => lemma_depth_push(depth, both, Instr::Mul),
        AstNode::Div(_, _) => {
            lemma_depth_push(depth, both, Instr::SignExtend);
            lemma_depth_push(depth, both.push(Instr::SignExtend), Instr::Div);
        },
        AstNode::Eq(_, _) => lemma_set_balanced(depth, both, Instr::SetEq),
        AstNode::Ne(_, _) => lemma_set_balanced(depth, both, Instr::SetNe),
        AstNode::Lt(_, _) => lemma_set_balanced(depth, both, Instr::SetLt),
        AstNode::Le(_, _) => lemma_set_balanced(depth, both, Instr::SetLe),
        _ => {},
    }
}

/// A comparison, a `set` instruction and the zero extension neither push
/// nor pop.
proof fn lemma_set_balanced(depth: nat, both: Seq<Instr>, set: Instr)
    requires
        set != Instr::Push,
        set != Instr::Pop,
    ensures
        depth_after(depth, both.push(Instr::Compare).push(set).push(Instr::ZeroExtend))
            == depth_after(depth, both),
{
    lemma_depth_push(depth, both, Instr::Compare);
    lemma_depth_push(depth, both.push(Instr::Compare), set);
    lemma_depth_push(depth, both.push(Instr::Compare).push(set), Instr::ZeroExtend);
}

/// The state of the textual emitter: the text written so far and the depth
/// of the simulated operand stack.
pub struct CodeGen {
    out: String,
    depth: usize,
}

impl CodeGen {
    /// The text written so far.
    pub closed spec fn text(&self) -> Seq<char> {
        self.out@
    }

    /// The number of pushes that no pop has matched yet.
    pub closed spec fn pending(&self) -> nat {
        self.depth as nat
    }

    /// An emitter that has written nothing.
    pub fn new() -> (state: Self)
        ensures
            state.text() == Seq::<char>::empty(),
            state.pending() == 0,
    {
        Self { out: String::new(), depth: 0 }
    }

    /// The depth of the simulated operand stack.
    pub fn depth(&self) -> (depth: usize)
        ensures
            depth == self.pending(),
    {
        self.depth
    }

    /// Writes `line` as it stands.
    fn emit(&mut self, line: &str)
        ensures
            final(self).text() == old(self).text() + line@,
            final(self).pending() == old(self).pending(),
    {
        self.out.append(line);
    }

    /// Writes the line of one instruction.
    fn instruction(&mut self, instr: Instr)
        ensures
            final(self).text() == old(self).text() + instr.text(),
            final(self).pending() == old(self).pending(),
    {
        match instr {
            Instr::LoadImm(v) => {
                self.emit("  mov $");
                append_decimal(&mut self.out, v);
                self.emit(", %rax\n");
                assert(self.out@ =~= old(self).out@ + instr.text());
            },
            Instr::Neg => self.emit("  neg %rax\n"),
            Instr::Push => self.emit("  push %rax\n"),
            Instr::Pop => self.emit("  pop %rdi\n"),
            Instr::Add => self.emit("  add %rdi, %rax\n"),
            Instr::Sub => self.emit("  sub %rdi, %rax\n"),
            Instr::Mul => self.emit("  imul %rdi, %rax\n"),
            Instr::SignExtend => self.emit("  cqo\n"),
            Instr::Div => self.emit("  idiv %rdi\n"),
            Instr::Compare => self.emit("  cmp %rdi, %rax\n"),
            Instr::SetEq => self.emit("  sete %al\n"),
            Instr::SetNe => self.emit("  setne %al\n"),
            Instr::SetLt => self.emit("  setl %al\n"),
            Instr::SetLe => self.emit("  setle %al\n"),
            Instr::ZeroExtend => self.emit("  movzb %al, %rax\n"),
        }
    }

    /// Writes a push of the accumulator and counts it.
    fn push(&mut self)
        requires
            old(self).pending() < usize::MAX,
        ensures
            final(self).text() == old(self).text() + Instr::Push.text(),
            final(self).pending() == old(self).pending() + 1,
    {
        self.instruction(Instr::Push);
        self.depth += 1;
    }

    /// Writes a pop into the secondary register and counts it.
    fn pop(&mut self)
        requires
            old(self).pending() > 0,
        ensures
            final(self).text() == old(self).text() + Instr::Pop.text(),
            final(self).pending() == old(self).pending() - 1,
    {
        self.instruction(Instr::Pop);
        self.depth -= 1;
    }

    /// Writes the code that computes both operands of a binary node.
    fn gen_binary(&mut self, lhs: &AstNode, rhs: &AstNode)
        requires
            old(self).pending() + lhs.height() < usize::MAX,
            old(self).pending() + rhs.height() < usize::MAX,
        ensures
            final(self).text() == old(self).text() + render(operands(lower(*lhs), lower(*rhs))),
            final(self).pending() == old(self).pending(),
        decreases
            if lhs.height() >= rhs.height() {
                lhs.height()
            } else {
                rhs.height()
            },
            1nat,
    {
        self.gen_expr(rhs);
        self.push();
        self.gen_expr(lhs);
        self.pop();
        proof {
            lemma_render_push(lower(*rhs), Instr::Push);
            lemma_render_push(lower(*lhs), Instr::Pop);
            lemma_render_concat(lower(*rhs).push(Instr::Push), lower(*lhs).push(Instr::Pop));
            assert(self.text() =~= old(self).text() + render(
                operands(lower(*lhs), lower(*rhs)),
            ));
        }
    }

    /// Writes the code that computes the value of `node` into the accumulator.
    ///
    /// Every push that the code makes is matched by a pop: the simulated
    /// stack is as deep afterwards as it was before.
    pub fn gen_expr(&mut self, node: &AstNode)
        requires
            old(self).pending() + node.height() <= usize::MAX,
        ensures
            final(self).text() == old(self).text() + render(lower(*node)),
            final(self).pending() == old(self).pending(),
        decreases node.height(), 0nat,
    {
        match node {
            AstNode::Num(v) => {
                self.instruction(Instr::LoadImm(*v));
                proof {
                    lemma_render_push(Seq::<Instr>::empty(), Instr::LoadImm(*v));
                    assert(lower(*node) =~= Seq::<Instr>::empty().push(Instr::LoadImm(*v)));
                    assert(self.text() =~= old(self).text() + render(lower(*node)));
                }
            },
            AstNode::Neg(a) => {
                self.gen_expr(a);
                self.instruction(Instr::Neg);
                proof {
                    lemma_render_push(lower(**a), Instr::Neg);
                    assert(self.text() =~= old(self).text() + render(lower(*node)));
                }
            },
            AstNode::Add(a, b) => {
                self.gen_binary(a, b);
                self.instruction(Instr::Add);
                proof {
                    lemma_render_push(operands(lower(**a), lower(**b)), Instr::Add);
                    assert(self.text() =~= old(self).text() + render(lower(*node)));
                }
            },
            AstNode::Sub(a, b) => {
                self.gen_binary(a, b);
                self.instruction(Instr::Sub);
                proof {
                    lemma_render_push(operands(lower(**a), lower(**b)), Instr::Sub);
                    assert(self.text() =~= old(self).text() + render(lower(*node)));
                }
            },
            AstNode::Mul(a, b) => {
                self.gen_binary(a, b);
                self.instruction(Instr::Mul);
                proof {
                    lemma_render_push(operands(lower(**a), lower(**b)), Instr::Mul);
                    assert(self.text() =~= old(self).text() + render(lower(*node)));
                }
            },
            AstNode::Div(a, b) => {
                self.gen_binary(a, b);
                self.instruction(Instr::SignExtend);
                self.instruction(Instr::Div);
                proof {
                    let both = operands(lower(**a), lower(**b));
                    lemma_render_push(both, Instr::SignExtend);
                    lemma_render_push(both.push(Instr::SignExtend), Instr::Div);
                    assert(self.text() =~= old(self).text() + render(lower(*node)));
                }
            },
            AstNode::Eq(a, b) => {
                self.gen_binary(a, b);
                self.instruction(Instr::Compare);
                self.instruction(Instr::SetEq);
                self.instruction(Instr::ZeroExtend);
                proof {
                    let both = operands(lower(**a), lower(**b));
                    lemma_render_push(both, Instr::Compare);
                    lemma_render_push(both.push(Instr::Compare), Instr::SetEq);
                    lemma_render_push(
                        both.push(Instr::Compare).push(Instr::SetEq),
                        Instr::ZeroExtend,
                    );
                    assert(self.text() =~= old(self).text() + render(lower(*node)));
                }
            },
            AstNode::Ne(a, b) => {
                self.gen_binary(a, b);
                self.instruction(Instr::Compare);
                self.instruction(Instr::SetNe);
                self.instruction(Instr::ZeroExtend);
                proof {
                    let both = operands(lower(**a), lower(**b));
                    lemma_render_push(both, Instr::Compare);
                    lemma_render_push(both.push(Instr::Compare), Instr::SetNe);
                    lemma_render_push(
                        both.push(Instr::Compare).push(Instr::SetNe),
                        Instr::ZeroExtend,
                    );
                    assert(self.text() =~= old(self).text() + render(lower(*node)));
                }
            },
            AstNode::Lt(a, b) => {
                self.gen_binary(a, b);
                self.instruction(Instr::Compare);
                self.instruction(Instr::SetLt);
                self.instruction(Instr::ZeroExtend);
                proof {
                    let both = operands(lower(**a), lower(**b));
                    lemma_render_push(both, Instr::Compare);
                    lemma_render_push(both.push(Instr::Compare), Instr::SetLt);
                    lemma_render_push(
                        both.push(Instr::Compare).push(Instr::SetLt),
                        Instr::ZeroExtend,
                    );
                    assert(self.text() =~= old(self).text() + render(lower(*node)));
                }
            },
            AstNode::Le(a, b) => {
                self.gen_binary(a, b);
                self.instruction(Instr::Compare);
                self.instruction(Instr::SetLe);
                self.instruction(Instr::ZeroExtend);
                proof {
                    let both = operands(lower(**a), lower(**b));
                    lemma_render_push(both, Instr::Compare);
                    lemma_render_push(both.push(Instr::Compare), Instr::SetLe);
                    lemma_render_push(
                        both.push(Instr::Compare).push(Instr::SetLe),
                        Instr::ZeroExtend,
                    );
                    assert(self.text() =~= old(self).text() + render(lower(*node)));
                }
            },
        }
    }

    /// Hands out the text, once every push has been matched by a pop.
    pub fn gen(self) -> (text: String)
        requires
            self.pending() == 0,
        ensures
            text@ == self.text(),
    {
        self.out
    }
}

/// Lowers an expression tree to the assembly text of a program whose entry
/// point computes the tree's value into the accumulator and returns.
///
/// The bound on the height is one that no tree in memory exceeds; the
/// parser's trees are known to meet it.
pub fn codegen(node: &AstNode) -> (text: String)
    requires
        node.height() <= usize::MAX,
    ensures
        text@ == program_text(*node),
{
    let mut state = CodeGen::new();
    state.emit("  .global main\n");
    state.emit("main:\n");
    state.gen_expr(node);
    state.emit("  ret\n");
    assert(state.text() =~= program_text(*node));
    state.gen()
}

} // verus!
