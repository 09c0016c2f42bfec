//! The grammar as a relation between token sequences and trees, and the
//! proof that the parser decides it.

use vstd::prelude::*;
use crate::parser::{
    combine, fold, left, lemma_binary_bounds, lemma_operand_bounds, lemma_primary_bounds,
    lemma_unary_bounds, operator_at, parse_binary, parse_operand, parse_primary, parse_tokens,
    parse_unary, punct_at, AstNode, BinaryOp, Level, Parsed, SyntaxError,
};
use crate::tokenize::{Lexeme, TokenKind};

verus! {

/// A nonterminal of the grammar.
pub enum Form {
    /// `operand (op operand)*`, for the operators of a level.
    Chain(Level),
    /// `("+" | "-") unary | primary`
    Unary,
    /// `"(" expr ")" | literal`
    Primary,
}

impl Form {
    /// How far the nonterminal stands from `primary` in the grammar.
    pub open spec fn rank(self) -> nat {
        match self {
            Form::Primary => 1,
            Form::Unary => 2,
            Form::Chain(level) => 2 + level.rank(),
        }
    }
}

/// The nonterminal of the operands of a level's operators: the next
/// tighter level.
pub open spec fn operand_form(level: Level) -> Form {
    match level {
        Level::Equality => Form::Chain(Level::Relational),
        Level::Relational => Form::Chain(Level::Additive),
        Level::Additive => Form::Chain(Level::Multiplicative),
        Level::Multiplicative => Form::Unary,
    }
}

/// The two operands of a binary operator.
pub struct Operands {
    pub lhs: AstNode,
    pub rhs: AstNode,
}

/// The operands for which `lhs op rhs` stands for the tree `t`, if there
/// are any.
pub open spec fn uncombine(op: BinaryOp, t: AstNode) -> Option<Operands> {
    match t {
        AstNode::Eq(a, b) => if op == BinaryOp::Eq {
            Some(Operands { lhs: *a, rhs: *b })
        } else {
            None
        },
        AstNode::Ne(a, b) => if op == BinaryOp::Ne {
            Some(Operands { lhs: *a, rhs: *b })
        } else {
            None
        },
        AstNode::Lt(a, b) => if op == BinaryOp::Lt {
            Some(Operands { lhs: *a, rhs: *b })
        } else if op == BinaryOp::Gt {
            Some(Operands { lhs: *b, rhs: *a })
        } else {
            None
        },
        AstNode::Le(a, b) => if op == BinaryOp::Le {
            Some(Operands { lhs: *a, rhs: *b })
        } else if op == BinaryOp::Ge {
            Some(Operands { lhs: *b, rhs: *a })
        } else {
            None
        },
        AstNode::Add(a, b) => if op == BinaryOp::Add {
            Some(Operands { lhs: *a, rhs: *b })
        } else {
            None
        },
        AstNode::Sub(a, b) => if op == BinaryOp::Sub {
            Some(Operands { lhs: *a, rhs: *b })
        } else {
            None
        },
        AstNode::Mul(a, b) => if op == BinaryOp::Mul {
            Some(Operands { lhs: *a, rhs: *b })
        } else {
            None
        },
        AstNode::Div(a, b) => if op == BinaryOp::Div {
            Some(Operands { lhs: *a, rhs: *b })
        } else {
            None
        },
        _ => None,
    }
}

/// Whether the token sequence `ts` is a sentence of the nonterminal `form`
/// that stands for the tree `t`.
///
/// A chain is either one operand, or a shorter chain, an operator of the
/// level and one more operand: the operators associate to the left.
pub open spec fn derives(form: Form, ts: Seq<Lexeme>, t: AstNode) -> bool
    decreases ts.len(), form.rank(),
{
    match form {
        Form::Primary => {
            ||| ts.len() == 1 && ts[0].kind is Num && t == AstNode::Num(ts[0].kind->Num_0)
            ||| ts.len() >= 2 && punct_at(ts, 0, "("@) && punct_at(ts, ts.len() - 1, ")"@)
                && derives(Form::Chain(Level::Equality), ts.subrange(1, ts.len() - 1), t)
        },
        Form::Unary => {
            ||| derives(Form::Primary, ts, t)
            ||| punct_at(ts, 0, "+"@) && derives(Form::Unary, ts.skip(1), t)
            ||| punct_at(ts, 0, "-"@) && t is Neg && derives(Form::Unary, ts.skip(1), *t->Neg_0)
        },
        Form::Chain(level) => {
            ||| derives(operand_form(level), ts, t)
            ||| exists|k: int|
                {
                    &&& 0 < k < ts.len() - 1
                    &&& (#[trigger] operator_at(level, ts, k)) is Some
                    &&& uncombine(operator_at(level, ts, k)->0, t) is Some
                    &&& derives(
                        Form::Chain(level),
                        ts.take(k),
                        uncombine(operator_at(level, ts, k)->0, t)->0.lhs,
                    )
                    &&& derives(
                        operand_form(level),
                        ts.skip(k + 1),
                        uncombine(operator_at(level, ts, k)->0, t)->0.rhs,
                    )
                }
        },
    }
}

/// Whether the token at `k` is an operator of the level that splits `ts`
/// into a chain before it and an operand after it, which together stand
/// for the tree `t`.
pub open spec fn splits(level: Level, ts: Seq<Lexeme>, t: AstNode, k: int) -> bool {
    &&& 0 < k < ts.len() - 1
    &&& operator_at(level, ts, k) is Some
    &&& uncombine(operator_at(level, ts, k)->0, t) is Some
    &&& derives(Form::Chain(level), ts.take(k), uncombine(operator_at(level, ts, k)->0, t)->0.lhs)
    &&& derives(
        operand_form(level),
        ts.skip(k + 1),
        uncombine(operator_at(level, ts, k)->0, t)->0.rhs,
    )
}

/// A chain is one operand, or splits at one of its operators.
pub proof fn lemma_chain(level: Level, ts: Seq<Lexeme>, t: AstNode)
    ensures
        derives(Form::Chain(level), ts, t) <==> derives(operand_form(level), ts, t) || exists|
            k: int,
        | #[trigger] splits(level, ts, t, k),
{
    if derives(Form::Chain(level), ts, t) && !derives(operand_form(level), ts, t) {
        let k = choose|k: int|
            {
                &&& 0 < k < ts.len() - 1
                &&& (#[trigger] operator_at(level, ts, k)) is Some
                &&& uncombine(operator_at(level, ts, k)->0, t) is Some
                &&& derives(
                    Form::Chain(level),
                    ts.take(k),
                    uncombine(operator_at(level, ts, k)->0, t)->0.lhs,
                )
                &&& derives(
                    operand_form(level),
                    ts.skip(k + 1),
                    uncombine(operator_at(level, ts, k)->0, t)->0.rhs,
                )
            };
        assert(splits(level, ts, t, k));
    }
    if exists|k: int| #[trigger] splits(level, ts, t, k) {
        let k = choose|k: int| #[trigger] splits(level, ts, t, k);
        assert(operator_at(level, ts, k) is Some);
    }
}

/// An expression: the start symbol of the grammar.
pub open spec fn is_expr(ts: Seq<Lexeme>, t: AstNode) -> bool {
    derives(Form::Chain(Level::Equality), ts, t)
}

/// A tree is what its operands combine to.
pub proof fn lemma_uncombine(op: BinaryOp, t: AstNode)
    ensures
        uncombine(op, t) matches Some(pair) ==> t == combine(op, pair.lhs, pair.rhs),
{
}

/// The operands of a combined tree are the ones it was combined from.
pub proof fn lemma_combine(op: BinaryOp, lhs: AstNode, rhs: AstNode)
    ensures
        uncombine(op, combine(op, lhs, rhs)) == Some((Operands { lhs, rhs })),
{
}

/// A sentence holds at least one token.
pub proof fn lemma_derives_nonempty(form: Form, ts: Seq<Lexeme>, t: AstNode)
    requires
        derives(form, ts, t),
    ensures
        ts.len() >= 1,
    decreases ts.len(), form.rank(),
{
    match form {
        Form::Primary => {},
        Form::Unary => {
            if derives(Form::Primary, ts, t) {
                lemma_derives_nonempty(Form::Primary, ts, t);
            }
        },
        Form::Chain(level) => {
            if derives(operand_form(level), ts, t) {
                lemma_derives_nonempty(operand_form(level), ts, t);
            } else {
                lemma_chain(level, ts, t);
                let k = choose|k: int| #[trigger] splits(level, ts, t, k);
                assert(splits(level, ts, t, k));
            }
        },
    }
}

/// What is true of a token of a part of a sequence is true of the token of
/// the sequence that it is.
proof fn lemma_window(all: Seq<Lexeme>, pos: int, end: int, i: int)
    requires
        0 <= pos <= end <= all.len(),
        0 <= i < end - pos,
    ensures
        all.subrange(pos, end)[i] == all[pos + i],
        forall|text: Seq<char>| #[trigger]
            punct_at(all.subrange(pos, end), i, text) == punct_at(all, pos + i, text),
        forall|level: Level| #[trigger]
            operator_at(level, all.subrange(pos, end), i) == operator_at(level, all, pos + i),
{
}

/// What `parse_primary` accepts is a sentence of `primary` and stands for
/// the tree that it gives.
proof fn lemma_sound_primary(all: Seq<Lexeme>, pos: int)
    requires
        0 <= pos,
        parse_primary(all, pos) is Ok,
    ensures
        derives(
            Form::Primary,
            all.subrange(pos, parse_primary(all, pos)->Ok_0.next),
            parse_primary(all, pos)->Ok_0.node,
        ),
    decreases left(all, pos), 1nat,
{
    lemma_primary_bounds(all, pos);
    let parsed = parse_primary(all, pos)->Ok_0;
    let part = all.subrange(pos, parsed.next);
    if punct_at(all, pos, "("@) {
        lemma_binary_bounds(Level::Equality, all, pos + 1);
        lemma_sound_binary(Level::Equality, all, pos + 1);
        let inner = parse_binary(Level::Equality, all, pos + 1)->Ok_0;
        lemma_window(all, pos, parsed.next, 0);
        lemma_window(all, pos, parsed.next, part.len() - 1);
        assert(part.subrange(1, part.len() - 1) =~= all.subrange(pos + 1, inner.next));
    } else {
        lemma_window(all, pos, parsed.next, 0);
    }
}

/// What `parse_unary` accepts is a sentence of `unary` and stands for the
/// tree that it gives.
proof fn lemma_sound_unary(all: Seq<Lexeme>, pos: int)
    requires
        0 <= pos,
        parse_unary(all, pos) is Ok,
    ensures
        derives(
            Form::Unary,
            all.subrange(pos, parse_unary(all, pos)->Ok_0.next),
            parse_unary(all, pos)->Ok_0.node,
        ),
    decreases left(all, pos), 2nat,
{
    lemma_unary_bounds(all, pos);
    let parsed = parse_unary(all, pos)->Ok_0;
    let part = all.subrange(pos, parsed.next);
    if punct_at(all, pos, "+"@) || punct_at(all, pos, "-"@) {
        lemma_unary_bounds(all, pos + 1);
        lemma_sound_unary(all, pos + 1);
        lemma_window(all, pos, parsed.next, 0);
        assert(part.skip(1) =~= all.subrange(pos + 1, parsed.next));
    } else {
        lemma_sound_primary(all, pos);
    }
}

/// What `parse_operand` accepts is a sentence of the level's operands and
/// stands for the tree that it gives.
proof fn lemma_sound_operand(level: Level, all: Seq<Lexeme>, pos: int)
    requires
        0 <= pos,
        parse_operand(level, all, pos) is Ok,
    ensures
        derives(
            operand_form(level),
            all.subrange(pos, parse_operand(level, all, pos)->Ok_0.next),
            parse_operand(level, all, pos)->Ok_0.node,
        ),
    decreases left(all, pos), 2 * level.rank() + 1,
{
    match level {
        Level::Equality => lemma_sound_binary(Level::Relational, all, pos),
        Level::Relational => lemma_sound_binary(Level::Additive, all, pos),
        Level::Additive => lemma_sound_binary(Level::Multiplicative, all, pos),
        Level::Multiplicative => lemma_sound_unary(all, pos),
    }
}

/// What `parse_binary` accepts is a chain of the level and stands for the
/// tree that it gives.
proof fn lemma_sound_binary(level: Level, all: Seq<Lexeme>, pos: int)
    requires
        0 <= pos,
        parse_binary(level, all, pos) is Ok,
    ensures
        derives(
            Form::Chain(level),
            all.subrange(pos, parse_binary(level, all, pos)->Ok_0.next),
            parse_binary(level, all, pos)->Ok_0.node,
        ),
    decreases left(all, pos), 2 * level.rank() + 2,
{
    lemma_operand_bounds(level, all, pos);
    lemma_sound_operand(level, all, pos);
    let first = parse_operand(level, all, pos)->Ok_0;
    lemma_sound_fold(level, all, first.next, first.node, pos);
}

/// What `fold` accepts after a chain of the level is, with that chain, a
/// chain of the level and stands for the tree that `fold` gives.
proof fn lemma_sound_fold(level: Level, all: Seq<Lexeme>, pos: int, acc: AstNode, start: int)
    requires
        0 <= start < pos <= all.len(),
        derives(Form::Chain(level), all.subrange(start, pos), acc),
        fold(level, all, pos, acc) is Ok,
    ensures
        start < fold(level, all, pos, acc)->Ok_0.next <= all.len(),
        derives(
            Form::Chain(level),
            all.subrange(start, fold(level, all, pos, acc)->Ok_0.next),
            fold(level, all, pos, acc)->Ok_0.node,
        ),
    decreases left(all, pos), 0nat,
{
    if let Some(op) = operator_at(level, all, pos) {
        lemma_operand_bounds(level, all, pos + 1);
        lemma_sound_operand(level, all, pos + 1);
        let operand = parse_operand(level, all, pos + 1)->Ok_0;
        let longer = all.subrange(start, operand.next);
        let whole = combine(op, acc, operand.node);
        let k = pos - start;
        lemma_window(all, start, operand.next, k);
        lemma_combine(op, acc, operand.node);
        assert(longer.take(k) =~= all.subrange(start, pos));
        assert(longer.skip(k + 1) =~= all.subrange(pos + 1, operand.next));
        assert(splits(level, longer, whole, k));
        lemma_chain(level, longer, whole);
        lemma_sound_fold(level, all, operand.next, whole, start);
    }
}

/// The parser accepts sentences only: the tree that it gives for a token
/// sequence is one that the sequence stands for as an expression.
pub proof fn lemma_parse_sound(ts: Seq<Lexeme>, t: AstNode)
    requires
        parse_tokens(ts) == Ok::<AstNode, SyntaxError>(t),
    ensures
        is_expr(ts, t),
{
    lemma_binary_bounds(Level::Equality, ts, 0);
    lemma_sound_binary(Level::Equality, ts, 0);
    assert(ts.subrange(0, ts.len() as int) =~= ts);
}

/// Whether no operator that binds tighter than those of `level` stands at
/// `end`: a chain of the level that ends there is not cut short.
pub open spec fn closed_at(level: Level, all: Seq<Lexeme>, end: int) -> bool {
    match level {
        Level::Multiplicative => true,
        Level::Additive => operator_at(Level::Multiplicative, all, end) is None,
        Level::Relational => {
            &&& operator_at(Level::Multiplicative, all, end) is None
            &&& operator_at(Level::Additive, all, end) is None
        },
        Level::Equality => {
            &&& operator_at(Level::Multiplicative, all, end) is None
            &&& operator_at(Level::Additive, all, end) is None
            &&& operator_at(Level::Relational, all, end) is None
        },
    }
}

/// No two of the punctuation marks of the grammar are written alike: a
/// token is an operator of one level at most, a parenthesis is no operator,
/// and an opening parenthesis is no sign.
proof fn lemma_marks_differ(ts: Seq<Lexeme>, k: int)
    ensures
        forall|a: Level, b: Level|
            a != b && (#[trigger] operator_at(a, ts, k)) is Some ==> (#[trigger] operator_at(
                b,
                ts,
                k,
            )) is None,
        punct_at(ts, k, ")"@) ==> forall|a: Level| (#[trigger] operator_at(a, ts, k)) is None,
        punct_at(ts, k, "("@) ==> !punct_at(ts, k, "+"@) && !punct_at(ts, k, "-"@),
        punct_at(ts, k, "-"@) ==> !punct_at(ts, k, "+"@),
{
    reveal_strlit("==");
    reveal_strlit("!=");
    reveal_strlit("<");
    reveal_strlit("<=");
    reveal_strlit(">");
    reveal_strlit(">=");
    reveal_strlit("+");
    reveal_strlit("-");
    reveal_strlit("*");
    reveal_strlit("/");
    reveal_strlit("(");
    reveal_strlit(")");
    if 0 <= k < ts.len() {
        let text = ts[k].text;
        assert(text == "=="@ ==> text.len() == 2 && text[0] == '=');
        assert(text == "!="@ ==> text.len() == 2 && text[0] == '!');
        assert(text == "<="@ ==> text.len() == 2 && text[0] == '<');
        assert(text == ">="@ ==> text.len() == 2 && text[0] == '>');
        assert(text == "<"@ ==> text.len() == 1 && text[0] == '<');
        assert(text == ">"@ ==> text.len() == 1 && text[0] == '>');
        assert(text == "+"@ ==> text.len() == 1 && text[0] == '+');
        assert(text == "-"@ ==> text.len() == 1 && text[0] == '-');
        assert(text == "*"@ ==> text.len() == 1 && text[0] == '*');
        assert(text == "/"@ ==> text.len() == 1 && text[0] == '/');
        assert(text == "("@ ==> text.len() == 1 && text[0] == '(');
        assert(text == ")"@ ==> text.len() == 1 && text[0] == ')');
    }
}

/// A sentence of `primary` is what `parse_primary` accepts, with its tree.
proof fn lemma_complete_primary(all: Seq<Lexeme>, pos: int, end: int, t: AstNode)
    requires
        0 <= pos <= end <= all.len(),
        derives(Form::Primary, all.subrange(pos, end), t),
    ensures
        parse_primary(all, pos) == Ok::<Parsed, SyntaxError>(Parsed { node: t, next: end }),
    decreases end - pos, 2nat,
{
    let part = all.subrange(pos, end);
    lemma_window(all, pos, end, 0);
    if part.len() == 1 && part[0].kind is Num {
    } else {
        lemma_window(all, pos, end, part.len() - 1);
        lemma_marks_differ(all, end - 1);
        assert(part.subrange(1, part.len() - 1) =~= all.subrange(pos + 1, end - 1));
        lemma_complete_chain(Level::Equality, all, pos + 1, end - 1, t);
    }
}

/// A sentence of `unary` is what `parse_unary` accepts, with its tree.
proof fn lemma_complete_unary(all: Seq<Lexeme>, pos: int, end: int, t: AstNode)
    requires
        0 <= pos <= end <= all.len(),
        derives(Form::Unary, all.subrange(pos, end), t),
    ensures
        parse_unary(all, pos) == Ok::<Parsed, SyntaxError>(Parsed { node: t, next: end }),
    decreases end - pos, 4nat,
{
    let part = all.subrange(pos, end);
    lemma_marks_differ(all, pos);
    if derives(Form::Primary, part, t) {
        lemma_window(all, pos, end, 0);
        lemma_complete_primary(all, pos, end, t);
    } else {
        lemma_window(all, pos, end, 0);
        assert(part.skip(1) =~= all.subrange(pos + 1, end));
        if punct_at(part, 0, "+"@) && derives(Form::Unary, part.skip(1), t) {
            lemma_complete_unary(all, pos + 1, end, t);
        } else {
            lemma_complete_unary(all, pos + 1, end, *t->Neg_0);
        }
    }
}

/// A sentence of a level's operands, where no tighter operator follows it,
/// is what `parse_operand` accepts, with its tree.
proof fn lemma_complete_operand(level: Level, all: Seq<Lexeme>, pos: int, end: int, t: AstNode)
    requires
        0 <= pos <= end <= all.len(),
        derives(operand_form(level), all.subrange(pos, end), t),
        closed_at(level, all, end),
    ensures
        parse_operand(level, all, pos) == Ok::<Parsed, SyntaxError>(Parsed { node: t, next: end }),
    decreases end - pos, 2 * (2 + level.rank()) - 1,
{
    match level {
        Level::Equality => lemma_complete_chain(Level::Relational, all, pos, end, t),
        Level::Relational => lemma_complete_chain(Level::Additive, all, pos, end, t),
        Level::Additive => lemma_complete_chain(Level::Multiplicative, all, pos, end, t),
        Level::Multiplicative => lemma_complete_unary(all, pos, end, t),
    }
}

/// For a chain of a level, where no tighter operator follows it, what
/// `parse_binary` does from its start on is what `fold` does from its end
/// on with the tree of the chain.
proof fn lemma_complete_chain(level: Level, all: Seq<Lexeme>, pos: int, end: int, t: AstNode)
    requires
        0 <= pos <= end <= all.len(),
        derives(Form::Chain(level), all.subrange(pos, end), t),
        closed_at(level, all, end),
    ensures
        parse_binary(level, all, pos) == fold(level, all, end, t),
        pos < end,
    decreases end - pos, 2 * (2 + level.rank()),
{
    let part = all.subrange(pos, end);
    lemma_chain(level, part, t);
    lemma_derives_nonempty(Form::Chain(level), part, t);
    if derives(operand_form(level), part, t) {
        lemma_complete_operand(level, all, pos, end, t);
    } else {
        let k = choose|k: int| #[trigger] splits(level, part, t, k);
        let mid = pos + k;
        let op = operator_at(level, part, k)->0;
        let pair = uncombine(op, t)->0;
        lemma_window(all, pos, end, k);
        lemma_marks_differ(all, mid);
        lemma_uncombine(op, t);
        assert(part.take(k) =~= all.subrange(pos, mid));
        assert(part.skip(k + 1) =~= all.subrange(mid + 1, end));
        lemma_complete_chain(level, all, pos, mid, pair.lhs);
        lemma_complete_operand(level, all, mid + 1, end, pair.rhs);
        lemma_derives_nonempty(operand_form(level), all.subrange(mid + 1, end), pair.rhs);
    }
}

/// The parser accepts every sentence: a token sequence that stands for a
/// tree as an expression is parsed into that tree.
pub proof fn lemma_parse_complete(ts: Seq<Lexeme>, t: AstNode)
    requires
        is_expr(ts, t),
    ensures
        parse_tokens(ts) == Ok::<AstNode, SyntaxError>(t),
{
    assert(ts.subrange(0, ts.len() as int) =~= ts);
    lemma_complete_chain(Level::Equality, ts, 0, ts.len() as int, t);
}

/// The grammar is unambiguous: a token sequence stands for one tree at
/// most.
pub proof fn lemma_unambiguous(ts: Seq<Lexeme>, t1: AstNode, t2: AstNode)
    requires
        is_expr(ts, t1),
        is_expr(ts, t2),
    ensures
        t1 == t2,
{
    lemma_parse_complete(ts, t1);
    lemma_parse_complete(ts, t2);
}

/// The parser decides the grammar: it fails on the token sequences that
/// are no expression, and on no others.
pub proof fn lemma_parse_decides(ts: Seq<Lexeme>)
    ensures
        parse_tokens(ts) is Err <==> forall|t: AstNode| !is_expr(ts, t),
{
    if parse_tokens(ts) is Err {
        assert forall|t: AstNode| !is_expr(ts, t) by {
            if is_expr(ts, t) {
                lemma_parse_complete(ts, t);
            }
        }
    } else {
        lemma_parse_sound(ts, parse_tokens(ts)->Ok_0);
    }
}

/// The punctuation token that is written `text`.
pub open spec fn mark(text: Seq<char>) -> Lexeme {
    Lexeme { kind: TokenKind::Punct, text }
}

/// A comparison of two additive chains, written with `wide` between them,
/// is an expression that stands for `t`, if `wide` writes a relational
/// operator and `t` is what that operator makes of their trees.
proof fn lemma_relation(
    a: Seq<Lexeme>,
    b: Seq<Lexeme>,
    x: AstNode,
    y: AstNode,
    sign: Lexeme,
    op: BinaryOp,
)
    requires
        derives(Form::Chain(Level::Additive), a, x),
        derives(Form::Chain(Level::Additive), b, y),
        operator_at(Level::Relational, seq![sign], 0) == Some(op),
    ensures
        is_expr(a + seq![sign] + b, combine(op, x, y)),
{
    let whole = a + seq![sign] + b;
    let t = combine(op, x, y);
    let k = a.len() as int;
    lemma_derives_nonempty(Form::Chain(Level::Additive), a, x);
    lemma_derives_nonempty(Form::Chain(Level::Additive), b, y);
    lemma_chain(Level::Relational, a, x);
    lemma_combine(op, x, y);
    assert(whole[k] == sign);
    assert(seq![sign][0] == sign);
    assert(operator_at(Level::Relational, whole, k) == Some(op));
    assert(whole.take(k) =~= a);
    assert(whole.skip(k + 1) =~= b);
    assert(splits(Level::Relational, whole, t, k));
    lemma_chain(Level::Relational, whole, t);
    lemma_chain(Level::Equality, whole, t);
}

/// `a > b` is parsed into the tree of `b < a`, and `a >= b` into the tree
/// of `b <= a`, whatever additive chains `a` and `b` are: the operands
/// change places, and the operator is not negated.
pub proof fn lemma_greater_is_less_swapped(a: Seq<Lexeme>, b: Seq<Lexeme>, x: AstNode, y: AstNode)
    requires
        derives(Form::Chain(Level::Additive), a, x),
        derives(Form::Chain(Level::Additive), b, y),
    ensures
        parse_tokens(a + seq![mark(">"@)] + b) == Ok::<AstNode, SyntaxError>(
            AstNode::Lt(Box::new(y), Box::new(x)),
        ),
        parse_tokens(a + seq![mark(">"@)] + b) == parse_tokens(b + seq![mark("<"@)] + a),
        parse_tokens(a + seq![mark(">="@)] + b) == Ok::<AstNode, SyntaxError>(
            AstNode::Le(Box::new(y), Box::new(x)),
        ),
        parse_tokens(a + seq![mark(">="@)] + b) == parse_tokens(b + seq![mark("<="@)] + a),
{
    lemma_marks_differ(seq![mark("<"@)], 0);
    lemma_marks_differ(seq![mark("<="@)], 0);
    lemma_marks_differ(seq![mark(">"@)], 0);
    lemma_marks_differ(seq![mark(">="@)], 0);
    lemma_signs_differ();
    lemma_relation(a, b, x, y, mark(">"@), BinaryOp::Gt);
    lemma_relation(b, a, y, x, mark("<"@), BinaryOp::Lt);
    lemma_relation(a, b, x, y, mark(">="@), BinaryOp::Ge);
    lemma_relation(b, a, y, x, mark("<="@), BinaryOp::Le);
    lemma_parse_complete(a + seq![mark(">"@)] + b, combine(BinaryOp::Gt, x, y));
    lemma_parse_complete(b + seq![mark("<"@)] + a, combine(BinaryOp::Lt, y, x));
    lemma_parse_complete(a + seq![mark(">="@)] + b, combine(BinaryOp::Ge, x, y));
    lemma_parse_complete(b + seq![mark("<="@)] + a, combine(BinaryOp::Le, y, x));
}

/// The four relational operators are written differently.
proof fn lemma_signs_differ()
    ensures
        "<"@ != "<="@,
        "<"@ != ">"@,
        "<"@ != ">="@,
        "<="@ != ">"@,
        "<="@ != ">="@,
        ">"@ != ">="@,
{
    reveal_strlit("<");
    reveal_strlit("<=");
    reveal_strlit(">");
    reveal_strlit(">=");
    assert("<"@.len() == 1 && "<"@[0] == '<');
    assert(">"@.len() == 1 && ">"@[0] == '>');
    assert("<="@.len() == 2 && "<="@[0] == '<');
    assert(">="@.len() == 2 && ">="@[0] == '>');
}

} // verus!
