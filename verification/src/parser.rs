//! The expression tree and the parser: from tokens to the tree, by recursive
//! descent, one function for each level of the grammar.

use vstd::prelude::*;
use vstd::string::*;
use crate::grammar::{is_expr, lemma_parse_decides, lemma_parse_sound};
use crate::tokenize::{chars_of, lexemes, Lexeme, Token, TokenKind};

verus! {

/// An owned child of an expression tree node.
pub type Node = Box<AstNode>;

/// One node of an expression tree.
///
/// `>` and `>=` have no variant of their own: the parser writes `a > b` as
/// `Lt(b, a)` and `a >= b` as `Le(b, a)`.
#[derive(Debug, PartialEq, Eq)]
pub enum AstNode {
    Add(Node, Node),
    Sub(Node, Node),
    Mul(Node, Node),
    Div(Node, Node),
    Neg(Node),
    Eq(Node, Node),
    Ne(Node, Node),
    Lt(Node, Node),
    Le(Node, Node),
    Num(i32),
}

impl AstNode {
    /// The number of nodes on the longest path from this node to a leaf.
    pub open spec fn height(self) -> nat
        decreases self,
    {
        match self {
            AstNode::Num(_) => 1,
            AstNode::Neg(a) => 1 + a.height(),
            AstNode::Add(a, b)
            | AstNode::Sub(a, b)
            | AstNode::Mul(a, b)
            | AstNode::Div(a, b)
            | AstNode::Eq(a, b)
            | AstNode::Ne(a, b)
            | AstNode::Lt(a, b)
            | AstNode::Le(a, b) => 1 + if a.height() >= b.height() {
                a.height()
            } else {
                b.height()
            },
        }
    }

    /// Whether the tree is at most `limit` nodes high.
    pub fn height_within(&self, limit: usize) -> (within: bool)
        ensures
            within == (self.height() <= limit),
        decreases self,
    {
        if limit == 0 {
            return false;
        }
        match self {
            AstNode::Num(_) => true,
            AstNode::Neg(a) => a.height_within(limit - 1),
            AstNode::Add(a, b)
            | AstNode::Sub(a, b)
            | AstNode::Mul(a, b)
            | AstNode::Div(a, b)
            | AstNode::Eq(a, b)
            | AstNode::Ne(a, b)
            | AstNode::Lt(a, b)
            | AstNode::Le(a, b) => a.height_within(limit - 1) && b.height_within(limit - 1),
        }
    }
}

/// What the parser missed when it gave up.
#[derive(Debug, Clone, Copy, PartialEq, Eq)]
pub enum Expected {
    /// A literal or a parenthesized expression should start here.
    Expression,
    /// The `)` that closes a parenthesized expression should stand here.
    CloseParen,
    /// The tokens should end here: a whole expression stands before.
    End,
}

/// Why a token sequence is no expression. The position counts the tokens
/// before the offending one; it is the number of tokens where the sequence
/// ends too early.
#[derive(Debug, Clone, Copy, PartialEq, Eq)]
pub struct SyntaxError {
    pub position: usize,
    pub expected: Expected,
}

/// A binary operator as it is written.
#[derive(Debug, Clone, Copy, PartialEq, Eq)]
pub enum BinaryOp {
    Eq,
    Ne,
    Lt,
    Le,
    Gt,
    Ge,
    Add,
    Sub,
    Mul,
    Div,
}

/// A level of the grammar at which binary operators chain, from the one
/// that binds loosest to the one that binds tightest.
#[derive(Debug, Clone, Copy, PartialEq, Eq)]
pub enum Level {
    Equality,
    Relational,
    Additive,
    Multiplicative,
}

/// The node that `lhs op rhs` stands for. `>` and `>=` are written as `<`
/// and `<=` with the operands swapped.
pub open spec fn combine(op: BinaryOp, lhs: AstNode, rhs: AstNode) -> AstNode {
    match op {
        BinaryOp::Eq => AstNode::Eq(Box::new(lhs), Box::new(rhs)),
        BinaryOp::Ne => AstNode::Ne(Box::new(lhs), Box::new(rhs)),
        BinaryOp::Lt => AstNode::Lt(Box::new(lhs), Box::new(rhs)),
        BinaryOp::Le => AstNode::Le(Box::new(lhs), Box::new(rhs)),
        BinaryOp::Gt => AstNode::Lt(Box::new(rhs), Box::new(lhs)),
        BinaryOp::Ge => AstNode::Le(Box::new(rhs), Box::new(lhs)),
        BinaryOp::Add => AstNode::Add(Box::new(lhs), Box::new(rhs)),
        BinaryOp::Sub => AstNode::Sub(Box::new(lhs), Box::new(rhs)),
        BinaryOp::Mul => AstNode::Mul(Box::new(lhs), Box::new(rhs)),
        BinaryOp::Div => AstNode::Div(Box::new(lhs), Box::new(rhs)),
    }
}

/// Whether the token at `pos` is the punctuation mark `text`.
pub open spec fn punct_at(ts: Seq<Lexeme>, pos: int, text: Seq<char>) -> bool {
    0 <= pos < ts.len() && ts[pos].kind == TokenKind::Punct && ts[pos].text == text
}

/// The binary operator of the given level that the token at `pos` writes.
pub open spec fn operator_at(level: Level, ts: Seq<Lexeme>, pos: int) -> Option<BinaryOp> {
    match level {
        Level::Equality => if punct_at(ts, pos, "=="@) {
            Some(BinaryOp::Eq)
        } else if punct_at(ts, pos, "!="@) {
            Some(BinaryOp::Ne)
        } else {
            None
        },
        Level::Relational => if punct_at(ts, pos, "<"@) {
            Some(BinaryOp::Lt)
        } else if punct_at(ts, pos, "<="@) {
            Some(BinaryOp::Le)
        } else if punct_at(ts, pos, ">"@) {
            Some(BinaryOp::Gt)
        } else if punct_at(ts, pos, ">="@) {
            Some(BinaryOp::Ge)
        } else {
            None
        },
        Level::Additive => if punct_at(ts, pos, "+"@) {
            Some(BinaryOp::Add)
        } else if punct_at(ts, pos, "-"@) {
            Some(BinaryOp::Sub)
        } else {
            None
        },
        Level::Multiplicative => if punct_at(ts, pos, "*"@) {
            Some(BinaryOp::Mul)
        } else if punct_at(ts, pos, "/"@) {
            Some(BinaryOp::Div)
        } else {
            None
        },
    }
}

/// What a successful parse of a part of the tokens gives: the tree, and the
/// position of the first token after the part.
pub struct Parsed {
    pub node: AstNode,
    pub next: int,
}

/// The number of tokens from `pos` on.
pub open spec fn left(ts: Seq<Lexeme>, pos: int) -> nat {
    if pos < 0 {
        ts.len()
    } else if pos < ts.len() {
        (ts.len() - pos) as nat
    } else {
        0
    }
}

/// The position after a part that was parsed from `start` on. A part holds
/// at least one token (`lemma_parse_bounds`), so this is `parsed.next`.
pub open spec fn end_of(start: int, parsed: Parsed) -> int {
    if parsed.next > start {
        parsed.next
    } else {
        start + 1
    }
}

impl Level {
    /// How loosely the operators of this level bind: 1 for the tightest.
    pub open spec fn rank(self) -> nat {
        match self {
            Level::Multiplicative => 1,
            Level::Additive => 2,
            Level::Relational => 3,
            Level::Equality => 4,
        }
    }
}

/// `primary = "(" expr ")" | literal`, parsed from `pos` on.
pub open spec fn parse_primary(ts: Seq<Lexeme>, pos: int) -> Result<Parsed, SyntaxError>
    decreases left(ts, pos), 1nat,
{
    if punct_at(ts, pos, "("@) {
        match parse_binary(Level::Equality, ts, pos + 1) {
            Ok(inner) => if punct_at(ts, inner.next, ")"@) {
                Ok(Parsed { node: inner.node, next: inner.next + 1 })
            } else {
                Err(SyntaxError { position: inner.next as usize, expected: Expected::CloseParen })
            },
            Err(e) => Err(e),
        }
    } else if 0 <= pos < ts.len() && ts[pos].kind is Num {
        Ok(Parsed { node: AstNode::Num(ts[pos].kind->Num_0), next: pos + 1 })
    } else {
        Err(SyntaxError { position: pos as usize, expected: Expected::Expression })
    }
}

/// `unary = ("+" | "-") unary | primary`, parsed from `pos` on. A `+` is
/// dropped; a `-` negates.
pub open spec fn parse_unary(ts: Seq<Lexeme>, pos: int) -> Result<Parsed, SyntaxError>
    decreases left(ts, pos), 2nat,
{
    if punct_at(ts, pos, "+"@) {
        parse_unary(ts, pos + 1)
    } else if punct_at(ts, pos, "-"@) {
        match parse_unary(ts, pos + 1) {
            Ok(operand) => Ok(
                Parsed { node: AstNode::Neg(Box::new(operand.node)), next: operand.next },
            ),
            Err(e) => Err(e),
        }
    } else {
        parse_primary(ts, pos)
    }
}

/// An operand of the operators of `level`, parsed from `pos` on: a part of
/// the next tighter level.
pub open spec fn parse_operand(level: Level, ts: Seq<Lexeme>, pos: int) -> Result<
    Parsed,
    SyntaxError,
>
    decreases left(ts, pos), 2 * level.rank() + 1,
{
    match level {
        Level::Equality => parse_binary(Level::Relational, ts, pos),
        Level::Relational => parse_binary(Level::Additive, ts, pos),
        Level::Additive => parse_binary(Level::Multiplicative, ts, pos),
        Level::Multiplicative => parse_unary(ts, pos),
    }
}

/// `operand (op operand)*` for the operators of `level`, parsed from `pos`
/// on.
pub open spec fn parse_binary(level: Level, ts: Seq<Lexeme>, pos: int) -> Result<
    Parsed,
    SyntaxError,
>
    decreases left(ts, pos), 2 * level.rank() + 2,
{
    match parse_operand(level, ts, pos) {
        Ok(first) => fold(level, ts, end_of(pos, first), first.node),
        Err(e) => Err(e),
    }
}

/// `(op operand)*` for the operators of `level`, parsed from `pos` on, when
/// `acc` is the tree of what stands before: each operator makes a new node
/// with the tree so far as its left operand.
pub open spec fn fold(level: Level, ts: Seq<Lexeme>, pos: int, acc: AstNode) -> Result<
    Parsed,
    SyntaxError,
>
    decreases left(ts, pos), 0nat,
{
    match operator_at(level, ts, pos) {
        Some(op) => match parse_operand(level, ts, pos + 1) {
            Ok(operand) => fold(
                level,
                ts,
                end_of(pos + 1, operand),
                combine(op, acc, operand.node),
            ),
            Err(e) => Err(e),
        },
        None => Ok(Parsed { node: acc, next: pos }),
    }
}

/// The tree of a token sequence that is one whole expression, or the first
/// error that parsing meets.
pub open spec fn parse_tokens(ts: Seq<Lexeme>) -> Result<AstNode, SyntaxError> {
    match parse_binary(Level::Equality, ts, 0) {
        Ok(whole) => if whole.next == ts.len() {
            Ok(whole.node)
        } else {
            Err(SyntaxError { position: whole.next as usize, expected: Expected::End })
        },
        Err(e) => Err(e),
    }
}

/// A part that was parsed from `pos` on holds at least one token, ends
/// within the tokens, and its tree is at most as high as the part is long.
pub open spec fn in_bounds(ts: Seq<Lexeme>, pos: int, result: Result<Parsed, SyntaxError>) -> bool {
    result matches Ok(parsed) ==> {
        &&& pos < parsed.next <= ts.len()
        &&& parsed.node.height() <= parsed.next - pos
    }
}

/// What `parse_primary` gives lies within bounds.
pub proof fn lemma_primary_bounds(ts: Seq<Lexeme>, pos: int)
    requires
        0 <= pos,
    ensures
        in_bounds(ts, pos, parse_primary(ts, pos)),
    decreases left(ts, pos), 1nat,
{
    if punct_at(ts, pos, "("@) {
        lemma_binary_bounds(Level::Equality, ts, pos + 1);
    }
}

/// What `parse_unary` gives lies within bounds.
pub proof fn lemma_unary_bounds(ts: Seq<Lexeme>, pos: int)
    requires
        0 <= pos,
    ensures
        in_bounds(ts, pos, parse_unary(ts, pos)),
    decreases left(ts, pos), 2nat,
{
    if punct_at(ts, pos, "+"@) || punct_at(ts, pos, "-"@) {
        lemma_unary_bounds(ts, pos + 1);
    } else {
        lemma_primary_bounds(ts, pos);
    }
}

/// What `parse_operand` gives lies within bounds.
pub proof fn lemma_operand_bounds(level: Level, ts: Seq<Lexeme>, pos: int)
    requires
        0 <= pos,
    ensures
        in_bounds(ts, pos, parse_operand(level, ts, pos)),
    decreases left(ts, pos), 2 * level.rank() + 1,
{
    match level {
        Level::Equality => lemma_binary_bounds(Level::Relational, ts, pos),
        Level::Relational => lemma_binary_bounds(Level::Additive, ts, pos),
        Level::Additive => lemma_binary_bounds(Level::Multiplicative, ts, pos),
        Level::Multiplicative => lemma_unary_bounds(ts, pos),
    }
}

/// What `parse_binary` gives lies within bounds.
pub proof fn lemma_binary_bounds(level: Level, ts: Seq<Lexeme>, pos: int)
    requires
        0 <= pos,
    ensures
        in_bounds(ts, pos, parse_binary(level, ts, pos)),
    decreases left(ts, pos), 2 * level.rank() + 2,
{
    lemma_operand_bounds(level, ts, pos);
    if let Ok(first) = parse_operand(level, ts, pos) {
        lemma_fold_bounds(level, ts, first.next, first.node, pos);
    }
}

/// What `fold` gives lies within the bounds of the whole chain, which
/// started at `start`, if the tree of what stands before does.
pub proof fn lemma_fold_bounds(level: Level, ts: Seq<Lexeme>, pos: int, acc: AstNode, start: int)
    requires
        0 <= start < pos <= ts.len(),
        acc.height() <= pos - start,
    ensures
        in_bounds(ts, start, fold(level, ts, pos, acc)),
        fold(level, ts, pos, acc) matches Ok(parsed) ==> pos <= parsed.next,
    decreases left(ts, pos), 0nat,
{
    if let Some(op) = operator_at(level, ts, pos) {
        lemma_operand_bounds(level, ts, pos + 1);
        if let Ok(operand) = parse_operand(level, ts, pos + 1) {
            lemma_fold_bounds(level, ts, operand.next, combine(op, acc, operand.node), start);
        }
    }
}

/// Whether a result of the parser says what the grammar's model says.
pub open spec fn agrees(
    result: Result<(Node, usize), SyntaxError>,
    model: Result<Parsed, SyntaxError>,
) -> bool {
    match result {
        Ok((node, next)) => model == Ok::<Parsed, SyntaxError>(
            Parsed { node: *node, next: next as int },
        ),
        Err(e) => model == Err::<Parsed, SyntaxError>(e),
    }
}

/// Whether the two strings hold the same text.
fn same_text(a: &str, b: &str) -> (same: bool)
    ensures
        same == (a@ == b@),
{
    let first = chars_of(a);
    let second = chars_of(b);
    if first.len() != second.len() {
        return false;
    }
    let mut i: usize = 0;
    while i < first.len()
        invariant
            first@ == a@,
            second@ == b@,
            first@.len() == second@.len(),
            i <= first@.len(),
            forall|j: int| 0 <= j < i ==> first@[j] == second@[j],
        decreases first@.len() - i,
    {
        if first[i] != second[i] {
            assert(a@[i as int] != b@[i as int]);
            return false;
        }
        i += 1;
    }
    assert(first@ =~= second@);
    true
}

/// Whether the token at `pos` is the punctuation mark `op`.
fn is_op(tokens: &[Token], pos: usize, op: &str) -> (yes: bool)
    ensures
        yes == punct_at(lexemes(tokens@), pos as int, op@),
        yes ==> pos < tokens@.len() <= usize::MAX,
{
    if pos < tokens.len() {
        match tokens[pos].kind {
            TokenKind::Punct => same_text(tokens[pos].location, op),
            TokenKind::Num(_) => false,
        }
    } else {
        false
    }
}

/// The node for `lhs op rhs`.
fn new_node(op: BinaryOp, lhs: Node, rhs: Node) -> (node: Node)
    ensures
        *node == combine(op, *lhs, *rhs),
{
    Box::new(
        match op {
            BinaryOp::Eq => AstNode::Eq(lhs, rhs),
            BinaryOp::Ne => AstNode::Ne(lhs, rhs),
            BinaryOp::Lt => AstNode::Lt(lhs, rhs),
            BinaryOp::Le => AstNode::Le(lhs, rhs),
            BinaryOp::Gt => AstNode::Lt(rhs, lhs),
            BinaryOp::Ge => AstNode::Le(rhs, lhs),
            BinaryOp::Add => AstNode::Add(lhs, rhs),
            BinaryOp::Sub => AstNode::Sub(lhs, rhs),
            BinaryOp::Mul => AstNode::Mul(lhs, rhs),
            BinaryOp::Div => AstNode::Div(lhs, rhs),
        },
    )
}

/// `expr = equality`
fn expr(tokens: &[Token], pos: usize) -> (result: Result<(Node, usize), SyntaxError>)
    requires
        pos <= tokens@.len(),
    ensures
        agrees(result, parse_binary(Level::Equality, lexemes(tokens@), pos as int)),
    decreases left(lexemes(tokens@), pos as int), 11nat,
{
    equality(tokens, pos)
}

/// `equality = relational ("==" relational | "!=" relational)*`
fn equality(tokens: &[Token], pos: usize) -> (result: Result<(Node, usize), SyntaxError>)
    requires
        pos <= tokens@.len(),
    ensures
        agrees(result, parse_binary(Level::Equality, lexemes(tokens@), pos as int)),
    decreases left(lexemes(tokens@), pos as int), 10nat,
{
    let ghost ts = lexemes(tokens@);
    let (mut node, mut next) = match relational(tokens, pos) {
        Ok(first) => first,
        Err(e) => {
            return Err(e);
        },
    };
    proof {
        lemma_operand_bounds(Level::Equality, ts, pos as int);
    }
    loop
        invariant
            ts == lexemes(tokens@),
            pos < next <= tokens@.len(),
            node.height() <= next - pos,
            parse_binary(Level::Equality, ts, pos as int) == fold(
                Level::Equality,
                ts,
                next as int,
                *node,
            ),
        decreases tokens@.len() - next,
    {
        let op = if is_op(tokens, next, "==") {
            BinaryOp::Eq
        } else if is_op(tokens, next, "!=") {
            BinaryOp::Ne
        } else {
            return Ok((node, next));
        };
        proof {
            lemma_operand_bounds(Level::Equality, ts, next + 1);
        }
        match relational(tokens, next + 1) {
            Ok((rhs, after)) => {
                node = new_node(op, node, rhs);
                next = after;
            },
            Err(e) => {
                return Err(e);
            },
        }
    }
}

/// `relational = add ("<" add | "<=" add | ">" add | ">=" add)*`
fn relational(tokens: &[Token], pos: usize) -> (result: Result<(Node, usize), SyntaxError>)
    requires
        pos <= tokens@.len(),
    ensures
        agrees(result, parse_binary(Level::Relational, lexemes(tokens@), pos as int)),
    decreases left(lexemes(tokens@), pos as int), 8nat,
{
    let ghost ts = lexemes(tokens@);
    let (mut node, mut next) = match self::add(tokens, pos) {
        Ok(first) => first,
        Err(e) => {
            return Err(e);
        },
    };
    proof {
        lemma_operand_bounds(Level::Relational, ts, pos as int);
    }
    loop
        invariant
            ts == lexemes(tokens@),
            pos < next <= tokens@.len(),
            node.height() <= next - pos,
            parse_binary(Level::Relational, ts, pos as int) == fold(
                Level::Relational,
                ts,
                next as int,
                *node,
            ),
        decreases tokens@.len() - next,
    {
        let op = if is_op(tokens, next, "<") {
            BinaryOp::Lt
        } else if is_op(tokens, next, "<=") {
            BinaryOp::Le
        } else if is_op(tokens, next, ">") {
            BinaryOp::Gt
        } else if is_op(tokens, next, ">=") {
            BinaryOp::Ge
        } else {
            return Ok((node, next));
        };
        proof {
            lemma_operand_bounds(Level::Relational, ts, next + 1);
        }
        match self::add(tokens, next + 1) {
            Ok((rhs, after)) => {
                node = new_node(op, node, rhs);
                next = after;
            },
            Err(e) => {
                return Err(e);
            },
        }
    }
}

/// `add = mul ("+" mul | "-" mul)*`
fn add(tokens: &[Token], pos: usize) -> (result: Result<(Node, usize), SyntaxError>)
    requires
        pos <= tokens@.len(),
    ensures
        agrees(result, parse_binary(Level::Additive, lexemes(tokens@), pos as int)),
    decreases left(lexemes(tokens@), pos as int), 6nat,
{
    let ghost ts = lexemes(tokens@);
    let (mut node, mut next) = match self::mul(tokens, pos) {
        Ok(first) => first,
        Err(e) => {
            return Err(e);
        },
    };
    proof {
        lemma_operand_bounds(Level::Additive, ts, pos as int);
    }
    loop
        invariant
            ts == lexemes(tokens@),
            pos < next <= tokens@.len(),
            node.height() <= next - pos,
            parse_binary(Level::Additive, ts, pos as int) == fold(
                Level::Additive,
                ts,
                next as int,
                *node,
            ),
        decreases tokens@.len() - next,
    {
        let op = if is_op(tokens, next, "+") {
            BinaryOp::Add
        } else if is_op(tokens, next, "-") {
            BinaryOp::Sub
        } else {
            return Ok((node, next));
        };
        proof {
            lemma_operand_bounds(Level::Additive, ts, next + 1);
        }
        match self::mul(tokens, next + 1) {
            Ok((rhs, after)) => {
                node = new_node(op, node, rhs);
                next = after;
            },
            Err(e) => {
                return Err(e);
            },
        }
    }
}

/// `mul = unary ("*" unary | "/" unary)*`
fn mul(tokens: &[Token], pos: usize) -> (result: Result<(Node, usize), SyntaxError>)
    requires
        pos <= tokens@.len(),
    ensures
        agrees(result, parse_binary(Level::Multiplicative, lexemes(tokens@), pos as int)),
    decreases left(lexemes(tokens@), pos as int), 4nat,
{
    let ghost ts = lexemes(tokens@);
    let (mut node, mut next) = match unary(tokens, pos) {
        Ok(first) => first,
        Err(e) => {
            return Err(e);
        },
    };
    proof {
        lemma_operand_bounds(Level::Multiplicative, ts, pos as int);
    }
    loop
        invariant
            ts == lexemes(tokens@),
            pos < next <= tokens@.len(),
            node.height() <= next - pos,
            parse_binary(Level::Multiplicative, ts, pos as int) == fold(
                Level::Multiplicative,
                ts,
                next as int,
                *node,
            ),
        decreases tokens@.len() - next,
    {
        let op = if is_op(tokens, next, "*") {
            BinaryOp::Mul
        } else if is_op(tokens, next, "/") {
            BinaryOp::Div
        } else {
            return Ok((node, next));
        };
        proof {
            lemma_operand_bounds(Level::Multiplicative, ts, next + 1);
        }
        match unary(tokens, next + 1) {
            Ok((rhs, after)) => {
                node = new_node(op, node, rhs);
                next = after;
            },
            Err(e) => {
                return Err(e);
            },
        }
    }
}

/// `unary = ("+" | "-") unary | primary`
fn unary(tokens: &[Token], pos: usize) -> (result: Result<(Node, usize), SyntaxError>)
    requires
        pos <= tokens@.len(),
    ensures
        agrees(result, parse_unary(lexemes(tokens@), pos as int)),
    decreases left(lexemes(tokens@), pos as int), 2nat,
{
    if is_op(tokens, pos, "+") {
        return unary(tokens, pos + 1);
    }
    if is_op(tokens, pos, "-") {
        return match unary(tokens, pos + 1) {
            Ok((operand, next)) => Ok((Box::new(AstNode::Neg(operand)), next)),
            Err(e) => Err(e),
        };
    }
    primary(tokens, pos)
}

/// `primary = "(" expr ")" | num`
fn primary(tokens: &[Token], pos: usize) -> (result: Result<(Node, usize), SyntaxError>)
    requires
        pos <= tokens@.len(),
    ensures
        agrees(result, parse_primary(lexemes(tokens@), pos as int)),
    decreases left(lexemes(tokens@), pos as int), 1nat,
{
    if is_op(tokens, pos, "(") {
        proof {
            lemma_binary_bounds(Level::Equality, lexemes(tokens@), pos + 1);
        }
        let (node, next) = match expr(tokens, pos + 1) {
            Ok(inner) => inner,
            Err(e) => {
                return Err(e);
            },
        };
        if !is_op(tokens, next, ")") {
            return Err(SyntaxError { position: next, expected: Expected::CloseParen });
        }
        return Ok((node, next + 1));
    }
    if pos < tokens.len() {
        if let TokenKind::Num(value) = tokens[pos].kind {
            return Ok((Box::new(AstNode::Num(value)), pos + 1));
        }
    }
    Err(SyntaxError { position: pos, expected: Expected::Expression })
}

/// Parses a token sequence that is one whole expression into its tree.
///
/// The grammar, from the loosest binding to the tightest:
///
/// ```text
/// expr           = equality
/// equality       = relational (("==" | "!=") relational)*
/// relational     = additive (("<" | "<=" | ">" | ">=") additive)*
/// additive       = multiplicative (("+" | "-") multiplicative)*
/// multiplicative = unary (("*" | "/") unary)*
/// unary          = ("+" | "-") unary | primary
/// primary        = "(" expr ")" | literal
/// ```
///
/// The parser succeeds on the sentences of this grammar and on nothing
/// else, and the tree that it gives is the one that the sentence stands
/// for (`is_expr`). Where it fails, the error is the first one that a scan
/// of the tokens from left to right meets (`parse_tokens`).
///
/// The tree is no higher than the sequence is long, which is what
/// `codegen` asks of a tree.
pub fn parse(tokens: &[Token]) -> (result: Result<Node, SyntaxError>)
    ensures
        match result {
            Ok(node) => is_expr(lexemes(tokens@), *node),
            Err(_) => forall|t: AstNode| !is_expr(lexemes(tokens@), t),
        },
        match result {
            Ok(node) => parse_tokens(lexemes(tokens@)) == Ok::<AstNode, SyntaxError>(*node),
            Err(e) => parse_tokens(lexemes(tokens@)) == Err::<AstNode, SyntaxError>(e),
        },
        result matches Ok(node) ==> node.height() <= tokens@.len() <= usize::MAX,
{
    proof {
        lemma_binary_bounds(Level::Equality, lexemes(tokens@), 0);
        lemma_parse_decides(lexemes(tokens@));
        if let Ok(t) = parse_tokens(lexemes(tokens@)) {
            lemma_parse_sound(lexemes(tokens@), t);
        }
    }
    let (node, rest) = match expr(tokens, 0) {
        Ok(whole) => whole,
        Err(e) => {
            return Err(e);
        },
    };
    if rest != tokens.len() {
        return Err(SyntaxError { position: rest, expected: Expected::End });
    }
    Ok(node)
}

} // verus!
