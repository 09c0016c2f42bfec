use exprc::parser::{parse, AstNode, Expected, Node, SyntaxError};
use exprc::tokenize::{tokenize, Token, TokenKind};

fn tree(input: &str) -> Node {
    parse(&tokenize(input).unwrap()).unwrap()
}

fn failure(input: &str) -> SyntaxError {
    parse(&tokenize(input).unwrap()).unwrap_err()
}

fn value(input: &str) -> Option<i32> {
    tree(input).evaluate()
}

fn num(v: i32) -> Node {
    Box::new(AstNode::Num(v))
}

#[test]
fn test_parse() {
    let tokens = tokenize("2+2").unwrap();

    let node = parse(&tokens).unwrap();

    if let AstNode::Add(..) = *node {
    } else {
        panic!("Fail");
    }
}

#[test]
fn parse_literal() {
    assert_eq!(tree("42"), num(42));
    assert_eq!(tree("(42)"), num(42));
    assert_eq!(tree("((42))"), num(42));
}

#[test]
fn parse_each_operator() {
    assert_eq!(tree("1+2"), Box::new(AstNode::Add(num(1), num(2))));
    assert_eq!(tree("1-2"), Box::new(AstNode::Sub(num(1), num(2))));
    assert_eq!(tree("1*2"), Box::new(AstNode::Mul(num(1), num(2))));
    assert_eq!(tree("1/2"), Box::new(AstNode::Div(num(1), num(2))));
    assert_eq!(tree("1==2"), Box::new(AstNode::Eq(num(1), num(2))));
    assert_eq!(tree("1!=2"), Box::new(AstNode::Ne(num(1), num(2))));
    assert_eq!(tree("1<2"), Box::new(AstNode::Lt(num(1), num(2))));
    assert_eq!(tree("1<=2"), Box::new(AstNode::Le(num(1), num(2))));
}

#[test]
fn greater_is_less_with_operands_swapped() {
    assert_eq!(tree("1>2"), Box::new(AstNode::Lt(num(2), num(1))));
    assert_eq!(tree("1>=2"), Box::new(AstNode::Le(num(2), num(1))));
    assert_eq!(tree("3 > 1"), tree("1 < 3"));
    assert_eq!(tree("3 >= 1"), tree("1 <= 3"));
    assert_eq!(tree("1+2 > 3*4"), tree("3*4 < 1+2"));
    assert_eq!(value("3 > 1"), Some(1));
    assert_eq!(value("1 < 3"), Some(1));
    assert_eq!(value("1 > 3"), Some(0));
    assert_eq!(value("3 < 1"), Some(0));
    assert_eq!(value("3 >= 3"), Some(1));
    assert_eq!(value("2 >= 3"), Some(0));
}

#[test]
fn multiplication_binds_tighter_than_addition() {
    assert_eq!(
        tree("1+2*3"),
        Box::new(AstNode::Add(
            num(1),
            Box::new(AstNode::Mul(num(2), num(3)))
        ))
    );
    assert_eq!(value("1+2*3"), Some(7));
    assert_eq!(
        tree("(1+2)*3"),
        Box::new(AstNode::Mul(
            Box::new(AstNode::Add(num(1), num(2))),
            num(3)
        ))
    );
    assert_eq!(value("(1+2)*3"), Some(9));
}

#[test]
fn levels_bind_in_order() {
    // equality < relational < additive < multiplicative < unary
    assert_eq!(
        tree("1==2<3+4*-5"),
        Box::new(AstNode::Eq(
            num(1),
            Box::new(AstNode::Lt(
                num(2),
                Box::new(AstNode::Add(
                    num(3),
                    Box::new(AstNode::Mul(num(4), Box::new(AstNode::Neg(num(5)))))
                ))
            ))
        ))
    );
}

#[test]
fn operators_associate_to_the_left() {
    assert_eq!(
        tree("10-3-2"),
        Box::new(AstNode::Sub(
            Box::new(AstNode::Sub(num(10), num(3))),
            num(2)
        ))
    );
    assert_eq!(value("10-3-2"), Some(5));
    assert_eq!(value("100/10/5"), Some(2));
    assert_eq!(value("2*3/4"), Some(1));
    assert_eq!(value("1<2<3"), Some(1));
    assert_eq!(value("3>2>1"), Some(0));
    assert_eq!(value("1==1!=0"), Some(1));
    assert_eq!(
        tree("1<2>3"),
        Box::new(AstNode::Lt(
            num(3),
            Box::new(AstNode::Lt(num(1), num(2)))
        ))
    );
}

#[test]
fn unary_signs() {
    assert_eq!(tree("+5"), num(5));
    assert_eq!(tree("++5"), num(5));
    assert_eq!(tree("-5"), Box::new(AstNode::Neg(num(5))));
    assert_eq!(
        tree("--5"),
        Box::new(AstNode::Neg(Box::new(AstNode::Neg(num(5)))))
    );
    assert_eq!(tree("-+5"), Box::new(AstNode::Neg(num(5))));
    assert_eq!(
        tree("1 - -2"),
        Box::new(AstNode::Sub(num(1), Box::new(AstNode::Neg(num(2)))))
    );
    assert_eq!(
        tree("-(1+2)"),
        Box::new(AstNode::Neg(Box::new(AstNode::Add(num(1), num(2)))))
    );
    assert_eq!(value("- - 5"), Some(5));
    assert_eq!(value("-2*-3"), Some(6));
}

#[test]
fn division_truncates_toward_zero() {
    assert_eq!(value("7/2"), Some(3));
    assert_eq!(value("-7/2"), Some(-3));
    assert_eq!(value("7/-2"), Some(-3));
    assert_eq!(value("-7/-2"), Some(3));
    assert_eq!(value("0/5"), Some(0));
    assert_eq!(value("6/3"), Some(2));
}

#[test]
fn comparisons_give_one_or_zero() {
    assert_eq!(value("1==1"), Some(1));
    assert_eq!(value("1==2"), Some(0));
    assert_eq!(value("1!=2"), Some(1));
    assert_eq!(value("1!=1"), Some(0));
    assert_eq!(value("1<2"), Some(1));
    assert_eq!(value("2<2"), Some(0));
    assert_eq!(value("2<=2"), Some(1));
    assert_eq!(value("3<=2"), Some(0));
    assert_eq!(value("-1<0"), Some(1));
    assert_eq!(value("(1<2)+(3<4)"), Some(2));
}

#[test]
fn evaluation_has_no_value_on_division_by_zero() {
    assert_eq!(value("1/0"), None);
    assert_eq!(value("1/(2-2)"), None);
    assert_eq!(value("0*(1/0)"), None);
}

#[test]
fn evaluation_has_no_value_on_overflow() {
    assert_eq!(value("2147483647+1"), None);
    assert_eq!(value("-2147483647-2"), None);
    assert_eq!(value("65536*65536"), None);
    assert_eq!(value("(-2147483647-1)/-1"), None);
    assert_eq!(value("-(-2147483647-1)"), None);
    assert_eq!(value("2147483647+0"), Some(2147483647));
    assert_eq!(value("-2147483647-1"), Some(-2147483648));
    assert_eq!(AstNode::Num(i32::MIN).evaluate(), Some(i32::MIN));
}

#[test]
fn missing_close_paren() {
    assert_eq!(
        failure("(1+2"),
        SyntaxError {
            position: 4,
            expected: Expected::CloseParen
        }
    );
    assert_eq!(
        failure("(1+2 3)"),
        SyntaxError {
            position: 4,
            expected: Expected::CloseParen
        }
    );
    assert_eq!(
        failure("((1)"),
        SyntaxError {
            position: 4,
            expected: Expected::CloseParen
        }
    );
}

#[test]
fn extra_token() {
    assert_eq!(
        failure("1+2)"),
        SyntaxError {
            position: 3,
            expected: Expected::End
        }
    );
    assert_eq!(
        failure("1 2"),
        SyntaxError {
            position: 1,
            expected: Expected::End
        }
    );
    assert_eq!(
        failure("1 = 2"),
        SyntaxError {
            position: 1,
            expected: Expected::End
        }
    );
}

#[test]
fn missing_expression() {
    assert_eq!(
        failure(""),
        SyntaxError {
            position: 0,
            expected: Expected::Expression
        }
    );
    assert_eq!(
        failure("1+"),
        SyntaxError {
            position: 2,
            expected: Expected::Expression
        }
    );
    assert_eq!(
        failure("*1"),
        SyntaxError {
            position: 0,
            expected: Expected::Expression
        }
    );
    assert_eq!(
        failure("()"),
        SyntaxError {
            position: 1,
            expected: Expected::Expression
        }
    );
    assert_eq!(
        failure("1 < = 2"),
        SyntaxError {
            position: 2,
            expected: Expected::Expression
        }
    );
    assert_eq!(
        failure("-"),
        SyntaxError {
            position: 1,
            expected: Expected::Expression
        }
    );
}

#[test]
fn a_literal_token_is_read_by_its_value_not_its_text() {
    let tokens = [Token {
        kind: TokenKind::Num(5),
        location: "five",
    }];
    assert_eq!(parse(&tokens).unwrap(), num(5));
}

#[test]
fn a_punctuation_token_is_read_by_its_text() {
    let tokens = [
        Token {
            kind: TokenKind::Num(1),
            location: "1",
        },
        Token {
            kind: TokenKind::Punct,
            location: "plus",
        },
        Token {
            kind: TokenKind::Num(2),
            location: "2",
        },
    ];
    assert_eq!(
        parse(&tokens),
        Err(SyntaxError {
            position: 1,
            expected: Expected::End
        })
    );
}

#[test]
fn deeply_nested_input() {
    let depth = 200;
    let input = format!("{}1{}", "(".repeat(depth), ")".repeat(depth));
    assert_eq!(tree(&input), num(1));
    let input = format!("{}1", "-".repeat(depth));
    assert_eq!(value(&input), Some(1));
}

#[test]
fn height_within_a_limit() {
    assert!(!AstNode::Num(1).height_within(0));
    assert!(AstNode::Num(1).height_within(1));
    assert!(AstNode::Num(1).height_within(usize::MAX));
    let node = tree("1+2*3");
    assert!(!node.height_within(2));
    assert!(node.height_within(3));
    assert!(node.height_within(4));
    let node = tree("-(1*2)+3");
    assert!(!node.height_within(3));
    assert!(node.height_within(4));
    let node = tree("---1");
    assert!(!node.height_within(3));
    assert!(node.height_within(4));
}

#[test]
fn a_tree_is_no_higher_than_its_tokens_are_many() {
    for input in ["1", "-1", "1+2", "((1))", "1+2*3-4/5", "-(1<2)==(3>=4)"] {
        let tokens = tokenize(input).unwrap();
        let node = parse(&tokens).unwrap();
        assert!(node.height_within(tokens.len()), "{}", input);
    }
}
