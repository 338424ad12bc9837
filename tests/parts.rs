use lamentable::ast::ASTNode;
use lamentable::env::{Env, Kind, Value};
use lamentable::interpreter::Interpreter;
use lamentable::lexer::{tokenize, TokenList};
use lamentable::number::Number;
use lamentable::parser::Parser;
use lamentable::LangError;

fn chars(s: &str) -> Vec<char> {
    s.chars().collect()
}

#[test]
fn tokens_of_a_declaration() {
    let src = chars("let num x = 2 == != ( ) , shout if True False \"s\"");
    let toks = tokenize(&src).unwrap();
    let two = Number::fraction(2, 1).unwrap();
    assert_eq!(
        toks,
        vec![
            TokenList::Let,
            TokenList::Ident(4, 7),
            TokenList::Ident(8, 9),
            TokenList::Assign,
            TokenList::Num(two),
            TokenList::EqEq,
            TokenList::NotEq,
            TokenList::Open,
            TokenList::Close,
            TokenList::Sep,
            TokenList::Shout,
            TokenList::If,
            TokenList::Bool(true),
            TokenList::Bool(false),
            TokenList::Str(47, 48),
            TokenList::End,
        ]
    );
}

#[test]
fn fractions_are_reduced() {
    let x = Number::fraction(6, -4).unwrap();
    assert_eq!(x.numerator(), -3);
    assert_eq!(x.denominator(), 2);
    assert_eq!(Number::fraction(1, 0), None);
    let y = Number::fraction(1, 2).unwrap();
    let sum = x.add(y).unwrap();
    assert_eq!((sum.numerator(), sum.denominator()), (-1, 1));
    let prod = x.mul(y).unwrap();
    assert_eq!((prod.numerator(), prod.denominator()), (-3, 4));
    let q = y.div(x).unwrap();
    assert_eq!((q.numerator(), q.denominator()), (-1, 3));
    assert!(Number::fraction(2, 4).unwrap().same(y));
    let text: String = Number::fraction(-7, 4).unwrap().render().into_iter().collect();
    assert_eq!(text, "-1.75");
}

#[test]
fn parser_evaluates_and_records() {
    let src = chars("let num x = 1 + 2, shout x * 2, shout y");
    let toks = tokenize(&src).unwrap();
    let mut parser = Parser::new(src.clone(), toks, Env::new());
    let nodes = parser.parse().unwrap();
    assert_eq!(nodes.len(), 3);
    match &nodes[0] {
        ASTNode::Let { declared_type, name, value } => {
            assert_eq!(*declared_type, Kind::Num);
            assert_eq!(name, &chars("x"));
            match value {
                Value::Num(n) => assert_eq!((n.numerator(), n.denominator()), (3, 1)),
                _ => panic!("expected a number"),
            }
        }
        _ => panic!("expected a declaration"),
    }
    match &nodes[1] {
        ASTNode::Shout { text, is_identifier } => {
            assert_eq!(text, &chars("6"));
            assert!(!is_identifier);
        }
        _ => panic!("expected a shout"),
    }
    match &nodes[2] {
        ASTNode::Shout { text, is_identifier } => {
            assert_eq!(text, &chars("y"));
            assert!(*is_identifier);
        }
        _ => panic!("expected a shout"),
    }
}

#[test]
fn parser_math_expression_and_substitution() {
    let src = chars("a * 2 + 1");
    let toks = tokenize(&src).unwrap();
    let mut env = Env::new();
    env.declare(false, chars("a"), Value::Num(Number::fraction(5, 1).unwrap())).unwrap();
    let mut parser = Parser::new(src, toks, env);
    parser.replace_identifiers().unwrap();
    let v = parser.parse_math_expr().unwrap();
    assert_eq!((v.numerator(), v.denominator()), (11, 1));
}

#[test]
fn environment_rules() {
    let mut env = Env::new();
    assert_eq!(env.declare(false, chars("s"), Value::Str(chars("a"))), Ok(()));
    assert_eq!(
        env.declare(false, chars("s"), Value::Bool(true)),
        Err(LangError::TypeConflictError)
    );
    assert_eq!(env.declare(false, chars("s"), Value::Str(chars("b"))), Ok(()));
    assert_eq!(
        env.declare(true, chars("s"), Value::Str(chars("c"))),
        Err(LangError::ConstReassignError)
    );
    match env.get(&chars("s")) {
        Some(Value::Str(t)) => assert_eq!(t, &chars("b")),
        _ => panic!("expected text"),
    }
    assert!(env.get(&chars("t")).is_none());
}

#[test]
fn interpreter_keeps_block_writes_local() {
    let body = vec![ASTNode::Let {
        declared_type: Kind::Num,
        name: chars("x"),
        value: Value::Num(Number::fraction(2, 1).unwrap()),
    }];
    let nodes = vec![
        ASTNode::Let {
            declared_type: Kind::Num,
            name: chars("x"),
            value: Value::Num(Number::fraction(1, 1).unwrap()),
        },
        ASTNode::If { body },
        ASTNode::Shout { text: chars("x"), is_identifier: true },
    ];
    let mut interpreter = Interpreter::new(Env::new());
    let mut out = Vec::new();
    assert_eq!(interpreter.interpret(&nodes, &mut out), Ok(()));
    assert_eq!(out, vec![chars("1")]);
}
