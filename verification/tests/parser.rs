use xc_lib::parser::{Operand, Parser, Term};

fn lex_all(input: &str) -> Vec<Term> {
    let mut parser = Parser::new(input);
    let mut terms = Vec::new();
    while let Some(t) = parser.next() {
        terms.push(t.unwrap());
    }
    terms
}

#[test]
fn test_lexer() {
    let terms = lex_all("111 + 222");
    assert_eq!(
        format!("{:?}", terms),
        "[Num(111), Operator(Add), Num(222)]"
    );

    let terms = lex_all("11*22+33");
    assert_eq!(
        format!("{:?}", terms),
        "[Num(11), Operator(Mul), Num(22), Operator(Add), Num(33)]"
    );

    let terms = lex_all("11 ** 22");
    assert_eq!(format!("{:?}", terms), "[Num(11), Operator(Pow), Num(22)]");

    let mut parser = Parser::new("11 // 22");
    assert_eq!(parser.next().unwrap().unwrap(), Term::Num(11));
    assert!(parser.next().unwrap().is_err());
}

#[test]
fn test_parser_simple() {
    let oper: Operand = Parser::new("1").parse().unwrap();
    assert_eq!(oper, Operand::Num(1));

    let oper: Operand = Parser::new("1 * 2").parse().unwrap();
    assert_eq!(format!("{:?}", oper), "Term(Mul, Num(1), Num(2))");

    let oper: Operand = Parser::new("0*1+2 * 0x10").parse().unwrap();
    assert_eq!(
        format!("{:?}", oper),
        "Term(Add, Term(Mul, Num(0), Num(1)), Term(Mul, Num(2), Num(16)))"
    );

    let oper: Operand = Parser::new("(2 * 40) - 1").parse().unwrap();
    assert_eq!(
        format!("{:?}", oper),
        "Term(Sub, Term(Mul, Num(2), Num(40)), Num(1))"
    );

    let oper: Operand = Parser::new("1 2 3+4 5  6").parse().unwrap();
    assert_eq!(format!("{:?}", oper), "Term(Add, Num(123), Num(456))");
}

#[test]
fn test_parser_errs() {
    assert!(Parser::new("0*").parse().is_err());
    assert!(Parser::new("   ").parse().is_err());
    assert!(Parser::new("1*2*+3").parse().is_err());
    assert!(Parser::new("1*2*").parse().is_err());
}

#[test]
fn test_parser_parenth() {
    let oper: Operand = Parser::new("0*(1+2)").parse().unwrap();
    assert_eq!(
        format!("{:?}", oper),
        "Term(Mul, Num(0), Term(Add, Num(1), Num(2)))"
    );

    let oper: Operand = Parser::new("0*((((1+2))))").parse().unwrap();
    assert_eq!(
        format!("{:?}", oper),
        "Term(Mul, Num(0), Term(Add, Num(1), Num(2)))"
    );

    let oper: Operand = Parser::new("0*(1*(2*(3*(4+5))))").parse().unwrap();
    assert_eq!(format!("{:?}", oper), "Term(Mul, Num(0), Term(Mul, Num(1), Term(Mul, Num(2), Term(Mul, Num(3), Term(Add, Num(4), Num(5))))))");

    let oper: Operand = Parser::new("0*((1+2)*(3+4))*5").parse().unwrap();
    assert_eq!(format!("{:?}", oper), "Term(Mul, Term(Mul, Num(0), Term(Mul, Term(Add, Num(1), Num(2)), Term(Add, Num(3), Num(4)))), Num(5))");

    assert!(Parser::new("0*(1+2))").parse().is_err());
    assert!(Parser::new("0*((1+2)").parse().is_err());
}

#[test]
fn test_parser_unary() {
    let oper: Operand = Parser::new("-1 * -2").parse().unwrap();
    assert_eq!(
        format!("{:?}", oper),
        "Term(Mul, Term(Neg, Num(0), Num(1)), Term(Neg, Num(0), Num(2)))"
    );

    let oper: Operand = Parser::new("~1 + ((-2))").parse().unwrap();
    assert_eq!(
        format!("{:?}", oper),
        "Term(Add, Term(BNot, Num(0), Num(1)), Term(Neg, Num(0), Num(2)))"
    );

    let oper: Operand = Parser::new("~2 * ~1 - -0x2 * -3").parse().unwrap();
    assert_eq!(
        format!("{:?}", oper),
        "Term(Sub, \
         Term(Mul, Term(BNot, Num(0), Num(2)), Term(BNot, Num(0), Num(1))), \
         Term(Mul, Term(Neg, Num(0), Num(2)), Term(Neg, Num(0), Num(3))))"
    );
}

#[test]
fn test_parser_assign() {
    let oper: Operand = Parser::new("1 = 2 + 3").parse().unwrap();
    assert_eq!(
        format!("{:?}", oper),
        "Term(Assign, Num(1), Term(Add, Num(2), Num(3)))"
    );

    let oper: Operand = Parser::new("a = 1 + 2").parse().unwrap();
    assert_eq!(
        format!("{:?}", oper),
        "Term(Assign, Num(10), Term(Add, Num(1), Num(2)))"
    );

    let oper: Operand = Parser::new("$a = 1 * 2 + 3 / ~4").parse().unwrap();
    assert_eq!(
        format!("{:?}", oper),
        "Term(Assign, Var(\"$a\"), \
         Term(Add, Term(Mul, Num(1), Num(2)), Term(Div, Num(3), Term(BNot, Num(0), Num(4)))))"
    );

    let oper: Operand = Parser::new("$a = $b * $c + $d / ~$e").parse().unwrap();
    assert_eq!(
        format!("{:?}", oper),
        "Term(Assign, Var(\"$a\"), \
         Term(Add, Term(Mul, Var(\"$b\"), Var(\"$c\")), Term(Div, Var(\"$d\"), Term(BNot, Num(0), Var(\"$e\")))))"
    );
}

#[test]
fn test_create_func() {
    let oper: Operand = Parser::new("|$x| $x + $y").parse().unwrap();
    assert_eq!(oper.render(), "([\"$x\"] -> ($x + $y))");

    let oper: Operand = Parser::new("$z = |$x| $x + $y").parse().unwrap();
    assert_eq!(oper.render(), "($z = ([\"$x\"] -> ($x + $y)))");
}

#[test]
fn test_parser_fncall_shape() {
    let oper: Operand = Parser::new("$f(1, 2)").parse().unwrap();
    assert_eq!(
        format!("{:?}", oper),
        "Term(FnCall, Var(\"$f\"), Term(List, Num(1), Num(2)))"
    );
}

#[test]
fn test_render_round_trip() {
    let first: Operand = Parser::new("0*(1+2) - 3 / 4 % 5").parse().unwrap();
    let text = first.render();
    let again: Operand = Parser::new(text.as_str()).parse().unwrap();
    assert_eq!(first, again);

    let first: Operand = Parser::new("$a << (2 ** $b & 7)").parse().unwrap();
    let text = first.render();
    let again: Operand = Parser::new(text.as_str()).parse().unwrap();
    assert_eq!(first, again);
}

#[test]
fn test_render_num() {
    assert_eq!(Operand::Num(42).render(), "42");
    assert_eq!(Operand::Num(-7).render(), "-7");
    assert_eq!(Operand::Num(0).render(), "0");
}
