use xc_lib::error::Error;
use xc_lib::eval::{eval_expr, CompResult, Context};

#[test]
fn test_eval() {
    let test_eval = |expr| {
        if let CompResult::Num(i) = eval_expr(expr, &mut Context::new()).unwrap().unwrap() {
            i
        } else {
            panic!("Not a number!");
        }
    };
    assert_eq!(test_eval("01110b * 0x10 + 1"), 225);
    assert_eq!(test_eval("(0xb*1) + (0*0b1111011111)+1"), 12);
    assert_eq!(test_eval("10 - 5"), 5);
    assert_eq!(test_eval("10 / 3"), 3);
    assert_eq!(test_eval("10 % 3"), 1);
    assert_eq!(test_eval("0b111 ^ 0b101"), 0b010);
    assert_eq!(test_eval("0b010 | 0b100"), 0b110);
    assert_eq!(test_eval("0b011 & 0b101"), 0b001);
    assert_eq!(test_eval("1 << 8"), 1 << 8);
    assert_eq!(test_eval("0xFFFFFFFF >> 8"), 0xffffff);
    assert_eq!(test_eval("(2 * 40) - 1"), 79);
    assert_eq!(test_eval("3 ** 3 - 1"), 26);
}

#[test]
fn test_eval_unary() {
    let test_eval = |expr| {
        if let CompResult::Num(i) = eval_expr(expr, &mut Context::new()).unwrap().unwrap() {
            i
        } else {
            panic!("Not a number!");
        }
    };
    assert_eq!(test_eval("-1 * -2"), 2);
    assert_eq!(test_eval("~1 + -10"), !1i128 - 10);
    assert_eq!(
        test_eval("~5 * ~8 - -0x10 * -12"),
        !5i128 * !8i128 - 0x10 * 12
    );
}

#[test]
fn test_eval_ctx() {
    let mut ctx = Context::new();
    assert_eq!(eval_expr("$x = 1", &mut ctx).unwrap(), None);
    assert_eq!(eval_expr("$x", &mut ctx).unwrap(), Some(CompResult::Num(1)));
    assert_eq!(eval_expr("$y = ($x*3) << ($x+1)", &mut ctx).unwrap(), None);
    assert_eq!(eval_expr("$x = -$x * $y", &mut ctx).unwrap(), None);
    assert_eq!(
        eval_expr("$x", &mut ctx).unwrap(),
        Some(CompResult::Num(-12))
    );
}

#[test]
fn test_eval_funcs() {
    let mut ctx = Context::new();
    assert_eq!(
        eval_expr("$f = |$x, $y, $z| ($x+$y)*$z", &mut ctx).unwrap(),
        None
    );
    assert_eq!(
        eval_expr("$f", &mut ctx).unwrap().unwrap().render(),
        "|$x, $y, $z| (($x + $y) * $z)"
    );

    assert_eq!(
        eval_expr("$f(1, 2, 3)", &mut ctx).unwrap(),
        Some(CompResult::Num(9))
    );

    assert_eq!(
        eval_expr(
            "(|$i, $j| (|$x, $y, $z| $x * $y + $z)($i, 2, $j))(3, 1)",
            &mut ctx
        )
        .unwrap(),
        Some(CompResult::Num(7))
    );
}

#[test]
fn test_eval_missing_values() {
    let mut ctx = Context::new();
    // An undefined variable yields no value rather than an error.
    assert_eq!(eval_expr("$nope", &mut ctx).unwrap(), None);
    // Division and remainder by zero yield no value.
    assert_eq!(eval_expr("1 / 0", &mut ctx).unwrap(), None);
    assert_eq!(eval_expr("1 % 0", &mut ctx).unwrap(), None);
    // Out-of-range shift amounts yield no value.
    assert_eq!(eval_expr("1 << 200", &mut ctx).unwrap(), None);
    assert_eq!(eval_expr("1 >> -1", &mut ctx).unwrap(), None);
    // A negative exponent yields no value.
    assert_eq!(eval_expr("2 ** -1", &mut ctx).unwrap(), None);
    // Calling a number yields no value.
    assert_eq!(eval_expr("2(3)", &mut ctx).unwrap(), None);
}

#[test]
fn test_eval_overflow() {
    let mut ctx = Context::new();
    // The largest power of two that fits, and the first that does not.
    assert_eq!(
        eval_expr("2 ** 126", &mut ctx).unwrap(),
        Some(CompResult::Num(1i128 << 126))
    );
    assert_eq!(eval_expr("2 ** 127", &mut ctx).unwrap(), None);
    // The minimum value is reachable as a power of a negative base.
    assert_eq!(eval_expr("$m = 0 - 2", &mut ctx).unwrap(), None);
    assert_eq!(
        eval_expr("$m ** 127", &mut ctx).unwrap(),
        Some(CompResult::Num(i128::MIN))
    );
    // Overflowing addition and negation of the minimum yield no value.
    assert_eq!(eval_expr("$big = $m ** 127", &mut ctx).unwrap(), None);
    assert_eq!(eval_expr("$big + $big", &mut ctx).unwrap(), None);
    assert_eq!(eval_expr("-$big", &mut ctx).unwrap(), None);
}

#[test]
fn test_eval_errors() {
    let mut ctx = Context::new();
    assert!(matches!(
        eval_expr("0xzz", &mut ctx),
        Err(Error::NumParseError(_))
    ));
    assert!(matches!(
        eval_expr("1 @@ 2", &mut ctx),
        Err(Error::OperatorParseError(_))
    ));
    assert!(matches!(
        eval_expr("1*2*", &mut ctx),
        Err(Error::ExprParseError(_))
    ));
    assert!(matches!(eval_expr("   ", &mut ctx), Err(Error::ExprTermsError)));
    assert!(matches!(
        eval_expr("0*(1+2))", &mut ctx),
        Err(Error::UnmatchedParenthError)
    ));
    assert_eq!(
        eval_expr("0xzz", &mut ctx).unwrap_err().describe(),
        "Could not parse number 0xzz"
    );
}

#[test]
fn test_eval_pure_idempotent() {
    let mut ctx = Context::new();
    assert_eq!(eval_expr("$x = 5", &mut ctx).unwrap(), None);
    let first = eval_expr("($x * 3) + 1", &mut ctx).unwrap();
    let second = eval_expr("($x * 3) + 1", &mut ctx).unwrap();
    assert_eq!(first, Some(CompResult::Num(16)));
    assert_eq!(first, second);
    // The environment is untouched by the pure evaluations.
    assert_eq!(eval_expr("$x", &mut ctx).unwrap(), Some(CompResult::Num(5)));
}

#[test]
fn test_eval_insert_overrides() {
    let mut ctx = Context::new();
    assert_eq!(eval_expr("$x = 1", &mut ctx).unwrap(), None);
    assert_eq!(eval_expr("$x = 2", &mut ctx).unwrap(), None);
    assert_eq!(eval_expr("$x", &mut ctx).unwrap(), Some(CompResult::Num(2)));
}

#[test]
fn test_eval_assignments_never_print() {
    let mut ctx = Context::new();
    // An assignment yields nothing even though its right side has a value.
    assert_eq!(eval_expr("$a = 1 + 2", &mut ctx).unwrap(), None);
    // Assigning an unbound value leaves the target unbound.
    assert_eq!(eval_expr("$b = $nope", &mut ctx).unwrap(), None);
    assert_eq!(eval_expr("$b", &mut ctx).unwrap(), None);
}
