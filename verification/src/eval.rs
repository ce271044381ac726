//! The evaluator: walks an expression tree against a mutable variable
//! environment, producing a number, a function value, or nothing (an
//! assignment, or a value-absence signal such as an undefined variable).

use vstd::prelude::*;
use vstd::arithmetic::power::{pow, lemma_pow_positive};
use crate::error::{Error, ErrorModel};
use crate::parser::{Operand, OperandModel, Operator, Parser, spec_parse};

verus! {

/// What evaluating an expression yields when it yields anything: a number,
/// or a function value holding its parameter names and its body tree.
#[derive(PartialEq, Debug)]
pub enum CompResult {
    Num(i128),
    Func(Vec<String>, Operand),
}

/// The mathematical shadow of [`CompResult`].
pub enum CompResultModel {
    Num(i128),
    Func(Seq<Seq<char>>, OperandModel),
}

impl View for CompResult {
    type V = CompResultModel;

    open spec fn view(&self) -> CompResultModel {
        match self {
            CompResult::Num(n) => CompResultModel::Num(*n),
            CompResult::Func(args, body) => CompResultModel::Func(args.deep_view(), body@),
        }
    }
}

/// The model of a variable environment: a map from variable name to value.
pub type CtxModel = Map<Seq<char>, CompResultModel>;

/// The map described by a list of bindings, later entries overriding
/// earlier ones.
pub open spec fn ctx_map(s: Seq<(String, CompResult)>) -> CtxModel
    decreases s.len(),
{
    if s.len() == 0 {
        Map::empty()
    } else {
        ctx_map(s.drop_last()).insert(s.last().0@, s.last().1@)
    }
}

/// A variable environment: a mapping from variable name to evaluated value,
/// keys unique, insertion order irrelevant.
pub struct Context {
    pub pairs: Vec<(String, CompResult)>,
}

impl View for Context {
    type V = CtxModel;

    open spec fn view(&self) -> CtxModel {
        ctx_map(self.pairs@)
    }
}

impl Context {
    /// A fresh, empty environment.
    pub fn new() -> (c: Context)
        ensures
            c@ == Map::<Seq<char>, CompResultModel>::empty(),
    {
        let c = Context { pairs: Vec::new() };
        proof {
            assert(c.pairs@.len() == 0);
        }
        c
    }

    /// Binds `name` to `val`, replacing any earlier binding of that name.
    pub fn insert(&mut self, name: String, val: CompResult)
        ensures
            final(self)@ == old(self)@.insert(name@, val@),
    {
        let ghost nm = name@;
        let ghost vm = val@;
        let ghost before = self.pairs@;
        self.pairs.push((name, val));
        proof {
            assert(self.pairs@.drop_last() =~= before);
            assert(self.pairs@.last().0@ == nm);
            assert(self.pairs@.last().1@ == vm);
        }
    }

    /// The value bound to `name`, if any, as a fresh copy.
    pub fn lookup(&self, name: &String) -> (r: Option<CompResult>)
        ensures
            match r {
                Some(v) => self@.contains_key(name@) && v@ == self@[name@],
                None => !self@.contains_key(name@),
            },
    {
        let mut i = self.pairs.len();
        proof {
            assert(self.pairs@.take(i as int) =~= self.pairs@);
        }
        while i > 0
            invariant
                i <= self.pairs@.len(),
                self@.contains_key(name@) == ctx_map(self.pairs@.take(i as int)).contains_key(
                    name@,
                ),
                self@.contains_key(name@) ==> self@[name@] == ctx_map(
                    self.pairs@.take(i as int),
                )[name@],
            decreases i,
        {
            proof {
                assert(self.pairs@.take(i as int).drop_last() =~= self.pairs@.take(i - 1));
                assert(self.pairs@.take(i as int).last() == self.pairs@[i - 1]);
            }
            let p = &self.pairs[i - 1];
            if string_eq(&p.0, name) {
                return Some(clone_comp(&p.1));
            }
            i = i - 1;
        }
        proof {
            assert(self.pairs@.take(0) =~= Seq::<(String, CompResult)>::empty());
        }
        None
    }
}

/// Whether two strings hold the same characters.
fn string_eq(a: &String, b: &String) -> (r: bool)
    ensures
        r == (a@ == b@),
{
    a.eq(b)
}

/// A fresh copy of a parameter-name vector, character for character.
fn clone_names(v: &Vec<String>) -> (r: Vec<String>)
    ensures
        r.deep_view() == v.deep_view(),
        r@.len() == v@.len(),
{
    let mut r: Vec<String> = Vec::new();
    let mut i: usize = 0;
    while i < v.len()
        invariant
            i <= v@.len(),
            r@.len() == i,
            forall|j: int| 0 <= j < i ==> r@[j] == v@[j],
        decreases v@.len() - i,
    {
        r.push(v[i].clone());
        i = i + 1;
    }
    proof {
        assert(r@ =~= v@);
        assert(r.deep_view() =~= v.deep_view());
    }
    r
}

/// A fresh copy of an expression tree, equal to the original in every
/// structural respect.
pub fn clone_operand(o: &Operand) -> (r: Operand)
    ensures
        r@ == o@,
    decreases o,
{
    match o {
        Operand::Num(n) => Operand::Num(*n),
        Operand::Var(name) => Operand::Var(name.clone()),
        Operand::FnArgs(args) => Operand::FnArgs(clone_names(args)),
        Operand::Term(op, l, r) => Operand::Term(
            *op,
            Box::new(clone_operand(l)),
            Box::new(clone_operand(r)),
        ),
    }
}

/// A fresh copy of an evaluation result.
pub fn clone_comp(c: &CompResult) -> (r: CompResult)
    ensures
        r@ == c@,
{
    match c {
        CompResult::Num(n) => CompResult::Num(*n),
        CompResult::Func(args, body) => CompResult::Func(clone_names(args), clone_operand(body)),
    }
}

/// What raising `l` to the power `r` yields: the exponent must be a
/// non-negative value fitting 32 bits and the result must fit the numeric
/// domain; anything else yields nothing.
pub open spec fn spec_pow_val(l: i128, r: i128) -> Option<i128> {
    if r < 0 || r > u32::MAX as i128 {
        None
    } else if i128::MIN <= pow(l as int, r as nat) <= i128::MAX {
        Some(pow(l as int, r as nat) as i128)
    } else {
        None
    }
}

/// The magnitude of a power is the power of the magnitude.
proof fn lemma_pow_abs(b: int, e: nat)
    ensures
        (if pow(b, e) >= 0 {
            pow(b, e)
        } else {
            -pow(b, e)
        }) == pow(
            if b >= 0 {
                b
            } else {
                -b
            },
            e,
        ),
    decreases e,
{
    reveal(pow);
    if e > 0 {
        lemma_pow_abs(b, (e - 1) as nat);
        let a = if b >= 0 {
            b
        } else {
            -b
        };
        let pa = pow(b, (e - 1) as nat);
        let qa = if pa >= 0 {
            pa
        } else {
            -pa
        };
        assert(pow(b, e) == b * pa);
        assert(pow(a, e) == a * qa);
        assert((if b * pa >= 0 {
            b * pa
        } else {
            -(b * pa)
        }) == a * qa) by (nonlinear_arith)
            requires
                a == (if b >= 0 {
                    b
                } else {
                    -b
                }),
                qa == (if pa >= 0 {
                    pa
                } else {
                    -pa
                }),
        ;
    }
}

/// A longer power of a base of magnitude at least two is at least as large
/// in magnitude.
proof fn lemma_pow_mag_increases(a: int, e1: nat, e2: nat)
    requires
        a >= 2,
        e1 <= e2,
    ensures
        pow(a, e1) <= pow(a, e2),
    decreases e2 - e1,
{
    reveal(pow);
    if e1 < e2 {
        lemma_pow_mag_increases(a, e1, (e2 - 1) as nat);
        let p = pow(a, (e2 - 1) as nat);
        lemma_pow_positive(a, (e2 - 1) as nat);
        assert(pow(a, e2) == a * p);
        assert(a * p >= p) by (nonlinear_arith)
            requires
                a >= 2,
                p > 0,
        ;
    }
}

/// Powers of a base of magnitude at least two are at least one.
proof fn lemma_pow_mag_at_least_one(a: int, e: nat)
    requires
        a >= 1,
    ensures
        pow(a, e) >= 1,
    decreases e,
{
    reveal(pow);
    if e > 0 {
        lemma_pow_mag_at_least_one(a, (e - 1) as nat);
        let p = pow(a, (e - 1) as nat);
        assert(a * p >= 1) by (nonlinear_arith)
            requires
                a >= 1,
                p >= 1,
        ;
    }
}

/// Raises `l` to the power `r` per [`spec_pow_val`].
fn pow_val(l: i128, r: i128) -> (o: Option<i128>)
    ensures
        o == spec_pow_val(l, r),
{
    if r < 0 || r > u32::MAX as i128 {
        return None;
    }
    let ghost e = r as nat;
    if l == 0 {
        if r == 0 {
            proof {
                vstd::arithmetic::power::lemma_pow0(0);
            }
            return Some(1);
        }
        proof {
            vstd::arithmetic::power::lemma0_pow(e);
        }
        return Some(0);
    }
    if l == 1 {
        proof {
            vstd::arithmetic::power::lemma1_pow(e);
        }
        return Some(1);
    }
    if l == -1 {
        let half = r / 2;
        let parity = r - half * 2;
        proof {
            lemma_pow_abs(-1, e);
            lemma_pow_mag_at_least_one(1, e);
            vstd::arithmetic::power::lemma1_pow(e);
            lemma_neg_one_pow_parity(e);
        }
        if parity == 0 {
            return Some(1);
        } else {
            return Some(-1);
        }
    }
    // |l| >= 2: an exponent of 128 or more always overflows.
    let ghost a = if l >= 0 {
        l as int
    } else {
        -(l as int)
    };
    if r >= 128 {
        proof {
            lemma_pow_abs(l as int, e);
            lemma_pow_mag_increases(a, 128, e);
            lemma_pow_mag_increases(2, 128, 128);
            lemma_pow_two_128();
            lemma_pow_mag_le(a, 128);
        }
        return None;
    }
    proof {
        vstd::arithmetic::power::lemma_pow0(l as int);
    }
    let mut acc: i128 = 1;
    let mut i: i128 = 0;
    while i < r
        invariant
            0 <= i <= r < 128,
            l < -1 || l > 1,
            e == r as nat,
            acc as int == pow(l as int, i as nat),
        decreases r - i,
    {
        proof {
            assert(pow(l as int, (i + 1) as nat) == pow(l as int, i as nat) * (l as int)) by {
                vstd::arithmetic::power::lemma_pow1(l as int);
                vstd::arithmetic::power::lemma_pow_adds(l as int, i as nat, 1);
            }
        }
        acc = match acc.checked_mul(l) {
            Some(x) => x,
            None => {
                proof {
                    lemma_pow_overflow_final(l as int, (i + 1) as nat, e);
                }
                return None;
            },
        };
        i = i + 1;
    }
    Some(acc)
}

/// Two to the 128th power, written out, by repeated doubling.
pub proof fn lemma_pow_two_128()
    ensures
        pow(2, 128) == 0x100000000000000000000000000000000,
{
    vstd::arithmetic::power::lemma_pow1(2);
    vstd::arithmetic::power::lemma_pow_adds(2, 1, 1);
    assert(pow(2, 2) == 4);
    vstd::arithmetic::power::lemma_pow_adds(2, 2, 2);
    assert(pow(2, 4) == 16);
    vstd::arithmetic::power::lemma_pow_adds(2, 4, 4);
    assert(pow(2, 8) == 256);
    vstd::arithmetic::power::lemma_pow_adds(2, 8, 8);
    assert(pow(2, 16) == 0x10000);
    vstd::arithmetic::power::lemma_pow_adds(2, 16, 16);
    assert(pow(2, 32) == 0x100000000);
    vstd::arithmetic::power::lemma_pow_adds(2, 32, 32);
    assert(pow(2, 64) == 0x10000000000000000);
    vstd::arithmetic::power::lemma_pow_adds(2, 64, 64);
    assert(pow(2, 128) == 0x100000000000000000000000000000000);
}

/// A power of minus one alternates with the parity of the exponent.
proof fn lemma_neg_one_pow_parity(e: nat)
    ensures
        e % 2 == 0 ==> pow(-1, e) == 1,
        e % 2 == 1 ==> pow(-1, e) == -1,
    decreases e,
{
    reveal(pow);
    if e > 0 {
        lemma_neg_one_pow_parity((e - 1) as nat);
    }
}

/// The magnitude of a base of magnitude at least two bounds the magnitude
/// of its powers from below by the same power of two.
proof fn lemma_pow_mag_le(a: int, e: nat)
    requires
        a >= 2,
    ensures
        pow(a, e) >= pow(2, e),
    decreases e,
{
    reveal(pow);
    if e > 0 {
        lemma_pow_mag_le(a, (e - 1) as nat);
        let p = pow(a, (e - 1) as nat);
        let q = pow(2, (e - 1) as nat);
        lemma_pow_positive(2, (e - 1) as nat);
        assert(a * p >= 2 * q) by (nonlinear_arith)
            requires
                a >= 2,
                p >= q,
                q > 0,
        ;
    }
}

/// A strictly longer power of a base of magnitude at least two at least
/// doubles.
proof fn lemma_pow_mag_doubles(a: int, e1: nat, e2: nat)
    requires
        a >= 2,
        e1 < e2,
    ensures
        pow(a, e2) >= 2 * pow(a, e1),
{
    reveal(pow);
    lemma_pow_mag_increases(a, e1, (e2 - 1) as nat);
    let p = pow(a, (e2 - 1) as nat);
    let q = pow(a, e1);
    lemma_pow_positive(a, e1);
    assert(pow(a, e2) == a * p);
    assert(a * p >= 2 * q) by (nonlinear_arith)
        requires
            a >= 2,
            p >= q,
            q > 0,
    ;
}

/// Once a partial power leaves the 128-bit signed range, the full power is
/// out of that range as well.
proof fn lemma_pow_overflow_final(b: int, e1: nat, e2: nat)
    requires
        e1 <= e2,
        b < -1 || b > 1,
        pow(b, e1) < i128::MIN || pow(b, e1) > i128::MAX,
    ensures
        pow(b, e2) < i128::MIN || pow(b, e2) > i128::MAX,
{
    if e1 < e2 {
        let a = if b >= 0 {
            b
        } else {
            -b
        };
        lemma_pow_abs(b, e1);
        lemma_pow_abs(b, e2);
        assert(pow(a, e1) >= 0x80000000000000000000000000000000);
        lemma_pow_mag_doubles(a, e1, e2);
    }
}

/// What one binary (or encoded unary) arithmetic step yields on two
/// numbers: the standard operation, or nothing where the mathematical
/// result leaves the 128-bit signed domain, a divisor is zero, or a shift
/// amount does not fit the width.  Division and remainder truncate toward
/// zero; the bitwise operations act on the two's-complement representation.
pub open spec fn spec_bin_num(op: Operator, l: i128, r: i128) -> Option<i128> {
    match op {
        Operator::Add => if i128::MIN <= l + r <= i128::MAX {
            Some((l + r) as i128)
        } else {
            None
        },
        Operator::Sub => if i128::MIN <= l - r <= i128::MAX {
            Some((l - r) as i128)
        } else {
            None
        },
        Operator::Mul => if i128::MIN <= l * r <= i128::MAX {
            Some((l * r) as i128)
        } else {
            None
        },
        Operator::Div => l.checked_div(r),
        Operator::Remainder => l.checked_rem(r),
        Operator::Pow => spec_pow_val(l, r),
        Operator::Neg => if r == i128::MIN {
            None
        } else {
            Some((-r) as i128)
        },
        Operator::BNot => Some(!r),
        Operator::BXor => Some(l ^ r),
        Operator::BOr => Some(l | r),
        Operator::BAnd => Some(l & r),
        Operator::LShift => if 0 <= r < 128 {
            Some(l << (r as u32))
        } else {
            None
        },
        Operator::RShift => if 0 <= r < 128 {
            Some(l >> (r as u32))
        } else {
            None
        },
        Operator::Sentinel => None,
        Operator::Lparen => None,
        Operator::Rparen => None,
        Operator::Assign => None,
        Operator::FnBody => None,
        Operator::FnCall => None,
        Operator::List => None,
    }
}

/// One binary (or encoded unary) arithmetic step, per [`spec_bin_num`].
fn bin_num(op: Operator, l: i128, r: i128) -> (o: Option<i128>)
    ensures
        o == spec_bin_num(op, l, r),
{
    match op {
        Operator::Add => l.checked_add(r),
        Operator::Sub => l.checked_sub(r),
        Operator::Mul => l.checked_mul(r),
        Operator::Div => l.checked_div(r),
        Operator::Remainder => l.checked_rem(r),
        Operator::Pow => pow_val(l, r),
        Operator::Neg => {
            if r == i128::MIN {
                None
            } else {
                Some(-r)
            }
        },
        Operator::BNot => Some(!r),
        Operator::BXor => Some(l ^ r),
        Operator::BOr => Some(l | r),
        Operator::BAnd => Some(l & r),
        Operator::LShift => {
            if 0 <= r && r < 128 {
                Some(l << (r as u32))
            } else {
                None
            }
        },
        Operator::RShift => {
            if 0 <= r && r < 128 {
                Some(l >> (r as u32))
            } else {
                None
            }
        },
        Operator::Sentinel => None,
        Operator::Lparen => None,
        Operator::Rparen => None,
        Operator::Assign => None,
        Operator::FnBody => None,
        Operator::FnCall => None,
        Operator::List => None,
    }
}

/// How many function applications may nest within one evaluation.  A call
/// that would nest deeper yields no value; this bounds the otherwise
/// unbounded recursion that self-applying function values can set up.
pub const CALL_DEPTH_LIMIT: u64 = 64;

/// The views of a list of evaluation results.
pub open spec fn comp_views(s: Seq<CompResult>) -> Seq<CompResultModel> {
    s.map_values(|c: CompResult| c@)
}

/// The view of an optional evaluation result.
pub open spec fn opt_comp_model(r: Option<CompResult>) -> Option<CompResultModel> {
    match r {
        Some(c) => Some(c@),
        None => None,
    }
}

/// The fresh environment of one function call: the formal names bound
/// positionally to the argument values, later duplicates overriding earlier
/// ones; extra names or values are dropped.
pub open spec fn bind_params(names: Seq<Seq<char>>, vals: Seq<CompResultModel>) -> CtxModel
    decreases names.len() + vals.len(),
{
    if names.len() == 0 || vals.len() == 0 {
        Map::empty()
    } else {
        let k = if names.len() <= vals.len() {
            names.len() as int
        } else {
            vals.len() as int
        };
        bind_params(names.take(k - 1), vals.take(k - 1)).insert(names[k - 1], vals[k - 1])
    }
}

/// Binding over the first `k` names and values equals binding over the full
/// sequences when `k` is the length of the shorter one.
proof fn lemma_bind_take_min(names: Seq<Seq<char>>, vals: Seq<CompResultModel>)
    ensures
        bind_params(names, vals) == bind_params(
            names.take(
                if names.len() <= vals.len() {
                    names.len() as int
                } else {
                    vals.len() as int
                },
            ),
            vals.take(
                if names.len() <= vals.len() {
                    names.len() as int
                } else {
                    vals.len() as int
                },
            ),
        ),
{
    let k = if names.len() <= vals.len() {
        names.len() as int
    } else {
        vals.len() as int
    };
    if k == 0 {
        assert(names.take(0) =~= Seq::<Seq<char>>::empty());
        assert(vals.take(0) =~= Seq::<CompResultModel>::empty());
    } else {
        assert(names.take(k).take(k - 1) =~= names.take(k - 1));
        assert(vals.take(k).take(k - 1) =~= vals.take(k - 1));
        assert(names.take(k)[k - 1] == names[k - 1]);
        assert(vals.take(k)[k - 1] == vals[k - 1]);
    }
}

/// What evaluating tree `t` against environment `ctx` yields, and the
/// environment it leaves behind.  `fuel` bounds how deeply function calls
/// may nest; every other case is structural.  A number evaluates to itself;
/// an assignment to a variable binds it and yields nothing; a variable
/// yields its binding, or nothing when unbound; a function definition
/// yields the function value; a function call evaluates its callee and its
/// arguments in the caller's environment, then its body in a fresh
/// environment holding only the parameter bindings; every arithmetic
/// operator demands two numbers.  Structurally foreign trees — a parameter
/// list alone, pseudo-operators in a term — yield nothing.
pub open spec fn spec_eval(fuel: nat, t: OperandModel, ctx: CtxModel) -> (
    Option<CompResultModel>,
    CtxModel,
)
    decreases fuel, t, 0int,
{
    match t {
        OperandModel::Num(n) => (Some(CompResultModel::Num(n)), ctx),
        OperandModel::Var(name) => (
            if ctx.contains_key(name) {
                Some(ctx[name])
            } else {
                None
            },
            ctx,
        ),
        OperandModel::FnArgs(_) => (None, ctx),
        OperandModel::Term(op, l, r) => {
            if op == Operator::Assign {
                match *l {
                    OperandModel::Var(name) => {
                        let (v, ctx1) = spec_eval(fuel, *r, ctx);
                        match v {
                            Some(v) => (None, ctx1.insert(name, v)),
                            None => (None, ctx1),
                        }
                    },
                    _ => (None, ctx),
                }
            } else if op == Operator::FnBody {
                match *l {
                    OperandModel::FnArgs(names) => (Some(CompResultModel::Func(names, *r)), ctx),
                    _ => (None, ctx),
                }
            } else if op == Operator::FnCall {
                let (cal, ctx1) = spec_eval(fuel, *l, ctx);
                match cal {
                    Some(CompResultModel::Func(names, body)) => {
                        let (args, ctx2) = spec_eval_args(fuel, *r, ctx1);
                        match args {
                            Some(vals) => {
                                if fuel == 0 {
                                    (None, ctx2)
                                } else {
                                    let inner = bind_params(names, vals);
                                    (spec_eval((fuel - 1) as nat, body, inner).0, ctx2)
                                }
                            },
                            None => (None, ctx2),
                        }
                    },
                    Some(_) => (None, ctx1),
                    None => (None, ctx1),
                }
            } else {
                let (lv, ctx1) = spec_eval(fuel, *l, ctx);
                match lv {
                    None => (None, ctx1),
                    Some(a) => {
                        let (rv, ctx2) = spec_eval(fuel, *r, ctx1);
                        match (a, rv) {
                            (CompResultModel::Num(x), Some(CompResultModel::Num(y))) => (
                                match spec_bin_num(op, x, y) {
                                    Some(v) => Some(CompResultModel::Num(v)),
                                    None => None,
                                },
                                ctx2,
                            ),
                            (_, None) => (None, ctx2),
                            _ => (None, ctx2),
                        }
                    },
                }
            }
        },
    }
}

/// What evaluating the argument spine of a call yields: the values in
/// positional order (the rightmost argument is evaluated first, as the
/// spine is walked from its end), or nothing as soon as one argument yields
/// nothing.
pub open spec fn spec_eval_args(fuel: nat, t: OperandModel, ctx: CtxModel) -> (
    Option<Seq<CompResultModel>>,
    CtxModel,
)
    decreases fuel, t, 1int,
{
    match t {
        OperandModel::Term(Operator::List, l, r) => {
            let (v, ctx1) = spec_eval(fuel, *r, ctx);
            match v {
                Some(v) => {
                    let (rest, ctx2) = spec_eval_args(fuel, *l, ctx1);
                    match rest {
                        Some(vals) => (Some(vals.push(v)), ctx2),
                        None => (None, ctx2),
                    }
                },
                None => (None, ctx1),
            }
        },
        _ => {
            let (v, ctx1) = spec_eval(fuel, t, ctx);
            match v {
                Some(v) => (Some(seq![v]), ctx1),
                None => (None, ctx1),
            }
        },
    }
}

/// Evaluates `term` with the given call-depth budget, per [`spec_eval`].
fn eval_fuel(term: Operand, ctx: &mut Context, fuel: u64) -> (r: Option<CompResult>)
    ensures
        ({
            let out = spec_eval(fuel as nat, term@, old(ctx)@);
            opt_comp_model(r) == out.0 && final(ctx)@ == out.1
        }),
    decreases fuel, term, 0int,
{
    match term {
        Operand::Num(n) => Some(CompResult::Num(n)),
        Operand::Var(name) => ctx.lookup(&name),
        Operand::FnArgs(_) => None,
        Operand::Term(op, l, r) => {
            if op == Operator::Assign {
                match *l {
                    Operand::Var(name) => {
                        match eval_fuel(*r, ctx, fuel) {
                            Some(v) => {
                                ctx.insert(name, v);
                                None
                            },
                            None => None,
                        }
                    },
                    _ => None,
                }
            } else if op == Operator::FnBody {
                match *l {
                    Operand::FnArgs(names) => Some(CompResult::Func(names, *r)),
                    _ => None,
                }
            } else if op == Operator::FnCall {
                match eval_fuel(*l, ctx, fuel) {
                    Some(CompResult::Func(names, body)) => {
                        match eval_args_fuel(*r, ctx, fuel) {
                            Some(vals) => {
                                if fuel == 0 {
                                    None
                                } else {
                                    let ghost ns = names.deep_view();
                                    let ghost vs = comp_views(vals@);
                                    let mut inner = Context::new();
                                    let k = if names.len() <= vals.len() {
                                        names.len()
                                    } else {
                                        vals.len()
                                    };
                                    let mut j: usize = 0;
                                    proof {
                                        assert(ns.take(0) =~= Seq::<Seq<char>>::empty());
                                        assert(vs.take(0) =~= Seq::<CompResultModel>::empty());
                                    }
                                    while j < k
                                        invariant
                                            j <= k,
                                            k == (if ns.len() <= vs.len() {
                                                ns.len()
                                            } else {
                                                vs.len()
                                            }),
                                            ns == names.deep_view(),
                                            vs == comp_views(vals@),
                                            k <= names@.len() && k <= vals@.len(),
                                            inner@ == bind_params(
                                                ns.take(j as int),
                                                vs.take(j as int),
                                            ),
                                        decreases k - j,
                                    {
                                        proof {
                                            assert(ns.take(j + 1).take(j as int) =~= ns.take(
                                                j as int,
                                            ));
                                            assert(vs.take(j + 1).take(j as int) =~= vs.take(
                                                j as int,
                                            ));
                                            assert(ns.take(j + 1)[j as int] == names@[j as int]@);
                                            assert(vs.take(j + 1)[j as int] == vals@[j as int]@);
                                        }
                                        inner.insert(names[j].clone(), clone_comp(&vals[j]));
                                        j = j + 1;
                                    }
                                    proof {
                                        lemma_bind_take_min(ns, vs);
                                        assert(ns.take(k as int) =~= ns.take(
                                            if ns.len() <= vs.len() {
                                                ns.len() as int
                                            } else {
                                                vs.len() as int
                                            },
                                        ));
                                        assert(vs.take(k as int) =~= vs.take(
                                            if ns.len() <= vs.len() {
                                                ns.len() as int
                                            } else {
                                                vs.len() as int
                                            },
                                        ));
                                    }
                                    eval_fuel(body, &mut inner, fuel - 1)
                                }
                            },
                            None => None,
                        }
                    },
                    Some(other) => None,
                    None => None,
                }
            } else {
                match eval_fuel(*l, ctx, fuel) {
                    None => None,
                    Some(a) => {
                        match eval_fuel(*r, ctx, fuel) {
                            None => None,
                            Some(b) => {
                                match (a, b) {
                                    (CompResult::Num(x), CompResult::Num(y)) => {
                                        match bin_num(op, x, y) {
                                            Some(v) => Some(CompResult::Num(v)),
                                            None => None,
                                        }
                                    },
                                    _ => None,
                                }
                            },
                        }
                    },
                }
            }
        },
    }
}

/// Evaluates the argument spine of a call, per [`spec_eval_args`].
fn eval_args_fuel(t: Operand, ctx: &mut Context, fuel: u64) -> (r: Option<Vec<CompResult>>)
    ensures
        ({
            let out = spec_eval_args(fuel as nat, t@, old(ctx)@);
            (match r {
                Some(v) => Some(comp_views(v@)),
                None => None::<Seq<CompResultModel>>,
            }) == out.0 && final(ctx)@ == out.1
        }),
    decreases fuel, t, 1int,
{
    match t {
        Operand::Term(Operator::List, l, r) => {
            match eval_fuel(*r, ctx, fuel) {
                Some(v) => {
                    let ghost vm = v@;
                    match eval_args_fuel(*l, ctx, fuel) {
                        Some(mut vals) => {
                            let ghost before = comp_views(vals@);
                            vals.push(v);
                            proof {
                                assert(comp_views(vals@) =~= before.push(vm));
                            }
                            Some(vals)
                        },
                        None => None,
                    }
                },
                None => None,
            }
        },
        other => {
            match eval_fuel(other, ctx, fuel) {
                Some(v) => {
                    let ghost vm = v@;
                    let mut vals: Vec<CompResult> = Vec::new();
                    vals.push(v);
                    proof {
                        assert(comp_views(vals@) =~= seq![vm]);
                    }
                    Some(vals)
                },
                None => None,
            }
        },
    }
}

/// Evaluates `term` against `ctx` with the standard call-depth budget.
pub fn eval(term: Operand, ctx: &mut Context) -> (r: Option<CompResult>)
    ensures
        ({
            let out = spec_eval(CALL_DEPTH_LIMIT as nat, term@, old(ctx)@);
            opt_comp_model(r) == out.0 && final(ctx)@ == out.1
        }),
{
    eval_fuel(term, ctx, CALL_DEPTH_LIMIT)
}

/// Parses `expr` and evaluates the resulting tree against `ctx`.  A parse
/// error is reported without touching the environment; otherwise the
/// evaluation's optional value is returned and its environment kept.
pub fn eval_expr(expr: &str, ctx: &mut Context) -> (r: Result<Option<CompResult>, Error>)
    ensures
        match spec_parse(expr@) {
            Err(em) => r matches Err(e) && e@ == em && final(ctx)@ == old(ctx)@,
            Ok(t) => {
                let out = spec_eval(CALL_DEPTH_LIMIT as nat, t, old(ctx)@);
                &&& r matches Ok(v) && opt_comp_model(v) == out.0
                &&& final(ctx)@ == out.1
            },
        },
{
    let parser = Parser::new(expr);
    match parser.parse() {
        Err(e) => Err(e),
        Ok(oper) => Ok(eval(oper, ctx)),
    }
}

/// No assignment operator occurs anywhere in the tree.
pub open spec fn no_assign(t: OperandModel) -> bool
    decreases t,
{
    match t {
        OperandModel::Term(op, l, r) => op != Operator::Assign && no_assign(*l) && no_assign(*r),
        _ => true,
    }
}

/// Evaluating a tree with no assignment leaves the environment exactly as
/// it was: only an assignment ever writes to it, and a function body runs
/// in its own private environment.
pub proof fn lemma_eval_pure_preserves_ctx(fuel: nat, t: OperandModel, ctx: CtxModel)
    requires
        no_assign(t),
    ensures
        spec_eval(fuel, t, ctx).1 == ctx,
    decreases fuel, t, 0int,
{
    match t {
        OperandModel::Term(op, l, r) => {
            if op == Operator::Assign {
            } else if op == Operator::FnBody {
            } else if op == Operator::FnCall {
                lemma_eval_pure_preserves_ctx(fuel, *l, ctx);
                let (cal, ctx1) = spec_eval(fuel, *l, ctx);
                match cal {
                    Some(CompResultModel::Func(names, body)) => {
                        lemma_eval_args_pure_preserves_ctx(fuel, *r, ctx1);
                    },
                    _ => {},
                }
            } else {
                lemma_eval_pure_preserves_ctx(fuel, *l, ctx);
                let (lv, ctx1) = spec_eval(fuel, *l, ctx);
                if lv is Some {
                    lemma_eval_pure_preserves_ctx(fuel, *r, ctx1);
                }
            }
        },
        _ => {},
    }
}

/// Evaluating an argument spine with no assignment leaves the environment
/// exactly as it was.
pub proof fn lemma_eval_args_pure_preserves_ctx(fuel: nat, t: OperandModel, ctx: CtxModel)
    requires
        no_assign(t),
    ensures
        spec_eval_args(fuel, t, ctx).1 == ctx,
    decreases fuel, t, 1int,
{
    match t {
        OperandModel::Term(Operator::List, l, r) => {
            lemma_eval_pure_preserves_ctx(fuel, *r, ctx);
            let (v, ctx1) = spec_eval(fuel, *r, ctx);
            if v is Some {
                lemma_eval_args_pure_preserves_ctx(fuel, *l, ctx1);
            }
        },
        _ => {
            lemma_eval_pure_preserves_ctx(fuel, t, ctx);
        },
    }
}

/// Re-evaluating an expression with no assignment against the environment
/// it left behind yields the same outcome and the same environment: a pure
/// expression is idempotent.
pub proof fn lemma_pure_eval_idempotent(fuel: nat, t: OperandModel, ctx: CtxModel)
    requires
        no_assign(t),
    ensures
        spec_eval(fuel, t, ctx).1 == ctx,
        spec_eval(fuel, t, spec_eval(fuel, t, ctx).1) == spec_eval(fuel, t, ctx),
{
    lemma_eval_pure_preserves_ctx(fuel, t, ctx);
}

/// Parameter names joined with comma and space.
pub open spec fn join_names(args: Seq<Seq<char>>) -> Seq<char>
    decreases args.len(),
{
    if args.len() == 0 {
        Seq::empty()
    } else if args.len() == 1 {
        args[0]
    } else {
        join_names(args.drop_last()) + seq![',', ' '] + args.last()
    }
}

/// The text of an evaluation result: a signed decimal number, or a function
/// as its parameter list between bars followed by its fully parenthesised
/// body.
pub open spec fn render_comp(c: CompResultModel) -> Seq<char> {
    match c {
        CompResultModel::Num(n) => crate::show::dec_str(n as int),
        CompResultModel::Func(args, body) => seq!['|'] + join_names(args) + seq!['|', ' ']
            + crate::parser::render_operand(body),
    }
}

impl CompResult {
    /// The text of this result, per [`render_comp`].
    pub fn render(&self) -> (s: String)
        ensures
            s@ == render_comp(self@),
    {
        match self {
            CompResult::Num(n) => crate::show::i128_dec_string(*n),
            CompResult::Func(args, body) => {
                let ghost dv = args.deep_view();
                let mut s = String::new();
                crate::chars::push_char(&mut s, '|');
                let mut i: usize = 0;
                while i < args.len()
                    invariant
                        i <= args@.len(),
                        dv == args.deep_view(),
                        dv.len() == args@.len(),
                        forall|j: int| 0 <= j < dv.len() ==> dv[j] == args@[j]@,
                        s@ == seq!['|'] + join_names(dv.take(i as int)),
                    decreases args@.len() - i,
                {
                    if i > 0 {
                        crate::chars::push_char(&mut s, ',');
                        crate::chars::push_char(&mut s, ' ');
                    }
                    s.append(args[i].as_str());
                    proof {
                        assert(dv.take(i + 1).drop_last() =~= dv.take(i as int));
                        assert(dv.take(i + 1).last() == dv[i as int]);
                        if i == 0 {
                            assert(join_names(dv.take(1)) =~= dv[0]);
                        }
                        assert(s@ =~= seq!['|'] + join_names(dv.take(i + 1)));
                    }
                    i = i + 1;
                }
                crate::chars::push_char(&mut s, '|');
                crate::chars::push_char(&mut s, ' ');
                let bs = body.render();
                s.append(bs.as_str());
                proof {
                    assert(dv.take(dv.len() as int) =~= dv);
                    assert(s@ =~= render_comp(self@));
                }
                s
            },
        }
    }
}

} // verus!
