//! Tokens, operators, the expression tree, and the lexer/parser that turn a
//! line of text into one such tree.

use vstd::prelude::*;
use crate::chars::{
    CharStop, scan_end, skip_ws, strip_spaces, spec_trim, scan_from, sub_vec, range_to_string,
    strip_range_to_string, trim_to_string, space_char, word_char, is_word_char,
    lemma_scan_end_bounds, lemma_skip_ws_bounds,
};
use crate::error::{Error, ErrorModel};
use crate::reprs::{parse_num, spec_parse_num};

verus! {

/// The closed set of operator tags.  `Sentinel` only ever marks the bottom of
/// the operator stack; `Lparen`/`Rparen` are pseudo-operators used while
/// parsing parenthesised groups; `FnBody` joins a parameter list with a
/// function body; `FnCall` applies a function value to its arguments, and
/// `List` chains the arguments of such a call.
#[derive(Eq, PartialEq, Structural, Debug, Clone, Copy)]
pub enum Operator {
    Sentinel,
    Add,
    Sub,
    Mul,
    Div,
    Remainder,
    Pow,
    Neg,
    BNot,
    BXor,
    BOr,
    BAnd,
    LShift,
    RShift,
    Lparen,
    Rparen,
    Assign,
    FnBody,
    FnCall,
    List,
}

/// An expression tree.  Unary operators are encoded as binary terms whose
/// left child is a synthesised `Num(0)`; a `FnArgs` leaf only ever stands as
/// the left child of a `FnBody` term.
#[derive(PartialEq, Debug)]
pub enum Operand {
    Num(i128),
    Term(Operator, Box<Operand>, Box<Operand>),
    Var(String),
    FnArgs(Vec<String>),
}

/// The mathematical shadow of [`Operand`], over character sequences.
pub enum OperandModel {
    Num(i128),
    Term(Operator, Box<OperandModel>, Box<OperandModel>),
    Var(Seq<char>),
    FnArgs(Seq<Seq<char>>),
}

/// The deep view of an expression tree.
pub open spec fn operand_model(o: Operand) -> OperandModel
    decreases o,
{
    match o {
        Operand::Num(n) => OperandModel::Num(n),
        Operand::Term(op, l, r) => OperandModel::Term(
            op,
            Box::new(operand_model(*l)),
            Box::new(operand_model(*r)),
        ),
        Operand::Var(name) => OperandModel::Var(name@),
        Operand::FnArgs(args) => OperandModel::FnArgs(args.deep_view()),
    }
}

impl View for Operand {
    type V = OperandModel;

    open spec fn view(&self) -> OperandModel {
        operand_model(*self)
    }
}

/// One token of the input: an operator symbol, a number, a variable, a
/// function parameter list, or a parenthesis.
#[derive(PartialEq, Debug)]
pub enum Term {
    Operator(Operator),
    Num(i128),
    Var(String),
    FnArgs(Vec<String>),
    Lparen,
    Rparen,
}

/// The mathematical shadow of [`Term`], over character sequences.
pub enum TermModel {
    Operator(Operator),
    Num(i128),
    Var(Seq<char>),
    FnArgs(Seq<Seq<char>>),
    Lparen,
    Rparen,
}

impl View for Term {
    type V = TermModel;

    open spec fn view(&self) -> TermModel {
        match self {
            Term::Operator(op) => TermModel::Operator(*op),
            Term::Num(n) => TermModel::Num(*n),
            Term::Var(name) => TermModel::Var(name@),
            Term::FnArgs(args) => TermModel::FnArgs(args.deep_view()),
            Term::Lparen => TermModel::Lparen,
            Term::Rparen => TermModel::Rparen,
        }
    }
}

/// The interior of a parameter list, split on commas, each piece trimmed,
/// starting at `from`.
pub open spec fn split_params_at(s: Seq<char>, from: int) -> Seq<Seq<char>>
    decreases s.len() - from,
    via split_params_at_decreases
{
    let e = scan_end(s, from, CharStop::Comma);
    let piece = spec_trim(s.subrange(if 0 <= from <= e { from } else { e }, e));
    if e >= s.len() {
        seq![piece]
    } else {
        seq![piece] + split_params_at(s, e + 1)
    }
}

#[via_fn]
proof fn split_params_at_decreases(s: Seq<char>, from: int) {
    if 0 <= from <= s.len() {
        lemma_scan_end_bounds(s, from, CharStop::Comma);
    }
}

/// The interior of a parameter list, split on commas, each piece trimmed.
pub open spec fn split_params(s: Seq<char>) -> Seq<Seq<char>> {
    split_params_at(s, 0)
}

/// Splits the interior of a parameter list on commas and trims each piece.
fn split_params_vec(interior: &Vec<char>) -> (ps: Vec<String>)
    ensures
        ps.deep_view() == split_params(interior@),
{
    let n = interior.len();
    let mut ps: Vec<String> = Vec::new();
    let mut cur: usize = 0;
    let mut brk = false;
    while !brk
        invariant
            cur <= n == interior@.len(),
            !brk ==> split_params(interior@) == ps.deep_view() + split_params_at(
                interior@,
                cur as int,
            ),
            brk ==> split_params(interior@) == ps.deep_view(),
        decreases n - cur + (if brk {
            0int
        } else {
            1
        }),
    {
        let e = scan_from(interior, cur, CharStop::Comma);
        let piece_v = sub_vec(interior, cur, e);
        let piece = trim_to_string(&piece_v);
        let ghost old_ps = ps.deep_view();
        ps.push(piece);
        proof {
            assert(ps.deep_view() =~= old_ps.push(piece@));
        }
        if e >= n {
            proof {
                assert(split_params_at(interior@, cur as int) =~= seq![piece@]);
                assert(ps.deep_view() =~= old_ps + seq![piece@]);
            }
            brk = true;
        } else {
            proof {
                assert(split_params_at(interior@, cur as int) =~= seq![piece@]
                    + split_params_at(interior@, e + 1));
                assert(old_ps + (seq![piece@] + split_params_at(interior@, e + 1))
                    =~= (old_ps + seq![piece@]) + split_params_at(interior@, e + 1));
            }
            cur = e + 1;
        }
    }
    ps
}

/// What symbol run `c` repeated `n` times means as an operator, `None` when
/// it is no known operator.  A lone minus is subtraction right after an
/// operand and negation elsewhere.
pub open spec fn spec_op_token(c: char, n: int, was_operand: bool) -> Option<Operator> {
    if c == '+' && n == 1 {
        Some(Operator::Add)
    } else if c == '-' && n == 1 && was_operand {
        Some(Operator::Sub)
    } else if c == '-' && n == 1 && !was_operand {
        Some(Operator::Neg)
    } else if c == '*' && n == 1 {
        Some(Operator::Mul)
    } else if c == '*' && n == 2 {
        Some(Operator::Pow)
    } else if c == '/' && n == 1 {
        Some(Operator::Div)
    } else if c == '%' && n == 1 {
        Some(Operator::Remainder)
    } else if c == '~' && n == 1 {
        Some(Operator::BNot)
    } else if c == '^' && n == 1 {
        Some(Operator::BXor)
    } else if c == '|' && n == 1 {
        Some(Operator::BOr)
    } else if c == '&' && n == 1 {
        Some(Operator::BAnd)
    } else if c == '<' && n == 2 {
        Some(Operator::LShift)
    } else if c == '>' && n == 2 {
        Some(Operator::RShift)
    } else if c == '=' && n == 1 {
        Some(Operator::Assign)
    } else if c == ',' && n == 1 {
        Some(Operator::List)
    } else {
        None
    }
}

/// Executable twin of [`spec_op_token`].
fn op_token(c: char, n: usize, was_operand: bool) -> (o: Option<Operator>)
    ensures
        o == spec_op_token(c, n as int, was_operand),
{
    if c == '+' && n == 1 {
        Some(Operator::Add)
    } else if c == '-' && n == 1 {
        if was_operand {
            Some(Operator::Sub)
        } else {
            Some(Operator::Neg)
        }
    } else if c == '*' && n == 1 {
        Some(Operator::Mul)
    } else if c == '*' && n == 2 {
        Some(Operator::Pow)
    } else if c == '/' && n == 1 {
        Some(Operator::Div)
    } else if c == '%' && n == 1 {
        Some(Operator::Remainder)
    } else if c == '~' && n == 1 {
        Some(Operator::BNot)
    } else if c == '^' && n == 1 {
        Some(Operator::BXor)
    } else if c == '|' && n == 1 {
        Some(Operator::BOr)
    } else if c == '&' && n == 1 {
        Some(Operator::BAnd)
    } else if c == '<' && n == 2 {
        Some(Operator::LShift)
    } else if c == '>' && n == 2 {
        Some(Operator::RShift)
    } else if c == '=' && n == 1 {
        Some(Operator::Assign)
    } else if c == ',' && n == 1 {
        Some(Operator::List)
    } else {
        None
    }
}

/// One step of the lexer: the end of input, a token together with the new
/// cursor and operand flag, or an error together with them.
pub enum LexStep {
    End,
    Tok(TermModel, int, bool),
    Fail(ErrorModel, int, bool),
}

/// What the lexer does at cursor `pos` with operand flag `was_operand`:
/// skip whitespace, then classify by the first character.  An alphanumeric
/// run (gluing whitespace) is a numeric token; a `$` starts a variable; a
/// `|` not after an operand opens a parameter list running to the matching
/// `|`; a `(` right after an operand is a function application; everything
/// else is a run of one repeated symbol read as an operator.
pub open spec fn spec_next(s: Seq<char>, pos: int, was_operand: bool) -> LexStep {
    let p = skip_ws(s, pos);
    if p >= s.len() {
        LexStep::End
    } else {
        let c = s[p];
        if is_word_char(c) {
            let e = scan_end(s, p + 1, CharStop::NonNumeric);
            let tok = strip_spaces(s.subrange(p, e));
            match spec_parse_num(tok) {
                Some(v) => LexStep::Tok(TermModel::Num(v), e, true),
                None => LexStep::Fail(ErrorModel::NumParseError(tok), e, true),
            }
        } else if c == '$' {
            let e = scan_end(s, p + 1, CharStop::NonVar);
            LexStep::Tok(TermModel::Var(s.subrange(p, e)), e, true)
        } else if c == '|' && !was_operand {
            let e = scan_end(s, p + 1, CharStop::Bar);
            if e >= s.len() {
                LexStep::Fail(ErrorModel::OperatorParseError(s.subrange(p, e)), e, true)
            } else {
                LexStep::Tok(TermModel::FnArgs(split_params(s.subrange(p + 1, e))), e + 1, false)
            }
        } else if c == '(' && was_operand {
            LexStep::Tok(TermModel::Operator(Operator::FnCall), p, false)
        } else if c == '(' {
            LexStep::Tok(TermModel::Lparen, p + 1, was_operand)
        } else if c == ')' {
            LexStep::Tok(TermModel::Rparen, p + 1, was_operand)
        } else {
            let e = scan_end(s, p + 1, CharStop::NotRun(c));
            match spec_op_token(c, e - p, was_operand) {
                Some(op) => LexStep::Tok(TermModel::Operator(op), e, false),
                None => LexStep::Fail(ErrorModel::OperatorParseError(s.subrange(p, e)), e,
                    was_operand),
            }
        }
    }
}

/// The lexer and parser state: the whole input, a cursor, and whether the
/// last token emitted was an operand (which disambiguates unary minus and
/// function application).
pub struct Parser {
    pub input: Vec<char>,
    pub pos: usize,
    pub last_was_operand: bool,
}

impl Parser {
    /// A fresh parser over `input`, at the start, with no operand seen yet.
    pub fn new(input: &str) -> (p: Parser)
        ensures
            p.input@ == input@,
            p.pos == 0,
            p.last_was_operand == false,
    {
        Parser { input: crate::chars::to_char_vec(input), pos: 0, last_was_operand: false }
    }

    /// Emits the next token per [`spec_next`], advancing the cursor, or
    /// `None` at the end of input.
    pub fn next(&mut self) -> (t: Option<Result<Term, Error>>)
        ensures
            final(self).input@ == old(self).input@,
            match spec_next(old(self).input@, old(self).pos as int, old(self).last_was_operand) {
                LexStep::End => t is None && final(self).pos == old(self).pos
                    && final(self).last_was_operand == old(self).last_was_operand,
                LexStep::Tok(tm, np, nf) => t matches Some(Ok(term)) && term@ == tm
                    && final(self).pos == np && final(self).last_was_operand == nf,
                LexStep::Fail(em, np, nf) => t matches Some(Err(err)) && err@ == em
                    && final(self).pos == np && final(self).last_was_operand == nf,
            },
    {
        let ghost pos0 = self.pos as int;
        let ghost flag0 = self.last_was_operand;
        let inp = &self.input;
        let n = inp.len();
        let mut p = self.pos;
        while p < n && space_char(inp[p])
            invariant
                n == inp@.len(),
                skip_ws(inp@, pos0) == skip_ws(inp@, p as int),
                p >= pos0,
            decreases n - p,
        {
            p = p + 1;
        }
        if p >= n {
            return None;
        }
        let c = inp[p];
        let was_operand = self.last_was_operand;
        if word_char(c) {
            let e = scan_from(inp, p + 1, CharStop::NonNumeric);
            let tok = strip_range_to_string(inp, p, e);
            self.pos = e;
            self.last_was_operand = true;
            match parse_num(tok.as_str()) {
                Ok(v) => Some(Ok(Term::Num(v))),
                Err(err) => Some(Err(err)),
            }
        } else if c == '$' {
            let e = scan_from(inp, p + 1, CharStop::NonVar);
            let name = range_to_string(inp, p, e);
            self.pos = e;
            self.last_was_operand = true;
            Some(Ok(Term::Var(name)))
        } else if c == '|' && !was_operand {
            let e = scan_from(inp, p + 1, CharStop::Bar);
            if e >= n {
                let run = range_to_string(inp, p, e);
                self.pos = e;
                self.last_was_operand = true;
                Some(Err(Error::OperatorParseError(run)))
            } else {
                let interior = sub_vec(inp, p + 1, e);
                let ps = split_params_vec(&interior);
                self.pos = e + 1;
                self.last_was_operand = false;
                Some(Ok(Term::FnArgs(ps)))
            }
        } else if c == '(' && was_operand {
            self.pos = p;
            self.last_was_operand = false;
            Some(Ok(Term::Operator(Operator::FnCall)))
        } else if c == '(' {
            self.pos = p + 1;
            Some(Ok(Term::Lparen))
        } else if c == ')' {
            self.pos = p + 1;
            Some(Ok(Term::Rparen))
        } else {
            let e = scan_from(inp, p + 1, CharStop::NotRun(c));
            match op_token(c, e - p, was_operand) {
                Some(op) => {
                    self.pos = e;
                    self.last_was_operand = false;
                    Some(Ok(Term::Operator(op)))
                },
                None => {
                    let run = range_to_string(inp, p, e);
                    self.pos = e;
                    Some(Err(Error::OperatorParseError(run)))
                },
            }
        }
    }
}


/// The precedence of the unary operator class: higher than every binary
/// operator.
pub const UNARY: i32 = 100_000;

/// The precedence of function application: higher still, so that a call
/// binds tighter than a unary operator in front of it.
pub const FNCALL_PREC: i32 = 1_000_000;

/// The numeric binding strength of each operator.  Ties reduce left to
/// right, which makes every binary operator left-associative.
pub open spec fn spec_op_prec(op: Operator) -> int {
    match op {
        Operator::Sentinel => -1,
        Operator::Assign => 0,
        Operator::Lparen => 2,
        Operator::Rparen => 2,
        Operator::List => 4,
        Operator::FnBody => 5,
        Operator::BOr => 10,
        Operator::BXor => 20,
        Operator::BAnd => 30,
        Operator::LShift => 40,
        Operator::RShift => 40,
        Operator::Add => 50,
        Operator::Sub => 50,
        Operator::Mul => 60,
        Operator::Div => 60,
        Operator::Remainder => 60,
        Operator::Pow => 70,
        Operator::BNot => UNARY as int,
        Operator::Neg => UNARY as int,
        Operator::FnCall => FNCALL_PREC as int,
    }
}

/// The views of a stack of operands.
pub open spec fn views_of(s: Seq<Operand>) -> Seq<OperandModel> {
    s.map_values(|o: Operand| o@)
}

/// One reduction: pop an operator and its two most recent operands and push
/// the combined term; fail with that operator when fewer than two operands
/// are on the stack.
pub open spec fn spec_push_expr(operands: Seq<OperandModel>, operators: Seq<Operator>) -> Result<
    (Seq<OperandModel>, Seq<Operator>),
    ErrorModel,
>
    recommends
        operators.len() >= 1,
{
    let op = operators.last();
    if operands.len() >= 2 {
        let l = operands[operands.len() - 2];
        let r = operands[operands.len() - 1];
        Ok(
            (
                operands.take(operands.len() - 2).push(
                    OperandModel::Term(op, Box::new(l), Box::new(r)),
                ),
                operators.drop_last(),
            ),
        )
    } else {
        Err(ErrorModel::ExprParseError(op))
    }
}

/// On a closing parenthesis: reduce until the matching opening parenthesis,
/// which is discarded; reaching the sentinel means the parenthesis never was
/// opened.
pub open spec fn spec_reduce_paren(
    operands: Seq<OperandModel>,
    operators: Seq<Operator>,
) -> Result<(Seq<OperandModel>, Seq<Operator>), ErrorModel>
    decreases operators.len(),
{
    if operators.len() == 0 {
        Err(ErrorModel::UnmatchedParenthError)
    } else if operators.last() == Operator::Lparen {
        Ok((operands, operators.drop_last()))
    } else if operators.last() == Operator::Sentinel {
        Err(ErrorModel::UnmatchedParenthError)
    } else {
        match spec_push_expr(operands, operators) {
            Ok(st) => spec_reduce_paren(st.0, st.1),
            Err(e) => Err(e),
        }
    }
}

/// On an incoming operator of precedence `p`: reduce while the operator on
/// top of the stack binds at least as tightly.
pub open spec fn spec_reduce_prec(
    p: int,
    operands: Seq<OperandModel>,
    operators: Seq<Operator>,
) -> Result<(Seq<OperandModel>, Seq<Operator>), ErrorModel>
    decreases operators.len(),
{
    if operators.len() == 0 {
        Ok((operands, operators))
    } else if p <= spec_op_prec(operators.last()) {
        match spec_push_expr(operands, operators) {
            Ok(st) => spec_reduce_prec(p, st.0, st.1),
            Err(e) => Err(e),
        }
    } else {
        Ok((operands, operators))
    }
}

/// What one token does to the two stacks.  A unary operator first pushes a
/// synthesised zero operand; a parameter list pushes itself as an operand
/// and a `FnBody` operator.
pub open spec fn spec_step(
    tok: TermModel,
    operands: Seq<OperandModel>,
    operators: Seq<Operator>,
) -> Result<(Seq<OperandModel>, Seq<Operator>), ErrorModel> {
    match tok {
        TermModel::Num(n) => Ok((operands.push(OperandModel::Num(n)), operators)),
        TermModel::Var(v) => Ok((operands.push(OperandModel::Var(v)), operators)),
        TermModel::Lparen => Ok((operands, operators.push(Operator::Lparen))),
        TermModel::Rparen => spec_reduce_paren(operands, operators),
        TermModel::FnArgs(args) => Ok(
            (operands.push(OperandModel::FnArgs(args)), operators.push(Operator::FnBody)),
        ),
        TermModel::Operator(op) => {
            let operands1 = if spec_op_prec(op) == UNARY as int {
                operands.push(OperandModel::Num(0))
            } else {
                operands
            };
            match spec_reduce_prec(spec_op_prec(op), operands1, operators) {
                Ok(st) => Ok((st.0, st.1.push(op))),
                Err(e) => Err(e),
            }
        },
    }
}

/// At the end of input: reduce until only the sentinel remains, then demand
/// exactly one operand.
pub open spec fn spec_finish(operands: Seq<OperandModel>, operators: Seq<Operator>) -> Result<
    OperandModel,
    ErrorModel,
>
    decreases operators.len(),
{
    if operators.len() > 1 {
        match spec_push_expr(operands, operators) {
            Ok(st) => spec_finish(st.0, st.1),
            Err(e) => Err(e),
        }
    } else if operands.len() == 1 {
        Ok(operands[0])
    } else {
        Err(ErrorModel::ExprTermsError)
    }
}

/// Running the parser from lexer state `(pos, flag)` with the given stacks:
/// lex one token at a time and fold it into the stacks, stopping at the
/// first lexing error.
pub open spec fn spec_parse_at(
    s: Seq<char>,
    pos: int,
    flag: bool,
    operands: Seq<OperandModel>,
    operators: Seq<Operator>,
) -> Result<OperandModel, ErrorModel>
    decreases s.len() - pos, (if flag { 1int } else { 0int }),
    via spec_parse_at_decreases
{
    match spec_next(s, pos, flag) {
        LexStep::End => spec_finish(operands, operators),
        LexStep::Fail(e, np, nf) => Err(e),
        LexStep::Tok(tm, np, nf) => match spec_step(tm, operands, operators) {
            Ok(st) => spec_parse_at(s, np, nf, st.0, st.1),
            Err(e) => Err(e),
        },
    }
}

#[via_fn]
proof fn spec_parse_at_decreases(
    s: Seq<char>,
    pos: int,
    flag: bool,
    operands: Seq<OperandModel>,
    operators: Seq<Operator>,
) {
    lemma_spec_next_advances(s, pos, flag);
}

/// A token never moves the cursor backwards, stays within the input, and
/// can only leave the cursor in place by clearing the operand flag (the
/// synthesised function-application token).
pub proof fn lemma_spec_next_advances(s: Seq<char>, pos: int, flag: bool)
    ensures
        match spec_next(s, pos, flag) {
            LexStep::End => true,
            LexStep::Tok(tm, np, nf) => pos <= np <= s.len() && (np == pos ==> flag && !nf),
            LexStep::Fail(e, np, nf) => true,
        },
{
    if 0 <= pos <= s.len() {
        lemma_skip_ws_bounds(s, pos);
        let p = skip_ws(s, pos);
        if p < s.len() {
            lemma_scan_end_bounds(s, p + 1, CharStop::NonNumeric);
            lemma_scan_end_bounds(s, p + 1, CharStop::NonVar);
            lemma_scan_end_bounds(s, p + 1, CharStop::Bar);
            lemma_scan_end_bounds(s, p + 1, CharStop::NotRun(s[p]));
        }
    }
}

/// What parsing the whole input from a fresh state yields.
pub open spec fn spec_parse(s: Seq<char>) -> Result<OperandModel, ErrorModel> {
    spec_parse_at(s, 0, false, Seq::empty(), seq![Operator::Sentinel])
}

impl Parser {
    /// The numeric binding strength of each operator; see [`spec_op_prec`].
    pub fn op_precedence(op: &Operator) -> (p: i32)
        ensures
            p as int == spec_op_prec(*op),
    {
        match op {
            Operator::Sentinel => -1,
            Operator::Assign => 0,
            Operator::Lparen => 2,
            Operator::Rparen => 2,
            Operator::List => 4,
            Operator::FnBody => 5,
            Operator::BOr => 10,
            Operator::BXor => 20,
            Operator::BAnd => 30,
            Operator::LShift => 40,
            Operator::RShift => 40,
            Operator::Add => 50,
            Operator::Sub => 50,
            Operator::Mul => 60,
            Operator::Div => 60,
            Operator::Remainder => 60,
            Operator::Pow => 70,
            Operator::BNot => UNARY,
            Operator::Neg => UNARY,
            Operator::FnCall => FNCALL_PREC,
        }
    }

    /// One reduction on the executable stacks; see [`spec_push_expr`].
    pub fn push_expr(operands: &mut Vec<Operand>, operators: &mut Vec<Operator>) -> (r: Result<
        (),
        Error,
    >)
        requires
            old(operators)@.len() >= 1,
        ensures
            match spec_push_expr(views_of(old(operands)@), old(operators)@) {
                Ok(st) => r is Ok && views_of(final(operands)@) == st.0 && final(operators)@
                    == st.1,
                Err(em) => r matches Err(err) && err@ == em,
            },
    {
        let ghost opnds0 = views_of(operands@);
        let right = operands.pop();
        let left = operands.pop();
        let last_oper = match operators.pop() {
            Some(op) => op,
            None => {
                proof {
                    assert(false);
                }
                Operator::Sentinel
            },
        };
        match (left, right) {
            (Some(left), Some(right)) => {
                operands.push(Operand::Term(last_oper, Box::new(left), Box::new(right)));
                proof {
                    let st = spec_push_expr(opnds0, old(operators)@)->Ok_0;
                    assert(views_of(operands@) =~= st.0);
                }
                Ok(())
            },
            _ => Err(Error::ExprParseError(last_oper)),
        }
    }

    /// Consumes the parser and reduces the whole token stream to one
    /// expression tree, per [`spec_parse_at`].
    /// Consumes the parser and reduces the whole token stream to one
    /// expression tree, per [`spec_parse_at`].
    pub fn parse(self) -> (r: Result<Operand, Error>)
        ensures
            match r {
                Ok(o) => spec_parse_at(
                    self.input@,
                    self.pos as int,
                    self.last_was_operand,
                    Seq::empty(),
                    seq![Operator::Sentinel],
                ) == Ok::<OperandModel, ErrorModel>(o@),
                Err(e) => spec_parse_at(
                    self.input@,
                    self.pos as int,
                    self.last_was_operand,
                    Seq::empty(),
                    seq![Operator::Sentinel],
                ) == Err::<OperandModel, ErrorModel>(e@),
            },
    {
        let ghost s = self.input@;
        let ghost goal = spec_parse_at(
            s,
            self.pos as int,
            self.last_was_operand,
            Seq::empty(),
            seq![Operator::Sentinel],
        );
        let mut parser = self;
        let mut operands: Vec<Operand> = Vec::new();
        let mut operators: Vec<Operator> = Vec::new();
        operators.push(Operator::Sentinel);
        proof {
            assert(views_of(operands@) =~= Seq::<OperandModel>::empty());
            assert(operators@ =~= seq![Operator::Sentinel]);
        }
        loop
            invariant
                s == self.input@,
                goal == spec_parse_at(
                    s,
                    self.pos as int,
                    self.last_was_operand,
                    Seq::empty(),
                    seq![Operator::Sentinel],
                ),
                parser.input@ == s,
                goal == spec_parse_at(
                    s,
                    parser.pos as int,
                    parser.last_was_operand,
                    views_of(operands@),
                    operators@,
                ),
            ensures
                goal == spec_finish(views_of(operands@), operators@),
            decreases s.len() - parser.pos, (if parser.last_was_operand {
                1int
            } else {
                0int
            }),
        {
            proof {
                lemma_spec_next_advances(s, parser.pos as int, parser.last_was_operand);
            }
            match parser.next() {
                None => {
                    break ;
                },
                Some(Err(e)) => {
                    return Err(e);
                },
                Some(Ok(term)) => {
                    let ghost opnds0 = views_of(operands@);
                    let ghost oprs0 = operators@;
                    match term {
                        Term::Num(num) => {
                            operands.push(Operand::Num(num));
                            proof {
                                assert(views_of(operands@) =~= opnds0.push(
                                    OperandModel::Num(num),
                                ));
                            }
                        },
                        Term::Var(name) => {
                            let ghost nm = name@;
                            operands.push(Operand::Var(name));
                            proof {
                                assert(views_of(operands@) =~= opnds0.push(OperandModel::Var(nm)));
                            }
                        },
                        Term::Lparen => {
                            operators.push(Operator::Lparen);
                        },
                        Term::Rparen => {
                            loop
                                invariant_except_break
                                    match spec_reduce_paren(views_of(operands@), operators@) {
                                        Ok(st) => goal == spec_parse_at(
                                            s,
                                            parser.pos as int,
                                            parser.last_was_operand,
                                            st.0,
                                            st.1,
                                        ),
                                        Err(em) => goal == Err::<OperandModel, ErrorModel>(em),
                                    },
                                invariant
                                    s == self.input@,
                                    goal == spec_parse_at(
                                        s,
                                        self.pos as int,
                                        self.last_was_operand,
                                        Seq::empty(),
                                        seq![Operator::Sentinel],
                                    ),
                                ensures
                                    goal == spec_parse_at(
                                        s,
                                        parser.pos as int,
                                        parser.last_was_operand,
                                        views_of(operands@),
                                        operators@,
                                    ),
                                decreases operators@.len(),
                            {
                                let stop = match operators.last() {
                                    None => {
                                        return Err(Error::UnmatchedParenthError);
                                    },
                                    Some(op) => {
                                        if *op == Operator::Lparen {
                                            true
                                        } else if *op == Operator::Sentinel {
                                            return Err(Error::UnmatchedParenthError);
                                        } else {
                                            false
                                        }
                                    },
                                };
                                if stop {
                                    operators.pop();
                                    break ;
                                }
                                match Parser::push_expr(&mut operands, &mut operators) {
                                    Ok(()) => {},
                                    Err(e) => {
                                        return Err(e);
                                    },
                                }
                            }
                        },
                        Term::FnArgs(args) => {
                            let ghost ag = args.deep_view();
                            operands.push(Operand::FnArgs(args));
                            operators.push(Operator::FnBody);
                            proof {
                                assert(views_of(operands@) =~= opnds0.push(
                                    OperandModel::FnArgs(ag),
                                ));
                            }
                        },
                        Term::Operator(oper) => {
                            let prec = Parser::op_precedence(&oper);
                            if prec == UNARY {
                                let ghost before = views_of(operands@);
                                operands.push(Operand::Num(0));
                                proof {
                                    assert(views_of(operands@) =~= before.push(
                                        OperandModel::Num(0),
                                    ));
                                }
                            }
                            loop
                                invariant_except_break
                                    match spec_reduce_prec(
                                        prec as int,
                                        views_of(operands@),
                                        operators@,
                                    ) {
                                        Ok(st) => goal == spec_parse_at(
                                            s,
                                            parser.pos as int,
                                            parser.last_was_operand,
                                            st.0,
                                            st.1.push(oper),
                                        ),
                                        Err(em) => goal == Err::<OperandModel, ErrorModel>(em),
                                    },
                                invariant
                                    s == self.input@,
                                    goal == spec_parse_at(
                                        s,
                                        self.pos as int,
                                        self.last_was_operand,
                                        Seq::empty(),
                                        seq![Operator::Sentinel],
                                    ),
                                ensures
                                    goal == spec_parse_at(
                                        s,
                                        parser.pos as int,
                                        parser.last_was_operand,
                                        views_of(operands@),
                                        operators@.push(oper),
                                    ),
                                decreases operators@.len(),
                            {
                                let keep = match operators.last() {
                                    None => false,
                                    Some(op) => prec <= Parser::op_precedence(op),
                                };
                                if !keep {
                                    break ;
                                }
                                match Parser::push_expr(&mut operands, &mut operators) {
                                    Ok(()) => {},
                                    Err(e) => {
                                        return Err(e);
                                    },
                                }
                            }
                            operators.push(oper);
                        },
                    }
                },
            }
        }
        while operators.len() > 1
            invariant
                s == self.input@,
                goal == spec_parse_at(
                    s,
                    self.pos as int,
                    self.last_was_operand,
                    Seq::empty(),
                    seq![Operator::Sentinel],
                ),
                goal == spec_finish(views_of(operands@), operators@),
            decreases operators@.len(),
        {
            match Parser::push_expr(&mut operands, &mut operators) {
                Ok(()) => {},
                Err(e) => {
                    return Err(e);
                },
            }
        }
        if operands.len() == 1 {
            let res = match operands.pop() {
                Some(o) => o,
                None => {
                    proof {
                        assert(false);
                    }
                    Operand::Num(0)
                },
            };
            Ok(res)
        } else {
            Err(Error::ExprTermsError)
        }
    }
}

/// The textual symbol of each operator, as the renderer prints it.  The
/// sentinel and function application have no surface syntax; they are given
/// placeholder glyphs so that rendering stays total.
pub open spec fn op_symbol(op: Operator) -> Seq<char> {
    match op {
        Operator::Sentinel => seq!['#'],
        Operator::Add => seq!['+'],
        Operator::Sub => seq!['-'],
        Operator::Mul => seq!['*'],
        Operator::Div => seq!['/'],
        Operator::Remainder => seq!['%'],
        Operator::Pow => seq!['*', '*'],
        Operator::Neg => seq!['-'],
        Operator::BNot => seq!['~'],
        Operator::BXor => seq!['^'],
        Operator::BOr => seq!['|'],
        Operator::BAnd => seq!['&'],
        Operator::LShift => seq!['<', '<'],
        Operator::RShift => seq!['>', '>'],
        Operator::Lparen => seq!['('],
        Operator::Rparen => seq![')'],
        Operator::Assign => seq!['='],
        Operator::FnBody => seq!['-', '>'],
        Operator::FnCall => seq!['@'],
        Operator::List => seq![','],
    }
}

/// Appends the symbol of `op` to `s`.
pub fn push_op_symbol(s: &mut String, op: Operator)
    ensures
        final(s)@ == old(s)@ + op_symbol(op),
{
    let ghost before = s@;
    match op {
        Operator::Sentinel => crate::chars::push_char(s, '#'),
        Operator::Add => crate::chars::push_char(s, '+'),
        Operator::Sub => crate::chars::push_char(s, '-'),
        Operator::Mul => crate::chars::push_char(s, '*'),
        Operator::Div => crate::chars::push_char(s, '/'),
        Operator::Remainder => crate::chars::push_char(s, '%'),
        Operator::Pow => {
            crate::chars::push_char(s, '*');
            crate::chars::push_char(s, '*');
        },
        Operator::Neg => crate::chars::push_char(s, '-'),
        Operator::BNot => crate::chars::push_char(s, '~'),
        Operator::BXor => crate::chars::push_char(s, '^'),
        Operator::BOr => crate::chars::push_char(s, '|'),
        Operator::BAnd => crate::chars::push_char(s, '&'),
        Operator::LShift => {
            crate::chars::push_char(s, '<');
            crate::chars::push_char(s, '<');
        },
        Operator::RShift => {
            crate::chars::push_char(s, '>');
            crate::chars::push_char(s, '>');
        },
        Operator::Lparen => crate::chars::push_char(s, '('),
        Operator::Rparen => crate::chars::push_char(s, ')'),
        Operator::Assign => crate::chars::push_char(s, '='),
        Operator::FnBody => {
            crate::chars::push_char(s, '-');
            crate::chars::push_char(s, '>');
        },
        Operator::FnCall => crate::chars::push_char(s, '@'),
        Operator::List => crate::chars::push_char(s, ','),
    }
    proof {
        assert(s@ =~= before + op_symbol(op));
    }
}

/// The interior of a rendered parameter list: each name quoted, separated
/// by comma and space.
pub open spec fn render_args_inner(args: Seq<Seq<char>>) -> Seq<char>
    decreases args.len(),
{
    if args.len() == 0 {
        Seq::empty()
    } else if args.len() == 1 {
        seq!['"'] + args[0] + seq!['"']
    } else {
        render_args_inner(args.drop_last()) + seq![',', ' ', '"'] + args.last() + seq!['"']
    }
}

/// A rendered parameter list: the quoted names in brackets.
pub open spec fn render_args(args: Seq<Seq<char>>) -> Seq<char> {
    seq!['['] + render_args_inner(args) + seq![']']
}

/// The fully parenthesised text of an expression tree: every term renders
/// as `(left symbol right)`, numbers in signed decimal, variables by name,
/// parameter lists in brackets.
pub open spec fn render_operand(t: OperandModel) -> Seq<char>
    decreases t,
{
    match t {
        OperandModel::Num(n) => crate::show::dec_str(n as int),
        OperandModel::Var(name) => name,
        OperandModel::FnArgs(args) => render_args(args),
        OperandModel::Term(op, l, r) => seq!['('] + render_operand(*l) + seq![' '] + op_symbol(op)
            + seq![' '] + render_operand(*r) + seq![')'],
    }
}

/// Renders a parameter-name vector per [`render_args`].
fn render_args_vec(args: &Vec<String>) -> (s: String)
    ensures
        s@ == render_args(args.deep_view()),
{
    let ghost dv = args.deep_view();
    let mut s = String::new();
    crate::chars::push_char(&mut s, '[');
    let mut i: usize = 0;
    while i < args.len()
        invariant
            i <= args@.len(),
            dv == args.deep_view(),
            dv.len() == args@.len(),
            forall|j: int| 0 <= j < dv.len() ==> dv[j] == args@[j]@,
            s@ == seq!['['] + render_args_inner(dv.take(i as int)),
        decreases args@.len() - i,
    {
        if i > 0 {
            crate::chars::push_char(&mut s, ',');
            crate::chars::push_char(&mut s, ' ');
        }
        crate::chars::push_char(&mut s, '"');
        let ghost before = s@;
        s.append(args[i].as_str());
        crate::chars::push_char(&mut s, '"');
        proof {
            assert(dv.take(i + 1).drop_last() =~= dv.take(i as int));
            assert(dv.take(i + 1).last() == dv[i as int]);
            if i == 0 {
                assert(render_args_inner(dv.take(1)) =~= seq!['"'] + dv[0] + seq!['"']);
            }
            assert(s@ =~= seq!['['] + render_args_inner(dv.take(i + 1)));
        }
        i = i + 1;
    }
    crate::chars::push_char(&mut s, ']');
    proof {
        assert(dv.take(dv.len() as int) =~= dv);
        assert(s@ =~= render_args(dv));
    }
    s
}

impl Operand {
    /// The fully parenthesised text of this tree, per [`render_operand`].
    pub fn render(&self) -> (s: String)
        ensures
            s@ == render_operand(self@),
        decreases self,
    {
        match self {
            Operand::Num(n) => crate::show::i128_dec_string(*n),
            Operand::Var(name) => name.clone(),
            Operand::FnArgs(args) => render_args_vec(args),
            Operand::Term(op, l, r) => {
                let mut s = String::new();
                crate::chars::push_char(&mut s, '(');
                let ls = l.render();
                s.append(ls.as_str());
                crate::chars::push_char(&mut s, ' ');
                push_op_symbol(&mut s, *op);
                crate::chars::push_char(&mut s, ' ');
                let rs = r.render();
                s.append(rs.as_str());
                crate::chars::push_char(&mut s, ')');
                proof {
                    assert(s@ =~= render_operand(self@));
                }
                s
            },
        }
    }
}

} // verus!
