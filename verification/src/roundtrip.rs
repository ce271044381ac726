//! The parenthesisation round trip: parsing the fully parenthesised text of
//! a well-formed tree yields that tree back, structurally identical.

use vstd::prelude::*;
use crate::chars::{
    CharStop, scan_end, skip_ws, strip_spaces, spec_stops, is_word_char, is_space_char,
    lemma_skip_ws_bounds,
};
use crate::error::ErrorModel;
use crate::parser::{
    OperandModel, Operator, op_symbol, render_operand, spec_next, spec_parse, spec_parse_at,
    spec_op_prec, spec_step, spec_push_expr, spec_reduce_paren, spec_reduce_prec, spec_finish,
    spec_op_token, LexStep, TermModel,
};
use crate::reprs::{spec_parse_num, spec_radix_parse, radix_parse_core, valid_digits, digits_val,
    spec_digit_val};
use crate::show::{radix_chars, digit_chr};

verus! {

/// A variable name as the lexer emits it: the sigil, then word characters
/// or underscores.
pub open spec fn valid_var_name(name: Seq<char>) -> bool {
    &&& name.len() >= 1
    &&& name[0] == '$'
    &&& forall|i: int|
        1 <= i < name.len() ==> (is_word_char(#[trigger] name[i]) || name[i] == '_')
}

/// The operators whose rendered symbol reads back as the same operator: the
/// plain binary ones.  Assignment is excluded because a parenthesised
/// assignment does not parse (its precedence lies below the parenthesis
/// marker); the unary operators are excluded because their rendering
/// `(0 - x)` and `(0 ~ x)` reads back as a binary term.
pub open spec fn renderable_op(op: Operator) -> bool {
    ||| op == Operator::Add
    ||| op == Operator::Sub
    ||| op == Operator::Mul
    ||| op == Operator::Div
    ||| op == Operator::Remainder
    ||| op == Operator::Pow
    ||| op == Operator::BXor
    ||| op == Operator::BOr
    ||| op == Operator::BAnd
    ||| op == Operator::LShift
    ||| op == Operator::RShift
}

/// The trees whose fully parenthesised text reads back as the same tree:
/// non-negative number leaves, well-formed variable leaves, and the plain
/// binary operators over such trees.
pub open spec fn renderable(t: OperandModel) -> bool
    decreases t,
{
    match t {
        OperandModel::Num(n) => n >= 0,
        OperandModel::Var(name) => valid_var_name(name),
        OperandModel::FnArgs(_) => false,
        OperandModel::Term(op, l, r) => renderable_op(op) && renderable(*l) && renderable(*r),
    }
}

/// After the rendered text, the next non-whitespace character (if any) must
/// not extend a numeric or variable token.
pub open spec fn safe_follower(s: Seq<char>, from: int) -> bool {
    let p = skip_ws(s, from);
    p >= s.len() || (!is_word_char(s[p]) && s[p] != '_')
}

/// Whitespace may be skipped one character at a time.
proof fn lemma_skip_ws_through(s: Seq<char>, a: int, b: int)
    requires
        0 <= a <= b <= s.len(),
        forall|i: int| a <= i < b ==> is_space_char(#[trigger] s[i]),
    ensures
        skip_ws(s, a) == skip_ws(s, b),
    decreases b - a,
{
    if a < b {
        lemma_skip_ws_through(s, a + 1, b);
    }
}

/// The parse outcome depends on the cursor only through the whitespace skip.
proof fn lemma_parse_at_ws_agnostic(
    s: Seq<char>,
    p1: int,
    p2: int,
    flag: bool,
    operands: Seq<OperandModel>,
    operators: Seq<Operator>,
)
    requires
        skip_ws(s, p1) == skip_ws(s, p2),
    ensures
        spec_parse_at(s, p1, flag, operands, operators) == spec_parse_at(
            s,
            p2,
            flag,
            operands,
            operators,
        ),
{
    assert(spec_next(s, p1, flag) == spec_next(s, p2, flag));
}

/// A scan stops exactly at the first stopping character.
proof fn lemma_scan_end_at(s: Seq<char>, from: int, stop: CharStop, q: int)
    requires
        0 <= from <= q <= s.len(),
        forall|i: int| from <= i < q ==> !spec_stops(stop, #[trigger] s[i]),
        q == s.len() || spec_stops(stop, s[q]),
    ensures
        scan_end(s, from, stop) == q,
    decreases q - from,
{
    if from < q {
        lemma_scan_end_at(s, from + 1, stop, q);
    }
}

/// Stripping whitespace from a whitespace-free sequence changes nothing.
proof fn lemma_strip_spaces_id(s: Seq<char>)
    requires
        forall|i: int| 0 <= i < s.len() ==> !is_space_char(#[trigger] s[i]),
    ensures
        strip_spaces(s) == s,
    decreases s.len(),
{
    if s.len() > 0 {
        lemma_strip_spaces_id(s.drop_last());
        assert(strip_spaces(s) =~= s);
    }
}

/// Trailing whitespace is stripped away.
proof fn lemma_strip_spaces_trailing(s: Seq<char>, k: int)
    requires
        0 <= k <= s.len(),
        forall|i: int| k <= i < s.len() ==> is_space_char(#[trigger] s[i]),
    ensures
        strip_spaces(s) == strip_spaces(s.take(k)),
    decreases s.len() - k,
{
    if k < s.len() {
        lemma_strip_spaces_trailing(s.drop_last(), k);
        assert(s.drop_last().take(k) =~= s.take(k));
    } else {
        assert(s.take(k) =~= s);
    }
}

/// Every character of a digit string is a digit of its radix, and a digit
/// of a radix up to ten is never greater.
proof fn lemma_radix_chars_are_digits(m: int, radix: int)
    requires
        0 <= m,
        radix == 10,
    ensures
        valid_digits(radix_chars(m, radix), radix),
        forall|i: int|
            0 <= i < radix_chars(m, radix).len() ==> 0 <= spec_digit_val(
                #[trigger] radix_chars(m, radix)[i],
            ) < 10,
    decreases m,
{
    if m < radix {
        assert(spec_digit_val(digit_chr(m % radix)) == m % radix);
    } else {
        lemma_radix_chars_are_digits(m / radix, radix);
        vstd::arithmetic::div_mod::lemma_fundamental_div_mod(m, radix);
        assert(0 <= m % radix < radix);
        assert(spec_digit_val(digit_chr(m % radix)) == m % radix);
        assert(radix_chars(m, radix) == radix_chars(m / radix, radix).push(
            digit_chr(m % radix),
        ));
        assert forall|i: int| 0 <= i < radix_chars(m, radix).len() implies 0 <= spec_digit_val(
            #[trigger] radix_chars(m, radix)[i],
        ) < 10 by {
            if i < radix_chars(m / radix, radix).len() {
                assert(radix_chars(m, radix)[i] == radix_chars(m / radix, radix)[i]);
            }
        }
    }
}

/// Printing and re-reading a digit string gives the value back.
proof fn lemma_digits_val_of_chars(m: int, radix: int)
    requires
        0 <= m,
        radix == 10,
    ensures
        digits_val(radix_chars(m, radix), radix) == m,
    decreases m,
{
    lemma_radix_chars_are_digits(m, radix);
    if m < radix {
        vstd::arithmetic::div_mod::lemma_small_mod(m as nat, radix as nat);
        assert(spec_digit_val(digit_chr(m)) == m);
        let s = radix_chars(m, radix);
        assert(s =~= seq![digit_chr(m)]);
        assert(s.drop_last() =~= Seq::<char>::empty());
        assert(digits_val(s, radix) == digits_val(s.drop_last(), radix) * radix + spec_digit_val(
            s.last(),
        ));
        assert(digits_val(s.drop_last(), radix) == 0);
        assert(digits_val(s, radix) == m);
    } else {
        lemma_digits_val_of_chars(m / radix, radix);
        vstd::arithmetic::div_mod::lemma_fundamental_div_mod(m, radix);
        assert(spec_digit_val(digit_chr(m % radix)) == m % radix);
        let s = radix_chars(m, radix);
        assert(s.drop_last() =~= radix_chars(m / radix, radix));
        assert(s.last() == digit_chr(m % radix));
    }
}

/// A digit character of value below ten is an ASCII decimal digit and in
/// particular a word character, not a sign, a space, or a radix marker.
proof fn lemma_dec_digit_shape(c: char)
    requires
        0 <= spec_digit_val(c) < 10,
    ensures
        '0' <= c <= '9',
        is_word_char(c),
        !is_space_char(c),
        c != '-' && c != '+' && c != 'x' && c != 'h' && c != 'b',
{
}

/// The decimal text of a non-negative number decodes back to it.
proof fn lemma_parse_num_of_dec(n: i128)
    requires
        n >= 0,
    ensures
        spec_parse_num(radix_chars(n as int, 10)) == Some(n),
{
    let s = radix_chars(n as int, 10);
    lemma_radix_chars_are_digits(n as int, 10);
    lemma_digits_val_of_chars(n as int, 10);
    crate::show::lemma_radix_chars_nonempty(n as int, 10);
    assert forall|i: int| 0 <= i < s.len() implies '0' <= #[trigger] s[i] <= '9' by {
        lemma_dec_digit_shape(s[i]);
    }
    // No radix marker applies: the text is digits alone.
    assert(s[0] != '0' || s.len() == 1 || !(s[1] == 'x'));
    assert(s.last() != 'h' && s.last() != 'b');
    // The unmarked decimal attempt succeeds with the value itself.
    assert(!(s.len() >= 1 && (s[0] == '-' || s[0] == '+')));
    assert(spec_radix_parse(s, 10) == radix_parse_core(s, false, 10));
    assert(spec_radix_parse(s, 10) == Some(n));
}

/// Every character strictly before the whitespace skip's landing point is
/// whitespace.
proof fn lemma_skip_ws_spaces(s: Seq<char>, a: int, i: int)
    requires
        0 <= a <= s.len(),
        a <= i < skip_ws(s, a),
    ensures
        is_space_char(s[i]),
    decreases i - a,
{
    lemma_skip_ws_bounds(s, a);
    if a < i {
        lemma_skip_ws_spaces(s, a + 1, i);
    }
}

/// Skipping whitespace is idempotent.
proof fn lemma_skip_ws_idem(s: Seq<char>, a: int)
    requires
        0 <= a <= s.len(),
    ensures
        skip_ws(s, skip_ws(s, a)) == skip_ws(s, a),
{
    lemma_skip_ws_bounds(s, a);
}

/// Lexing at the decimal text of a non-negative number yields that number,
/// gluing any following whitespace into the token.
proof fn lemma_next_num(s: Seq<char>, pos: int, n: i128, flag: bool)
    requires
        n >= 0,
        0 <= pos,
        pos + radix_chars(n as int, 10).len() <= s.len(),
        s.subrange(pos, pos + radix_chars(n as int, 10).len() as int) == radix_chars(n as int, 10),
        safe_follower(s, pos + radix_chars(n as int, 10).len() as int),
    ensures
        spec_next(s, pos, flag) == LexStep::Tok(
            TermModel::Num(n),
            skip_ws(s, pos + radix_chars(n as int, 10).len() as int),
            true,
        ),
        skip_ws(s, skip_ws(s, pos + radix_chars(n as int, 10).len() as int)) == skip_ws(
            s,
            pos + radix_chars(n as int, 10).len() as int,
        ),
{
    let digits = radix_chars(n as int, 10);
    let l = digits.len() as int;
    lemma_radix_chars_are_digits(n as int, 10);
    assert forall|i: int| pos <= i < pos + l implies is_word_char(#[trigger] s[i])
        && !is_space_char(s[i]) by {
        assert(s[i] == digits[i - pos]);
        lemma_dec_digit_shape(digits[i - pos]);
    }
    let q = skip_ws(s, pos + l);
    lemma_skip_ws_bounds(s, pos + l);
    lemma_skip_ws_idem(s, pos + l);
    // The cursor is already at a non-space word character.
    assert(skip_ws(s, pos) == pos);
    // The numeric scan runs through the digits and any following spaces and
    // stops at the follower.
    assert forall|i: int| pos + 1 <= i < q implies !spec_stops(
        CharStop::NonNumeric,
        #[trigger] s[i],
    ) by {
        if i >= pos + l {
            lemma_skip_ws_spaces(s, pos + l, i);
        }
    }
    lemma_scan_end_at(s, pos + 1, CharStop::NonNumeric, q);
    // The token text strips to the digits themselves.
    let tok = s.subrange(pos, q);
    assert forall|i: int| l <= i < tok.len() implies is_space_char(#[trigger] tok[i]) by {
        lemma_skip_ws_spaces(s, pos + l, pos + i);
    }
    lemma_strip_spaces_trailing(tok, l);
    assert(tok.take(l) =~= digits);
    lemma_strip_spaces_id(digits);
    lemma_parse_num_of_dec(n);
}

/// Lexing at a well-formed variable name yields that variable.
proof fn lemma_next_var(s: Seq<char>, pos: int, name: Seq<char>, flag: bool)
    requires
        valid_var_name(name),
        0 <= pos,
        pos + name.len() <= s.len(),
        s.subrange(pos, pos + name.len() as int) == name,
        safe_follower(s, pos + name.len() as int),
    ensures
        spec_next(s, pos, flag) == LexStep::Tok(
            TermModel::Var(name),
            pos + name.len() as int,
            true,
        ),
{
    let l = name.len() as int;
    assert(s[pos] == name[0]);
    assert(skip_ws(s, pos) == pos);
    assert forall|i: int| pos + 1 <= i < pos + l implies !spec_stops(
        CharStop::NonVar,
        #[trigger] s[i],
    ) by {
        assert(s[i] == name[i - pos]);
    }
    if pos + l < s.len() {
        // The character right after the name ends the scan: a space does,
        // and a non-space one is the follower itself, which the premise
        // keeps out of the name alphabet.
        if !is_space_char(s[pos + l]) {
            assert(skip_ws(s, pos + l) == pos + l);
        }
        assert(spec_stops(CharStop::NonVar, s[pos + l]));
    }
    lemma_scan_end_at(s, pos + 1, CharStop::NonVar, pos + l);
    assert(s.subrange(pos, pos + l) == name);
}

/// Lexing at a rendered binary operator symbol, right after an operand,
/// yields that operator.
proof fn lemma_next_sym(s: Seq<char>, pos: int, op: Operator)
    requires
        renderable_op(op),
        0 <= pos,
        pos + op_symbol(op).len() < s.len(),
        s.subrange(pos, pos + op_symbol(op).len() as int) == op_symbol(op),
        s[pos + op_symbol(op).len() as int] == ' ',
    ensures
        spec_next(s, pos, true) == LexStep::Tok(
            TermModel::Operator(op),
            pos + op_symbol(op).len() as int,
            false,
        ),
{
    let sym = op_symbol(op);
    let w = sym.len() as int;
    let c = s[pos];
    assert(c == sym[0]);
    assert(skip_ws(s, pos) == pos);
    if w == 2 {
        assert(s[pos + 1] == sym[1]);
    }
    lemma_scan_end_at(s, pos + 1, CharStop::NotRun(c), pos + w);
    assert(spec_op_token(c, w, true) == Some(op));
}

/// Lexing at an opening parenthesis with no operand before it yields the
/// parenthesis itself.
proof fn lemma_next_lparen(s: Seq<char>, pos: int)
    requires
        0 <= pos < s.len(),
        s[pos] == '(',
    ensures
        spec_next(s, pos, false) == LexStep::Tok(TermModel::Lparen, pos + 1, false),
{
    assert(skip_ws(s, pos) == pos);
}

/// Lexing at a closing parenthesis yields it, preserving the operand flag.
proof fn lemma_next_rparen(s: Seq<char>, pos: int, flag: bool)
    requires
        0 <= pos < s.len(),
        s[pos] == ')',
    ensures
        spec_next(s, pos, flag) == LexStep::Tok(TermModel::Rparen, pos + 1, flag),
{
    assert(skip_ws(s, pos) == pos);
}

/// Where a rendered term stands in a larger text, each of its pieces
/// stands at its own offset.
proof fn lemma_carve_term(s: Seq<char>, pos: int, rl: Seq<char>, sym: Seq<char>, rr: Seq<char>)
    requires
        0 <= pos,
        pos + 4 + rl.len() + sym.len() + rr.len() <= s.len(),
        s.subrange(pos, pos + 4 + rl.len() + sym.len() + rr.len()) == seq!['('] + rl + seq![' ']
            + sym + seq![' '] + rr + seq![')'],
    ensures
        s[pos] == '(',
        s.subrange(pos + 1, pos + 1 + rl.len()) == rl,
        s[pos + 1 + rl.len()] == ' ',
        s.subrange(pos + 2 + rl.len(), pos + 2 + rl.len() + sym.len()) == sym,
        s[pos + 2 + rl.len() + sym.len()] == ' ',
        s.subrange(pos + 3 + rl.len() + sym.len(), pos + 3 + rl.len() + sym.len() + rr.len())
            == rr,
        s[pos + 3 + rl.len() + sym.len() + rr.len()] == ')',
{
    let ll = rl.len() as int;
    let w = sym.len() as int;
    let lr = rr.len() as int;
    let l = 4 + ll + w + lr;
    let rt = seq!['('] + rl + seq![' '] + sym + seq![' '] + rr + seq![')'];
    assert forall|i: int| 0 <= i < l implies #[trigger] rt[i] == s[pos + i] by {
        assert(s.subrange(pos, pos + l)[i] == s[pos + i]);
    }
    assert(rt[0] == '(');
    assert(s[pos + 0] == '(');
    assert(rt[1 + ll] == ' ');
    assert(s[pos + (1 + ll)] == ' ');
    assert(rt[2 + ll + w] == ' ');
    assert(s[pos + (2 + ll + w)] == ' ');
    assert(rt[3 + ll + w + lr] == ')');
    assert(s[pos + (3 + ll + w + lr)] == ')');
    assert forall|j: int| 0 <= j < ll implies s.subrange(pos + 1, pos + 1 + ll)[j] == rl[j] by {
        assert(rt[1 + j] == rl[j]);
        assert(s[pos + (1 + j)] == rt[1 + j]);
        assert(s.subrange(pos + 1, pos + 1 + ll)[j] == s[pos + 1 + j]);
    }
    assert(s.subrange(pos + 1, pos + 1 + ll) =~= rl);
    assert forall|j: int| 0 <= j < w implies s.subrange(pos + 2 + ll, pos + 2 + ll + w)[j]
        == sym[j] by {
        assert(rt[2 + ll + j] == sym[j]);
        assert(s[pos + (2 + ll + j)] == rt[2 + ll + j]);
        assert(s.subrange(pos + 2 + ll, pos + 2 + ll + w)[j] == s[pos + 2 + ll + j]);
    }
    assert(s.subrange(pos + 2 + ll, pos + 2 + ll + w) =~= sym);
    assert forall|j: int|
        0 <= j < lr implies s.subrange(pos + 3 + ll + w, pos + 3 + ll + w + lr)[j] == rr[j] by {
        assert(rt[3 + ll + w + j] == rr[j]);
        assert(s[pos + (3 + ll + w + j)] == rt[3 + ll + w + j]);
        assert(s.subrange(pos + 3 + ll + w, pos + 3 + ll + w + lr)[j] == s[pos + 3 + ll + w + j]);
    }
    assert(s.subrange(pos + 3 + ll + w, pos + 3 + ll + w + lr) =~= rr);
}

/// The first character of a rendered binary operator symbol is a plain
/// symbol character: not whitespace, not alphanumeric, not an underscore.
proof fn lemma_sym_first(op: Operator)
    requires
        renderable_op(op),
    ensures
        !is_space_char(op_symbol(op)[0]),
        !is_word_char(op_symbol(op)[0]),
        op_symbol(op)[0] != '_',
{
    match op {
        Operator::Add => assert(op_symbol(op)[0] == '+'),
        Operator::Sub => assert(op_symbol(op)[0] == '-'),
        Operator::Mul => assert(op_symbol(op)[0] == '*'),
        Operator::Div => assert(op_symbol(op)[0] == '/'),
        Operator::Remainder => assert(op_symbol(op)[0] == '%'),
        Operator::Pow => assert(op_symbol(op)[0] == '*'),
        Operator::BXor => assert(op_symbol(op)[0] == '^'),
        Operator::BOr => assert(op_symbol(op)[0] == '|'),
        Operator::BAnd => assert(op_symbol(op)[0] == '&'),
        Operator::LShift => assert(op_symbol(op)[0] == '<'),
        Operator::RShift => assert(op_symbol(op)[0] == '>'),
        _ => assert(false),
    }
}

/// Processing the rendered text of a well-formed tree from any stack state
/// pushes exactly that tree onto the operand stack, leaves the operator
/// stack as it was, moves the cursor past the text, and marks an operand
/// as last seen.
#[verifier::rlimit(100)]
proof fn lemma_parse_render_at(
    s: Seq<char>,
    pos: int,
    t: OperandModel,
    operands: Seq<OperandModel>,
    operators: Seq<Operator>,
)
    requires
        renderable(t),
        0 <= pos,
        pos + render_operand(t).len() <= s.len(),
        s.subrange(pos, pos + render_operand(t).len() as int) == render_operand(t),
        safe_follower(s, pos + render_operand(t).len() as int),
    ensures
        spec_parse_at(s, pos, false, operands, operators) == spec_parse_at(
            s,
            pos + render_operand(t).len() as int,
            true,
            operands.push(t),
            operators,
        ),
    decreases t,
{
    let rt = render_operand(t);
    let l = rt.len() as int;
    match t {
        OperandModel::Num(n) => {
            assert(rt == radix_chars(n as int, 10));
            lemma_next_num(s, pos, n, false);
            assert(spec_step(TermModel::Num(n), operands, operators) == Ok::<
                (Seq<OperandModel>, Seq<Operator>),
                ErrorModel,
            >((operands.push(t), operators)));
            lemma_parse_at_ws_agnostic(
                s,
                skip_ws(s, pos + l),
                pos + l,
                true,
                operands.push(t),
                operators,
            );
        },
        OperandModel::Var(name) => {
            lemma_next_var(s, pos, name, false);
            assert(spec_step(TermModel::Var(name), operands, operators) == Ok::<
                (Seq<OperandModel>, Seq<Operator>),
                ErrorModel,
            >((operands.push(t), operators)));
        },
        OperandModel::FnArgs(_) => {
            assert(false);
        },
        OperandModel::Term(op, lb, rb) => {
            let lt = *lb;
            let rtm = *rb;
            let rl = render_operand(lt);
            let rr = render_operand(rtm);
            let sym = op_symbol(op);
            let ll = rl.len() as int;
            let lr = rr.len() as int;
            let w = sym.len() as int;
            assert(rt == seq!['('] + rl + seq![' '] + sym + seq![' '] + rr + seq![')']);
            assert(l == 1 + ll + 1 + w + 1 + lr + 1);
            let pos_l = pos + 1;
            let pos_sym = pos_l + ll + 1;
            let pos_r = pos_sym + w + 1;
            let pos_rp = pos_r + lr;
            lemma_carve_term(s, pos, rl, sym, rr);
            // The opening parenthesis goes onto the operator stack.
            lemma_next_lparen(s, pos);
            let operators1 = operators.push(Operator::Lparen);
            assert(spec_step(TermModel::Lparen, operands, operators) == Ok::<
                (Seq<OperandModel>, Seq<Operator>),
                ErrorModel,
            >((operands, operators1)));
            assert(spec_parse_at(s, pos, false, operands, operators) == spec_parse_at(
                s,
                pos_l,
                false,
                operands,
                operators1,
            ));
            // The left subtree lands on the operand stack; the symbol that
            // follows it is its safe follower.
            assert(s[pos_sym] == sym[0]) by {
                assert(s.subrange(pos_sym, pos_sym + w)[0] == s[pos_sym]);
            }
            lemma_sym_first(op);
            assert(skip_ws(s, pos_l + ll) == pos_sym) by {
                lemma_skip_ws_through(s, pos_l + ll, pos_sym);
                assert(!is_space_char(s[pos_sym]));
            }
            assert(safe_follower(s, pos_l + ll)) by {
                assert(!is_word_char(s[pos_sym]) && s[pos_sym] != '_');
            }
            lemma_parse_render_at(s, pos_l, lt, operands, operators1);
            // The operator symbol pushes the operator over the parenthesis.
            lemma_parse_at_ws_agnostic(
                s,
                pos_l + ll,
                pos_sym,
                true,
                operands.push(lt),
                operators1,
            );
            lemma_next_sym(s, pos_sym, op);
            let operands1 = operands.push(lt);
            let operators2 = operators1.push(op);
            assert(spec_op_prec(op) != crate::parser::UNARY as int);
            assert(spec_reduce_prec(spec_op_prec(op), operands1, operators1) == Ok::<
                (Seq<OperandModel>, Seq<Operator>),
                ErrorModel,
            >((operands1, operators1)));
            assert(spec_step(TermModel::Operator(op), operands1, operators1) == Ok::<
                (Seq<OperandModel>, Seq<Operator>),
                ErrorModel,
            >((operands1, operators2)));
            assert(spec_parse_at(s, pos_sym, true, operands1, operators1) == spec_parse_at(
                s,
                pos_sym + w,
                false,
                operands1,
                operators2,
            ));
            // The right subtree lands on the operand stack; the closing
            // parenthesis is its safe follower.
            assert(skip_ws(s, pos_sym + w) == skip_ws(s, pos_r)) by {
                lemma_skip_ws_through(s, pos_sym + w, pos_r);
            }
            lemma_parse_at_ws_agnostic(s, pos_sym + w, pos_r, false, operands1, operators2);
            assert(safe_follower(s, pos_r + lr)) by {
                assert(skip_ws(s, pos_rp) == pos_rp);
            }
            lemma_parse_render_at(s, pos_r, rtm, operands1, operators2);
            // The closing parenthesis reduces the term and discards the
            // opening one.
            let operands2 = operands1.push(rtm);
            lemma_next_rparen(s, pos_rp, true);
            assert(spec_push_expr(operands2, operators2) == Ok::<
                (Seq<OperandModel>, Seq<Operator>),
                ErrorModel,
            >((operands.push(t), operators1))) by {
                assert(operands2.len() >= 2);
                assert(operands2[operands2.len() - 2] == lt);
                assert(operands2[operands2.len() - 1] == rtm);
                assert(operands2.take(operands2.len() - 2) =~= operands);
                assert(operators2.drop_last() =~= operators1);
                assert(OperandModel::Term(op, Box::new(lt), Box::new(rtm)) == t);
            }
            assert(spec_reduce_paren(operands2, operators2) == Ok::<
                (Seq<OperandModel>, Seq<Operator>),
                ErrorModel,
            >((operands.push(t), operators))) by {
                assert(operators2.last() == op);
                assert(op != Operator::Lparen && op != Operator::Sentinel);
                assert(operators1.last() == Operator::Lparen);
                assert(operators1.drop_last() =~= operators);
                assert(spec_reduce_paren(operands.push(t), operators1) == Ok::<
                    (Seq<OperandModel>, Seq<Operator>),
                    ErrorModel,
                >((operands.push(t), operators)));
            }
            assert(spec_step(TermModel::Rparen, operands2, operators2) == Ok::<
                (Seq<OperandModel>, Seq<Operator>),
                ErrorModel,
            >((operands.push(t), operators)));
            assert(spec_parse_at(s, pos_rp, true, operands2, operators2) == spec_parse_at(
                s,
                pos_rp + 1,
                true,
                operands.push(t),
                operators,
            ));
            assert(pos_rp + 1 == pos + l);
        },
    }
}

/// The parenthesisation round trip: rendering a well-formed tree to its
/// fully parenthesised text and parsing that text yields a structurally
/// identical tree.  The trees covered are exactly the renderable ones; an
/// assignment renders as a parenthesised `=`, which the parser rejects, and
/// a unary term renders as its binary `(0 - x)` encoding, which reads back
/// as subtraction.
pub proof fn lemma_render_round_trip(t: OperandModel)
    requires
        renderable(t),
    ensures
        spec_parse(render_operand(t)) == Ok::<OperandModel, ErrorModel>(t),
{
    let s = render_operand(t);
    let l = s.len() as int;
    assert(s.subrange(0, l) =~= s);
    assert(safe_follower(s, l)) by {
        lemma_skip_ws_bounds(s, l);
    }
    lemma_parse_render_at(s, 0, t, Seq::empty(), seq![Operator::Sentinel]);
    assert(spec_next(s, l, true) == LexStep::End) by {
        lemma_skip_ws_bounds(s, l);
    }
    let operands = Seq::<OperandModel>::empty().push(t);
    assert(spec_parse_at(s, l, true, operands, seq![Operator::Sentinel]) == spec_finish(
        operands,
        seq![Operator::Sentinel],
    ));
    assert(spec_finish(operands, seq![Operator::Sentinel]) == Ok::<OperandModel, ErrorModel>(t))
        by {
        assert(seq![Operator::Sentinel].len() == 1);
        assert(operands.len() == 1);
        assert(operands[0] == t);
    }
}

} // verus!
