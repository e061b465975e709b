//! Laws that relate the scanner, the parser and the machine.
use crate::common::{NumberView, OpView, ValueView};
use crate::compile::compiled;
use crate::parse::{Code, climb, infix_ops, parse_expr, parse_program, parse_statement, prefix, then_emit};
use crate::tokens::{
    binding_power, digits_end, is_digit, lexeme, scan, skip, tokens_from, tokens_of, word_end, word_kind, Kind, TokenView,
};
use crate::vm::{fail, numeric_op, step, NumericOp, RequestView, Step};
use vstd::prelude::*;

verus! {

/// A binary arithmetic or comparison instruction on two numbers hands the
/// caller the left operand first, whatever the two numbers are: `x - y` asks
/// for `x - y`, never `y - x`, and likewise for `/`.
pub proof fn law_numeric_operands_in_order(op: OpView, s: Seq<ValueView>, x: NumberView, y: NumberView)
    requires
        numeric_op(op) is Some,
    ensures
        step(op, s.push(ValueView::Number(x)).push(ValueView::Number(y)))
            == Step::Yield(RequestView::Binary(numeric_op(op)->Some_0, x, y), s),
{
    let st = s.push(ValueView::Number(x)).push(ValueView::Number(y));
    assert(st.subrange(0, st.len() - 2) =~= s);
}

/// Adding two strings leaves their concatenation, left first: `"a" + "b"`
/// gives `"ab"`.
pub proof fn law_string_concatenation(s: Seq<ValueView>, a: Seq<char>, b: Seq<char>)
    ensures
        step(OpView::Add, s.push(ValueView::Str(a)).push(ValueView::Str(b)))
            == Step::Continue(s.push(ValueView::Str(a + b))),
{
    let st = s.push(ValueView::Str(a)).push(ValueView::Str(b));
    assert(st.subrange(0, st.len() - 2) =~= s);
}

/// Adding a Boolean and a number is a run-time error, never a coercion.
pub proof fn law_add_boolean_number_fails(s: Seq<ValueView>, b: bool, n: NumberView)
    ensures
        step(OpView::Add, s.push(ValueView::Boolean(b)).push(ValueView::Number(n))) == fail(s),
        step(OpView::Add, s.push(ValueView::Number(n)).push(ValueView::Boolean(b))) == fail(s),
{
    let st = s.push(ValueView::Boolean(b)).push(ValueView::Number(n));
    assert(st.subrange(0, st.len() - 2) =~= s);
    let st2 = s.push(ValueView::Number(n)).push(ValueView::Boolean(b));
    assert(st2.subrange(0, st2.len() - 2) =~= s);
}

/// Equality between values of different variants is a run-time error; `nil
/// == nil` gives true; two numbers go to the caller to compare.
pub proof fn law_equality_by_variant(s: Seq<ValueView>, n: NumberView, m: NumberView, b: bool)
    ensures
        step(OpView::Equal, s.push(ValueView::Number(n)).push(ValueView::Boolean(b))) == fail(s),
        step(OpView::Equal, s.push(ValueView::Nil).push(ValueView::Nil))
            == Step::Continue(s.push(ValueView::Boolean(true))),
        step(OpView::Equal, s.push(ValueView::Number(n)).push(ValueView::Number(m)))
            == Step::Yield(RequestView::Binary(NumericOp::Equal, n, m), s),
{
    let st = s.push(ValueView::Number(n)).push(ValueView::Boolean(b));
    assert(st.subrange(0, st.len() - 2) =~= s);
    let st2 = s.push(ValueView::Nil).push(ValueView::Nil);
    assert(st2.subrange(0, st2.len() - 2) =~= s);
    let st3 = s.push(ValueView::Number(n)).push(ValueView::Number(m));
    assert(st3.subrange(0, st3.len() - 2) =~= s);
}

pub open spec fn operator_token(k: Kind, line: int) -> TokenView {
    TokenView { kind: k, line }
}

/// A suffix cannot continue a parse at `prec`: it is empty, or its first
/// token binds no more strongly than `prec`, nor than a unary operator's operand.
pub open spec fn stops(sfx: Seq<TokenView>, prec: int) -> bool {
    sfx.len() == 0 || (binding_power(sfx[0].kind) <= prec && binding_power(sfx[0].kind) <= 5)
}

proof fn lemma_prefix_suffix(ts: Seq<TokenView>, sfx: Seq<TokenView>)
    requires
        prefix(ts) is Some,
        prefix(ts)->Some_0.1.len() > 0 || stops(sfx, 5),
    ensures
        prefix(ts + sfx) == Some((prefix(ts)->Some_0.0, prefix(ts)->Some_0.1 + sfx)),
    decreases ts.len(), 1int,
{
    let t = ts[0];
    let rest = ts.drop_first();
    assert((ts + sfx)[0] == t);
    assert((ts + sfx).drop_first() =~= rest + sfx);
    let p = binding_power(t.kind);
    match t.kind {
        Kind::Bang | Kind::Plus | Kind::Minus | Kind::LeftParen => {
            lemma_expr_suffix(rest, p, sfx);
            if let Kind::LeftParen = t.kind {
                let r = parse_expr(rest, p)->Some_0.1;
                assert((r + sfx)[0] == r[0]);
                assert((r + sfx).drop_first() =~= r.drop_first() + sfx);
            }
        },
        _ => {},
    }
}

proof fn lemma_expr_suffix(ts: Seq<TokenView>, prec: int, sfx: Seq<TokenView>)
    requires
        parse_expr(ts, prec) is Some,
        parse_expr(ts, prec)->Some_0.1.len() > 0 || stops(sfx, prec),
    ensures
        parse_expr(ts + sfx, prec) == Some((parse_expr(ts, prec)->Some_0.0, parse_expr(ts, prec)->Some_0.1 + sfx)),
    decreases ts.len(), 2int,
{
    let (c0, r0) = prefix(ts)->Some_0;
    if r0.len() == 0 {
        assert(climb(r0, prec, c0) == Some((c0, r0)));
    }
    lemma_prefix_suffix(ts, sfx);
    lemma_climb_suffix(r0, prec, c0, sfx);
}

proof fn lemma_climb_suffix(ts: Seq<TokenView>, prec: int, left: Code, sfx: Seq<TokenView>)
    requires
        climb(ts, prec, left) is Some,
        climb(ts, prec, left)->Some_0.1.len() > 0 || stops(sfx, prec),
    ensures
        climb(ts + sfx, prec, left) == Some((climb(ts, prec, left)->Some_0.0, climb(ts, prec, left)->Some_0.1 + sfx)),
    decreases ts.len(), 0int,
{
    if ts.len() > 0 {
        assert((ts + sfx)[0] == ts[0]);
    }
    if ts.len() > 0 && prec < binding_power(ts[0].kind) {
        let t = ts[0];
        let ops = infix_ops(t.kind, t.line)->Some_0;
        let (right, r1) = parse_expr(ts.drop_first(), binding_power(t.kind))->Some_0;
        assert((ts + sfx).drop_first() =~= ts.drop_first() + sfx);
        if r1.len() == 0 {
            assert(climb(r1, prec, left + right + ops) == Some((left + right + ops, r1)));
        }
        lemma_expr_suffix(ts.drop_first(), binding_power(t.kind), sfx);
        lemma_climb_suffix(r1, prec, left + right + ops, sfx);
    } else if ts.len() == 0 {
        assert(ts + sfx =~= sfx);
    }
}

/// Climbing at a lower precedence is climbing at a higher one, then going on
/// at the lower one.
proof fn lemma_climb_split(ts: Seq<TokenView>, low: int, high: int, left: Code)
    requires
        low <= high,
    ensures
        climb(ts, low, left) == match climb(ts, high, left) {
            Some((c, r)) => climb(r, low, c),
            None => None,
        },
    decreases ts.len(),
{
    if ts.len() > 0 && high < binding_power(ts[0].kind) {
        let t = ts[0];
        if let Some(ops) = infix_ops(t.kind, t.line) {
            if let Some((right, r)) = parse_expr(ts.drop_first(), binding_power(t.kind)) {
                if r.len() < ts.len() {
                    lemma_climb_split(r, low, high, left + right + ops);
                }
            }
        }
    }
}

/// Whether the tokens form one whole expression at precedence `prec`.
pub open spec fn whole(ts: Seq<TokenView>, prec: int) -> bool {
    parse_expr(ts, prec) matches Some((_, r)) && r.len() == 0
}

/// The code of a whole expression.
pub open spec fn operand(ts: Seq<TokenView>, prec: int) -> Code {
    parse_expr(ts, prec)->Some_0.0
}

/// `x op y` for an operator of binding power 3 to 5, where `x` and `y` are
/// whole operands at that power: x's code, y's code, then the operator's.
proof fn lemma_infix_of_operands(xs: Seq<TokenView>, ys: Seq<TokenView>, k: Kind, lo: int)
    requires
        infix_ops(k, lo) is Some,
        3 <= binding_power(k) <= 5,
        whole(xs, binding_power(k)),
        whole(ys, binding_power(k)),
    ensures
        parse_expr(xs + seq![operator_token(k, lo)] + ys, 0) == Some((
            operand(xs, binding_power(k)) + operand(ys, binding_power(k)) + infix_ops(k, lo)->Some_0,
            Seq::<TokenView>::empty(),
        )),
{
    let b = binding_power(k);
    let sfx = seq![operator_token(k, lo)] + ys;
    let ts = xs + seq![operator_token(k, lo)] + ys;
    assert(ts =~= xs + sfx);
    let x = operand(xs, b);
    let y = operand(ys, b);
    let ops = infix_ops(k, lo)->Some_0;
    assert(sfx[0] == operator_token(k, lo));
    lemma_expr_suffix(xs, b, sfx);
    let (c0, r0) = prefix(ts)->Some_0;
    lemma_climb_split(r0, 0, b, c0);
    assert(sfx.drop_first() =~= ys);
    assert(parse_expr(ys, b)->Some_0.1 =~= Seq::<TokenView>::empty());
    assert(parse_expr(sfx.drop_first(), b) == Some((y, Seq::<TokenView>::empty())));
    assert(climb(Seq::<TokenView>::empty(), 0, x + y + ops) == Some((x + y + ops, Seq::<TokenView>::empty())));
    assert(climb(sfx, 0, x) == Some((x + y + ops, Seq::<TokenView>::empty())));
}

/// `x >= y`, `x <= y` and `x != y` compile as `x < y`, `x > y` and `x == y`
/// followed by a negation: [x, y, Less, Not], [x, y, Greater, Not] and
/// [x, y, Equal, Not], for any operands `x` and `y` that are whole operands
/// of the operator (outside parentheses they hold no operator that binds as
/// loosely as it does).
pub proof fn law_rewritten_comparisons(xs: Seq<TokenView>, ys: Seq<TokenView>, lo: int)
    ensures
        whole(xs, 4) && whole(ys, 4) ==> {
            &&& parse_expr(xs + seq![operator_token(Kind::GreaterEqual, lo)] + ys, 0) == Some((
                operand(xs, 4) + operand(ys, 4) + seq![(OpView::Less, lo), (OpView::Not, lo)],
                Seq::<TokenView>::empty(),
            ))
            &&& parse_expr(xs + seq![operator_token(Kind::GreaterEqual, lo)] + ys, 0) == then_emit(
                parse_expr(xs + seq![operator_token(Kind::Less, lo)] + ys, 0),
                seq![(OpView::Not, lo)],
            )
            &&& parse_expr(xs + seq![operator_token(Kind::LessEqual, lo)] + ys, 0) == Some((
                operand(xs, 4) + operand(ys, 4) + seq![(OpView::Greater, lo), (OpView::Not, lo)],
                Seq::<TokenView>::empty(),
            ))
            &&& parse_expr(xs + seq![operator_token(Kind::LessEqual, lo)] + ys, 0) == then_emit(
                parse_expr(xs + seq![operator_token(Kind::Greater, lo)] + ys, 0),
                seq![(OpView::Not, lo)],
            )
        },
        whole(xs, 3) && whole(ys, 3) ==> {
            &&& parse_expr(xs + seq![operator_token(Kind::BangEqual, lo)] + ys, 0) == Some((
                operand(xs, 3) + operand(ys, 3) + seq![(OpView::Equal, lo), (OpView::Not, lo)],
                Seq::<TokenView>::empty(),
            ))
            &&& parse_expr(xs + seq![operator_token(Kind::BangEqual, lo)] + ys, 0) == then_emit(
                parse_expr(xs + seq![operator_token(Kind::EqualEqual, lo)] + ys, 0),
                seq![(OpView::Not, lo)],
            )
        },
{
    let not = seq![(OpView::Not, lo)];
    if whole(xs, 4) && whole(ys, 4) {
        let xy = operand(xs, 4) + operand(ys, 4);
        lemma_infix_of_operands(xs, ys, Kind::GreaterEqual, lo);
        lemma_infix_of_operands(xs, ys, Kind::Less, lo);
        assert(xy + seq![(OpView::Less, lo), (OpView::Not, lo)] =~= xy + seq![(OpView::Less, lo)] + not);
        lemma_infix_of_operands(xs, ys, Kind::LessEqual, lo);
        lemma_infix_of_operands(xs, ys, Kind::Greater, lo);
        assert(xy + seq![(OpView::Greater, lo), (OpView::Not, lo)] =~= xy + seq![(OpView::Greater, lo)] + not);
    }
    if whole(xs, 3) && whole(ys, 3) {
        let xy = operand(xs, 3) + operand(ys, 3);
        lemma_infix_of_operands(xs, ys, Kind::BangEqual, lo);
        lemma_infix_of_operands(xs, ys, Kind::EqualEqual, lo);
        assert(xy + seq![(OpView::Equal, lo), (OpView::Not, lo)] =~= xy + seq![(OpView::Equal, lo)] + not);
    }
}

proof fn lemma_digits_end(cs: Seq<char>, k: int, e: int, i: int)
    requires
        0 <= k <= i <= e < cs.len(),
        forall|j: int| k <= j < e ==> is_digit(#[trigger] cs[j]),
        !is_digit(cs[e]),
    ensures
        digits_end(cs, i as nat) == e,
    decreases e - i,
{
    if i < e {
        lemma_digits_end(cs, k, e, i + 1);
    }
}

/// The tokens of a numeral followed by `;` from position `k`, on line 0.
proof fn lemma_numeral_then_semicolon(cs: Seq<char>, d: Seq<char>, k: int)
    requires
        0 <= k,
        d.len() > 0,
        forall|i: int| 0 <= i < d.len() ==> is_digit(#[trigger] d[i]),
        cs.len() == k + d.len() + 1,
        cs.subrange(k, k + d.len()) == d,
        cs[k + d.len()] == ';',
    ensures
        tokens_from(cs, k as nat, 0) == seq![
            TokenView { kind: Kind::Number(d), line: 0 },
            TokenView { kind: Kind::Semicolon, line: 0 },
        ],
{
    let e = k + d.len();
    assert forall|j: int| k <= j < e implies is_digit(#[trigger] cs[j]) by {
        assert(cs[j] == cs.subrange(k, e)[j - k]);
    }
    assert(cs[k] == d[0]);
    lemma_digits_end(cs, k, e, k + 1);
    assert(skip(cs, k as nat, 0, false) == (k as nat, 0int));
    assert(lexeme(cs, k as nat, 0) == (Kind::Number(d), e as nat, 0int));
    assert(skip(cs, e as nat, 0, false) == (e as nat, 0int));
    assert(scan(cs, e as nat, 0) == Some((TokenView { kind: Kind::Semicolon, line: 0 }, (e + 1) as nat, 0int)));
    assert(skip(cs, (e + 1) as nat, 0, false) == ((e + 1) as nat, 0int));
    assert(tokens_from(cs, (e + 1) as nat, 0) == Seq::<TokenView>::empty());
    assert(tokens_from(cs, e as nat, 0) =~= seq![TokenView { kind: Kind::Semicolon, line: 0 }]);
}

/// The numeral `d` followed by `;`, parsed as an expression, leaves the `;`.
proof fn lemma_numeral_expression(d: Seq<char>, semi: TokenView)
    requires
        semi.kind is Semicolon,
    ensures
        parse_expr(seq![TokenView { kind: Kind::Number(d), line: 0 }, semi], 0) == Some((
            seq![(OpView::Constant(ValueView::Number(NumberView::Numeral(d))), 0int)],
            seq![semi],
        )),
{
    let ts = seq![TokenView { kind: Kind::Number(d), line: 0 }, semi];
    assert(ts.drop_first() =~= seq![semi]);
}

/// A numeral followed by `;` compiles to its constant, a `Pop` and the final
/// `Return`.
pub proof fn law_numeral_statement(d: Seq<char>)
    requires
        d.len() > 0,
        forall|i: int| 0 <= i < d.len() ==> is_digit(#[trigger] d[i]),
    ensures
        compiled(d.push(';')) == Some(seq![
            (OpView::Constant(ValueView::Number(NumberView::Numeral(d))), 0int),
            (OpView::Pop, 0int),
            (OpView::Return, 0int),
        ]),
{
    let cs = d.push(';');
    assert(cs.subrange(0, d.len() as int) =~= d);
    lemma_numeral_then_semicolon(cs, d, 0);
    let semi = TokenView { kind: Kind::Semicolon, line: 0 };
    let ts = seq![TokenView { kind: Kind::Number(d), line: 0 }, semi];
    assert(tokens_of(cs) == ts);
    lemma_numeral_expression(d, semi);
    let c = seq![(OpView::Constant(ValueView::Number(NumberView::Numeral(d))), 0int)];
    assert(seq![semi].drop_first() =~= Seq::<TokenView>::empty());
    assert(parse_statement(ts) == Some((c.push((OpView::Pop, 0int)), Seq::<TokenView>::empty())));
    assert(parse_program(Seq::<TokenView>::empty()) == Some(Seq::<(OpView, int)>::empty()));
    assert(c.push((OpView::Pop, 0int)) + Seq::<(OpView, int)>::empty() =~= c.push((OpView::Pop, 0int)));
    assert(c.push((OpView::Pop, 0int)).push((OpView::Return, 0int)) =~= seq![
        (OpView::Constant(ValueView::Number(NumberView::Numeral(d))), 0int),
        (OpView::Pop, 0int),
        (OpView::Return, 0int),
    ]);
}

/// `print` and a numeral followed by `;` compile to the constant, a `Print`
/// and the final `Return`.
pub proof fn law_print_numeral(d: Seq<char>)
    requires
        d.len() > 0,
        forall|i: int| 0 <= i < d.len() ==> is_digit(#[trigger] d[i]),
    ensures
        compiled(seq!['p', 'r', 'i', 'n', 't', ' '] + d.push(';')) == Some(seq![
            (OpView::Constant(ValueView::Number(NumberView::Numeral(d))), 0int),
            (OpView::Print, 0int),
            (OpView::Return, 0int),
        ]),
{
    let word = seq!['p', 'r', 'i', 'n', 't'];
    let cs = seq!['p', 'r', 'i', 'n', 't', ' '] + d.push(';');
    assert(cs.subrange(6, 6 + d.len() as int) =~= d);
    assert(cs[6 + d.len() as int] == ';');
    lemma_numeral_then_semicolon(cs, d, 6);
    assert(cs[5] == ' ');
    assert(word_end(cs, 5) == 5);
    assert(cs[4] == 't' && cs[3] == 'n' && cs[2] == 'i' && cs[1] == 'r');
    assert(word_end(cs, 4) == 5);
    assert(word_end(cs, 3) == 5);
    assert(word_end(cs, 2) == 5);
    assert(word_end(cs, 1) == 5);
    assert(cs.subrange(0, 5) =~= word);
    assert(word_kind(word) == Kind::Print);
    assert(lexeme(cs, 0, 0) == (Kind::Print, 5nat, 0int));
    assert(skip(cs, 0, 0, false) == (0nat, 0int));
    assert(skip(cs, 5, 0, false) == skip(cs, 6, 0, false));
    assert(cs[6] == d[0]);
    assert(skip(cs, 6, 0, false) == (6nat, 0int));
    let print = TokenView { kind: Kind::Print, line: 0 };
    let semi = TokenView { kind: Kind::Semicolon, line: 0 };
    let rest = seq![TokenView { kind: Kind::Number(d), line: 0 }, semi];
    assert(scan(cs, 5, 0) == scan(cs, 6, 0));
    assert(tokens_from(cs, 5, 0) == tokens_from(cs, 6, 0));
    assert(tokens_of(cs) =~= seq![print] + rest);
    let ts = seq![print] + rest;
    assert(ts.drop_first() =~= rest);
    lemma_numeral_expression(d, semi);
    let c = seq![(OpView::Constant(ValueView::Number(NumberView::Numeral(d))), 0int)];
    assert(seq![semi].drop_first() =~= Seq::<TokenView>::empty());
    assert(parse_statement(ts) == Some((c.push((OpView::Print, 0int)), Seq::<TokenView>::empty())));
    assert(parse_program(Seq::<TokenView>::empty()) == Some(Seq::<(OpView, int)>::empty()));
    assert(c.push((OpView::Print, 0int)) + Seq::<(OpView, int)>::empty() =~= c.push((OpView::Print, 0int)));
    assert(c.push((OpView::Print, 0int)).push((OpView::Return, 0int)) =~= seq![
        (OpView::Constant(ValueView::Number(NumberView::Numeral(d))), 0int),
        (OpView::Print, 0int),
        (OpView::Return, 0int),
    ]);
}

/// Every compiled chunk ends with `Return`, whatever its statements were.
pub proof fn law_compiled_ends_with_return(cs: Seq<char>)
    ensures
        compiled(cs) matches Some(c) ==> c.len() > 0 && c.last() == (OpView::Return, 0int),
{
}

} // verus!
