//! The canonical text keeps the grouping of an expression: what the
//! binding strengths of the operators do not imply is parenthesized.
use crate::ir::ast::{arith_symbol, ArithOp, Expr};
use crate::ir::emit::{expr_text, prec};
use vstd::prelude::*;

verus! {

/// `t` begins with `p`.
pub open spec fn begins_with(t: Seq<char>, p: Seq<char>) -> bool {
    t.len() >= p.len() && t.subrange(0, p.len() as int) == p
}

/// `t` ends with `p`.
pub open spec fn ends_with(t: Seq<char>, p: Seq<char>) -> bool {
    t.len() >= p.len() && t.subrange(t.len() - p.len(), t.len() as int) == p
}

proof fn lemma_begins(a: Seq<char>, b: Seq<char>)
    ensures
        begins_with(a + b, a),
{
    assert((a + b).subrange(0, a.len() as int) =~= a);
}

proof fn lemma_ends(a: Seq<char>, b: Seq<char>)
    ensures
        ends_with(a + b, b),
{
    assert((a + b).subrange((a + b).len() - b.len(), (a + b).len() as int) =~= b);
}

/// The canonical text keeps every grouping the binding strengths do not
/// imply (`not` binds tighter than `and`, `and` tighter than `or`, `*` and
/// `/` tighter than `+` and `-`, and every binary operator groups to the
/// left): an `or` under an `and` is printed in parentheses, on either
/// side; a right-nested `and`, `or`, or arithmetic operation of the same
/// strength keeps its parentheses (`a - (b - c)`); `not` encloses an `and`
/// or `or` it negates; a sum inside a product keeps its parentheses. So
/// `(a or b) and c` never prints as `a or b and c`.
pub proof fn canonical_text_keeps_needed_parentheses(x: Expr, y: Expr, z: Expr, m: ArithOp, s: ArithOp)
    ensures
        begins_with(
            expr_text(Expr::And(Box::new(Expr::Or(Box::new(x), Box::new(y))), Box::new(z))),
            "("@ + expr_text(Expr::Or(Box::new(x), Box::new(y))) + ")"@ + " and "@,
        ),
        ends_with(
            expr_text(Expr::And(Box::new(x), Box::new(Expr::Or(Box::new(y), Box::new(z))))),
            " and "@ + ("("@ + expr_text(Expr::Or(Box::new(y), Box::new(z))) + ")"@),
        ),
        ends_with(
            expr_text(Expr::And(Box::new(x), Box::new(Expr::And(Box::new(y), Box::new(z))))),
            " and "@ + ("("@ + expr_text(Expr::And(Box::new(y), Box::new(z))) + ")"@),
        ),
        ends_with(
            expr_text(Expr::Or(Box::new(x), Box::new(Expr::Or(Box::new(y), Box::new(z))))),
            " or "@ + ("("@ + expr_text(Expr::Or(Box::new(y), Box::new(z))) + ")"@),
        ),
        expr_text(Expr::Not(Box::new(Expr::And(Box::new(x), Box::new(y))))) == "not "@ + ("("@ + expr_text(
            Expr::And(Box::new(x), Box::new(y)),
        ) + ")"@),
        expr_text(Expr::Not(Box::new(Expr::Or(Box::new(x), Box::new(y))))) == "not "@ + ("("@ + expr_text(
            Expr::Or(Box::new(x), Box::new(y)),
        ) + ")"@),
        (m == ArithOp::Mul || m == ArithOp::Div) && (s == ArithOp::Add || s == ArithOp::Sub) ==> begins_with(
            expr_text(
                Expr::Arith {
                    op: m,
                    lhs: Box::new(Expr::Arith { op: s, lhs: Box::new(x), rhs: Box::new(y) }),
                    rhs: Box::new(z),
                },
            ),
            "("@ + expr_text(Expr::Arith { op: s, lhs: Box::new(x), rhs: Box::new(y) }) + ")"@,
        ),
        prec(Expr::Arith { op: m, lhs: Box::new(y), rhs: Box::new(z) }) == prec(
            Expr::Arith { op: s, lhs: Box::new(y), rhs: Box::new(z) },
        ) ==> ends_with(
            expr_text(
                Expr::Arith {
                    op: s,
                    lhs: Box::new(x),
                    rhs: Box::new(Expr::Arith { op: m, lhs: Box::new(y), rhs: Box::new(z) }),
                },
            ),
            " "@ + arith_symbol(s) + " "@ + ("("@ + expr_text(Expr::Arith { op: m, lhs: Box::new(y), rhs: Box::new(z) })
                + ")"@),
        ),
{
    let o = Expr::Or(Box::new(x), Box::new(y));
    let t1 = expr_text(Expr::And(Box::new(o), Box::new(z)));
    let zr = if prec(z) <= 2 { "("@ + expr_text(z) + ")"@ } else { expr_text(z) };
    assert(t1 == ("("@ + expr_text(o) + ")"@ + " and "@) + zr) by {
        assert(t1 =~= ("("@ + expr_text(o) + ")"@ + " and "@) + zr);
    }
    lemma_begins("("@ + expr_text(o) + ")"@ + " and "@, zr);
    let o2 = Expr::Or(Box::new(y), Box::new(z));
    let xl = if prec(x) < 2 { "("@ + expr_text(x) + ")"@ } else { expr_text(x) };
    assert(expr_text(Expr::And(Box::new(x), Box::new(o2))) =~= xl + (" and "@ + ("("@ + expr_text(o2) + ")"@)));
    lemma_ends(xl, " and "@ + ("("@ + expr_text(o2) + ")"@));
    let a2 = Expr::And(Box::new(y), Box::new(z));
    assert(expr_text(Expr::And(Box::new(x), Box::new(a2))) =~= xl + (" and "@ + ("("@ + expr_text(a2) + ")"@)));
    lemma_ends(xl, " and "@ + ("("@ + expr_text(a2) + ")"@));
    let xo = if prec(x) < 1 { "("@ + expr_text(x) + ")"@ } else { expr_text(x) };
    assert(expr_text(Expr::Or(Box::new(x), Box::new(o2))) =~= xo + (" or "@ + ("("@ + expr_text(o2) + ")"@)));
    lemma_ends(xo, " or "@ + ("("@ + expr_text(o2) + ")"@));
    let r = Expr::Arith { op: m, lhs: Box::new(y), rhs: Box::new(z) };
    if prec(r) == prec(Expr::Arith { op: s, lhs: Box::new(y), rhs: Box::new(z) }) {
        let e = Expr::Arith { op: s, lhs: Box::new(x), rhs: Box::new(r) };
        let p = prec(e);
        let xl2 = if prec(x) < p { "("@ + expr_text(x) + ")"@ } else { expr_text(x) };
        assert(expr_text(e) =~= xl2 + (" "@ + arith_symbol(s) + " "@ + ("("@ + expr_text(r) + ")"@)));
        lemma_ends(xl2, " "@ + arith_symbol(s) + " "@ + ("("@ + expr_text(r) + ")"@));
    }
    if (m == ArithOp::Mul || m == ArithOp::Div) && (s == ArithOp::Add || s == ArithOp::Sub) {
        let inner = Expr::Arith { op: s, lhs: Box::new(x), rhs: Box::new(y) };
        let e = Expr::Arith { op: m, lhs: Box::new(inner), rhs: Box::new(z) };
        let p = prec(e);
        let zr2 = if prec(z) <= p { "("@ + expr_text(z) + ")"@ } else { expr_text(z) };
        assert(expr_text(e) =~= ("("@ + expr_text(inner) + ")"@) + (" "@ + arith_symbol(m) + " "@ + zr2));
        lemma_begins("("@ + expr_text(inner) + ")"@, " "@ + arith_symbol(m) + " "@ + zr2);
    }
}

} // verus!
