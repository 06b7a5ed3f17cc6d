//! The parser of the IR text format. Line-oriented; only a block
//! declaration's `( … )` argument list spans lines.
use crate::ir::ast::{
    number_literal, quoted, unit_suffix, BindingKind, CmpOp, Expr, Operand, PortRef, Value,
};
use crate::ir::decompile::{is_reserved, is_reserved_word};
use crate::ir::lexer::{STok, Tok};
use crate::ir::model::{
    expr_v, kind_v, operand_v, value_v, SArg, SBlock, SExpr, SKind, SOperand, SValue,
};
use crate::ir::ast::BlockDecl;
use crate::text::{chars_of, find_from, push_str, str_eq, string_of};
use vstd::prelude::*;

verus! {

/// The token at `i`, if any.
pub open spec fn tok_at(ts: Seq<STok>, i: int) -> Option<STok> {
    if 0 <= i < ts.len() {
        Some(ts[i])
    } else {
        None
    }
}

/// Whether the token at `i` is the keyword `kw`.
pub open spec fn is_kw(ts: Seq<STok>, i: int, kw: Seq<char>) -> bool {
    tok_at(ts, i) matches Some(STok::Ident(s)) && s == kw
}

pub open spec fn is_ascii_lower(c: char) -> bool {
    'a' <= c && c <= 'z'
}

pub open spec fn is_ascii_upper(c: char) -> bool {
    'A' <= c && c <= 'Z'
}

/// A slug: `[a-z][a-z0-9_]*` and not a reserved word.
pub open spec fn check_slug(s: Seq<char>) -> Result<Seq<char>, Seq<char>> {
    if is_reserved(s) {
        Err("`"@ + s + "` is a reserved word and cannot be used as a name"@)
    } else if s.len() > 0 && is_ascii_lower(s[0]) && forall|i: int|
        0 <= i < s.len() ==> (is_ascii_lower(#[trigger] s[i]) || ('0' <= s[i] && s[i] <= '9')
            || s[i] == '_') {
        Ok(s)
    } else {
        Err("invalid slug `"@ + s + "` (expected [a-z][a-z0-9_]*)"@)
    }
}

/// A block type: PascalCase ASCII letters and digits.
pub open spec fn check_type(s: Seq<char>) -> Result<Seq<char>, Seq<char>> {
    if s.len() > 0 && is_ascii_upper(s[0]) && forall|i: int|
        0 <= i < s.len() ==> crate::text::is_ascii_alnum(#[trigger] s[i]) {
        Ok(s)
    } else {
        Err("invalid block type `"@ + s + "` (expected PascalCase, e.g. GreaterEqual)"@)
    }
}

/// A raw literal: a number when it reads as one, else a string.
pub open spec fn from_literal(s: Seq<char>) -> SValue {
    if number_literal(s) {
        SValue::Number(s)
    } else {
        SValue::Str(s)
    }
}

/// The value one token stands for.
pub open spec fn value_of(t: STok) -> Result<SValue, Seq<char>> {
    match t {
        STok::Num(n) => Ok(SValue::Number(n)),
        STok::UnitNum(n, u) => Ok(SValue::Unit(n, u)),
        STok::Str(s) => Ok(from_literal(s)),
        STok::Ident(s) => Ok(SValue::Ref(s)),
        _ => Err("expected a number, quoted string, or constant name"@),
    }
}

/// A value as written in source.
pub open spec fn svalue_text(v: SValue) -> Seq<char> {
    match v {
        SValue::Number(n) => n,
        SValue::Str(s) => quoted(s),
        SValue::Ref(r) => r,
        SValue::Unit(n, u) => n + unit_suffix(u),
    }
}

/// An expression operand at `p`: the operand and the position after it.
pub open spec fn operand_s(ts: Seq<STok>, p: int) -> Result<(SOperand, int), Seq<char>> {
    match tok_at(ts, p) {
        Some(STok::Ident(s)) => if s == "and"@ || s == "or"@ || s == "not"@ {
            Err("expected an operand, found `"@ + s + "`"@)
        } else if tok_at(ts, p + 1) == Some(STok::Dot) && tok_at(ts, p + 2) matches Some(STok::Ident(q)) {
            match tok_at(ts, p + 2) {
                Some(STok::Ident(q)) => Ok((SOperand::Port((s, q)), p + 3)),
                _ => Err(seq![]),
            }
        } else {
            Ok((SOperand::Value(SValue::Ref(s)), p + 1))
        },
        Some(STok::Num(n)) => Ok((SOperand::Value(SValue::Number(n)), p + 1)),
        Some(STok::UnitNum(n, u)) => Ok((SOperand::Value(SValue::Unit(n, u)), p + 1)),
        Some(STok::Str(_)) => Err(
            "strings have no place in an expression — it compares numbers and ports"@,
        ),
        _ => Err("expected an operand: `slug.Port`, a number, or a constant"@),
    }
}

pub open spec fn op_at(ts: Seq<STok>, p: int) -> Option<CmpOp> {
    match tok_at(ts, p) {
        Some(STok::Cmp(op)) => Some(op),
        _ => None,
    }
}

/// A comparison, an operand, or a parenthesized expression at `p`.
pub open spec fn primary_s(ts: Seq<STok>, p: int) -> Result<(SExpr, int), Seq<char>>
    decreases ts.len() - p, 2int,
{
    if tok_at(ts, p) == Some(STok::LParen) {
        match or_level_s(ts, p + 1) {
            Err(m) => Err(m),
            Ok((e, q)) => if tok_at(ts, q) != Some(STok::RParen) {
                Err("missing `)` in the expression"@)
            } else if op_at(ts, q + 1) is Some {
                Err(
                    "`(…) "@ + crate::ir::ast::cmp_symbol(op_at(ts, q + 1)->0)
                        + "` — comparison operands are plain ports, numbers, or constants, not parenthesized expressions (v1)"@,
                )
            } else {
                Ok((e, q + 1))
            },
        }
    } else {
        match operand_s(ts, p) {
            Err(m) => Err(m),
            Ok((lhs, q)) => match op_at(ts, q) {
                Some(op) => match operand_s(ts, q + 1) {
                    Err(m) => Err(m),
                    Ok((rhs, r)) => if op_at(ts, r) is Some {
                        Err(
                            "comparisons do not chain (`a < b < c`) — split into two comparisons joined with `and`"@,
                        )
                    } else {
                        Ok((SExpr::Cmp(op, lhs, rhs), r))
                    },
                },
                None => Ok((SExpr::Atom(lhs), q)),
            },
        }
    }
}

/// `not`* then a primary at `p`.
pub open spec fn unary_s(ts: Seq<STok>, p: int) -> Result<(SExpr, int), Seq<char>>
    decreases ts.len() - p, 3int,
{
    if is_kw(ts, p, "not"@) {
        match unary_s(ts, p + 1) {
            Err(m) => Err(m),
            Ok((e, q)) => Ok((SExpr::Not(Box::new(e)), q)),
        }
    } else {
        primary_s(ts, p)
    }
}

/// Further `and` operands after `e`, which ends at `p`.
pub open spec fn and_tail_s(ts: Seq<STok>, e: SExpr, p: int) -> Result<(SExpr, int), Seq<char>>
    decreases ts.len() - p, 4int,
{
    if p >= 0 && is_kw(ts, p, "and"@) {
        match unary_s(ts, p + 1) {
            Err(m) => Err(m),
            Ok((r, q)) => if p < q <= ts.len() {
                and_tail_s(ts, SExpr::And(Box::new(e), Box::new(r)), q)
            } else {
                Err(seq![])
            },
        }
    } else {
        Ok((e, p))
    }
}

/// Unaries joined by `and` at `p`.
pub open spec fn and_level_s(ts: Seq<STok>, p: int) -> Result<(SExpr, int), Seq<char>>
    decreases ts.len() - p, 5int,
{
    match unary_s(ts, p) {
        Err(m) => Err(m),
        Ok((e, q)) => if p < q <= ts.len() {
            and_tail_s(ts, e, q)
        } else {
            Err(seq![])
        },
    }
}

/// Further `or` operands after `e`, which ends at `p`.
pub open spec fn or_tail_s(ts: Seq<STok>, e: SExpr, p: int) -> Result<(SExpr, int), Seq<char>>
    decreases ts.len() - p, 6int,
{
    if p >= 0 && is_kw(ts, p, "or"@) {
        match and_level_s(ts, p + 1) {
            Err(m) => Err(m),
            Ok((r, q)) => if p < q <= ts.len() {
                or_tail_s(ts, SExpr::Or(Box::new(e), Box::new(r)), q)
            } else {
                Err(seq![])
            },
        }
    } else {
        Ok((e, p))
    }
}

/// `and`-levels joined by `or` at `p`.
pub open spec fn or_level_s(ts: Seq<STok>, p: int) -> Result<(SExpr, int), Seq<char>>
    decreases ts.len() - p, 7int,
{
    match and_level_s(ts, p) {
        Err(m) => Err(m),
        Ok((e, q)) => if p < q <= ts.len() {
            or_tail_s(ts, e, q)
        } else {
            Err(seq![])
        },
    }
}

/// A whole token list as one expression.
pub open spec fn parse_expr_s(ts: Seq<STok>) -> Result<SExpr, Seq<char>> {
    match or_level_s(ts, 0) {
        Err(m) => Err(m),
        Ok((e, q)) => if q != ts.len() {
            Err("unexpected trailing tokens after the expression"@)
        } else {
            Ok(e)
        },
    }
}

pub fn check_slug_exec(s: &str) -> (r: Result<String, String>)
    ensures
        match r {
            Ok(t) => check_slug(s@) == Ok::<Seq<char>, Seq<char>>(t@),
            Err(m) => check_slug(s@) == Err::<Seq<char>, Seq<char>>(m@),
        },
{
    if is_reserved_word(s) {
        let mut m = String::new();
        push_str(&mut m, "`");
        push_str(&mut m, s);
        push_str(&mut m, "` is a reserved word and cannot be used as a name");
        return Err(m);
    }
    let cs = chars_of(s);
    let mut ok = cs.len() > 0 && 'a' <= cs[0] && cs[0] <= 'z';
    let mut i: usize = 0;
    while ok && i < cs.len()
        invariant
            0 <= i <= cs@.len(),
            cs@ == s@,
            ok ==> forall|j: int| 0 <= j < i ==> (is_ascii_lower(#[trigger] cs@[j]) || ('0' <= cs@[j] && cs@[j] <= '9') || cs@[j] == '_'),
            ok ==> cs@.len() > 0 && is_ascii_lower(cs@[0]),
            !ok ==> !(cs@.len() > 0 && is_ascii_lower(cs@[0]) && forall|j: int|
                0 <= j < cs@.len() ==> (is_ascii_lower(#[trigger] cs@[j]) || ('0' <= cs@[j] && cs@[j] <= '9') || cs@[j] == '_')),
        decreases cs@.len() - i,
    {
        let c = cs[i];
        if !(('a' <= c && c <= 'z') || ('0' <= c && c <= '9') || c == '_') {
            ok = false;
        }
        i = i + 1;
    }
    if ok {
        Ok(string_of(s))
    } else {
        let mut m = String::new();
        push_str(&mut m, "invalid slug `");
        push_str(&mut m, s);
        push_str(&mut m, "` (expected [a-z][a-z0-9_]*)");
        Err(m)
    }
}

pub fn check_type_exec(s: &str) -> (r: Result<String, String>)
    ensures
        match r {
            Ok(t) => check_type(s@) == Ok::<Seq<char>, Seq<char>>(t@),
            Err(m) => check_type(s@) == Err::<Seq<char>, Seq<char>>(m@),
        },
{
    let cs = chars_of(s);
    let mut ok = cs.len() > 0 && 'A' <= cs[0] && cs[0] <= 'Z';
    let mut i: usize = 0;
    while ok && i < cs.len()
        invariant
            0 <= i <= cs@.len(),
            cs@ == s@,
            ok ==> forall|j: int| 0 <= j < i ==> crate::text::is_ascii_alnum(#[trigger] cs@[j]),
            ok ==> cs@.len() > 0 && is_ascii_upper(cs@[0]),
            !ok ==> !(cs@.len() > 0 && is_ascii_upper(cs@[0]) && forall|j: int|
                0 <= j < cs@.len() ==> crate::text::is_ascii_alnum(#[trigger] cs@[j])),
        decreases cs@.len() - i,
    {
        let c = cs[i];
        if !(('0' <= c && c <= '9') || ('a' <= c && c <= 'z') || ('A' <= c && c <= 'Z')) {
            ok = false;
        }
        i = i + 1;
    }
    if ok {
        Ok(string_of(s))
    } else {
        let mut m = String::new();
        push_str(&mut m, "invalid block type `");
        push_str(&mut m, s);
        push_str(&mut m, "` (expected PascalCase, e.g. GreaterEqual)");
        Err(m)
    }
}

pub fn value_of_exec(t: &Tok) -> (r: Result<Value, String>)
    ensures
        match r {
            Ok(v) => value_of(t@) == Ok::<SValue, Seq<char>>(value_v(v)),
            Err(m) => value_of(t@) == Err::<SValue, Seq<char>>(m@),
        },
{
    match t {
        Tok::Num(n) => Ok(Value::Number(string_of(n.as_str()))),
        Tok::UnitNum(n, u) => Ok(Value::Unit { number: string_of(n.as_str()), unit: *u }),
        Tok::Str(s) => Ok(Value::from_literal(s.as_str())),
        Tok::Ident(s) => Ok(Value::Ref(string_of(s.as_str()))),
        _ => Err(string_of("expected a number, quoted string, or constant name")),
    }
}

pub open spec fn tv(ts: Seq<Tok>) -> Seq<STok> {
    crate::ir::lexer::toks_view(ts)
}

fn is_kw_exec(ts: &Vec<Tok>, p: usize, kw: &str) -> (r: bool)
    ensures
        r == is_kw(tv(ts@), p as int, kw@),
        r ==> p < ts@.len(),
        ts@.len() <= usize::MAX,
{
    if p < ts.len() {
        match &ts[p] {
            Tok::Ident(s) => str_eq(s.as_str(), kw),
            _ => false,
        }
    } else {
        false
    }
}

fn op_at_exec(ts: &Vec<Tok>, p: usize) -> (r: Option<CmpOp>)
    ensures
        r == op_at(tv(ts@), p as int),
        r is Some ==> p < ts@.len(),
        ts@.len() <= usize::MAX,
{
    if p < ts.len() {
        match &ts[p] {
            Tok::Cmp(op) => Some(*op),
            _ => None,
        }
    } else {
        None
    }
}

/// A punctuation token.
#[derive(Clone, Copy, PartialEq, Eq, Structural)]
pub enum Punct {
    Dot,
    LParen,
    RParen,
    Comma,
    Colon,
}

pub open spec fn punct_tok(w: Punct) -> STok {
    match w {
        Punct::Dot => STok::Dot,
        Punct::LParen => STok::LParen,
        Punct::RParen => STok::RParen,
        Punct::Comma => STok::Comma,
        Punct::Colon => STok::Colon,
    }
}

fn is_tok(ts: &Vec<Tok>, p: usize, want: Punct) -> (r: bool)
    ensures
        r == (tok_at(tv(ts@), p as int) == Some(punct_tok(want))),
        r ==> p < ts@.len(),
        ts@.len() <= usize::MAX,
{
    if p < ts.len() {
        match &ts[p] {
            Tok::Dot => want == Punct::Dot,
            Tok::LParen => want == Punct::LParen,
            Tok::RParen => want == Punct::RParen,
            Tok::Comma => want == Punct::Comma,
            Tok::Colon => want == Punct::Colon,
            _ => false,
        }
    } else {
        false
    }
}

fn operand_x(ts: &Vec<Tok>, p: usize) -> (r: Result<(Operand, usize), String>)
    ensures
        match r {
            Ok((o, q)) => operand_s(tv(ts@), p as int) == Ok::<(SOperand, int), Seq<char>>((operand_v(o), q as int)) && p < q <= ts@.len(),
            Err(m) => operand_s(tv(ts@), p as int) == Err::<(SOperand, int), Seq<char>>(m@),
        },
{
    if p >= ts.len() {
        return Err(string_of("expected an operand: `slug.Port`, a number, or a constant"));
    }
    match &ts[p] {
        Tok::Ident(s) => {
            if str_eq(s.as_str(), "and") || str_eq(s.as_str(), "or") || str_eq(s.as_str(), "not") {
                let mut m = String::new();
                push_str(&mut m, "expected an operand, found `");
                push_str(&mut m, s.as_str());
                push_str(&mut m, "`");
                return Err(m);
            }
            if ts.len() - p > 2 {
                if let (Tok::Dot, Tok::Ident(q)) = (&ts[p + 1], &ts[p + 2]) {
                    let r = Operand::Port(PortRef { slug: string_of(s.as_str()), port: string_of(q.as_str()) });
                    return Ok((r, p + 3));
                }
            }
            Ok((Operand::Value(Value::Ref(string_of(s.as_str()))), p + 1))
        },
        Tok::Num(n) => Ok((Operand::Value(Value::Number(string_of(n.as_str()))), p + 1)),
        Tok::UnitNum(n, u) => Ok((Operand::Value(Value::Unit { number: string_of(n.as_str()), unit: *u }), p + 1)),
        Tok::Str(_) => Err(string_of("strings have no place in an expression — it compares numbers and ports")),
        _ => Err(string_of("expected an operand: `slug.Port`, a number, or a constant")),
    }
}

fn primary_x(ts: &Vec<Tok>, p: usize) -> (r: Result<(Expr, usize), String>)
    requires
        p <= ts@.len(),
    ensures
        match r {
            Ok((e, q)) => primary_s(tv(ts@), p as int) == Ok::<(SExpr, int), Seq<char>>((expr_v(e), q as int)) && p < q <= ts@.len(),
            Err(m) => primary_s(tv(ts@), p as int) == Err::<(SExpr, int), Seq<char>>(m@),
        },
    decreases ts@.len() - p, 2int,
{
    if is_tok(ts, p, Punct::LParen) {
        let (e, q) = match or_level_x(ts, p + 1) {
            Err(m) => {
                return Err(m);
            },
            Ok(x) => x,
        };
        if !is_tok(ts, q, Punct::RParen) {
            return Err(string_of("missing `)` in the expression"));
        }
        if let Some(op) = op_at_exec(ts, q + 1) {
            let mut m = String::new();
            push_str(&mut m, "`(…) ");
            push_str(&mut m, op.symbol());
            push_str(&mut m, "` — comparison operands are plain ports, numbers, or constants, not parenthesized expressions (v1)");
            return Err(m);
        }
        return Ok((e, q + 1));
    }
    let (lhs, q) = match operand_x(ts, p) {
        Err(m) => {
            return Err(m);
        },
        Ok(x) => x,
    };
    match op_at_exec(ts, q) {
        Some(op) => {
            let (rhs, r) = match operand_x(ts, q + 1) {
                Err(m) => {
                    return Err(m);
                },
                Ok(x) => x,
            };
            if op_at_exec(ts, r).is_some() {
                return Err(string_of("comparisons do not chain (`a < b < c`) — split into two comparisons joined with `and`"));
            }
            Ok((Expr::Cmp { op, lhs, rhs }, r))
        },
        None => Ok((Expr::Atom(lhs), q)),
    }
}

fn unary_x(ts: &Vec<Tok>, p: usize) -> (r: Result<(Expr, usize), String>)
    requires
        p <= ts@.len(),
    ensures
        match r {
            Ok((e, q)) => unary_s(tv(ts@), p as int) == Ok::<(SExpr, int), Seq<char>>((expr_v(e), q as int)) && p < q <= ts@.len(),
            Err(m) => unary_s(tv(ts@), p as int) == Err::<(SExpr, int), Seq<char>>(m@),
        },
    decreases ts@.len() - p, 3int,
{
    if is_kw_exec(ts, p, "not") {
        match unary_x(ts, p + 1) {
            Err(m) => Err(m),
            Ok((e, q)) => Ok((Expr::Not(Box::new(e)), q)),
        }
    } else {
        primary_x(ts, p)
    }
}

fn and_tail_x(ts: &Vec<Tok>, e: Expr, p: usize) -> (r: Result<(Expr, usize), String>)
    requires
        p <= ts@.len(),
    ensures
        match r {
            Ok((x, q)) => and_tail_s(tv(ts@), expr_v(e), p as int) == Ok::<(SExpr, int), Seq<char>>((expr_v(x), q as int)) && p <= q <= ts@.len(),
            Err(m) => and_tail_s(tv(ts@), expr_v(e), p as int) == Err::<(SExpr, int), Seq<char>>(m@),
        },
    decreases ts@.len() - p, 4int,
{
    if is_kw_exec(ts, p, "and") {
        match unary_x(ts, p + 1) {
            Err(m) => Err(m),
            Ok((r, q)) => {
                let ghost ev = expr_v(e);
                let ghost rv = expr_v(r);
                let x = Expr::And(Box::new(e), Box::new(r));
                assert(expr_v(x) == SExpr::And(Box::new(ev), Box::new(rv)));
                and_tail_x(ts, x, q)
            },
        }
    } else {
        Ok((e, p))
    }
}

fn and_level_x(ts: &Vec<Tok>, p: usize) -> (r: Result<(Expr, usize), String>)
    requires
        p <= ts@.len(),
    ensures
        match r {
            Ok((e, q)) => and_level_s(tv(ts@), p as int) == Ok::<(SExpr, int), Seq<char>>((expr_v(e), q as int)) && p < q <= ts@.len(),
            Err(m) => and_level_s(tv(ts@), p as int) == Err::<(SExpr, int), Seq<char>>(m@),
        },
    decreases ts@.len() - p, 5int,
{
    match unary_x(ts, p) {
        Err(m) => Err(m),
        Ok((e, q)) => and_tail_x(ts, e, q),
    }
}

fn or_tail_x(ts: &Vec<Tok>, e: Expr, p: usize) -> (r: Result<(Expr, usize), String>)
    requires
        p <= ts@.len(),
    ensures
        match r {
            Ok((x, q)) => or_tail_s(tv(ts@), expr_v(e), p as int) == Ok::<(SExpr, int), Seq<char>>((expr_v(x), q as int)) && p <= q <= ts@.len(),
            Err(m) => or_tail_s(tv(ts@), expr_v(e), p as int) == Err::<(SExpr, int), Seq<char>>(m@),
        },
    decreases ts@.len() - p, 6int,
{
    if is_kw_exec(ts, p, "or") {
        match and_level_x(ts, p + 1) {
            Err(m) => Err(m),
            Ok((r, q)) => {
                let ghost ev = expr_v(e);
                let ghost rv = expr_v(r);
                let x = Expr::Or(Box::new(e), Box::new(r));
                assert(expr_v(x) == SExpr::Or(Box::new(ev), Box::new(rv)));
                or_tail_x(ts, x, q)
            },
        }
    } else {
        Ok((e, p))
    }
}

fn or_level_x(ts: &Vec<Tok>, p: usize) -> (r: Result<(Expr, usize), String>)
    requires
        p <= ts@.len(),
    ensures
        match r {
            Ok((e, q)) => or_level_s(tv(ts@), p as int) == Ok::<(SExpr, int), Seq<char>>((expr_v(e), q as int)) && p < q <= ts@.len(),
            Err(m) => or_level_s(tv(ts@), p as int) == Err::<(SExpr, int), Seq<char>>(m@),
        },
    decreases ts@.len() - p, 7int,
{
    match and_level_x(ts, p) {
        Err(m) => Err(m),
        Ok((e, q)) => or_tail_x(ts, e, q),
    }
}

/// Parse a whole token list as one expression.
pub fn parse_expr_x(ts: &Vec<Tok>) -> (r: Result<Expr, String>)
    ensures
        match r {
            Ok(e) => parse_expr_s(tv(ts@)) == Ok::<SExpr, Seq<char>>(expr_v(e)),
            Err(m) => parse_expr_s(tv(ts@)) == Err::<SExpr, Seq<char>>(m@),
        },
{
    match or_level_x(ts, 0) {
        Err(m) => Err(m),
        Ok((e, q)) => {
            if q != ts.len() {
                Err(string_of("unexpected trailing tokens after the expression"))
            } else {
                Ok(e)
            }
        },
    }
}

/// The identifier at `i`, if the token there is one.
pub open spec fn ident_at(ts: Seq<STok>, i: int) -> Option<Seq<char>> {
    match tok_at(ts, i) {
        Some(STok::Ident(s)) => Some(s),
        _ => None,
    }
}

/// The parameter value a lone token stands for (not a gate keyword).
pub open spec fn single_param(t: STok) -> Option<SValue> {
    match t {
        STok::Str(s) => Some(from_literal(s)),
        STok::Num(n) => Some(SValue::Number(n)),
        STok::UnitNum(n, u) => Some(SValue::Unit(n, u)),
        STok::Ident(name) => if name == "and"@ || name == "or"@ || name == "not"@ {
            None
        } else {
            Some(SValue::Ref(name))
        },
        _ => None,
    }
}

/// One argument binding's value tokens: a literal or constant is a
/// parameter, `slug.Port` a wire, anything longer an expression.
pub open spec fn binding_kind_s(port: Seq<char>, ts: Seq<STok>) -> Result<SKind, Seq<char>> {
    if ts.len() == 0 {
        Err(
            "expected a value after `"@ + port
                + ":` — a number, quoted string, constant name, source port (`<slug>.<Port>`), or an expression like `a.Q and b.AQ >= 28`"@,
        )
    } else if ts.len() == 1 && single_param(ts[0]) is Some {
        Ok(SKind::Param(single_param(ts[0])->0))
    } else if ts.len() == 3 && ident_at(ts, 0) is Some && ts[1] == STok::Dot && ident_at(ts, 2) is Some {
        Ok(SKind::Wire((ident_at(ts, 0)->0, ident_at(ts, 2)->0)))
    } else if ts.len() == 2 && ident_at(ts, 0) is Some && ts[1] == STok::Dot {
        Err("expected a port after `"@ + ident_at(ts, 0)->0 + ".`"@)
    } else {
        match parse_expr_s(ts) {
            Err(m) => Err(m),
            Ok(SExpr::Atom(SOperand::Port(p))) => Ok(SKind::Wire(p)),
            Ok(SExpr::Atom(SOperand::Value(v))) => Ok(SKind::Param(v)),
            Ok(e) => Ok(SKind::Expr(e)),
        }
    }
}

/// Where a binding's value ends: the next comma or closing parenthesis at
/// nesting depth zero, or the end of the line.
pub open spec fn value_end(ts: Seq<STok>, j: int, depth: nat) -> int
    decreases ts.len() - j,
{
    if j < 0 || j >= ts.len() {
        j
    } else if ts[j] == STok::LParen {
        value_end(ts, j + 1, depth + 1)
    } else if ts[j] == STok::RParen {
        if depth == 0 {
            j
        } else {
            value_end(ts, j + 1, (depth - 1) as nat)
        }
    } else if ts[j] == STok::Comma && depth == 0 {
        j
    } else {
        value_end(ts, j + 1, depth)
    }
}

fn copy_toks(ts: &Vec<Tok>, lo: usize, hi: usize) -> (r: Vec<Tok>)
    requires
        lo <= hi <= ts@.len(),
    ensures
        tv(r@) == tv(ts@).subrange(lo as int, hi as int),
{
    let mut out: Vec<Tok> = Vec::new();
    let mut i = lo;
    while i < hi
        invariant
            lo <= i <= hi <= ts@.len(),
            tv(out@) == tv(ts@).subrange(lo as int, i as int),
        decreases hi - i,
    {
        let t = match &ts[i] {
            Tok::Ident(s) => Tok::Ident(string_of(s.as_str())),
            Tok::Str(s) => Tok::Str(string_of(s.as_str())),
            Tok::Num(s) => Tok::Num(string_of(s.as_str())),
            Tok::UnitNum(s, u) => Tok::UnitNum(string_of(s.as_str()), *u),
            Tok::Colon => Tok::Colon,
            Tok::Dot => Tok::Dot,
            Tok::Comma => Tok::Comma,
            Tok::Arrow => Tok::Arrow,
            Tok::LArrow => Tok::LArrow,
            Tok::Eq => Tok::Eq,
            Tok::LParen => Tok::LParen,
            Tok::RParen => Tok::RParen,
            Tok::LBrace => Tok::LBrace,
            Tok::RBrace => Tok::RBrace,
            Tok::Cmp(op) => Tok::Cmp(*op),
        };
        assert(t@ == ts@[i as int]@);
        let ghost before = tv(out@);
        out.push(t);
        assert(tv(out@) =~= before.push(ts@[i as int]@));
        assert(tv(ts@)[i as int] == ts@[i as int]@);
        assert(tv(out@) =~= tv(ts@).subrange(lo as int, i + 1));
        i = i + 1;
    }
    out
}

fn value_end_exec(ts: &Vec<Tok>, start: usize) -> (r: usize)
    requires
        start <= ts@.len(),
    ensures
        r == value_end(tv(ts@), start as int, 0),
        start <= r <= ts@.len(),
{
    let mut j = start;
    let mut depth: usize = 0;
    while j < ts.len()
        invariant
            start <= j <= ts@.len(),
            depth <= j - start,
            value_end(tv(ts@), start as int, 0) == value_end(tv(ts@), j as int, depth as nat),
        decreases ts@.len() - j,
    {
        match &ts[j] {
            Tok::LParen => {
                depth = depth + 1;
            },
            Tok::RParen => {
                if depth == 0 {
                    return j;
                }
                depth = depth - 1;
            },
            Tok::Comma => {
                if depth == 0 {
                    return j;
                }
            },
            _ => {},
        }
        j = j + 1;
    }
    j
}

fn binding_kind_x(port: &str, ts: &Vec<Tok>) -> (r: Result<BindingKind, String>)
    ensures
        match r {
            Ok(k) => binding_kind_s(port@, tv(ts@)) == Ok::<SKind, Seq<char>>(kind_v(k)),
            Err(m) => binding_kind_s(port@, tv(ts@)) == Err::<SKind, Seq<char>>(m@),
        },
{
    let ghost v = tv(ts@);
    if ts.len() == 0 {
        let mut m = String::new();
        push_str(&mut m, "expected a value after `");
        push_str(&mut m, port);
        push_str(&mut m, ":` — a number, quoted string, constant name, source port (`<slug>.<Port>`), or an expression like `a.Q and b.AQ >= 28`");
        return Err(m);
    }
    if ts.len() == 1 {
        assert(v[0] == ts@[0]@);
        match &ts[0] {
            Tok::Str(s) => {
                return Ok(BindingKind::Param(Value::from_literal(s.as_str())));
            },
            Tok::Num(n) => {
                return Ok(BindingKind::Param(Value::Number(string_of(n.as_str()))));
            },
            Tok::UnitNum(n, u) => {
                return Ok(BindingKind::Param(Value::Unit { number: string_of(n.as_str()), unit: *u }));
            },
            Tok::Ident(name) => {
                if !(str_eq(name.as_str(), "and") || str_eq(name.as_str(), "or") || str_eq(name.as_str(), "not")) {
                    return Ok(BindingKind::Param(Value::Ref(string_of(name.as_str()))));
                }
            },
            _ => {},
        }
    }
    if ts.len() == 3 {
        assert(v[0] == ts@[0]@ && v[1] == ts@[1]@ && v[2] == ts@[2]@);
        if let (Tok::Ident(slug), Tok::Dot, Tok::Ident(src)) = (&ts[0], &ts[1], &ts[2]) {
            return Ok(BindingKind::Wire(PortRef { slug: string_of(slug.as_str()), port: string_of(src.as_str()) }));
        }
    }
    if ts.len() == 2 {
        assert(v[0] == ts@[0]@ && v[1] == ts@[1]@);
        if let (Tok::Ident(slug), Tok::Dot) = (&ts[0], &ts[1]) {
            let mut m = String::new();
            push_str(&mut m, "expected a port after `");
            push_str(&mut m, slug.as_str());
            push_str(&mut m, ".`");
            return Err(m);
        }
    }
    match parse_expr_x(ts) {
        Err(m) => Err(m),
        Ok(Expr::Atom(Operand::Port(p))) => Ok(BindingKind::Wire(p)),
        Ok(Expr::Atom(Operand::Value(x))) => Ok(BindingKind::Param(x)),
        Ok(e) => {
            assert(!(expr_v(e) is Atom));
            Ok(BindingKind::Expr(e))
        },
    }
}

/// Whether an argument list already holds a binding.
pub open spec fn has_binding(args: Seq<SArg>) -> bool {
    exists|i: int| 0 <= i < args.len() && (#[trigger] args[i]) is Binding
}

/// The end of an argument list on a line: `)` must end the line.
pub open spec fn args_close(call: SBlock, ts: Seq<STok>, i: int, pushed: bool) -> Result<(SBlock, bool, bool), Seq<char>> {
    if i + 1 != ts.len() {
        Err("nothing may follow `)` on the line"@)
    } else {
        Ok((call, true, pushed))
    }
}

/// The argument-list tokens of a line from `i` (label string, `Port:
/// value` bindings, commas, closing `)`) appended to `call`: the call,
/// whether the `)` closed it, whether a binding was appended.
pub open spec fn args_from(call: SBlock, ts: Seq<STok>, i: int, pushed: bool) -> Result<(SBlock, bool, bool), Seq<char>>
    decreases ts.len() - i, 1int,
{
    match tok_at(ts, i) {
        None => Ok((call, false, pushed)),
        Some(STok::RParen) => args_close(call, ts, i, pushed),
        Some(STok::Str(s)) => if call.title is Some {
            Err("duplicate label — a block takes one label string"@)
        } else if has_binding(call.args) {
            Err("the label string must be the first argument"@)
        } else {
            args_sep(
                crate::ir::model::SBlock {
                    slug: call.slug,
                    block_type: call.block_type,
                    title: Some(s),
                    args: call.args,
                    comment: call.comment,
                    close_comment: call.close_comment,
                },
                ts,
                i + 1,
                pushed,
            )
        },
        Some(STok::Ident(port)) => if tok_at(ts, i + 1) != Some(STok::Colon) {
            Err("expected `:` after argument name `"@ + port + "` (`"@ + port + ": <value>`)"@)
        } else {
            let end = value_end(ts, i + 2, 0);
            if !(i + 2 <= end <= ts.len()) {
                Err(seq![])
            } else {
                match binding_kind_s(port, ts.subrange(i + 2, end)) {
                    Err(m) => Err(m),
                    Ok(k) => args_sep(
                        crate::ir::model::SBlock {
                            slug: call.slug,
                            block_type: call.block_type,
                            title: call.title,
                            args: call.args.push(
                                crate::ir::model::SArg::Binding(
                                    crate::ir::model::SBinding { port, kind: k, comment: None },
                                ),
                            ),
                            comment: call.comment,
                            close_comment: call.close_comment,
                        },
                        ts,
                        end,
                        true,
                    ),
                }
            }
        },
        _ => Err("expected `Port: value`, a label string, or `)` in the argument list"@),
    }
}

/// The separator after an argument: a comma, or the end of the list or
/// the line.
pub open spec fn args_sep(call: SBlock, ts: Seq<STok>, i: int, pushed: bool) -> Result<(SBlock, bool, bool), Seq<char>>
    decreases ts.len() - i, 0int,
{
    match tok_at(ts, i) {
        Some(STok::Comma) => args_from(call, ts, i + 1, pushed),
        Some(STok::RParen) => args_close(call, ts, i, pushed),
        None => Ok((call, false, pushed)),
        _ => Err("expected `,` between arguments"@),
    }
}

fn any_binding(args: &Vec<crate::ir::ast::ArgItem>) -> (r: bool)
    ensures
        r == has_binding(crate::ir::model::args_v(args@)),
{
    let ghost av = crate::ir::model::args_v(args@);
    let mut i: usize = 0;
    while i < args.len()
        invariant
            0 <= i <= args@.len(),
            av == crate::ir::model::args_v(args@),
            forall|j: int| 0 <= j < i ==> !((#[trigger] av[j]) is Binding),
        decreases args@.len() - i,
    {
        assert(av[i as int] == crate::ir::model::arg_v(args@[i as int]));
        if let crate::ir::ast::ArgItem::Binding(_) = &args[i] {
            return true;
        }
        i = i + 1;
    }
    false
}

/// Parse argument-list tokens, appending to `call`: whether the list was
/// closed, and whether a binding was appended.
fn call_args_x(call: &mut BlockDecl, ts: &Vec<Tok>) -> (r: Result<(bool, bool), String>)
    ensures
        match r {
            Ok((closed, pushed)) => args_from(crate::ir::model::block_v(*old(call)), tv(ts@), 0, false)
                == Ok::<(SBlock, bool, bool), Seq<char>>((crate::ir::model::block_v(*final(call)), closed, pushed)),
            Err(m) => args_from(crate::ir::model::block_v(*old(call)), tv(ts@), 0, false)
                == Err::<(SBlock, bool, bool), Seq<char>>(m@),
        },
{
    let ghost v = tv(ts@);
    let ghost goal = args_from(crate::ir::model::block_v(*call), v, 0, false);
    let mut i: usize = 0;
    let mut pushed = false;
    loop
        invariant
            v == tv(ts@),
            i <= ts@.len(),
            goal == args_from(crate::ir::model::block_v(*call), v, i as int, pushed),
            goal == args_from(crate::ir::model::block_v(*old(call)), tv(ts@), 0, false),
        decreases ts@.len() - i,
    {
        if i == ts.len() {
            return Ok((false, pushed));
        }
        assert(v[i as int] == ts@[i as int]@);
        let ghost cv = crate::ir::model::block_v(*call);
        match &ts[i] {
            Tok::RParen => {
                if i + 1 != ts.len() {
                    return Err(string_of("nothing may follow `)` on the line"));
                }
                return Ok((true, pushed));
            },
            Tok::Str(s) => {
                if call.title.is_some() {
                    return Err(string_of("duplicate label — a block takes one label string"));
                }
                if any_binding(&call.args) {
                    return Err(string_of("the label string must be the first argument"));
                }
                call.title = Some(string_of(s.as_str()));
                i = i + 1;
            },
            Tok::Ident(port) => {
                if !is_tok(ts, i + 1, Punct::Colon) {
                    let mut m = String::new();
                    push_str(&mut m, "expected `:` after argument name `");
                    push_str(&mut m, port.as_str());
                    push_str(&mut m, "` (`");
                    push_str(&mut m, port.as_str());
                    push_str(&mut m, ": <value>`)");
                    return Err(m);
                }
                let start = i + 2;
                let end = value_end_exec(ts, start);
                let vt = copy_toks(ts, start, end);
                let kind = match binding_kind_x(port.as_str(), &vt) {
                    Err(m) => {
                        return Err(m);
                    },
                    Ok(k) => k,
                };
                let ghost before = call.args@;
                call.args.push(
                    crate::ir::ast::ArgItem::Binding(
                        crate::ir::ast::Binding { port: string_of(port.as_str()), kind, comment: None },
                    ),
                );
                proof {
                    assert(crate::ir::model::args_v(call.args@) =~= crate::ir::model::args_v(before).push(
                        crate::ir::model::arg_v(call.args@.last()),
                    ));
                }
                pushed = true;
                i = end;
            },
            _ => {
                return Err(string_of("expected `Port: value`, a label string, or `)` in the argument list"));
            },
        }
        if i < ts.len() {
            assert(v[i as int] == ts@[i as int]@);
            match &ts[i] {
                Tok::Comma => {
                    i = i + 1;
                },
                Tok::RParen => {},
                _ => {
                    return Err(string_of("expected `,` between arguments"));
                },
            }
        }
    }
}

/// A closed call: a block declaration, or — lowercase callee — a
/// template instantiation.
pub open spec fn finish_call_s(call: SBlock, in_template: bool) -> Result<crate::ir::model::SItem, Seq<char>> {
    let lower = call.block_type.len() > 0 && is_ascii_lower(call.block_type[0]);
    if !lower {
        Ok(crate::ir::model::SItem::Block(call))
    } else if in_template {
        Err(
            "`"@ + call.slug + " = "@ + call.block_type
                + "(…)` — a template body cannot instantiate another template (v1)"@,
        )
    } else if call.title is Some {
        Err(
            "`"@ + call.slug + " = "@ + call.block_type
                + "(…)`: an instantiation takes no label string — titles belong on the template's blocks"@,
        )
    } else {
        Ok(crate::ir::model::SItem::Instance(call))
    }
}

fn finish_call_x(call: BlockDecl, in_template: bool) -> (r: Result<crate::ir::ast::Item, String>)
    ensures
        match r {
            Ok(i) => finish_call_s(crate::ir::model::block_v(call), in_template) == Ok::<crate::ir::model::SItem, Seq<char>>(crate::ir::model::item_v(i)),
            Err(m) => finish_call_s(crate::ir::model::block_v(call), in_template) == Err::<crate::ir::model::SItem, Seq<char>>(m@),
        },
{
    let ty = chars_of(call.block_type.as_str());
    let lower = ty.len() > 0 && 'a' <= ty[0] && ty[0] <= 'z';
    if !lower {
        return Ok(crate::ir::ast::Item::Block(call));
    }
    if in_template {
        let mut m = String::new();
        push_str(&mut m, "`");
        push_str(&mut m, call.slug.as_str());
        push_str(&mut m, " = ");
        push_str(&mut m, call.block_type.as_str());
        push_str(&mut m, "(…)` — a template body cannot instantiate another template (v1)");
        return Err(m);
    }
    if call.title.is_some() {
        let mut m = String::new();
        push_str(&mut m, "`");
        push_str(&mut m, call.slug.as_str());
        push_str(&mut m, " = ");
        push_str(&mut m, call.block_type.as_str());
        push_str(&mut m, "(…)`: an instantiation takes no label string — titles belong on the template's blocks");
        return Err(m);
    }
    Ok(crate::ir::ast::Item::Instance(call))
}

/// A statement that starts with a plain identifier: a block declaration
/// or instantiation (the item, or the call left open), or an extern port
/// statement.
pub open spec fn ident_stmt_s(ts: Seq<STok>, comment: Option<Seq<char>>, in_template: bool) -> Result<
    (Option<crate::ir::model::SItem>, Option<SBlock>),
    Seq<char>,
> {
    let n = ts.len();
    let a = ident_at(ts, 0);
    if n >= 4 && a is Some && ts[1] == STok::Eq && ident_at(ts, 2) is Some && ts[3] == STok::LParen {
        let slug = a->0;
        let ty = ident_at(ts, 2)->0;
        let callee = if ty.len() > 0 && is_ascii_lower(ty[0]) {
            check_slug(ty)
        } else {
            check_type(ty)
        };
        match callee {
            Err(m) => Err(m),
            Ok(callee) => match check_slug(slug) {
                Err(m) => Err(m),
                Ok(slug) => {
                    let call0 = SBlock {
                        slug,
                        block_type: callee,
                        title: None,
                        args: seq![],
                        comment: None,
                        close_comment: None,
                    };
                    match args_from(call0, ts.subrange(4, n as int), 0, false) {
                        Err(m) => Err(m),
                        Ok((c1, closed, _)) => {
                            let c2 = SBlock {
                                slug: c1.slug,
                                block_type: c1.block_type,
                                title: c1.title,
                                args: c1.args,
                                comment,
                                close_comment: c1.close_comment,
                            };
                            if closed {
                                match finish_call_s(c2, in_template) {
                                    Err(m) => Err(m),
                                    Ok(item) => Ok((Some(item), None)),
                                }
                            } else {
                                Ok((None, Some(c2)))
                            }
                        },
                    }
                },
            },
        }
    } else if n == 3 && a is Some && ts[1] == STok::Eq && ident_at(ts, 2) is Some {
        Err(
            "expected `(` after the type — a block declaration is `"@ + a->0 + " = "@ + ident_at(
                ts,
                2,
            )->0 + "(…)` (a constant is `let "@ + a->0 + " = …`)"@,
        )
    } else if n == 3 && a is Some && ts[1] == STok::Eq && ts[2] is Num {
        Err(
            "`"@ + a->0 + " = "@ + ts[2]->Num_0 + "` — did you mean `let "@ + a->0 + " = "@
                + ts[2]->Num_0
                + "`? (a bare name on the left is a constant or block declaration; an extern port is `"@
                + a->0 + ".<Port> = "@ + ts[2]->Num_0 + "`)"@,
        )
    } else if n == 3 && a is Some && ts[1] == STok::Eq && ts[2] is Str {
        Err("`"@ + a->0 + " = \"…\"` — did you mean `let "@ + a->0 + " = \"…\"`?"@)
    } else if n >= 4 && a is Some && ts[1] == STok::Dot && ident_at(ts, 2) is Some && ts[3] == STok::LArrow {
        let to = (a->0, ident_at(ts, 2)->0);
        let rest = ts.subrange(4, n as int);
        let tt = to.0 + "."@ + to.1;
        if rest.len() == 0 {
            Err(
                "expected a source after `<-` (`"@ + tt + " <- <slug>.<Port>`, or an expression like `"@
                    + tt + " <- a.Q and b.AQ >= 28`); to assign a value, use `"@ + tt
                    + " = <value>`"@,
            )
        } else {
            match parse_expr_s(rest) {
                Err(m) => Err(m),
                Ok(SExpr::Atom(SOperand::Port(from))) => Ok(
                    (Some(crate::ir::model::SItem::Wire(to, from, comment)), None),
                ),
                Ok(SExpr::Atom(SOperand::Value(v))) => Err(
                    "`"@ + tt + " <- "@ + svalue_text(v)
                        + "` wires a constant — to assign a value, use `"@ + tt + " = "@
                        + svalue_text(v) + "`"@,
                ),
                Ok(e) => Ok((Some(crate::ir::model::SItem::ExprWire(to, e, comment)), None)),
            }
        }
    } else if n == 7 && a is Some && ts[1] == STok::Dot && ident_at(ts, 2) is Some && ts[3] == STok::Eq
        && ident_at(ts, 4) is Some && ts[5] == STok::Dot && ident_at(ts, 6) is Some {
        let tt = a->0 + "."@ + ident_at(ts, 2)->0;
        let vv = ident_at(ts, 4)->0 + "."@ + ident_at(ts, 6)->0;
        Err("`"@ + tt + " = "@ + vv + "` — use `<-` to wire a port: `"@ + tt + " <- "@ + vv + "`"@)
    } else if n == 5 && a is Some && ts[1] == STok::Dot && ident_at(ts, 2) is Some && ts[3] == STok::Eq {
        match value_of(ts[4]) {
            Err(m) => Err(m),
            Ok(v) => Ok((Some(crate::ir::model::SItem::Assign((a->0, ident_at(ts, 2)->0), v, comment)), None)),
        }
    } else if n >= 2 && a is Some && ts[1] == STok::Dot {
        Err("expected `"@ + a->0 + ".<Port> <- <slug>.<Port>` or `"@ + a->0 + ".<Port> = <value>`"@)
    } else {
        Err(statement_msg())
    }
}

pub open spec fn statement_msg() -> Seq<char> {
    "expected a statement: `let`, `extern`, `<slug> = <Type>(…)`, `<slug>.<Port> <- <slug>.<Port>`, `<slug>.<Port> = <value>`, `removed`, or `moved`"@
}

fn ident_of(ts: &Vec<Tok>, i: usize) -> (r: Option<&str>)
    ensures
        match r {
            Some(s) => ident_at(tv(ts@), i as int) == Some(s@),
            None => ident_at(tv(ts@), i as int) is None,
        },
{
    if i < ts.len() {
        match &ts[i] {
            Tok::Ident(s) => Some(s.as_str()),
            _ => None,
        }
    } else {
        None
    }
}

/// Whether the token at `i` is `=` (`Eq`), `<-` (`LArrow`) or `->` (`Arrow`),
/// as `which` says.
fn is_eq(ts: &Vec<Tok>, i: usize) -> (r: bool)
    ensures
        r == (i < ts@.len() && tv(ts@)[i as int] == STok::Eq),
{
    i < ts.len() && match &ts[i] {
        Tok::Eq => true,
        _ => false,
    }
}

fn is_larrow(ts: &Vec<Tok>, i: usize) -> (r: bool)
    ensures
        r == (i < ts@.len() && tv(ts@)[i as int] == STok::LArrow),
{
    i < ts.len() && match &ts[i] {
        Tok::LArrow => true,
        _ => false,
    }
}

fn is_dot(ts: &Vec<Tok>, i: usize) -> (r: bool)
    ensures
        r == (i < ts@.len() && tv(ts@)[i as int] == STok::Dot),
{
    i < ts.len() && match &ts[i] {
        Tok::Dot => true,
        _ => false,
    }
}

fn is_lparen(ts: &Vec<Tok>, i: usize) -> (r: bool)
    ensures
        r == (i < ts@.len() && tv(ts@)[i as int] == STok::LParen),
{
    i < ts.len() && match &ts[i] {
        Tok::LParen => true,
        _ => false,
    }
}

proof fn lemma_value_text(v: Value)
    ensures
        svalue_text(value_v(v)) == crate::ir::ast::value_text(v),
{
}

fn ident_stmt_x(ts: &Vec<Tok>, comment: Option<String>, in_template: bool) -> (r: Result<(Option<crate::ir::ast::Item>, Option<BlockDecl>), String>)
    ensures
        match r {
            Ok((Some(i), None)) => ident_stmt_s(tv(ts@), crate::doc::opt_view(comment), in_template) == Ok::<(Option<crate::ir::model::SItem>, Option<SBlock>), Seq<char>>((Some(crate::ir::model::item_v(i)), None)),
            Ok((None, Some(c))) => ident_stmt_s(tv(ts@), crate::doc::opt_view(comment), in_template) == Ok::<(Option<crate::ir::model::SItem>, Option<SBlock>), Seq<char>>((None, Some(crate::ir::model::block_v(c)))),
            Ok(_) => false,
            Err(m) => ident_stmt_s(tv(ts@), crate::doc::opt_view(comment), in_template) == Err::<(Option<crate::ir::model::SItem>, Option<SBlock>), Seq<char>>(m@),
        },
{
    let ghost v = tv(ts@);
    let n = ts.len();
    let a = ident_of(ts, 0);
    if let Some(slug) = a {
        if n >= 4 && is_eq(ts, 1) && ident_of(ts, 2).is_some() && is_lparen(ts, 3) {
            let ty = ident_of(ts, 2).unwrap();
            let tc = chars_of(ty);
            let callee = if tc.len() > 0 && 'a' <= tc[0] && tc[0] <= 'z' {
                check_slug_exec(ty)
            } else {
                check_type_exec(ty)
            };
            let callee = match callee {
                Err(m) => {
                    return Err(m);
                },
                Ok(c) => c,
            };
            let slug = match check_slug_exec(slug) {
                Err(m) => {
                    return Err(m);
                },
                Ok(c) => c,
            };
            let mut call = BlockDecl {
                slug,
                block_type: callee,
                title: None,
                args: Vec::new(),
                comment: None,
                close_comment: None,
            };
            assert(crate::ir::model::args_v(call.args@) =~= Seq::<SArg>::empty());
            let rest = copy_toks(ts, 4, n);
            let (closed, _) = match call_args_x(&mut call, &rest) {
                Err(m) => {
                    return Err(m);
                },
                Ok(x) => x,
            };
            call.comment = comment;
            if closed {
                return match finish_call_x(call, in_template) {
                    Err(m) => Err(m),
                    Ok(item) => Ok((Some(item), None)),
                };
            } else {
                return Ok((None, Some(call)));
            }
        }
        if n == 3 && is_eq(ts, 1) {
            assert(v[2] == ts@[2]@);
            match &ts[2] {
                Tok::Ident(ty) => {
                    let mut m = String::new();
                    push_str(&mut m, "expected `(` after the type — a block declaration is `");
                    push_str(&mut m, slug);
                    push_str(&mut m, " = ");
                    push_str(&mut m, ty.as_str());
                    push_str(&mut m, "(…)` (a constant is `let ");
                    push_str(&mut m, slug);
                    push_str(&mut m, " = …`)");
                    return Err(m);
                },
                Tok::Num(x) => {
                    let mut m = String::new();
                    push_str(&mut m, "`");
                    push_str(&mut m, slug);
                    push_str(&mut m, " = ");
                    push_str(&mut m, x.as_str());
                    push_str(&mut m, "` — did you mean `let ");
                    push_str(&mut m, slug);
                    push_str(&mut m, " = ");
                    push_str(&mut m, x.as_str());
                    push_str(&mut m, "`? (a bare name on the left is a constant or block declaration; an extern port is `");
                    push_str(&mut m, slug);
                    push_str(&mut m, ".<Port> = ");
                    push_str(&mut m, x.as_str());
                    push_str(&mut m, "`)");
                    return Err(m);
                },
                Tok::Str(_) => {
                    let mut m = String::new();
                    push_str(&mut m, "`");
                    push_str(&mut m, slug);
                    push_str(&mut m, " = \"…\"` — did you mean `let ");
                    push_str(&mut m, slug);
                    push_str(&mut m, " = \"…\"`?");
                    return Err(m);
                },
                _ => {},
            }
        }
        if n >= 4 && is_dot(ts, 1) && ident_of(ts, 2).is_some() && is_larrow(ts, 3) {
            let tp = ident_of(ts, 2).unwrap();
            let mut tt = String::new();
            push_str(&mut tt, slug);
            push_str(&mut tt, ".");
            push_str(&mut tt, tp);
            let to = PortRef { slug: string_of(slug), port: string_of(tp) };
            if n == 4 {
                let mut m = String::new();
                push_str(&mut m, "expected a source after `<-` (`");
                push_str(&mut m, tt.as_str());
                push_str(&mut m, " <- <slug>.<Port>`, or an expression like `");
                push_str(&mut m, tt.as_str());
                push_str(&mut m, " <- a.Q and b.AQ >= 28`); to assign a value, use `");
                push_str(&mut m, tt.as_str());
                push_str(&mut m, " = <value>`");
                return Err(m);
            }
            let rest = copy_toks(ts, 4, n);
            return match parse_expr_x(&rest) {
                Err(m) => Err(m),
                Ok(Expr::Atom(Operand::Port(from))) => Ok(
                    (Some(crate::ir::ast::Item::Wire(crate::ir::ast::WireDecl { to, from, comment })), None),
                ),
                Ok(Expr::Atom(Operand::Value(x))) => {
                    proof {
                        lemma_value_text(x);
                    }
                    let mut m = String::new();
                    push_str(&mut m, "`");
                    push_str(&mut m, tt.as_str());
                    push_str(&mut m, " <- ");
                    crate::ir::ast::push_value(&mut m, &x);
                    push_str(&mut m, "` wires a constant — to assign a value, use `");
                    push_str(&mut m, tt.as_str());
                    push_str(&mut m, " = ");
                    crate::ir::ast::push_value(&mut m, &x);
                    push_str(&mut m, "`");
                    Err(m)
                },
                Ok(e) => {
                    assert(!(expr_v(e) is Atom));
                    Ok((Some(crate::ir::ast::Item::ExprWire(crate::ir::ast::ExprWireDecl { to, expr: e, comment })), None))
                },
            };
        }
        if n == 7 && is_dot(ts, 1) && ident_of(ts, 2).is_some() && is_eq(ts, 3) && ident_of(ts, 4).is_some()
            && is_dot(ts, 5) && ident_of(ts, 6).is_some() {
            let mut m = String::new();
            push_str(&mut m, "`");
            push_str(&mut m, slug);
            push_str(&mut m, ".");
            push_str(&mut m, ident_of(ts, 2).unwrap());
            push_str(&mut m, " = ");
            push_str(&mut m, ident_of(ts, 4).unwrap());
            push_str(&mut m, ".");
            push_str(&mut m, ident_of(ts, 6).unwrap());
            push_str(&mut m, "` — use `<-` to wire a port: `");
            push_str(&mut m, slug);
            push_str(&mut m, ".");
            push_str(&mut m, ident_of(ts, 2).unwrap());
            push_str(&mut m, " <- ");
            push_str(&mut m, ident_of(ts, 4).unwrap());
            push_str(&mut m, ".");
            push_str(&mut m, ident_of(ts, 6).unwrap());
            push_str(&mut m, "`");
            proof {
                let tt = slug@ + "."@ + ident_at(v, 2)->0;
                let vv = ident_at(v, 4)->0 + "."@ + ident_at(v, 6)->0;
                assert(m@ =~= "`"@ + tt + " = "@ + vv + "` — use `<-` to wire a port: `"@ + tt + " <- "@ + vv + "`"@);
            }
            return Err(m);
        }
        if n == 5 && is_dot(ts, 1) && ident_of(ts, 2).is_some() && is_eq(ts, 3) {
            let tp = ident_of(ts, 2).unwrap();
            return match value_of_exec(&ts[4]) {
                Err(m) => Err(m),
                Ok(x) => Ok(
                    (
                        Some(
                            crate::ir::ast::Item::Assign(
                                crate::ir::ast::SetDecl {
                                    target: PortRef { slug: string_of(slug), port: string_of(tp) },
                                    value: x,
                                    comment,
                                },
                            ),
                        ),
                        None,
                    ),
                ),
            };
        }
        if n >= 2 && is_dot(ts, 1) {
            let mut m = String::new();
            push_str(&mut m, "expected `");
            push_str(&mut m, slug);
            push_str(&mut m, ".<Port> <- <slug>.<Port>` or `");
            push_str(&mut m, slug);
            push_str(&mut m, ".<Port> = <value>`");
            return Err(m);
        }
    }
    Err(string_of("expected a statement: `let`, `extern`, `<slug> = <Type>(…)`, `<slug>.<Port> <- <slug>.<Port>`, `<slug>.<Port> = <value>`, `removed`, or `moved`"))
}

/// One template parameter from the triple at `i`.
pub open spec fn param_at(ts: Seq<STok>, i: int) -> Result<crate::ir::model::SParam, Seq<char>> {
    let shape = "expected `<name>: <Type>` (object parameter) or `<name> = <literal>` (value parameter with default)"@;
    match (ident_at(ts, i), tok_at(ts, i + 1), tok_at(ts, i + 2)) {
        (Some(n), Some(STok::Colon), Some(STok::Ident(ty))) => match check_slug(n) {
            Err(m) => Err(m),
            Ok(n2) => match check_type(ty) {
                Err(m) => Err(m),
                Ok(t2) => Ok(crate::ir::model::SParam::Object(n2, t2)),
            },
        },
        (Some(n), Some(STok::Eq), Some(v)) => if v is Num || v is UnitNum || v is Str {
            match check_slug(n) {
                Err(m) => Err(m),
                Ok(n2) => match value_of(v) {
                    Err(m) => Err(m),
                    Ok(x) => Ok(crate::ir::model::SParam::Value(n2, x)),
                },
            }
        } else {
            Err(shape)
        },
        _ => Err(shape),
    }
}

/// Template parameters from `i`, comma-separated.
pub open spec fn params_from(ts: Seq<STok>, i: int) -> Result<Seq<crate::ir::model::SParam>, Seq<char>>
    decreases ts.len() - i,
{
    match param_at(ts, i) {
        Err(m) => Err(m),
        Ok(p) => match tok_at(ts, i + 3) {
            None => Ok(seq![p]),
            Some(STok::Comma) => if i + 4 <= ts.len() {
                match params_from(ts, i + 4) {
                    Err(m) => Err(m),
                    Ok(ps) => Ok(seq![p] + ps),
                }
            } else {
                Err(seq![])
            },
            Some(_) => Err("expected `,` between parameters"@),
        },
    }
}

/// One extern matcher from the triple at `i`: key, value, and whether the
/// value was a bare identifier.
pub open spec fn pair_at(ts: Seq<STok>, i: int) -> Result<(Seq<char>, Seq<char>, bool), Seq<char>> {
    match (ident_at(ts, i), tok_at(ts, i + 1), tok_at(ts, i + 2)) {
        (Some(k), Some(STok::Colon), Some(STok::Str(v))) => Ok((k, v, false)),
        (Some(k), Some(STok::Colon), Some(STok::Ident(v))) => Ok((k, v, true)),
        _ => Err(
            "expected `extern <slug> = <Type>(uuid|iname|title: \"…\" | mirrors: <slug>[, room: \"…\"] [, category: \"…\"])`"@,
        ),
    }
}

/// Extern matchers from `i`, comma-separated.
pub open spec fn pairs_from(ts: Seq<STok>, i: int) -> Result<Seq<(Seq<char>, Seq<char>, bool)>, Seq<char>>
    decreases ts.len() - i,
{
    match pair_at(ts, i) {
        Err(m) => Err(m),
        Ok(p) => match tok_at(ts, i + 3) {
            None => Ok(seq![p]),
            Some(STok::Comma) => if i + 4 <= ts.len() {
                match pairs_from(ts, i + 4) {
                    Err(m) => Err(m),
                    Ok(ps) => Ok(seq![p] + ps),
                }
            } else {
                Err(seq![])
            },
            Some(_) => Err("expected `,` between matchers"@),
        },
    }
}

/// The primary matcher of an extern.
pub open spec fn match_of(p: (Seq<char>, Seq<char>, bool)) -> Result<crate::ir::model::SMatch, Seq<char>> {
    let (k, v, id) = p;
    if k == "mirrors"@ && id {
        match check_slug(v) {
            Err(m) => Err(m),
            Ok(s) => Ok(crate::ir::model::SMatch::Mirrors(s)),
        }
    } else if k == "mirrors"@ {
        Err("`mirrors:` names a slug, not a string — write `mirrors: status_alarm` without quotes"@)
    } else if id {
        Err("`"@ + k + ":` takes a quoted string"@)
    } else if k == "uuid"@ {
        Ok(crate::ir::model::SMatch::Uuid(v))
    } else if k == "iname"@ {
        Ok(crate::ir::model::SMatch::IName(v))
    } else if k == "title"@ {
        Ok(crate::ir::model::SMatch::Title(v))
    } else {
        Err(
            "unknown matcher `"@ + k
                + "` (expected uuid, iname, title, or mirrors first; room/category only narrow it)"@,
        )
    }
}

/// The room and category constraints among matchers.
pub open spec fn constraints(ps: Seq<(Seq<char>, Seq<char>, bool)>) -> Result<(Option<Seq<char>>, Option<Seq<char>>), Seq<char>>
    decreases ps.len(),
{
    if ps.len() == 0 {
        Ok((None, None))
    } else {
        match constraints(ps.drop_last()) {
            Err(m) => Err(m),
            Ok((room, cat)) => {
                let (k, v, id) = ps.last();
                if id {
                    Err("`"@ + k + ":` takes a quoted string"@)
                } else if k == "room"@ {
                    if room is Some {
                        Err("duplicate `room:` constraint"@)
                    } else {
                        Ok((Some(v), cat))
                    }
                } else if k == "category"@ {
                    if cat is Some {
                        Err("duplicate `category:` constraint"@)
                    } else {
                        Ok((room, Some(v)))
                    }
                } else {
                    Err("unknown constraint `"@ + k + "` (expected room or category)"@)
                }
            },
        }
    }
}

/// An `extern` statement.
pub open spec fn extern_s(ts: Seq<STok>, comment: Option<Seq<char>>) -> Result<crate::ir::model::SItem, Seq<char>> {
    let n = ts.len();
    if n >= 6 && ident_at(ts, 1) is Some && ts[2] == STok::Eq && ident_at(ts, 3) is Some && ts[4] == STok::LParen
        && ts[n - 1] == STok::RParen {
        match pairs_from(ts.subrange(5, n - 1), 0) {
            Err(m) => Err(m),
            Ok(ps) => if ps.len() == 0 {
                Err("empty matcher list"@)
            } else {
                match match_of(ps[0]) {
                    Err(m) => Err(m),
                    Ok(ms) => match constraints(ps.drop_first()) {
                        Err(m) => Err(m),
                        Ok((room, cat)) => if ms is Uuid && (room is Some || cat is Some) {
                            Err(
                                "`uuid:` pins exactly — room/category constraints are redundant and not allowed with it"@,
                            )
                        } else if ms is Mirrors && (room is Some || cat is Some) {
                            Err(
                                "`mirrors:` is narrowed by the file's `page` statement — room/category constraints are not allowed with it"@,
                            )
                        } else {
                            match check_slug(ident_at(ts, 1)->0) {
                                Err(m) => Err(m),
                                Ok(slug) => match check_type(ident_at(ts, 3)->0) {
                                    Err(m) => Err(m),
                                    Ok(ty) => Ok(
                                        crate::ir::model::SItem::Extern(
                                            crate::ir::model::SExtern {
                                                slug,
                                                block_type: ty,
                                                match_spec: ms,
                                                room,
                                                category: cat,
                                                comment,
                                            },
                                        ),
                                    ),
                                },
                            }
                        },
                    },
                }
            },
        }
    } else {
        Err("expected `extern <slug> = <Type>(uuid|iname|title: \"…\")`"@)
    }
}

/// A `let` statement.
pub open spec fn let_s(ts: Seq<STok>, comment: Option<Seq<char>>) -> Result<crate::ir::model::SItem, Seq<char>> {
    if ts.len() == 4 && ident_at(ts, 1) is Some && ts[2] == STok::Eq {
        let name = ident_at(ts, 1)->0;
        match value_of(ts[3]) {
            Err(m) => Err(m),
            Ok(SValue::Ref(other)) => Err(
                "`let "@ + name + " = "@ + other
                    + "` — a constant's value must be a number or a quoted string, not another identifier"@,
            ),
            Ok(v) => match check_slug(name) {
                Err(m) => Err(m),
                Ok(n) => Ok(crate::ir::model::SItem::Let(n, v, comment)),
            },
        }
    } else {
        Err("expected `let <name> = <number | \"string\">`"@)
    }
}

/// A `removed` statement.
pub open spec fn removed_s(ts: Seq<STok>, comment: Option<Seq<char>>) -> Result<crate::ir::model::SItem, Seq<char>> {
    if ts.len() == 2 && ident_at(ts, 1) is Some {
        match check_slug(ident_at(ts, 1)->0) {
            Err(m) => Err(m),
            Ok(s) => Ok(crate::ir::model::SItem::Removed(s, comment)),
        }
    } else {
        Err("expected `removed <slug>`"@)
    }
}

/// A `moved` statement.
pub open spec fn moved_s(ts: Seq<STok>, comment: Option<Seq<char>>) -> Result<crate::ir::model::SItem, Seq<char>> {
    if ts.len() == 4 && ident_at(ts, 1) is Some && ts[2] == STok::Arrow && ident_at(ts, 3) is Some {
        match check_slug(ident_at(ts, 1)->0) {
            Err(m) => Err(m),
            Ok(f) => match check_slug(ident_at(ts, 3)->0) {
                Err(m) => Err(m),
                Ok(t) => Ok(crate::ir::model::SItem::Moved(f, t, comment)),
            },
        }
    } else {
        Err("expected `moved <old_slug> -> <new_slug>`"@)
    }
}

/// A `page` statement.
pub open spec fn page_s(ts: Seq<STok>, comment: Option<Seq<char>>) -> Result<crate::ir::model::SItem, Seq<char>> {
    if ts.len() == 2 && ts[1] is Str {
        Ok(crate::ir::model::SItem::Page(ts[1]->Str_0, comment))
    } else {
        Err(
            "expected `page \"<Title>\"` — the quoted display title of a page in the base config (D28)"@,
        )
    }
}

/// A `template` header: the open template.
pub open spec fn template_s(ts: Seq<STok>, comment: Option<Seq<char>>) -> Result<crate::ir::model::STemplate, Seq<char>> {
    let n = ts.len();
    if n >= 4 && ident_at(ts, 1) is Some && ts[2] == STok::LParen && ts[n - 1] == STok::RParen {
        let rest = ts.subrange(3, n - 1);
        let ps = if rest.len() == 0 {
            Ok(seq![])
        } else {
            params_from(rest, 0)
        };
        match ps {
            Err(m) => Err(m),
            Ok(ps) => match check_slug(ident_at(ts, 1)->0) {
                Err(m) => Err(m),
                Ok(name) => Ok(
                    crate::ir::model::STemplate {
                        name,
                        params: ps,
                        body: seq![],
                        comment,
                        end_comment: None,
                    },
                ),
            },
        }
    } else {
        Err("expected `template <name>(<param>: <Type> | <param> = <literal>, …)`"@)
    }
}

/// `p` before an outcome's list.
pub open spec fn cons_all<T>(p: Seq<T>, r: Result<Seq<T>, Seq<char>>) -> Result<Seq<T>, Seq<char>> {
    match r {
        Ok(ps) => Ok(p + ps),
        Err(m) => Err(m),
    }
}

fn param_at_x(ts: &Vec<Tok>, i: usize) -> (r: Result<crate::ir::ast::TemplateParam, String>)
    ensures
        match r {
            Ok(p) => param_at(tv(ts@), i as int) == Ok::<crate::ir::model::SParam, Seq<char>>(crate::ir::model::param_v(p)) && i + 2 < ts@.len(),
            Err(m) => param_at(tv(ts@), i as int) == Err::<crate::ir::model::SParam, Seq<char>>(m@),
        },
{
    let shape = "expected `<name>: <Type>` (object parameter) or `<name> = <literal>` (value parameter with default)";
    let n = match ident_of(ts, i) {
        Some(n) => n,
        None => {
            return Err(string_of(shape));
        },
    };
    if ts.len() - i < 3 {
        return Err(string_of(shape));
    }
    assert(tv(ts@)[i + 1] == ts@[i + 1]@ && tv(ts@)[i + 2] == ts@[i + 2]@);
    match (&ts[i + 1], &ts[i + 2]) {
        (Tok::Colon, Tok::Ident(ty)) => {
            let n2 = match check_slug_exec(n) {
                Err(m) => {
                    return Err(m);
                },
                Ok(x) => x,
            };
            let t2 = match check_type_exec(ty.as_str()) {
                Err(m) => {
                    return Err(m);
                },
                Ok(x) => x,
            };
            Ok(crate::ir::ast::TemplateParam::Object { name: n2, block_type: t2 })
        },
        (Tok::Eq, v) => {
            let lit = match v {
                Tok::Num(_) | Tok::UnitNum(..) | Tok::Str(_) => true,
                _ => false,
            };
            if !lit {
                return Err(string_of(shape));
            }
            let n2 = match check_slug_exec(n) {
                Err(m) => {
                    return Err(m);
                },
                Ok(x) => x,
            };
            let x = match value_of_exec(v) {
                Err(m) => {
                    return Err(m);
                },
                Ok(x) => x,
            };
            Ok(crate::ir::ast::TemplateParam::Value { name: n2, default: x })
        },
        _ => Err(string_of(shape)),
    }
}

fn params_from_x(ts: &Vec<Tok>) -> (r: Result<Vec<crate::ir::ast::TemplateParam>, String>)
    ensures
        match r {
            Ok(ps) => params_from(tv(ts@), 0) == Ok::<Seq<crate::ir::model::SParam>, Seq<char>>(crate::ir::model::params_v(ps@)),
            Err(m) => params_from(tv(ts@), 0) == Err::<Seq<crate::ir::model::SParam>, Seq<char>>(m@),
        },
{
    let ghost v = tv(ts@);
    let mut out: Vec<crate::ir::ast::TemplateParam> = Vec::new();
    let mut i: usize = 0;
    assert(cons_all(Seq::<crate::ir::model::SParam>::empty(), params_from(v, 0)) == params_from(v, 0)) by {
        match params_from(v, 0) {
            Ok(ps) => {
                assert(Seq::<crate::ir::model::SParam>::empty() + ps =~= ps);
            },
            Err(_) => {},
        }
    }
    loop
        invariant
            v == tv(ts@),
            i <= ts@.len(),
            params_from(v, 0) == cons_all(crate::ir::model::params_v(out@), params_from(v, i as int)),
        decreases ts@.len() - i,
    {
        let p = match param_at_x(ts, i) {
            Err(m) => {
                return Err(m);
            },
            Ok(p) => p,
        };
        let ghost pv = crate::ir::model::param_v(p);
        let ghost before = crate::ir::model::params_v(out@);
        out.push(p);
        assert(crate::ir::model::params_v(out@) =~= before.push(pv));
        if ts.len() - i == 3 {
            proof {
                assert(before + seq![pv] =~= before.push(pv));
            }
            return Ok(out);
        }
        assert(v[i + 3] == ts@[i + 3]@);
        match &ts[i + 3] {
            Tok::Comma => {
                if ts.len() - i < 4 {
                    return Err(string_of("expected `,` between parameters"));
                }
                proof {
                    match params_from(v, i + 4) {
                        Ok(ps) => {
                            assert(before + (seq![pv] + ps) =~= before.push(pv) + ps);
                        },
                        Err(_) => {},
                    }
                }
                i = i + 4;
            },
            _ => {
                return Err(string_of("expected `,` between parameters"));
            },
        }
    }
}

fn pair_at_x(ts: &Vec<Tok>, i: usize) -> (r: Result<(String, String, bool), String>)
    ensures
        match r {
            Ok(p) => pair_at(tv(ts@), i as int) == Ok::<(Seq<char>, Seq<char>, bool), Seq<char>>((p.0@, p.1@, p.2)) && i + 2 < ts@.len(),
            Err(m) => pair_at(tv(ts@), i as int) == Err::<(Seq<char>, Seq<char>, bool), Seq<char>>(m@),
        },
{
    let shape = "expected `extern <slug> = <Type>(uuid|iname|title: \"…\" | mirrors: <slug>[, room: \"…\"] [, category: \"…\"])`";
    let k = match ident_of(ts, i) {
        Some(k) => k,
        None => {
            return Err(string_of(shape));
        },
    };
    if ts.len() - i < 3 {
        return Err(string_of(shape));
    }
    assert(tv(ts@)[i + 1] == ts@[i + 1]@ && tv(ts@)[i + 2] == ts@[i + 2]@);
    match (&ts[i + 1], &ts[i + 2]) {
        (Tok::Colon, Tok::Str(v)) => Ok((string_of(k), string_of(v.as_str()), false)),
        (Tok::Colon, Tok::Ident(v)) => Ok((string_of(k), string_of(v.as_str()), true)),
        _ => Err(string_of(shape)),
    }
}

pub open spec fn pairs_v(ps: Seq<(String, String, bool)>) -> Seq<(Seq<char>, Seq<char>, bool)> {
    ps.map_values(|p: (String, String, bool)| (p.0@, p.1@, p.2))
}

fn pairs_from_x(ts: &Vec<Tok>) -> (r: Result<Vec<(String, String, bool)>, String>)
    ensures
        match r {
            Ok(ps) => pairs_from(tv(ts@), 0) == Ok::<Seq<(Seq<char>, Seq<char>, bool)>, Seq<char>>(pairs_v(ps@)),
            Err(m) => pairs_from(tv(ts@), 0) == Err::<Seq<(Seq<char>, Seq<char>, bool)>, Seq<char>>(m@),
        },
{
    let ghost v = tv(ts@);
    let mut out: Vec<(String, String, bool)> = Vec::new();
    let mut i: usize = 0;
    assert(cons_all(Seq::<(Seq<char>, Seq<char>, bool)>::empty(), pairs_from(v, 0)) == pairs_from(v, 0)) by {
        match pairs_from(v, 0) {
            Ok(ps) => {
                assert(Seq::<(Seq<char>, Seq<char>, bool)>::empty() + ps =~= ps);
            },
            Err(_) => {},
        }
    }
    loop
        invariant
            v == tv(ts@),
            i <= ts@.len(),
            pairs_from(v, 0) == cons_all(pairs_v(out@), pairs_from(v, i as int)),
        decreases ts@.len() - i,
    {
        let p = match pair_at_x(ts, i) {
            Err(m) => {
                return Err(m);
            },
            Ok(p) => p,
        };
        let ghost pv = (p.0@, p.1@, p.2);
        let ghost before = pairs_v(out@);
        out.push(p);
        assert(pairs_v(out@) =~= before.push(pv));
        if ts.len() - i == 3 {
            proof {
                assert(before + seq![pv] =~= before.push(pv));
            }
            return Ok(out);
        }
        assert(v[i + 3] == ts@[i + 3]@);
        match &ts[i + 3] {
            Tok::Comma => {
                if ts.len() - i < 4 {
                    return Err(string_of("expected `,` between matchers"));
                }
                proof {
                    match pairs_from(v, i + 4) {
                        Ok(ps) => {
                            assert(before + (seq![pv] + ps) =~= before.push(pv) + ps);
                        },
                        Err(_) => {},
                    }
                }
                i = i + 4;
            },
            _ => {
                return Err(string_of("expected `,` between matchers"));
            },
        }
    }
}

fn match_of_x(p: &(String, String, bool)) -> (r: Result<crate::ir::ast::MatchSpec, String>)
    ensures
        match r {
            Ok(ms) => match_of((p.0@, p.1@, p.2)) == Ok::<crate::ir::model::SMatch, Seq<char>>(crate::ir::model::match_v(ms)),
            Err(m) => match_of((p.0@, p.1@, p.2)) == Err::<crate::ir::model::SMatch, Seq<char>>(m@),
        },
{
    let k = p.0.as_str();
    let v = p.1.as_str();
    if str_eq(k, "mirrors") && p.2 {
        return match check_slug_exec(v) {
            Err(m) => Err(m),
            Ok(s) => Ok(crate::ir::ast::MatchSpec::Mirrors(s)),
        };
    }
    if str_eq(k, "mirrors") {
        return Err(string_of("`mirrors:` names a slug, not a string — write `mirrors: status_alarm` without quotes"));
    }
    if p.2 {
        let mut m = String::new();
        push_str(&mut m, "`");
        push_str(&mut m, k);
        push_str(&mut m, ":` takes a quoted string");
        return Err(m);
    }
    if str_eq(k, "uuid") {
        Ok(crate::ir::ast::MatchSpec::Uuid(string_of(v)))
    } else if str_eq(k, "iname") {
        Ok(crate::ir::ast::MatchSpec::IName(string_of(v)))
    } else if str_eq(k, "title") {
        Ok(crate::ir::ast::MatchSpec::Title(string_of(v)))
    } else {
        let mut m = String::new();
        push_str(&mut m, "unknown matcher `");
        push_str(&mut m, k);
        push_str(&mut m, "` (expected uuid, iname, title, or mirrors first; room/category only narrow it)");
        Err(m)
    }
}

fn constraints_x(ps: &Vec<(String, String, bool)>) -> (r: Result<(Option<String>, Option<String>), String>)
    requires
        ps@.len() > 0,
    ensures
        match r {
            Ok((room, cat)) => constraints(pairs_v(ps@).drop_first()) == Ok::<(Option<Seq<char>>, Option<Seq<char>>), Seq<char>>((crate::doc::opt_view(room), crate::doc::opt_view(cat))),
            Err(m) => constraints(pairs_v(ps@).drop_first()) == Err::<(Option<Seq<char>>, Option<Seq<char>>), Seq<char>>(m@),
        },
{
    let ghost all = pairs_v(ps@).drop_first();
    let mut room: Option<String> = None;
    let mut cat: Option<String> = None;
    let mut i: usize = 1;
    assert(all.take(0) =~= Seq::<(Seq<char>, Seq<char>, bool)>::empty());
    while i < ps.len()
        invariant
            1 <= i <= ps@.len(),
            all == pairs_v(ps@).drop_first(),
            constraints(all.take(i - 1)) == Ok::<(Option<Seq<char>>, Option<Seq<char>>), Seq<char>>((crate::doc::opt_view(room), crate::doc::opt_view(cat))),
        decreases ps@.len() - i,
    {
        proof {
            assert(all.take(i as int).drop_last() =~= all.take(i - 1));
            assert(all.take(i as int).last() == (ps@[i as int].0@, ps@[i as int].1@, ps@[i as int].2));
        }
        let (k, v, id) = (&ps[i].0, &ps[i].1, ps[i].2);
        if id {
            let mut m = String::new();
            push_str(&mut m, "`");
            push_str(&mut m, k.as_str());
            push_str(&mut m, ":` takes a quoted string");
            proof {
                lemma_constraints_err(all, i as int);
            }
            return Err(m);
        }
        if str_eq(k.as_str(), "room") {
            if room.is_some() {
                proof {
                    lemma_constraints_err(all, i as int);
                }
                return Err(string_of("duplicate `room:` constraint"));
            }
            room = Some(string_of(v.as_str()));
        } else if str_eq(k.as_str(), "category") {
            if cat.is_some() {
                proof {
                    lemma_constraints_err(all, i as int);
                }
                return Err(string_of("duplicate `category:` constraint"));
            }
            cat = Some(string_of(v.as_str()));
        } else {
            let mut m = String::new();
            push_str(&mut m, "unknown constraint `");
            push_str(&mut m, k.as_str());
            push_str(&mut m, "` (expected room or category)");
            proof {
                lemma_constraints_err(all, i as int);
            }
            return Err(m);
        }
        i = i + 1;
    }
    assert(all.take(all.len() as int) =~= all);
    Ok((room, cat))
}

/// A constraint error in a prefix is the error of the whole list.
proof fn lemma_constraints_err(all: Seq<(Seq<char>, Seq<char>, bool)>, j: int)
    requires
        0 <= j <= all.len(),
        constraints(all.take(j)) is Err,
    ensures
        constraints(all) == constraints(all.take(j)),
    decreases all.len() - j,
{
    if j < all.len() {
        assert(all.take(j + 1).drop_last() =~= all.take(j));
        lemma_constraints_err(all, j + 1);
    } else {
        assert(all.take(j) =~= all);
    }
}

fn is_rparen_at(ts: &Vec<Tok>, i: usize) -> (r: bool)
    ensures
        r == (i < ts@.len() && tv(ts@)[i as int] == STok::RParen),
{
    i < ts.len() && match &ts[i] {
        Tok::RParen => true,
        _ => false,
    }
}

fn extern_x(ts: &Vec<Tok>, comment: Option<String>) -> (r: Result<crate::ir::ast::Item, String>)
    ensures
        match r {
            Ok(i) => extern_s(tv(ts@), crate::doc::opt_view(comment)) == Ok::<crate::ir::model::SItem, Seq<char>>(crate::ir::model::item_v(i)),
            Err(m) => extern_s(tv(ts@), crate::doc::opt_view(comment)) == Err::<crate::ir::model::SItem, Seq<char>>(m@),
        },
{
    let n = ts.len();
    let shape_ok = n >= 6 && ident_of(ts, 1).is_some() && is_eq(ts, 2) && ident_of(ts, 3).is_some()
        && is_lparen(ts, 4) && is_rparen_at(ts, n - 1);
    if !shape_ok {
        return Err(string_of("expected `extern <slug> = <Type>(uuid|iname|title: \"…\")`"));
    }
    let rest = copy_toks(ts, 5, n - 1);
    let ps = match pairs_from_x(&rest) {
        Err(m) => {
            return Err(m);
        },
        Ok(ps) => ps,
    };
    if ps.len() == 0 {
        return Err(string_of("empty matcher list"));
    }
    let ms = match match_of_x(&ps[0]) {
        Err(m) => {
            return Err(m);
        },
        Ok(ms) => ms,
    };
    let (room, cat) = match constraints_x(&ps) {
        Err(m) => {
            return Err(m);
        },
        Ok(x) => x,
    };
    let constrained = room.is_some() || cat.is_some();
    if let crate::ir::ast::MatchSpec::Uuid(_) = &ms {
        if constrained {
            return Err(string_of("`uuid:` pins exactly — room/category constraints are redundant and not allowed with it"));
        }
    }
    if let crate::ir::ast::MatchSpec::Mirrors(_) = &ms {
        if constrained {
            return Err(string_of("`mirrors:` is narrowed by the file's `page` statement — room/category constraints are not allowed with it"));
        }
    }
    let slug = match check_slug_exec(ident_of(ts, 1).unwrap()) {
        Err(m) => {
            return Err(m);
        },
        Ok(x) => x,
    };
    let ty = match check_type_exec(ident_of(ts, 3).unwrap()) {
        Err(m) => {
            return Err(m);
        },
        Ok(x) => x,
    };
    Ok(
        crate::ir::ast::Item::Extern(
            crate::ir::ast::ExternDecl { slug, block_type: ty, match_spec: ms, room, category: cat, comment },
        ),
    )
}

fn let_x(ts: &Vec<Tok>, comment: Option<String>) -> (r: Result<crate::ir::ast::Item, String>)
    ensures
        match r {
            Ok(i) => let_s(tv(ts@), crate::doc::opt_view(comment)) == Ok::<crate::ir::model::SItem, Seq<char>>(crate::ir::model::item_v(i)),
            Err(m) => let_s(tv(ts@), crate::doc::opt_view(comment)) == Err::<crate::ir::model::SItem, Seq<char>>(m@),
        },
{
    if !(ts.len() == 4 && ident_of(ts, 1).is_some() && is_eq(ts, 2)) {
        return Err(string_of("expected `let <name> = <number | \"string\">`"));
    }
    let name = ident_of(ts, 1).unwrap();
    assert(tv(ts@)[3] == ts@[3]@);
    let v = match value_of_exec(&ts[3]) {
        Err(m) => {
            return Err(m);
        },
        Ok(v) => v,
    };
    if let Value::Ref(other) = &v {
        let mut m = String::new();
        push_str(&mut m, "`let ");
        push_str(&mut m, name);
        push_str(&mut m, " = ");
        push_str(&mut m, other.as_str());
        push_str(&mut m, "` — a constant's value must be a number or a quoted string, not another identifier");
        return Err(m);
    }
    let n = match check_slug_exec(name) {
        Err(m) => {
            return Err(m);
        },
        Ok(n) => n,
    };
    Ok(crate::ir::ast::Item::Let(crate::ir::ast::LetDecl { name: n, value: v, comment }))
}

fn removed_x(ts: &Vec<Tok>, comment: Option<String>) -> (r: Result<crate::ir::ast::Item, String>)
    ensures
        match r {
            Ok(i) => removed_s(tv(ts@), crate::doc::opt_view(comment)) == Ok::<crate::ir::model::SItem, Seq<char>>(crate::ir::model::item_v(i)),
            Err(m) => removed_s(tv(ts@), crate::doc::opt_view(comment)) == Err::<crate::ir::model::SItem, Seq<char>>(m@),
        },
{
    if !(ts.len() == 2 && ident_of(ts, 1).is_some()) {
        return Err(string_of("expected `removed <slug>`"));
    }
    match check_slug_exec(ident_of(ts, 1).unwrap()) {
        Err(m) => Err(m),
        Ok(s) => Ok(crate::ir::ast::Item::Removed(crate::ir::ast::RemovedDecl { slug: s, comment })),
    }
}

fn moved_x(ts: &Vec<Tok>, comment: Option<String>) -> (r: Result<crate::ir::ast::Item, String>)
    ensures
        match r {
            Ok(i) => moved_s(tv(ts@), crate::doc::opt_view(comment)) == Ok::<crate::ir::model::SItem, Seq<char>>(crate::ir::model::item_v(i)),
            Err(m) => moved_s(tv(ts@), crate::doc::opt_view(comment)) == Err::<crate::ir::model::SItem, Seq<char>>(m@),
        },
{
    let arrow = ts.len() == 4 && match &ts[2] {
        Tok::Arrow => true,
        _ => false,
    };
    if ts.len() == 4 {
        assert(tv(ts@)[2] == ts@[2]@);
    }
    if !(arrow && ident_of(ts, 1).is_some() && ident_of(ts, 3).is_some()) {
        return Err(string_of("expected `moved <old_slug> -> <new_slug>`"));
    }
    let f = match check_slug_exec(ident_of(ts, 1).unwrap()) {
        Err(m) => {
            return Err(m);
        },
        Ok(f) => f,
    };
    match check_slug_exec(ident_of(ts, 3).unwrap()) {
        Err(m) => Err(m),
        Ok(t) => Ok(crate::ir::ast::Item::Moved(crate::ir::ast::MovedDecl { from: f, to: t, comment })),
    }
}

fn page_x(ts: &Vec<Tok>, comment: Option<String>) -> (r: Result<crate::ir::ast::Item, String>)
    ensures
        match r {
            Ok(i) => page_s(tv(ts@), crate::doc::opt_view(comment)) == Ok::<crate::ir::model::SItem, Seq<char>>(crate::ir::model::item_v(i)),
            Err(m) => page_s(tv(ts@), crate::doc::opt_view(comment)) == Err::<crate::ir::model::SItem, Seq<char>>(m@),
        },
{
    if ts.len() == 2 {
        assert(tv(ts@)[1] == ts@[1]@);
        if let Tok::Str(title) = &ts[1] {
            return Ok(crate::ir::ast::Item::Page(crate::ir::ast::PageDecl { title: string_of(title.as_str()), comment }));
        }
    }
    Err(string_of("expected `page \"<Title>\"` — the quoted display title of a page in the base config (D28)"))
}

fn template_x(ts: &Vec<Tok>, comment: Option<String>) -> (r: Result<crate::ir::ast::TemplateDecl, String>)
    ensures
        match r {
            Ok(t) => template_s(tv(ts@), crate::doc::opt_view(comment)) == Ok::<crate::ir::model::STemplate, Seq<char>>(crate::ir::model::template_v(t)),
            Err(m) => template_s(tv(ts@), crate::doc::opt_view(comment)) == Err::<crate::ir::model::STemplate, Seq<char>>(m@),
        },
{
    let n = ts.len();
    if !(n >= 4 && ident_of(ts, 1).is_some() && is_lparen(ts, 2) && is_rparen_at(ts, n - 1)) {
        return Err(string_of("expected `template <name>(<param>: <Type> | <param> = <literal>, …)`"));
    }
    let rest = copy_toks(ts, 3, n - 1);
    let params = if rest.len() == 0 {
        let e: Vec<crate::ir::ast::TemplateParam> = Vec::new();
        assert(crate::ir::model::params_v(e@) =~= Seq::<crate::ir::model::SParam>::empty());
        e
    } else {
        match params_from_x(&rest) {
            Err(m) => {
                return Err(m);
            },
            Ok(ps) => ps,
        }
    };
    let name = match check_slug_exec(ident_of(ts, 1).unwrap()) {
        Err(m) => {
            return Err(m);
        },
        Ok(x) => x,
    };
    let t = crate::ir::ast::TemplateDecl { name, params, body: Vec::new(), comment, end_comment: None };
    proof {
        assert(t.body@ =~= Seq::<crate::ir::ast::Item>::empty());
        assert(crate::ir::model::items_v(t.body@) =~= Seq::<crate::ir::model::SItem>::empty());
    }
    Ok(t)
}

/// The parser's state between lines: the statements so far, a block
/// declaration whose argument list is still open, a template whose body is
/// still open.
pub struct PState {
    pub items: Seq<crate::ir::model::SItem>,
    pub call: Option<SBlock>,
    pub tmpl: Option<crate::ir::model::STemplate>,
}

/// A statement lands in the open template's body, or the module.
pub open spec fn sink(st: PState, item: crate::ir::model::SItem) -> PState {
    match st.tmpl {
        Some(t) => PState {
            items: st.items,
            call: st.call,
            tmpl: Some(
                crate::ir::model::STemplate {
                    name: t.name,
                    params: t.params,
                    body: t.body.push(item),
                    comment: t.comment,
                    end_comment: t.end_comment,
                },
            ),
        },
        None => PState { items: st.items.push(item), call: st.call, tmpl: None },
    }
}

/// A trailing comment on an argument line: on the binding the line
/// appended, else a comment entry of its own.
pub open spec fn attach(c: SBlock, comment: Option<Seq<char>>, pushed: bool) -> SBlock {
    match comment {
        None => c,
        Some(text) => {
            let n = c.args.len();
            let args = if pushed && n > 0 && c.args[n - 1] is Binding {
                let b = c.args[n - 1]->Binding_0;
                c.args.update(
                    n - 1,
                    SArg::Binding(crate::ir::model::SBinding { port: b.port, kind: b.kind, comment: Some(text) }),
                )
            } else {
                c.args.push(SArg::Comment(text))
            };
            SBlock {
                slug: c.slug,
                block_type: c.block_type,
                title: c.title,
                args,
                comment: c.comment,
                close_comment: c.close_comment,
            }
        },
    }
}

/// The statement keywords a template body may not hold.
pub open spec fn module_only(kw: Seq<char>) -> bool {
    kw == "let"@ || kw == "extern"@ || kw == "removed"@ || kw == "moved"@ || kw == "page"@
}

/// A module-level statement after its keyword.
pub open spec fn push_item(st: PState, r: Result<crate::ir::model::SItem, Seq<char>>) -> Result<PState, Seq<char>> {
    match r {
        Err(m) => Err(m),
        Ok(i) => Ok(PState { items: st.items.push(i), call: st.call, tmpl: st.tmpl }),
    }
}

/// A line with no argument list open.
pub open spec fn statement_step(st: PState, ts: Seq<STok>, comment: Option<Seq<char>>) -> Result<PState, Seq<char>> {
    if ts.len() == 0 {
        match comment {
            Some(t) => Ok(sink(st, crate::ir::model::SItem::Comment(t))),
            None => Ok(st),
        }
    } else if st.tmpl is Some && ident_at(ts, 0) is Some && module_only(ident_at(ts, 0)->0) {
        Err(
            "`"@ + ident_at(ts, 0)->0
                + "` is not allowed inside a template body — only block declarations, wires, port assignments, and comments (D23)"@,
        )
    } else {
        match ident_at(ts, 0) {
            Some(kw) => if kw == "template"@ {
                if st.tmpl is Some {
                    Err("nested `template` — close the open one with `end`"@)
                } else {
                    match template_s(ts, comment) {
                        Err(m) => Err(m),
                        Ok(t) => Ok(PState { items: st.items, call: st.call, tmpl: Some(t) }),
                    }
                }
            } else if kw == "end"@ {
                if ts.len() == 1 {
                    match st.tmpl {
                        None => Err("`end` without an open `template`"@),
                        Some(t) => Ok(
                            PState {
                                items: st.items.push(
                                    crate::ir::model::SItem::Template(
                                        crate::ir::model::STemplate {
                                            name: t.name,
                                            params: t.params,
                                            body: t.body,
                                            comment: t.comment,
                                            end_comment: comment,
                                        },
                                    ),
                                ),
                                call: st.call,
                                tmpl: None,
                            },
                        ),
                    }
                } else {
                    Err("expected `end` on its own line"@)
                }
            } else if kw == "use"@ {
                Err(
                    "the `use` keyword is v0 syntax — instantiate a template as `<slug> = <template_name>(<param>: <arg>, …)`"@,
                )
            } else if kw == "let"@ {
                push_item(st, let_s(ts, comment))
            } else if kw == "extern"@ {
                push_item(st, extern_s(ts, comment))
            } else if kw == "removed"@ {
                push_item(st, removed_s(ts, comment))
            } else if kw == "moved"@ {
                push_item(st, moved_s(ts, comment))
            } else if kw == "page"@ {
                push_item(st, page_s(ts, comment))
            } else if kw == "block"@ {
                Err(
                    "the `block` keyword is v0 syntax — declare a managed block as `<slug> = <Type>(…)` with its inputs and parameters as arguments"@,
                )
            } else if kw == "wire"@ {
                Err(
                    "the `wire` keyword is v0 syntax — a wire into a managed block is written in its argument list (`<Port>: <source>.<Port>`); a wire onto an extern port is `<extern>.<Port> <- <source>.<Port>`"@,
                )
            } else if kw == "set"@ {
                Err("the `set` keyword is v0 syntax — write `<extern>.<Port> = <value>`"@)
            } else {
                match ident_stmt_s(ts, comment, st.tmpl is Some) {
                    Err(m) => Err(m),
                    Ok((Some(item), _)) => Ok(sink(st, item)),
                    Ok((None, Some(c))) => Ok(PState { items: st.items, call: Some(c), tmpl: st.tmpl }),
                    Ok((None, None)) => Err(seq![]),
                }
            },
            None => if ts[0] == STok::LBrace || ts[0] == STok::RBrace {
                Err("v0 `{ … }` block bodies were replaced by argument lists (`<slug> = <Type>(…)`)"@)
            } else {
                Err(statement_msg())
            },
        }
    }
}

/// One lexed line.
pub open spec fn line_step(st: PState, ts: Seq<STok>, comment: Option<Seq<char>>) -> Result<PState, Seq<char>> {
    match st.call {
        Some(call) => if ts.len() == 0 {
            match comment {
                Some(t) => Ok(
                    PState {
                        items: st.items,
                        call: Some(
                            SBlock {
                                slug: call.slug,
                                block_type: call.block_type,
                                title: call.title,
                                args: call.args.push(SArg::Comment(t)),
                                comment: call.comment,
                                close_comment: call.close_comment,
                            },
                        ),
                        tmpl: st.tmpl,
                    },
                ),
                None => Ok(st),
            }
        } else {
            match args_from(call, ts, 0, false) {
                Err(m) => Err(m),
                Ok((c2, closed, pushed)) => if closed {
                    let c3 = SBlock {
                        slug: c2.slug,
                        block_type: c2.block_type,
                        title: c2.title,
                        args: c2.args,
                        comment: c2.comment,
                        close_comment: comment,
                    };
                    match finish_call_s(c3, st.tmpl is Some) {
                        Err(m) => Err(m),
                        Ok(item) => Ok(sink(PState { items: st.items, call: None, tmpl: st.tmpl }, item)),
                    }
                } else {
                    Ok(PState { items: st.items, call: Some(attach(c2, comment, pushed)), tmpl: st.tmpl })
                },
            }
        },
        None => statement_step(st, ts, comment),
    }
}

/// The lines of a text, as `str::lines` gives them: split at `\n`, a
/// `\r` before it dropped, no empty last line.
pub open spec fn lines_of(s: Seq<char>) -> Seq<Seq<char>>
    decreases s.len(),
{
    if s.len() == 0 {
        seq![]
    } else {
        let i = find_from(s, 0, '\n');
        if i < 0 || i >= s.len() {
            seq![s]
        } else {
            seq![crate::ir::emit::strip_cr(s.subrange(0, i))] + lines_of(s.subrange(i + 1, s.len() as int))
        }
    }
}

/// One raw line, lexed and parsed.
#[verifier::opaque]
pub open spec fn line_result(st: PState, line: Seq<char>) -> Result<PState, Seq<char>> {
    match crate::ir::lexer::lex_at(line, 0) {
        Err(m) => Err(m),
        Ok((ts, c)) => line_step(st, ts, c),
    }
}

/// Lines `i` on, from state `st`: the final state, or the line number
/// (from 1) and message of the first error.
pub open spec fn parse_lines(ls: Seq<Seq<char>>, i: int, st: PState) -> Result<PState, (int, Seq<char>)>
    decreases ls.len() - i,
{
    if i < 0 || i >= ls.len() {
        Ok(st)
    } else {
        match line_result(st, ls[i]) {
            Err(m) => Err((i + 1, m)),
            Ok(st2) => parse_lines(ls, i + 1, st2),
        }
    }
}

/// What parsing a text gives: its statements, or the line number and
/// message of the first error (an argument list or template left open is
/// reported on the last line).
pub open spec fn parse_spec(src: Seq<char>) -> Result<Seq<crate::ir::model::SItem>, (int, Seq<char>)> {
    let ls = lines_of(src);
    match parse_lines(ls, 0, PState { items: seq![], call: None, tmpl: None }) {
        Err(e) => Err(e),
        Ok(st) => match st.call {
            Some(c) => Err((ls.len() as int, "unclosed `(` in `"@ + c.slug + " = "@ + c.block_type + "(…`"@)),
            None => match st.tmpl {
                Some(t) => Err((ls.len() as int, "unclosed `template "@ + t.name + "` — missing `end`"@)),
                None => Ok(st.items),
            },
        },
    }
}

/// The state view of the parser's exec state.
pub open spec fn pstate(items: Seq<crate::ir::ast::Item>, call: Option<BlockDecl>, tmpl: Option<crate::ir::ast::TemplateDecl>) -> PState {
    PState {
        items: crate::ir::model::items_v(items),
        call: match call {
            Some(c) => Some(crate::ir::model::block_v(c)),
            None => None,
        },
        tmpl: match tmpl {
            Some(t) => Some(crate::ir::model::template_v(t)),
            None => None,
        },
    }
}

proof fn lemma_items_push(s: Seq<crate::ir::ast::Item>, x: crate::ir::ast::Item)
    ensures
        crate::ir::model::items_v(s.push(x)) == crate::ir::model::items_v(s).push(crate::ir::model::item_v(x)),
{
    let t = s.push(x);
    assert(t.subrange(0, t.len() - 1) =~= s);
}

fn sink_push(items: &mut Vec<crate::ir::ast::Item>, tmpl: &mut Option<crate::ir::ast::TemplateDecl>, item: crate::ir::ast::Item, Ghost(call): Ghost<Option<BlockDecl>>)
    ensures
        pstate(final(items)@, call, *final(tmpl)) == sink(pstate(old(items)@, call, *old(tmpl)), crate::ir::model::item_v(item)),
{
    let ghost iv = crate::ir::model::item_v(item);
    match tmpl.take() {
        Some(mut t) => {
            let ghost b = t.body@;
            t.body.push(item);
            proof {
                lemma_items_push(b, item);
            }
            *tmpl = Some(t);
        },
        None => {
            let ghost b = items@;
            items.push(item);
            proof {
                lemma_items_push(b, item);
            }
        },
    }
}

fn attach_x(c: &mut BlockDecl, comment: Option<String>, pushed: bool)
    ensures
        crate::ir::model::block_v(*final(c)) == attach(crate::ir::model::block_v(*old(c)), crate::doc::opt_view(comment), pushed),
{
    let text = match comment {
        None => {
            return;
        },
        Some(t) => t,
    };
    let ghost before = c.args@;
    let n = c.args.len();
    let is_b = n > 0 && match &c.args[n - 1] {
        crate::ir::ast::ArgItem::Binding(_) => true,
        _ => false,
    };
    proof {
        if n > 0 {
            assert(crate::ir::model::args_v(before)[n - 1] == crate::ir::model::arg_v(before[n - 1]));
        }
    }
    if pushed && is_b {
        let last = c.args.pop().unwrap();
        if let crate::ir::ast::ArgItem::Binding(mut b) = last {
            b.comment = Some(text);
            c.args.push(crate::ir::ast::ArgItem::Binding(b));
        }
        proof {
            assert(crate::ir::model::args_v(c.args@) =~= crate::ir::model::args_v(before).update(
                n - 1,
                crate::ir::model::arg_v(c.args@[n - 1]),
            ));
        }
    } else {
        c.args.push(crate::ir::ast::ArgItem::Comment(text));
        proof {
            assert(crate::ir::model::args_v(c.args@) =~= crate::ir::model::args_v(before).push(
                crate::ir::model::arg_v(c.args@[n as int]),
            ));
        }
    }
}

fn push_module_item(items: &mut Vec<crate::ir::ast::Item>, r: Result<crate::ir::ast::Item, String>) -> (res: Result<(), String>)
    ensures
        match r {
            Ok(i) => res is Ok && crate::ir::model::items_v(final(items)@) == crate::ir::model::items_v(old(items)@).push(crate::ir::model::item_v(i)),
            Err(m) => res == Err::<(), String>(m) && final(items)@ == old(items)@,
        },
{
    match r {
        Err(m) => Err(m),
        Ok(i) => {
            let ghost b = items@;
            let ghost iv = crate::ir::model::item_v(i);
            items.push(i);
            proof {
                lemma_items_push(b, i);
            }
            Ok(())
        },
    }
}

fn statement_step_x(
    items: &mut Vec<crate::ir::ast::Item>,
    call: &mut Option<BlockDecl>,
    tmpl: &mut Option<crate::ir::ast::TemplateDecl>,
    ts: &Vec<Tok>,
    comment: Option<String>,
) -> (r: Result<(), String>)
    requires
        *old(call) is None,
    ensures
        match r {
            Ok(()) => statement_step(pstate(old(items)@, *old(call), *old(tmpl)), tv(ts@), crate::doc::opt_view(comment))
                == Ok::<PState, Seq<char>>(pstate(final(items)@, *final(call), *final(tmpl))),
            Err(m) => statement_step(pstate(old(items)@, *old(call), *old(tmpl)), tv(ts@), crate::doc::opt_view(comment))
                == Err::<PState, Seq<char>>(m@),
        },
{
    let ghost st = pstate(items@, *call, *tmpl);
    if ts.len() == 0 {
        if let Some(t) = comment {
            sink_push(items, tmpl, crate::ir::ast::Item::Comment(t), Ghost(*call));
        }
        return Ok(());
    }
    let kw = ident_of(ts, 0);
    if let Some(k) = kw {
        if tmpl.is_some() && (str_eq(k, "let") || str_eq(k, "extern") || str_eq(k, "removed") || str_eq(k, "moved") || str_eq(k, "page")) {
            let mut m = String::new();
            push_str(&mut m, "`");
            push_str(&mut m, k);
            push_str(&mut m, "` is not allowed inside a template body — only block declarations, wires, port assignments, and comments (D23)");
            return Err(m);
        }
        if str_eq(k, "template") {
            if tmpl.is_some() {
                return Err(string_of("nested `template` — close the open one with `end`"));
            }
            return match template_x(ts, comment) {
                Err(m) => Err(m),
                Ok(t) => {
                    *tmpl = Some(t);
                    Ok(())
                },
            };
        }
        if str_eq(k, "end") {
            if ts.len() != 1 {
                return Err(string_of("expected `end` on its own line"));
            }
            return match tmpl.take() {
                None => Err(string_of("`end` without an open `template`")),
                Some(mut t) => {
                    t.end_comment = comment;
                    let ghost b = items@;
                    let ghost tv2 = crate::ir::model::template_v(t);
                    items.push(crate::ir::ast::Item::Template(t));
                    proof {
                        lemma_items_push(b, items@.last());
                    }
                    Ok(())
                },
            };
        }
        if str_eq(k, "use") {
            return Err(string_of("the `use` keyword is v0 syntax — instantiate a template as `<slug> = <template_name>(<param>: <arg>, …)`"));
        }
        if str_eq(k, "let") {
            return push_module_item(items, let_x(ts, comment));
        }
        if str_eq(k, "extern") {
            return push_module_item(items, extern_x(ts, comment));
        }
        if str_eq(k, "removed") {
            return push_module_item(items, removed_x(ts, comment));
        }
        if str_eq(k, "moved") {
            return push_module_item(items, moved_x(ts, comment));
        }
        if str_eq(k, "page") {
            return push_module_item(items, page_x(ts, comment));
        }
        if str_eq(k, "block") {
            return Err(string_of("the `block` keyword is v0 syntax — declare a managed block as `<slug> = <Type>(…)` with its inputs and parameters as arguments"));
        }
        if str_eq(k, "wire") {
            return Err(string_of("the `wire` keyword is v0 syntax — a wire into a managed block is written in its argument list (`<Port>: <source>.<Port>`); a wire onto an extern port is `<extern>.<Port> <- <source>.<Port>`"));
        }
        if str_eq(k, "set") {
            return Err(string_of("the `set` keyword is v0 syntax — write `<extern>.<Port> = <value>`"));
        }
        let in_t = tmpl.is_some();
        return match ident_stmt_x(ts, comment, in_t) {
            Err(m) => Err(m),
            Ok((Some(item), _)) => {
                sink_push(items, tmpl, item, Ghost(*call));
                Ok(())
            },
            Ok((None, Some(c))) => {
                *call = Some(c);
                Ok(())
            },
            Ok((None, None)) => Err(String::new()),
        };
    }
    assert(tv(ts@)[0] == ts@[0]@);
    match &ts[0] {
        Tok::LBrace | Tok::RBrace => Err(string_of("v0 `{ … }` block bodies were replaced by argument lists (`<slug> = <Type>(…)`)")),
        _ => Err(string_of("expected a statement: `let`, `extern`, `<slug> = <Type>(…)`, `<slug>.<Port> <- <slug>.<Port>`, `<slug>.<Port> = <value>`, `removed`, or `moved`")),
    }
}

fn line_step_x(
    items: &mut Vec<crate::ir::ast::Item>,
    call: &mut Option<BlockDecl>,
    tmpl: &mut Option<crate::ir::ast::TemplateDecl>,
    ts: &Vec<Tok>,
    comment: Option<String>,
) -> (r: Result<(), String>)
    ensures
        match r {
            Ok(()) => line_step(pstate(old(items)@, *old(call), *old(tmpl)), tv(ts@), crate::doc::opt_view(comment))
                == Ok::<PState, Seq<char>>(pstate(final(items)@, *final(call), *final(tmpl))),
            Err(m) => line_step(pstate(old(items)@, *old(call), *old(tmpl)), tv(ts@), crate::doc::opt_view(comment))
                == Err::<PState, Seq<char>>(m@),
        },
{
    let mut c = match call.take() {
        None => {
            return statement_step_x(items, call, tmpl, ts, comment);
        },
        Some(c) => c,
    };
    if ts.len() == 0 {
        if let Some(t) = comment {
            let ghost before = c.args@;
            c.args.push(crate::ir::ast::ArgItem::Comment(t));
            proof {
                assert(crate::ir::model::args_v(c.args@) =~= crate::ir::model::args_v(before).push(
                    SArg::Comment(t@),
                ));
            }
        }
        *call = Some(c);
        return Ok(());
    }
    let (closed, pushed) = match call_args_x(&mut c, ts) {
        Err(m) => {
            return Err(m);
        },
        Ok(x) => x,
    };
    if closed {
        c.close_comment = comment;
        let in_t = tmpl.is_some();
        match finish_call_x(c, in_t) {
            Err(m) => Err(m),
            Ok(item) => {
                sink_push(items, tmpl, item, Ghost(None));
                Ok(())
            },
        }
    } else {
        attach_x(&mut c, comment, pushed);
        *call = Some(c);
        Ok(())
    }
}

/// The lines of a text (`str::lines`).
fn split_lines(src: &str) -> (r: Vec<String>)
    ensures
        r@.map_values(|l: String| l@) == lines_of(src@),
        forall|i: int| 0 <= i < r@.len() ==> (#[trigger] r@[i])@.len() <= src@.len(),
{
    let cs = chars_of(src);
    let mut out: Vec<String> = Vec::new();
    let mut pos: usize = 0;
    proof {
        assert(cs@.subrange(0, cs@.len() as int) =~= cs@);
        assert(out@.map_values(|l: String| l@) + lines_of(cs@) =~= lines_of(cs@));
    }
    while pos < cs.len()
        invariant
            pos <= cs@.len(),
            cs@ == src@,
            lines_of(cs@) == out@.map_values(|l: String| l@) + lines_of(cs@.subrange(pos as int, cs@.len() as int)),
            forall|i: int| 0 <= i < out@.len() ==> (#[trigger] out@[i])@.len() <= src@.len(),
        decreases cs@.len() - pos,
    {
        let ghost rest = cs@.subrange(pos as int, cs@.len() as int);
        let ghost before = out@.map_values(|l: String| l@);
        let i = crate::text::find_char_from(&cs, pos, '\n');
        proof {
            crate::text::lemma_find_from(cs@, pos as int, '\n');
            crate::text::lemma_find_suffix(cs@, pos as int, 0, '\n');
        }
        if i >= cs.len() {
            let line = crate::text::string_from_range(&cs, pos, cs.len());
            out.push(line);
            proof {
                assert(lines_of(rest) == seq![rest]);
                assert(out@.map_values(|l: String| l@) =~= before.push(rest));
                assert(cs@.subrange(cs@.len() as int, cs@.len() as int) =~= Seq::<char>::empty());
                assert(before + seq![rest] =~= before.push(rest));
                assert(before.push(rest) + Seq::<Seq<char>>::empty() =~= before.push(rest));
            }
            pos = cs.len();
        } else {
            let end = if i > pos && cs[i - 1] == '\r' {
                i - 1
            } else {
                i
            };
            let line = crate::text::string_from_range(&cs, pos, end);
            out.push(line);
            proof {
                let l = rest.subrange(0, i - pos);
                assert(l =~= cs@.subrange(pos as int, i as int));
                assert(crate::ir::emit::strip_cr(l) =~= cs@.subrange(pos as int, end as int));
                assert(rest.subrange(i - pos + 1, rest.len() as int) =~= cs@.subrange(i + 1, cs@.len() as int));
                assert(lines_of(rest) == seq![crate::ir::emit::strip_cr(l)] + lines_of(cs@.subrange(i + 1, cs@.len() as int)));
                assert(out@.map_values(|l: String| l@) =~= before.push(crate::ir::emit::strip_cr(l)));
                assert(before + (seq![crate::ir::emit::strip_cr(l)] + lines_of(cs@.subrange(i + 1, cs@.len() as int)))
                    =~= before.push(crate::ir::emit::strip_cr(l)) + lines_of(cs@.subrange(i + 1, cs@.len() as int)));
            }
            pos = i + 1;
        }
    }
    proof {
        assert(cs@.subrange(pos as int, cs@.len() as int) =~= Seq::<char>::empty());
        assert(out@.map_values(|l: String| l@) + Seq::<Seq<char>>::empty() =~= out@.map_values(|l: String| l@));
    }
    out
}

fn parse_line(
    items: &mut Vec<crate::ir::ast::Item>,
    call: &mut Option<BlockDecl>,
    tmpl: &mut Option<crate::ir::ast::TemplateDecl>,
    line: &str,
    lineno: usize,
) -> (r: crate::error::Result<()>)
    requires
        line@.len() + 3 <= u32::MAX,
    ensures
        match r {
            Ok(()) => line_result(pstate(old(items)@, *old(call), *old(tmpl)), line@)
                == Ok::<PState, Seq<char>>(pstate(final(items)@, *final(call), *final(tmpl))),
            Err(e) => line_result(pstate(old(items)@, *old(call), *old(tmpl)), line@) is Err && (e matches crate::error::Error::IrParse { line: l, msg }
                && l == lineno && line_result(pstate(old(items)@, *old(call), *old(tmpl)), line@) == Err::<PState, Seq<char>>(msg@)),
        },
{
    proof {
        reveal(line_result);
    }
    let (ts, comment) = match crate::ir::lexer::lex(line, lineno) {
        Err(e) => {
            return Err(e);
        },
        Ok(x) => x,
    };
    match line_step_x(items, call, tmpl, &ts, comment) {
        Err(m) => Err(crate::error::Error::IrParse { line: lineno, msg: m }),
        Ok(()) => Ok(()),
    }
}

/// The parser's outcome as the library reports it.
pub open spec fn parsed(r: crate::error::Result<Vec<crate::ir::ast::Item>>, s: Result<Seq<crate::ir::model::SItem>, (int, Seq<char>)>) -> bool {
    match r {
        Ok(items) => s == Ok::<Seq<crate::ir::model::SItem>, (int, Seq<char>)>(crate::ir::model::items_v(items@)),
        Err(e) => s is Err && (e matches crate::error::Error::IrParse { line, msg }
            && s == Err::<Seq<crate::ir::model::SItem>, (int, Seq<char>)>((line as int, msg@))),
    }
}

/// Parse IR source text into its statements (no name resolution).
pub fn parse(src: &str) -> (r: crate::error::Result<Vec<crate::ir::ast::Item>>)
    requires
        src@.len() + 3 <= u32::MAX,
    ensures
        parsed(r, parse_spec(src@)),
{
    let lines = split_lines(src);
    let ghost ls = lines@.map_values(|l: String| l@);
    let mut items: Vec<crate::ir::ast::Item> = Vec::new();
    let mut call: Option<BlockDecl> = None;
    let mut tmpl: Option<crate::ir::ast::TemplateDecl> = None;
    let ghost init = PState { items: seq![], call: None, tmpl: None };
    proof {
        assert(crate::ir::model::items_v(items@) =~= Seq::<crate::ir::model::SItem>::empty());
        assert(pstate(items@, call, tmpl) == init);
    }
    let mut i: usize = 0;
    while i < lines.len()
        invariant
            i <= lines@.len(),
            ls == lines@.map_values(|l: String| l@),
            ls == lines_of(src@),
            src@.len() + 3 <= u32::MAX,
            forall|k: int| 0 <= k < lines@.len() ==> (#[trigger] lines@[k])@.len() <= src@.len(),
            init == (PState { items: seq![], call: None, tmpl: None }),
            parse_lines(ls, 0, init) == parse_lines(ls, i as int, pstate(items@, call, tmpl)),
        decreases lines@.len() - i,
    {
        let ghost st = pstate(items@, call, tmpl);
        assert(ls[i as int] == lines@[i as int]@);
        assert(lines@[i as int]@.len() <= src@.len());
        proof {
            assert(parse_lines(ls, i as int, st) == match line_result(st, ls[i as int]) {
                Err(m) => Err((i + 1, m)),
                Ok(st2) => parse_lines(ls, i + 1, st2),
            });
        }
        match parse_line(&mut items, &mut call, &mut tmpl, lines[i].as_str(), i + 1) {
            Err(e) => {
                return Err(e);
            },
            Ok(()) => {},
        }
        i = i + 1;
    }
    let n = lines.len();
    if let Some(c) = &call {
        let mut m = String::new();
        push_str(&mut m, "unclosed `(` in `");
        push_str(&mut m, c.slug.as_str());
        push_str(&mut m, " = ");
        push_str(&mut m, c.block_type.as_str());
        push_str(&mut m, "(…`");
        return Err(crate::error::Error::IrParse { line: n, msg: m });
    }
    if let Some(t) = &tmpl {
        let mut m = String::new();
        push_str(&mut m, "unclosed `template ");
        push_str(&mut m, t.name.as_str());
        push_str(&mut m, "` — missing `end`");
        return Err(crate::error::Error::IrParse { line: n, msg: m });
    }
    Ok(items)
}

impl crate::ir::ast::Module {
    /// Parse one file of a multi-file module: syntax and statement-local
    /// checks run; name resolution does not (a fragment may reference
    /// slugs declared in a sibling file).
    pub fn parse_fragment(src: &str) -> (r: crate::error::Result<crate::ir::ast::Module>)
        requires
            src@.len() + 3 <= u32::MAX,
        ensures
            match r {
                Ok(m) => parse_spec(src@) == Ok::<Seq<crate::ir::model::SItem>, (int, Seq<char>)>(crate::ir::model::items_v(m.items@)),
                Err(e) => parse_spec(src@) is Err && (e matches crate::error::Error::IrParse { line, msg }
                    && parse_spec(src@) == Err::<Seq<crate::ir::model::SItem>, (int, Seq<char>)>((line as int, msg@))),
            },
    {
        match parse(src) {
            Ok(items) => Ok(crate::ir::ast::Module { items }),
            Err(e) => Err(e),
        }
    }

    /// Parse a whole module and validate it.
    pub fn parse(src: &str) -> (r: crate::error::Result<crate::ir::ast::Module>)
        requires
            src@.len() + 3 <= u32::MAX,
        ensures
            match r {
                Ok(m) => parse_spec(src@) == Ok::<Seq<crate::ir::model::SItem>, (int, Seq<char>)>(crate::ir::model::items_v(m.items@))
                    && crate::ir::semantics::validate_spec(m.items@) is Ok,
                Err(e) => match parse_spec(src@) {
                    Err((l, msg)) => e matches crate::error::Error::IrParse { line, msg: m } && line == l && m@ == msg,
                    Ok(sitems) => e matches crate::error::Error::Compile(m) && exists|its: Seq<crate::ir::ast::Item>|
                        crate::ir::model::items_v(its) == sitems && #[trigger] crate::ir::semantics::validate_spec(its)
                            == Err::<(), Seq<char>>(m@),
                },
            },
    {
        let module = match crate::ir::ast::Module::parse_fragment(src) {
            Ok(m) => m,
            Err(e) => {
                return Err(e);
            },
        };
        match module.validate() {
            Ok(()) => Ok(module),
            Err(e) => {
                assert(crate::ir::semantics::validate_spec(module.items@) is Err);
                Err(e)
            },
        }
    }
}

} // verus!
