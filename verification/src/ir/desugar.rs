//! Expression desugaring: `sink.Port <- <expr>` and argument-list
//! expression bindings become managed gate, comparator and `Formula`
//! blocks plus plain wires.
//!
//! Every operator node becomes one block: `and`/`or` → `And`/`Or`,
//! `not` → `Not`, comparisons → the comparator family, with operand order
//! kept (lhs → `Input1`, rhs → `Input2`). A maximal arithmetic tree becomes
//! one `Formula` block whose distinct port operands map to
//! `Input1..Input4` in first-appearance order. Synthetic slugs are
//! `<sink>_<port>__<op><n>`, numbered post-order per operator and sink.
use crate::error::Error;
use crate::ir::ast::{
    arith_symbol, cmp_symbol, derefs, lets_of, operands_of, port_view, push_quoted, push_value,
    value_text, ArgItem, Binding, BindingKind, BlockDecl, CmpOp, Expr, Item, LetDecl, Module,
    Operand, PortRef, Value, WireDecl,
};
use crate::ir::copy::{copy_arg, copy_item, copy_opt, copy_ref, lemma_items_v_push};
use crate::ir::emit::{expr_text, operand_text, port_text, prec, prec_exec, push_operand, push_port};
use crate::ir::model::{
    arg_v, args_v, block_v, item_v, items_v, value_v, SArg, SBinding, SBlock, SItem, SKind, SValue,
};
use crate::doc::opt_view;
use crate::text::{dec, push_char, push_dec, push_dec_wide, push_str, str_eq, string_of};
use vstd::prelude::*;

verus! {

/// The lowercase form of a string as std's `str::to_lowercase` gives it.
pub uninterp spec fn lowercase(s: Seq<char>) -> Seq<char>;

/// `str::to_lowercase`; its result is `lowercase` of the argument.
#[verifier::external_body]
fn to_lowercase(s: &str) -> (r: String)
    ensures
        r@ == lowercase(s@),
{
    s.to_lowercase()
}

// ---------------------------------------------------------------------------
// The model
// ---------------------------------------------------------------------------

/// What has been produced so far: the output statements and every minted
/// slug as `(prefix, operator, slug)`.
pub struct DState {
    pub out: Seq<SItem>,
    pub minted: Seq<(Seq<char>, Seq<char>, Seq<char>)>,
}

/// One expression's surroundings: its slug prefix, its sink as written
/// (`slug.Port`), every declared name, and the module's constants.
pub struct DCtx {
    pub prefix: Seq<char>,
    pub sink: Seq<char>,
    pub taken: Seq<Seq<char>>,
    pub lets: Seq<LetDecl>,
}

pub open spec fn compile_err(e: Error, m: Seq<char>) -> bool {
    e matches Error::Compile(s) && s@ == m
}

/// How many slugs were minted so far under one prefix and operator.
pub open spec fn mint_count(m: Seq<(Seq<char>, Seq<char>, Seq<char>)>, prefix: Seq<char>, op: Seq<char>) -> nat
    decreases m.len(),
{
    if m.len() == 0 {
        0
    } else {
        mint_count(m.drop_last(), prefix, op) + if m.last().0 == prefix && m.last().1 == op {
            1nat
        } else {
            0nat
        }
    }
}

pub open spec fn minted_slug(m: Seq<(Seq<char>, Seq<char>, Seq<char>)>, slug: Seq<char>) -> bool {
    exists|i: int| 0 <= i < m.len() && #[trigger] m[i].2 == slug
}

/// The slug of the next block for `op`, and the block itself.
pub open spec fn emit_spec(
    st: DState,
    cx: DCtx,
    op: Seq<char>,
    ty: Seq<char>,
    title: Seq<char>,
    args: Seq<SArg>,
    out_port: Seq<char>,
) -> Result<(DState, (Seq<char>, Seq<char>)), Seq<char>> {
    let slug = cx.prefix + op + dec(mint_count(st.minted, cx.prefix, op) + 1);
    if cx.taken.contains(slug) || minted_slug(st.minted, slug) {
        Err(
            "`"@ + slug + "` is claimed by the expression on `"@ + cx.sink
                + "` (its blocks are named `"@ + cx.prefix + "<op><n>`) — rename the declared `"@
                + slug + "`"@,
        )
    } else {
        Ok(
            (
                DState {
                    out: st.out.push(
                        SItem::Block(
                            SBlock {
                                slug,
                                block_type: ty,
                                title: Some(title),
                                args,
                                comment: None,
                                close_comment: None,
                            },
                        ),
                    ),
                    minted: st.minted.push((cx.prefix, op, slug)),
                },
                (slug, out_port),
            ),
        )
    }
}

pub open spec fn wire_arg(port: Seq<char>, src: (Seq<char>, Seq<char>)) -> SArg {
    SArg::Binding(SBinding { port, kind: SKind::Wire(src), comment: None })
}

pub open spec fn operand_arg(port: Seq<char>, o: Operand) -> SArg {
    SArg::Binding(
        SBinding {
            port,
            kind: match o {
                Operand::Port(p) => SKind::Wire(port_view(p)),
                Operand::Value(v) => SKind::Param(value_v(v)),
            },
            comment: None,
        },
    )
}

pub open spec fn cmp_op_name(op: CmpOp) -> Seq<char> {
    match op {
        CmpOp::Ge => "ge"@,
        CmpOp::Gt => "gt"@,
        CmpOp::Le => "le"@,
        CmpOp::Lt => "lt"@,
        CmpOp::Eq => "eq"@,
        CmpOp::Ne => "ne"@,
    }
}

pub open spec fn cmp_block_type(op: CmpOp) -> Seq<char> {
    match op {
        CmpOp::Ge => "GreaterEqual"@,
        CmpOp::Gt => "Greater"@,
        CmpOp::Le => "LessEqual"@,
        CmpOp::Lt => "Less"@,
        CmpOp::Eq => "Equal"@,
        CmpOp::Ne => "NotEqual"@,
    }
}

/// The distinct port operands, in first-appearance order.
pub open spec fn port_inputs(ops: Seq<Operand>) -> Seq<(Seq<char>, Seq<char>)>
    decreases ops.len(),
{
    if ops.len() == 0 {
        seq![]
    } else {
        let prev = port_inputs(ops.drop_last());
        match ops.last() {
            Operand::Port(p) => if prev.contains(port_view(p)) {
                prev
            } else {
                prev.push(port_view(p))
            },
            Operand::Value(_) => prev,
        }
    }
}

/// The position of `x` in `s` (the first one).
pub open spec fn first_index(s: Seq<(Seq<char>, Seq<char>)>, x: (Seq<char>, Seq<char>)) -> int
    decreases s.len(),
{
    if s.len() == 0 || s[0] == x {
        0
    } else {
        1 + first_index(s.drop_first(), x)
    }
}

/// The value of the last `let` of that name.
pub open spec fn last_let(lets: Seq<LetDecl>, name: Seq<char>) -> Option<Value>
    decreases lets.len(),
{
    if lets.len() == 0 {
        None
    } else if lets.last().name@ == name {
        Some(lets.last().value)
    } else {
        last_let(lets.drop_last(), name)
    }
}

/// A constant operand as formula text: plain numbers only, constants
/// inlined.
pub open spec fn constant_spec(cx: DCtx, v: Value) -> Result<Seq<char>, Seq<char>> {
    match v {
        Value::Number(n) => Ok(n@),
        Value::Ref(name) => match last_let(cx.lets, name@) {
            Some(Value::Number(n)) => Ok(n@),
            Some(other) => Err(
                "`"@ + name@ + "` in the arithmetic on `"@ + cx.sink + "` is `"@ + value_text(other)
                    + "` — formulas compute on plain numbers"@,
            ),
            None => Err("unknown constant `"@ + name@ + "` in the arithmetic on `"@ + cx.sink + "`"@),
        },
        Value::Unit { .. } => Err(
            "`"@ + value_text(v) + "` in the arithmetic on `"@ + cx.sink
                + "` carries a unit — formulas compute on plain numbers; write the value in the port's base unit instead"@,
        ),
        Value::Str(s) => Err(
            "`\""@ + s@ + "\"` in the arithmetic on `"@ + cx.sink
                + "` is a string — formulas compute on plain numbers"@,
        ),
    }
}

pub open spec fn paren_if(s: Seq<char>, b: bool) -> Seq<char> {
    if b {
        "("@ + s + ")"@
    } else {
        s
    }
}

/// The compact formula text of an arithmetic tree: port operands as
/// `I<n>`, constants inlined, parentheses only where precedence needs them.
pub open spec fn render_spec(cx: DCtx, e: Expr, inputs: Seq<(Seq<char>, Seq<char>)>) -> Result<Seq<char>, Seq<char>>
    decreases e,
{
    match e {
        Expr::Arith { op, lhs, rhs } => match render_spec(cx, *lhs, inputs) {
            Err(m) => Err(m),
            Ok(l) => match render_spec(cx, *rhs, inputs) {
                Err(m) => Err(m),
                Ok(r) => Ok(
                    paren_if(l, prec(*lhs) < prec(e)) + arith_symbol(op) + paren_if(r, prec(*rhs) <= prec(e)),
                ),
            },
        },
        Expr::Atom(Operand::Port(p)) => Ok("I"@ + dec((first_index(inputs, port_view(p)) + 1) as nat)),
        Expr::Atom(Operand::Value(v)) => match constant_spec(cx, v) {
            Err(m) => Err(m),
            Ok(n) => Ok(paren_if(n, n.len() > 0 && n[0] == '-')),
        },
        _ => Err(
            "`"@ + expr_text(e) + "` mixes boolean logic into the arithmetic on `"@ + cx.sink
                + "` — deferred (v1)"@,
        ),
    }
}

pub open spec fn formula_args(text: Seq<char>, inputs: Seq<(Seq<char>, Seq<char>)>) -> Seq<SArg> {
    seq![SArg::Binding(SBinding { port: "Formula"@, kind: SKind::Param(SValue::Str(text)), comment: None })]
        + Seq::new(inputs.len(), |i: int| wire_arg("Input"@ + dec((i + 1) as nat), inputs[i]))
}

/// One `Formula` block for a maximal arithmetic tree.
pub open spec fn formula_spec(st: DState, cx: DCtx, e: Expr) -> Result<(DState, (Seq<char>, Seq<char>)), Seq<char>> {
    let inputs = port_inputs(operands_of(e));
    if inputs.len() == 0 {
        Err(
            "`"@ + expr_text(e) + "` in the expression on `"@ + cx.sink
                + "` computes on constants only — fold it by hand"@,
        )
    } else if inputs.len() > 4 {
        Err(
            "`"@ + expr_text(e) + "` on `"@ + cx.sink + "` reads "@ + dec(inputs.len())
                + " distinct ports — a `Formula` block takes at most 4 inputs; split the expression or declare the block by hand"@,
        )
    } else {
        match render_spec(cx, e, inputs) {
            Err(m) => Err(m),
            Ok(text) => emit_spec(st, cx, "f"@, "Formula"@, expr_text(e), formula_args(text, inputs), "AQ"@),
        }
    }
}

/// The blocks of one expression node, post-order, and the port that
/// carries its result.
pub open spec fn node_spec(st: DState, cx: DCtx, e: Expr) -> Result<(DState, (Seq<char>, Seq<char>)), Seq<char>>
    decreases e,
{
    match e {
        Expr::And(a, b) => match node_spec(st, cx, *a) {
            Err(m) => Err(m),
            Ok((s1, i1)) => match node_spec(s1, cx, *b) {
                Err(m) => Err(m),
                Ok((s2, i2)) => emit_spec(
                    s2,
                    cx,
                    "and"@,
                    "And"@,
                    expr_text(e),
                    seq![wire_arg("I1"@, i1), wire_arg("I2"@, i2)],
                    "Q"@,
                ),
            },
        },
        Expr::Or(a, b) => match node_spec(st, cx, *a) {
            Err(m) => Err(m),
            Ok((s1, i1)) => match node_spec(s1, cx, *b) {
                Err(m) => Err(m),
                Ok((s2, i2)) => emit_spec(
                    s2,
                    cx,
                    "or"@,
                    "Or"@,
                    expr_text(e),
                    seq![wire_arg("I1"@, i1), wire_arg("I2"@, i2)],
                    "Q"@,
                ),
            },
        },
        Expr::Not(x) => match node_spec(st, cx, *x) {
            Err(m) => Err(m),
            Ok((s1, i)) => emit_spec(s1, cx, "not"@, "Not"@, expr_text(e), seq![wire_arg("I"@, i)], "Q"@),
        },
        Expr::Cmp { op, lhs, rhs } => if !(lhs is Port) && !(rhs is Port) {
            Err(
                "`"@ + operand_text(lhs) + " "@ + cmp_symbol(op) + " "@ + operand_text(rhs)
                    + "` in the expression on `"@ + cx.sink
                    + "` compares two constants — fold it by hand"@,
            )
        } else {
            emit_spec(
                st,
                cx,
                cmp_op_name(op),
                cmp_block_type(op),
                expr_text(e),
                seq![operand_arg("Input1"@, lhs), operand_arg("Input2"@, rhs)],
                "Q"@,
            )
        },
        Expr::Arith { .. } => formula_spec(st, cx, e),
        Expr::Atom(Operand::Port(p)) => Ok((st, port_view(p))),
        Expr::Atom(Operand::Value(v)) => Err(
            "`"@ + value_text(v) + "` in the expression on `"@ + cx.sink
                + "` cannot drive a gate input — gates take boolean ports; write a comparison like `x.AQ >= "@
                + value_text(v) + "`"@,
        ),
    }
}

/// The name an item declares, if any.
pub open spec fn declared_name(i: Item) -> Option<Seq<char>> {
    match i {
        Item::Extern(e) => Some(e.slug@),
        Item::Block(b) => Some(b.slug@),
        Item::Instance(b) => Some(b.slug@),
        Item::Let(l) => Some(l.name@),
        Item::Template(t) => Some(t.name@),
        _ => None,
    }
}

pub open spec fn taken_of(items: Seq<Item>) -> Seq<Seq<char>>
    decreases items.len(),
{
    if items.len() == 0 {
        seq![]
    } else {
        match declared_name(items.last()) {
            Some(n) => taken_of(items.drop_last()).push(n),
            None => taken_of(items.drop_last()),
        }
    }
}

/// The sink ports of a block's expression bindings, in order.
pub open spec fn arg_sinks(args: Seq<ArgItem>) -> Seq<Seq<char>>
    decreases args.len(),
{
    if args.len() == 0 {
        seq![]
    } else {
        let p = arg_sinks(args.drop_last());
        match args.last() {
            ArgItem::Binding(x) => match x.kind {
                BindingKind::Expr(_) => p.push(x.port@),
                _ => p,
            },
            ArgItem::Comment(_) => p,
        }
    }
}

pub open spec fn item_sinks(i: Item) -> Seq<Seq<char>> {
    match i {
        Item::ExprWire(w) => seq![w.to.port@],
        Item::Block(b) => arg_sinks(b.args@),
        _ => seq![],
    }
}

/// The sink port of every expression in the module, in order.
pub open spec fn expr_sinks(items: Seq<Item>) -> Seq<Seq<char>>
    decreases items.len(),
{
    if items.len() == 0 {
        seq![]
    } else {
        expr_sinks(items.drop_last()) + item_sinks(items.last())
    }
}

/// The surroundings of the expression feeding `slug.port`, whose port
/// lowercases to `lowered`.
pub open spec fn expr_ctx(
    slug: Seq<char>,
    port: Seq<char>,
    lowered: Seq<char>,
    taken: Seq<Seq<char>>,
    lets: Seq<LetDecl>,
) -> DCtx {
    DCtx { prefix: slug + "_"@ + lowered + "__"@, sink: slug + "."@ + port, taken, lets }
}

/// The first `n` arguments of a block, each expression binding replaced
/// by a wire from its expression's root (whose blocks go out first);
/// `k` counts the expressions before them.
pub open spec fn args_spec(
    st: DState,
    k: nat,
    b: BlockDecl,
    n: nat,
    taken: Seq<Seq<char>>,
    lets: Seq<LetDecl>,
    lowered: Seq<Seq<char>>,
) -> Result<(DState, nat, Seq<SArg>), Seq<char>>
    decreases n,
{
    if n == 0 {
        Ok((st, k, seq![]))
    } else {
        match args_spec(st, k, b, (n - 1) as nat, taken, lets, lowered) {
            Err(m) => Err(m),
            Ok((s, j, acc)) => {
                let a = b.args@[n - 1];
                match a {
                    ArgItem::Binding(x) => match x.kind {
                        BindingKind::Expr(e) => match node_spec(
                            s,
                            expr_ctx(b.slug@, x.port@, lowered[j as int], taken, lets),
                            e,
                        ) {
                            Err(m) => Err(m),
                            Ok((s2, root)) => Ok(
                                (
                                    s2,
                                    j + 1,
                                    acc.push(
                                        SArg::Binding(
                                            SBinding {
                                                port: x.port@,
                                                kind: SKind::Wire(root),
                                                comment: opt_view(x.comment),
                                            },
                                        ),
                                    ),
                                ),
                            ),
                        },
                        _ => Ok((s, j, acc.push(arg_v(a)))),
                    },
                    ArgItem::Comment(_) => Ok((s, j, acc.push(arg_v(a)))),
                }
            },
        }
    }
}

/// The first `n` statements, desugared.
pub open spec fn items_spec(
    items: Seq<Item>,
    n: nat,
    taken: Seq<Seq<char>>,
    lets: Seq<LetDecl>,
    lowered: Seq<Seq<char>>,
) -> Result<(DState, nat), Seq<char>>
    decreases n,
{
    if n == 0 {
        Ok((DState { out: seq![], minted: seq![] }, 0))
    } else {
        match items_spec(items, (n - 1) as nat, taken, lets, lowered) {
            Err(m) => Err(m),
            Ok((s, k)) => match items[n - 1] {
                Item::ExprWire(w) => match node_spec(
                    s,
                    expr_ctx(w.to.slug@, w.to.port@, lowered[k as int], taken, lets),
                    w.expr,
                ) {
                    Err(m) => Err(m),
                    Ok((s2, root)) => Ok(
                        (
                            DState {
                                out: s2.out.push(SItem::Wire(port_view(w.to), root, opt_view(w.comment))),
                                minted: s2.minted,
                            },
                            k + 1,
                        ),
                    ),
                },
                Item::Block(b) => match args_spec(s, k, b, b.args@.len(), taken, lets, lowered) {
                    Err(m) => Err(m),
                    Ok((s2, k2, args)) => Ok(
                        (
                            DState {
                                out: s2.out.push(SItem::Block(SBlock { args, ..block_v(b) })),
                                minted: s2.minted,
                            },
                            k2,
                        ),
                    ),
                },
                other => Ok((DState { out: s.out.push(item_v(other)), minted: s.minted }, k)),
            },
        }
    }
}

/// The whole module desugared, the `k`-th expression's sink port
/// lowercasing to `lowered[k]`.
pub open spec fn desugar_spec(items: Seq<Item>, lowered: Seq<Seq<char>>) -> Result<(DState, nat), Seq<char>> {
    items_spec(items, items.len(), taken_of(items), lets_of(items), lowered)
}

pub open spec fn strs(v: Seq<String>) -> Seq<Seq<char>> {
    v.map_values(|s: String| s@)
}

pub open spec fn minted_slugs(m: Seq<(Seq<char>, Seq<char>, Seq<char>)>) -> Seq<Seq<char>> {
    m.map_values(|t: (Seq<char>, Seq<char>, Seq<char>)| t.2)
}

// ---------------------------------------------------------------------------
// Implementation
// ---------------------------------------------------------------------------

/// What [`Module::desugar`] produced.
#[derive(Debug)]
pub struct DesugarInfo {
    /// Number of expressions desugared: `<-` statements and argument-list
    /// expression bindings alike.
    pub expressions: usize,
    /// Slugs of all synthetic blocks, in minting order; none repeats.
    pub synthetic: Vec<String>,
}

struct DS {
    out: Vec<Item>,
    minted: Vec<(String, String, String)>,
}

spec fn minted_v(m: Seq<(String, String, String)>) -> Seq<(Seq<char>, Seq<char>, Seq<char>)> {
    m.map_values(|t: (String, String, String)| (t.0@, t.1@, t.2@))
}

spec fn ds_v(s: DS) -> DState {
    DState { out: items_v(s.out@), minted: minted_v(s.minted@) }
}

struct Cx<'a> {
    prefix: String,
    sink: String,
    taken: &'a Vec<&'a str>,
    lets: &'a Vec<&'a LetDecl>,
}

spec fn strs_of(v: Seq<&str>) -> Seq<Seq<char>> {
    v.map_values(|s: &str| s@)
}

spec fn cx_v(c: Cx) -> DCtx {
    DCtx { prefix: c.prefix@, sink: c.sink@, taken: strs_of(c.taken@), lets: derefs(c.lets@) }
}

/// The outcome of one step of the model, as the implementation reports it.
spec fn stepped(after: DS, r: crate::error::Result<PortRef>, s: core::result::Result<(DState, (Seq<char>, Seq<char>)), Seq<char>>) -> bool {
    match s {
        Ok((st, p)) => r matches Ok(x) && port_view(x) == p && ds_v(after) == st,
        Err(m) => r matches Err(e) && compile_err(e, m),
    }
}

spec fn rendered(r: crate::error::Result<String>, s: core::result::Result<Seq<char>, Seq<char>>) -> bool {
    match s {
        Ok(t) => r matches Ok(x) && x@ == t,
        Err(m) => r matches Err(e) && compile_err(e, m),
    }
}

fn count_minted(m: &Vec<(String, String, String)>, prefix: &str, op: &str) -> (n: usize)
    ensures
        n == mint_count(minted_v(m@), prefix@, op@),
        n <= m@.len(),
{
    let mut n: usize = 0;
    let mut i: usize = 0;
    while i < m.len()
        invariant
            0 <= i <= m@.len(),
            n <= i,
            n == mint_count(minted_v(m@.take(i as int)), prefix@, op@),
        decreases m@.len() - i,
    {
        proof {
            assert(minted_v(m@.take(i + 1)).drop_last() =~= minted_v(m@.take(i as int)));
        }
        if str_eq(m[i].0.as_str(), prefix) && str_eq(m[i].1.as_str(), op) {
            n = n + 1;
        }
        i = i + 1;
    }
    proof {
        assert(m@.take(m@.len() as int) =~= m@);
    }
    n
}

fn is_minted(m: &Vec<(String, String, String)>, slug: &str) -> (r: bool)
    ensures
        r == minted_slug(minted_v(m@), slug@),
{
    let mut i: usize = 0;
    while i < m.len()
        invariant
            0 <= i <= m@.len(),
            forall|j: int| 0 <= j < i ==> m@[j].2@ != slug@,
        decreases m@.len() - i,
    {
        if str_eq(m[i].2.as_str(), slug) {
            proof {
                assert(minted_v(m@)[i as int].2 == slug@);
            }
            return true;
        }
        i = i + 1;
    }
    proof {
        assert forall|j: int| 0 <= j < minted_v(m@).len() implies #[trigger] minted_v(m@)[j].2 != slug@ by {
            assert(m@[j].2@ != slug@);
        }
    }
    false
}

fn is_taken(taken: &Vec<&str>, s: &str) -> (r: bool)
    ensures
        r == strs_of(taken@).contains(s@),
{
    let mut i: usize = 0;
    while i < taken.len()
        invariant
            0 <= i <= taken@.len(),
            forall|j: int| 0 <= j < i ==> taken@[j]@ != s@,
        decreases taken@.len() - i,
    {
        if str_eq(taken[i], s) {
            proof {
                assert(strs_of(taken@)[i as int] == s@);
            }
            return true;
        }
        i = i + 1;
    }
    proof {
        assert forall|j: int| 0 <= j < strs_of(taken@).len() implies #[trigger] strs_of(taken@)[j] != s@ by {
            assert(taken@[j]@ != s@);
        }
    }
    false
}

fn compile(m: String) -> (r: Error)
    ensures
        compile_err(r, m@),
{
    Error::Compile(m)
}

fn emit(
    st: &mut DS,
    cx: &Cx,
    op: &str,
    ty: &str,
    node: &Expr,
    args: Vec<ArgItem>,
    out_port: &str,
) -> (r: crate::error::Result<PortRef>)
    ensures
        stepped(
            *final(st),
            r,
            emit_spec(ds_v(*old(st)), cx_v(*cx), op@, ty@, expr_text(*node), args_v(args@), out_port@),
        ),
{
    let n = count_minted(&st.minted, cx.prefix.as_str(), op);
    let mut slug = String::new();
    push_str(&mut slug, cx.prefix.as_str());
    push_str(&mut slug, op);
    push_dec_wide(&mut slug, n as u128 + 1);
    proof {
        assert(slug@ =~= cx.prefix@ + op@ + dec(mint_count(minted_v(st.minted@), cx.prefix@, op@) + 1));
    }
    if is_taken(cx.taken, slug.as_str()) || is_minted(&st.minted, slug.as_str()) {
        let mut m = String::new();
        push_str(&mut m, "`");
        push_str(&mut m, slug.as_str());
        push_str(&mut m, "` is claimed by the expression on `");
        push_str(&mut m, cx.sink.as_str());
        push_str(&mut m, "` (its blocks are named `");
        push_str(&mut m, cx.prefix.as_str());
        push_str(&mut m, "<op><n>`) — rename the declared `");
        push_str(&mut m, slug.as_str());
        push_str(&mut m, "`");
        let ghost want = emit_spec(ds_v(*st), cx_v(*cx), op@, ty@, expr_text(*node), args_v(args@), out_port@);
        proof {
            assert(want matches Err(x) && x =~= m@);
        }
        return Err(compile(m));
    }
    let ghost before = ds_v(*st);
    let title = node.to_text();
    let block = Item::Block(
        BlockDecl {
            slug: slug.clone(),
            block_type: string_of(ty),
            title: Some(title),
            args,
            comment: None,
            close_comment: None,
        },
    );
    proof {
        lemma_items_v_push(st.out@, block);
    }
    st.out.push(block);
    let rec = (cx.prefix.clone(), string_of(op), slug.clone());
    proof {
        assert(minted_v(old(st).minted@.push(rec)) =~= minted_v(old(st).minted@).push((cx.prefix@, op@, slug@)));
    }
    st.minted.push(rec);
    Ok(PortRef { slug, port: string_of(out_port) })
}

fn wire_item(port: &str, src: PortRef) -> (r: ArgItem)
    ensures
        arg_v(r) == wire_arg(port@, port_view(src)),
{
    ArgItem::Binding(Binding { port: string_of(port), kind: BindingKind::Wire(src), comment: None })
}

fn operand_item(port: &str, o: &Operand) -> (r: ArgItem)
    ensures
        arg_v(r) == operand_arg(port@, *o),
{
    let kind = match o {
        Operand::Port(p) => BindingKind::Wire(copy_ref(p)),
        Operand::Value(v) => BindingKind::Param(crate::ir::copy::copy_value(v)),
    };
    ArgItem::Binding(Binding { port: string_of(port), kind, comment: None })
}

fn op_names(op: CmpOp) -> (r: (&'static str, &'static str))
    ensures
        r.0@ == cmp_op_name(op),
        r.1@ == cmp_block_type(op),
{
    match op {
        CmpOp::Ge => ("ge", "GreaterEqual"),
        CmpOp::Gt => ("gt", "Greater"),
        CmpOp::Le => ("le", "LessEqual"),
        CmpOp::Lt => ("lt", "Less"),
        CmpOp::Eq => ("eq", "Equal"),
        CmpOp::Ne => ("ne", "NotEqual"),
    }
}

fn two_args(x: ArgItem, y: ArgItem) -> (r: Vec<ArgItem>)
    ensures
        args_v(r@) == seq![arg_v(x), arg_v(y)],
{
    let mut v: Vec<ArgItem> = Vec::new();
    v.push(x);
    v.push(y);
    proof {
        assert(args_v(v@) =~= seq![arg_v(x), arg_v(y)]);
    }
    v
}

fn one_arg(x: ArgItem) -> (r: Vec<ArgItem>)
    ensures
        args_v(r@) == seq![arg_v(x)],
{
    let mut v: Vec<ArgItem> = Vec::new();
    v.push(x);
    proof {
        assert(args_v(v@) =~= seq![arg_v(x)]);
    }
    v
}

fn node(st: &mut DS, cx: &Cx, e: &Expr) -> (r: crate::error::Result<PortRef>)
    ensures
        stepped(*final(st), r, node_spec(ds_v(*old(st)), cx_v(*cx), *e)),
    decreases e,
{
    match e {
        Expr::And(a, b) => {
            let i1 = match node(st, cx, a) {
                Ok(p) => p,
                Err(x) => return Err(x),
            };
            let i2 = match node(st, cx, b) {
                Ok(p) => p,
                Err(x) => return Err(x),
            };
            let args = two_args(wire_item("I1", i1), wire_item("I2", i2));
            emit(st, cx, "and", "And", e, args, "Q")
        },
        Expr::Or(a, b) => {
            let i1 = match node(st, cx, a) {
                Ok(p) => p,
                Err(x) => return Err(x),
            };
            let i2 = match node(st, cx, b) {
                Ok(p) => p,
                Err(x) => return Err(x),
            };
            let args = two_args(wire_item("I1", i1), wire_item("I2", i2));
            emit(st, cx, "or", "Or", e, args, "Q")
        },
        Expr::Not(x) => {
            let i = match node(st, cx, x) {
                Ok(p) => p,
                Err(y) => return Err(y),
            };
            let args = one_arg(wire_item("I", i));
            emit(st, cx, "not", "Not", e, args, "Q")
        },
        Expr::Cmp { op, lhs, rhs } => {
            let lp = match lhs {
                Operand::Port(_) => true,
                _ => false,
            };
            let rp = match rhs {
                Operand::Port(_) => true,
                _ => false,
            };
            if !lp && !rp {
                let mut m = String::new();
                push_str(&mut m, "`");
                push_operand(&mut m, lhs);
                push_str(&mut m, " ");
                push_str(&mut m, op.symbol());
                push_str(&mut m, " ");
                push_operand(&mut m, rhs);
                push_str(&mut m, "` in the expression on `");
                push_str(&mut m, cx.sink.as_str());
                push_str(&mut m, "` compares two constants — fold it by hand");
                let ghost want = node_spec(ds_v(*st), cx_v(*cx), *e);
                proof {
                    assert(want matches Err(y) && y =~= m@);
                }
                return Err(compile(m));
            }
            let names = op_names(*op);
            let args = two_args(operand_item("Input1", lhs), operand_item("Input2", rhs));
            emit(st, cx, names.0, names.1, e, args, "Q")
        },
        Expr::Arith { .. } => formula(st, cx, e),
        Expr::Atom(Operand::Port(p)) => Ok(copy_ref(p)),
        Expr::Atom(Operand::Value(v)) => {
            let mut m = String::new();
            push_str(&mut m, "`");
            push_value(&mut m, v);
            push_str(&mut m, "` in the expression on `");
            push_str(&mut m, cx.sink.as_str());
            push_str(
                &mut m,
                "` cannot drive a gate input — gates take boolean ports; write a comparison like `x.AQ >= ",
            );
            push_value(&mut m, v);
            push_str(&mut m, "`");
            let ghost want = node_spec(ds_v(*st), cx_v(*cx), *e);
            proof {
                assert(want matches Err(y) && y =~= m@);
            }
            Err(compile(m))
        },
    }
}

spec fn refs_v(v: Seq<PortRef>) -> Seq<(Seq<char>, Seq<char>)> {
    v.map_values(|p: PortRef| port_view(p))
}

/// Every port operand of `ops` is among `inputs`.
pub open spec fn ports_in(ops: Seq<Operand>, inputs: Seq<(Seq<char>, Seq<char>)>) -> bool {
    forall|k: int| 0 <= k < ops.len() ==> (#[trigger] ops[k] matches Operand::Port(p) ==> inputs.contains(port_view(p)))
}

proof fn lemma_port_inputs_cover(ops: Seq<Operand>)
    ensures
        ports_in(ops, port_inputs(ops)),
        forall|x| port_inputs(ops.drop_last()).contains(x) && ops.len() > 0 ==> port_inputs(ops).contains(x),
    decreases ops.len(),
{
    if ops.len() > 0 {
        let d = ops.drop_last();
        lemma_port_inputs_cover(d);
        let prev = port_inputs(d);
        let cur = port_inputs(ops);
        assert forall|x| prev.contains(x) implies cur.contains(x) by {
            if let Operand::Port(p) = ops.last() {
                if !prev.contains(port_view(p)) {
                    let j = choose|j: int| 0 <= j < prev.len() && prev[j] == x;
                    assert(cur[j] == x);
                }
            }
        }
        assert forall|k: int| 0 <= k < ops.len() implies (#[trigger] ops[k] matches Operand::Port(p) ==> cur.contains(port_view(p))) by {
            if k < ops.len() - 1 {
                assert(ops[k] == d[k]);
            } else {
                if let Operand::Port(p) = ops.last() {
                    if !prev.contains(port_view(p)) {
                        assert(cur[prev.len() as int] == port_view(p));
                    }
                }
            }
        }
    }
}

proof fn lemma_first_index(s: Seq<(Seq<char>, Seq<char>)>, x: (Seq<char>, Seq<char>), i: int)
    requires
        0 <= i < s.len(),
        s[i] == x,
        forall|j: int| 0 <= j < i ==> s[j] != x,
    ensures
        first_index(s, x) == i,
    decreases i,
{
    if i > 0 {
        assert(s[0] != x);
        lemma_first_index(s.drop_first(), x, i - 1);
    }
}

fn find_ref(inputs: &Vec<PortRef>, p: &PortRef) -> (k: usize)
    requires
        refs_v(inputs@).contains(port_view(*p)),
    ensures
        k < inputs@.len(),
        k == first_index(refs_v(inputs@), port_view(*p)),
{
    let ghost want = port_view(*p);
    let mut i: usize = 0;
    while i < inputs.len()
        invariant
            0 <= i <= inputs@.len(),
            refs_v(inputs@).contains(want),
            want == port_view(*p),
            forall|j: int| 0 <= j < i ==> refs_v(inputs@)[j] != want,
        decreases inputs@.len() - i,
    {
        if str_eq(inputs[i].slug.as_str(), p.slug.as_str()) && str_eq(inputs[i].port.as_str(), p.port.as_str()) {
            proof {
                assert(refs_v(inputs@)[i as int] == want);
                lemma_first_index(refs_v(inputs@), want, i as int);
            }
            return i;
        }
        i = i + 1;
    }
    proof {
        let j = choose|j: int| 0 <= j < refs_v(inputs@).len() && refs_v(inputs@)[j] == want;
        assert(false);
    }
    0
}

fn last_let_exec<'a>(lets: &Vec<&'a LetDecl>, name: &str) -> (r: Option<&'a LetDecl>)
    ensures
        match last_let(derefs(lets@), name@) {
            Some(v) => r matches Some(l) && l.value == v,
            None => r is None,
        },
{
    let ghost all = derefs(lets@);
    let mut i: usize = lets.len();
    proof {
        assert(all.take(i as int) =~= all);
    }
    while i > 0
        invariant
            0 <= i <= lets@.len(),
            all == derefs(lets@),
            last_let(all, name@) == last_let(all.take(i as int), name@),
        decreases i,
    {
        proof {
            assert(all.take(i as int).drop_last() =~= all.take(i - 1));
        }
        if str_eq(lets[i - 1].name.as_str(), name) {
            return Some(lets[i - 1]);
        }
        i = i - 1;
    }
    None
}

fn constant(cx: &Cx, v: &Value) -> (r: crate::error::Result<String>)
    ensures
        rendered(r, constant_spec(cx_v(*cx), *v)),
{
    match v {
        Value::Number(n) => Ok(n.clone()),
        Value::Ref(name) => match last_let_exec(cx.lets, name.as_str()) {
            Some(l) => match &l.value {
                Value::Number(n) => Ok(n.clone()),
                other => {
                    let mut m = String::new();
                    push_str(&mut m, "`");
                    push_str(&mut m, name.as_str());
                    push_str(&mut m, "` in the arithmetic on `");
                    push_str(&mut m, cx.sink.as_str());
                    push_str(&mut m, "` is `");
                    push_value(&mut m, other);
                    push_str(&mut m, "` — formulas compute on plain numbers");
                    let ghost want = constant_spec(cx_v(*cx), *v);
                    proof {
                        assert(want matches Err(y) && y =~= m@);
                    }
                    Err(compile(m))
                },
            },
            None => {
                let mut m = String::new();
                push_str(&mut m, "unknown constant `");
                push_str(&mut m, name.as_str());
                push_str(&mut m, "` in the arithmetic on `");
                push_str(&mut m, cx.sink.as_str());
                push_str(&mut m, "`");
                let ghost want = constant_spec(cx_v(*cx), *v);
                proof {
                    assert(want matches Err(y) && y =~= m@);
                }
                Err(compile(m))
            },
        },
        Value::Unit { .. } => {
            let mut m = String::new();
            push_str(&mut m, "`");
            push_value(&mut m, v);
            push_str(&mut m, "` in the arithmetic on `");
            push_str(&mut m, cx.sink.as_str());
            push_str(
                &mut m,
                "` carries a unit — formulas compute on plain numbers; write the value in the port's base unit instead",
            );
            let ghost want = constant_spec(cx_v(*cx), *v);
            proof {
                assert(want matches Err(y) && y =~= m@);
            }
            Err(compile(m))
        },
        Value::Str(t) => {
            let mut m = String::new();
            push_str(&mut m, "`\"");
            push_str(&mut m, t.as_str());
            push_str(&mut m, "\"` in the arithmetic on `");
            push_str(&mut m, cx.sink.as_str());
            push_str(&mut m, "` is a string — formulas compute on plain numbers");
            let ghost want = constant_spec(cx_v(*cx), *v);
            proof {
                assert(want matches Err(y) && y =~= m@);
            }
            Err(compile(m))
        },
    }
}

fn push_paren(out: &mut String, s: &str, b: bool)
    ensures
        final(out)@ == old(out)@ + paren_if(s@, b),
{
    let ghost o = out@;
    if b {
        push_str(out, "(");
        push_str(out, s);
        push_str(out, ")");
    } else {
        push_str(out, s);
    }
    assert(out@ =~= o + paren_if(s@, b));
}

fn render(cx: &Cx, e: &Expr, inputs: &Vec<PortRef>) -> (r: crate::error::Result<String>)
    requires
        inputs@.len() <= 4,
        ports_in(operands_of(*e), refs_v(inputs@)),
    ensures
        rendered(r, render_spec(cx_v(*cx), *e, refs_v(inputs@))),
    decreases e,
{
    match e {
        Expr::Arith { op, lhs, rhs } => {
            proof {
                let ol = operands_of(**lhs);
                let or = operands_of(**rhs);
                assert(operands_of(*e) == ol + or);
                assert forall|k: int| 0 <= k < ol.len() implies (#[trigger] ol[k] matches Operand::Port(p) ==> refs_v(inputs@).contains(port_view(p))) by {
                    assert((ol + or)[k] == ol[k]);
                }
                assert forall|k: int| 0 <= k < or.len() implies (#[trigger] or[k] matches Operand::Port(p) ==> refs_v(inputs@).contains(port_view(p))) by {
                    assert((ol + or)[ol.len() + k] == or[k]);
                }
            }
            let l = match render(cx, lhs, inputs) {
                Ok(t) => t,
                Err(x) => return Err(x),
            };
            let r = match render(cx, rhs, inputs) {
                Ok(t) => t,
                Err(x) => return Err(x),
            };
            let p = prec_exec(e);
            let pl = prec_exec(lhs);
            let pr = prec_exec(rhs);
            let mut out = String::new();
            push_paren(&mut out, l.as_str(), pl < p);
            push_str(&mut out, op.symbol());
            push_paren(&mut out, r.as_str(), pr <= p);
            proof {
                assert(out@ =~= paren_if(l@, prec(**lhs) < prec(*e)) + arith_symbol(*op) + paren_if(
                    r@,
                    prec(**rhs) <= prec(*e),
                ));
            }
            Ok(out)
        },
        Expr::Atom(Operand::Port(p)) => {
            proof {
                assert(operands_of(*e)[0] == Operand::Port(*p));
            }
            let k = find_ref(inputs, p);
            let mut out = string_of("I");
            push_dec(&mut out, k as u64 + 1);
            proof {
                assert(out@ =~= "I"@ + dec((first_index(refs_v(inputs@), port_view(*p)) + 1) as nat));
            }
            Ok(out)
        },
        Expr::Atom(Operand::Value(v)) => {
            let n = match constant(cx, v) {
                Ok(t) => t,
                Err(x) => return Err(x),
            };
            let cs = crate::text::chars_of(n.as_str());
            let neg = cs.len() > 0 && cs[0] == '-';
            let mut out = String::new();
            push_paren(&mut out, n.as_str(), neg);
            Ok(out)
        },
        _ => {
            let mut m = String::new();
            push_str(&mut m, "`");
            crate::ir::emit::push_expr(&mut m, e);
            push_str(&mut m, "` mixes boolean logic into the arithmetic on `");
            push_str(&mut m, cx.sink.as_str());
            push_str(&mut m, "` — deferred (v1)");
            let ghost want = render_spec(cx_v(*cx), *e, refs_v(inputs@));
            proof {
                assert(want matches Err(y) && y =~= m@);
            }
            Err(compile(m))
        },
    }
}

fn contains_ref(v: &Vec<PortRef>, p: &PortRef) -> (r: bool)
    ensures
        r == refs_v(v@).contains(port_view(*p)),
{
    let mut i: usize = 0;
    while i < v.len()
        invariant
            0 <= i <= v@.len(),
            forall|j: int| 0 <= j < i ==> refs_v(v@)[j] != port_view(*p),
        decreases v@.len() - i,
    {
        if str_eq(v[i].slug.as_str(), p.slug.as_str()) && str_eq(v[i].port.as_str(), p.port.as_str()) {
            proof {
                assert(refs_v(v@)[i as int] == port_view(*p));
            }
            return true;
        }
        i = i + 1;
    }
    false
}

fn formula(st: &mut DS, cx: &Cx, e: &Expr) -> (r: crate::error::Result<PortRef>)
    ensures
        stepped(*final(st), r, formula_spec(ds_v(*old(st)), cx_v(*cx), *e)),
{
    let ops = e.operands();
    let ghost all = operands_of(*e);
    let mut inputs: Vec<PortRef> = Vec::new();
    let mut i: usize = 0;
    while i < ops.len()
        invariant
            0 <= i <= ops@.len(),
            derefs(ops@) == all,
            refs_v(inputs@) == port_inputs(all.take(i as int)),
        decreases ops@.len() - i,
    {
        proof {
            assert(all.take(i + 1).drop_last() =~= all.take(i as int));
            assert(all[i as int] == *ops@[i as int]);
        }
        match ops[i] {
            Operand::Port(p) => {
                if !contains_ref(&inputs, p) {
                    let c = copy_ref(p);
                    proof {
                        assert(refs_v(inputs@.push(c)) =~= refs_v(inputs@).push(port_view(*p)));
                    }
                    inputs.push(c);
                }
            },
            Operand::Value(_) => {},
        }
        i = i + 1;
    }
    proof {
        assert(all.take(all.len() as int) =~= all);
        lemma_port_inputs_cover(all);
    }
    if inputs.len() == 0 {
        let mut m = String::new();
        push_str(&mut m, "`");
        crate::ir::emit::push_expr(&mut m, e);
        push_str(&mut m, "` in the expression on `");
        push_str(&mut m, cx.sink.as_str());
        push_str(&mut m, "` computes on constants only — fold it by hand");
        let ghost want = formula_spec(ds_v(*st), cx_v(*cx), *e);
        proof {
            assert(want matches Err(y) && y =~= m@);
        }
        return Err(compile(m));
    }
    if inputs.len() > 4 {
        let mut m = String::new();
        push_str(&mut m, "`");
        crate::ir::emit::push_expr(&mut m, e);
        push_str(&mut m, "` on `");
        push_str(&mut m, cx.sink.as_str());
        push_str(&mut m, "` reads ");
        push_dec(&mut m, inputs.len() as u64);
        push_str(
            &mut m,
            " distinct ports — a `Formula` block takes at most 4 inputs; split the expression or declare the block by hand",
        );
        let ghost want = formula_spec(ds_v(*st), cx_v(*cx), *e);
        proof {
            assert(want matches Err(y) && y =~= m@);
        }
        return Err(compile(m));
    }
    let text = match render(cx, e, &inputs) {
        Ok(t) => t,
        Err(x) => return Err(x),
    };
    let ghost tv = text@;
    let mut args: Vec<ArgItem> = Vec::new();
    args.push(
        ArgItem::Binding(
            Binding { port: string_of("Formula"), kind: BindingKind::Param(Value::Str(text)), comment: None },
        ),
    );
    let ghost ins = refs_v(inputs@);
    let mut j: usize = 0;
    while j < inputs.len()
        invariant
            0 <= j <= inputs@.len(),
            inputs@.len() <= 4,
            ins == refs_v(inputs@),
            args_v(args@) == formula_args(tv, ins.take(j as int)),
        decreases inputs@.len() - j,
    {
        let mut port = string_of("Input");
        push_dec(&mut port, j as u64 + 1);
        let w = wire_item(port.as_str(), copy_ref(&inputs[j]));
        proof {
            assert(port@ =~= "Input"@ + dec((j + 1) as nat));
            assert(args_v(args@.push(w)) =~= args_v(args@).push(arg_v(w)));
            assert(formula_args(tv, ins.take(j + 1)) =~= formula_args(tv, ins.take(j as int)).push(
                wire_arg("Input"@ + dec((j + 1) as nat), ins[j as int]),
            ));
        }
        args.push(w);
        j = j + 1;
    }
    proof {
        assert(ins.take(ins.len() as int) =~= ins);
    }
    emit(st, cx, "f", "Formula", e, args, "AQ")
}

fn taken_names(items: &Vec<Item>) -> (r: Vec<&str>)
    ensures
        strs_of(r@) == taken_of(items@),
{
    let mut r: Vec<&str> = Vec::new();
    let mut i: usize = 0;
    while i < items.len()
        invariant
            0 <= i <= items@.len(),
            strs_of(r@) == taken_of(items@.take(i as int)),
        decreases items@.len() - i,
    {
        proof {
            assert(items@.take(i + 1).drop_last() =~= items@.take(i as int));
        }
        let ghost before = r@;
        match &items[i] {
            Item::Extern(e) => r.push(e.slug.as_str()),
            Item::Block(b) => r.push(b.slug.as_str()),
            Item::Instance(b) => r.push(b.slug.as_str()),
            Item::Let(l) => r.push(l.name.as_str()),
            Item::Template(t) => r.push(t.name.as_str()),
            _ => {},
        }
        proof {
            assert(strs_of(r@) =~= taken_of(items@.take(i + 1)));
        }
        i = i + 1;
    }
    proof {
        assert(items@.take(items@.len() as int) =~= items@);
    }
    r
}

proof fn lemma_arg_sinks_prefix(args: Seq<ArgItem>, n: int)
    requires
        0 <= n <= args.len(),
    ensures
        arg_sinks(args.take(n)).len() <= arg_sinks(args).len(),
    decreases args.len() - n,
{
    if n < args.len() {
        lemma_arg_sinks_prefix(args, n + 1);
        assert(args.take(n + 1).drop_last() =~= args.take(n));
    } else {
        assert(args.take(n) =~= args);
    }
}

proof fn lemma_expr_sinks_prefix(items: Seq<Item>, n: int)
    requires
        0 <= n <= items.len(),
    ensures
        expr_sinks(items.take(n)).len() <= expr_sinks(items).len(),
    decreases items.len() - n,
{
    if n < items.len() {
        lemma_expr_sinks_prefix(items, n + 1);
        assert(items.take(n + 1).drop_last() =~= items.take(n));
    } else {
        assert(items.take(n) =~= items);
    }
}

proof fn lemma_args_err_sticks(
    st: DState,
    k: nat,
    b: BlockDecl,
    n: nat,
    m: nat,
    taken: Seq<Seq<char>>,
    lets: Seq<LetDecl>,
    lowered: Seq<Seq<char>>,
)
    requires
        n <= m,
        args_spec(st, k, b, n, taken, lets, lowered) is Err,
    ensures
        args_spec(st, k, b, m, taken, lets, lowered) == args_spec(st, k, b, n, taken, lets, lowered),
    decreases m,
{
    if m > n {
        lemma_args_err_sticks(st, k, b, n, (m - 1) as nat, taken, lets, lowered);
    }
}

proof fn lemma_items_err_sticks(
    items: Seq<Item>,
    n: nat,
    m: nat,
    taken: Seq<Seq<char>>,
    lets: Seq<LetDecl>,
    lowered: Seq<Seq<char>>,
)
    requires
        n <= m,
        items_spec(items, n, taken, lets, lowered) is Err,
    ensures
        items_spec(items, m, taken, lets, lowered) == items_spec(items, n, taken, lets, lowered),
    decreases m,
{
    if m > n {
        lemma_items_err_sticks(items, n, (m - 1) as nat, taken, lets, lowered);
    }
}

fn sink_prefix(slug: &str, lowered: &str) -> (r: String)
    ensures
        r@ == slug@ + "_"@ + lowered@ + "__"@,
{
    let mut p = string_of(slug);
    push_str(&mut p, "_");
    push_str(&mut p, lowered);
    push_str(&mut p, "__");
    p
}

fn sink_text(slug: &str, port: &str) -> (r: String)
    ensures
        r@ == slug@ + "."@ + port@,
{
    let mut p = string_of(slug);
    push_str(&mut p, ".");
    push_str(&mut p, port);
    p
}

fn desugar_args(
    st: &mut DS,
    b: &BlockDecl,
    taken: &Vec<&str>,
    lets: &Vec<&LetDecl>,
    lowered: &Vec<String>,
    k0: usize,
) -> (r: crate::error::Result<(Vec<ArgItem>, usize)>)
    requires
        k0 + arg_sinks(b.args@).len() <= lowered@.len(),
    ensures
        match args_spec(
            ds_v(*old(st)),
            k0 as nat,
            *b,
            b.args@.len(),
            strs_of(taken@),
            derefs(lets@),
            strs(lowered@),
        ) {
            Ok((s, k, acc)) => r matches Ok((args, kk)) && ds_v(*final(st)) == s && kk == k && args_v(args@)
                == acc && kk == k0 + arg_sinks(b.args@).len(),
            Err(m) => r matches Err(e) && compile_err(e, m),
        },
{
    let ghost s0 = ds_v(*st);
    let nlow = lowered.len();
    let ghost T = strs_of(taken@);
    let ghost L = derefs(lets@);
    let ghost LW = strs(lowered@);
    let mut args: Vec<ArgItem> = Vec::new();
    let mut k: usize = k0;
    let mut n: usize = 0;
    proof {
        assert(b.args@.take(0) =~= Seq::<ArgItem>::empty());
        assert(args_v(args@) =~= Seq::<SArg>::empty());
        lemma_arg_sinks_prefix(b.args@, 0);
    }
    while n < b.args.len()
        invariant
            0 <= n <= b.args@.len(),
            k0 + arg_sinks(b.args@).len() <= lowered@.len(),
            nlow == lowered@.len(),
            s0 == ds_v(*old(st)),
            T == strs_of(taken@),
            L == derefs(lets@),
            LW == strs(lowered@),
            k == k0 + arg_sinks(b.args@.take(n as int)).len(),
            args_spec(s0, k0 as nat, *b, n as nat, T, L, LW) == Ok::<(DState, nat, Seq<SArg>), Seq<char>>(
                (ds_v(*st), k as nat, args_v(args@)),
            ),
        decreases b.args@.len() - n,
    {
        proof {
            assert(b.args@.take(n + 1).drop_last() =~= b.args@.take(n as int));
            assert(b.args@.take(n + 1).last() == b.args@[n as int]);
            lemma_arg_sinks_prefix(b.args@, n + 1);
        }
        let a = &b.args[n];
        let ghost sb = ds_v(*st);
        let mut done = false;
        if let ArgItem::Binding(x) = a {
            if let BindingKind::Expr(e) = &x.kind {
                let cx = Cx {
                    prefix: sink_prefix(b.slug.as_str(), lowered[k].as_str()),
                    sink: sink_text(b.slug.as_str(), x.port.as_str()),
                    taken,
                    lets,
                };
                proof {
                    assert(cx_v(cx) == expr_ctx(b.slug@, x.port@, LW[k as int], T, L));
                    assert(arg_sinks(b.args@.take(n + 1)) == arg_sinks(b.args@.take(n as int)).push(x.port@));
                }
                match node(st, &cx, e) {
                    Err(y) => {
                        proof {
                            let m = choose|m: Seq<char>| node_spec(sb, cx_v(cx), *e) == Err::<(DState, (Seq<char>, Seq<char>)), Seq<char>>(m);
                            assert(args_spec(s0, k0 as nat, *b, (n + 1) as nat, T, L, LW) == Err::<(DState, nat, Seq<SArg>), Seq<char>>(m));
                            lemma_args_err_sticks(s0, k0 as nat, *b, (n + 1) as nat, b.args@.len(), T, L, LW);
                            assert(args_spec(s0, k0 as nat, *b, b.args@.len(), T, L, LW) == Err::<(DState, nat, Seq<SArg>), Seq<char>>(m));
                            assert(compile_err(y, m));
                        }
                        return Err(y);
                    },
                    Ok(root) => {
                        let w = ArgItem::Binding(
                            Binding {
                                port: x.port.clone(),
                                kind: BindingKind::Wire(root),
                                comment: copy_opt(&x.comment),
                            },
                        );
                        proof {
                            assert(args_v(args@.push(w)) =~= args_v(args@).push(arg_v(w)));
                        }
                        args.push(w);
                        k = k + 1;
                        done = true;
                    },
                }
            }
        }
        if !done {
            let c = copy_arg(a);
            proof {
                assert(args_v(args@.push(c)) =~= args_v(args@).push(arg_v(c)));
            }
            args.push(c);
        }
        n = n + 1;
    }
    proof {
        assert(b.args@.take(b.args@.len() as int) =~= b.args@);
    }
    Ok((args, k))
}

impl Module {
    /// The module with every expression — `<-` statements and
    /// argument-list expression bindings — replaced by its blocks and a
    /// plain wire from the root, where the `k`-th expression's sink port
    /// lowercases to `lowered[k]`.
    #[verifier::rlimit(40)]
    pub fn desugar_with(&self, lowered: &Vec<String>) -> (r: crate::error::Result<(Module, DesugarInfo)>)
        requires
            lowered@.len() == expr_sinks(self.items@).len(),
        ensures
            match desugar_spec(self.items@, strs(lowered@)) {
                Ok((st, k)) => r matches Ok((m, info)) && items_v(m.items@) == st.out
                    && info.expressions == k && strs(info.synthetic@) == minted_slugs(st.minted),
                Err(msg) => r matches Err(e) && compile_err(e, msg),
            },
    {
        let taken = taken_names(&self.items);
        let lets = self.lets();
        let ghost items = self.items@;
        let ghost T = strs_of(taken@);
        let ghost L = derefs(lets@);
        let ghost LW = strs(lowered@);
        let nlow = lowered.len();
        let mut st = DS { out: Vec::new(), minted: Vec::new() };
        let mut k: usize = 0;
        let mut i: usize = 0;
        proof {
            assert(items_v(st.out@) =~= Seq::<SItem>::empty());
            assert(minted_v(st.minted@) =~= Seq::<(Seq<char>, Seq<char>, Seq<char>)>::empty());
            assert(items.take(0) =~= Seq::<Item>::empty());
        }
        while i < self.items.len()
            invariant
                0 <= i <= items.len(),
                items == self.items@,
                lowered@.len() == expr_sinks(items).len(),
                nlow == lowered@.len(),
                T == strs_of(taken@),
                T == taken_of(items),
                L == derefs(lets@),
                L == lets_of(items),
                LW == strs(lowered@),
                k == expr_sinks(items.take(i as int)).len(),
                items_spec(items, i as nat, T, L, LW) == Ok::<(DState, nat), Seq<char>>((ds_v(st), k as nat)),
            decreases items.len() - i,
        {
            proof {
                assert(items.take(i + 1).drop_last() =~= items.take(i as int));
                lemma_expr_sinks_prefix(items, i + 1);
            }
            match &self.items[i] {
                Item::ExprWire(w) => {
                    let cx = Cx {
                        prefix: sink_prefix(w.to.slug.as_str(), lowered[k].as_str()),
                        sink: sink_text(w.to.slug.as_str(), w.to.port.as_str()),
                        taken: &taken,
                        lets: &lets,
                    };
                    proof {
                        assert(cx_v(cx) == expr_ctx(w.to.slug@, w.to.port@, LW[k as int], T, L));
                        assert(expr_sinks(items.take(i + 1)) == expr_sinks(items.take(i as int)) + seq![w.to.port@]);
                    }
                    match node(&mut st, &cx, &w.expr) {
                        Err(y) => {
                            proof {
                                lemma_items_err_sticks(items, (i + 1) as nat, items.len(), T, L, LW);
                            }
                            return Err(y);
                        },
                        Ok(root) => {
                            let item = Item::Wire(
                                WireDecl { to: copy_ref(&w.to), from: root, comment: copy_opt(&w.comment) },
                            );
                            proof {
                                lemma_items_v_push(st.out@, item);
                            }
                            st.out.push(item);
                            k = k + 1;
                        },
                    }
                },
                Item::Block(b) => {
                    match desugar_args(&mut st, b, &taken, &lets, lowered, k) {
                        Err(y) => {
                            proof {
                                lemma_items_err_sticks(items, (i + 1) as nat, items.len(), T, L, LW);
                            }
                            return Err(y);
                        },
                        Ok((args, k2)) => {
                            let item = Item::Block(
                                BlockDecl {
                                    slug: b.slug.clone(),
                                    block_type: b.block_type.clone(),
                                    title: copy_opt(&b.title),
                                    args,
                                    comment: copy_opt(&b.comment),
                                    close_comment: copy_opt(&b.close_comment),
                                },
                            );
                            proof {
                                lemma_items_v_push(st.out@, item);
                            }
                            st.out.push(item);
                            k = k2;
                        },
                    }
                },
                other => {
                    let c = copy_item(other);
                    proof {
                        lemma_items_v_push(st.out@, c);
                    }
                    st.out.push(c);
                },
            }
            i = i + 1;
        }
        proof {
            assert(items.take(items.len() as int) =~= items);
        }
        let mut synthetic: Vec<String> = Vec::new();
        let mut j: usize = 0;
        while j < st.minted.len()
            invariant
                0 <= j <= st.minted@.len(),
                strs(synthetic@) == minted_slugs(minted_v(st.minted@)).take(j as int),
            decreases st.minted@.len() - j,
        {
            let s = st.minted[j].2.clone();
            proof {
                assert(minted_slugs(minted_v(st.minted@))[j as int] == st.minted@[j as int].2@);
                assert(s@ == st.minted@[j as int].2@);
                assert(strs(synthetic@.push(s)) =~= strs(synthetic@).push(s@));
                assert(strs(synthetic@.push(s)) =~= minted_slugs(minted_v(st.minted@)).take(j + 1));
            }
            synthetic.push(s);
            j = j + 1;
        }
        proof {
            assert(minted_slugs(minted_v(st.minted@)).take(st.minted@.len() as int) =~= minted_slugs(
                minted_v(st.minted@),
            ));
        }
        Ok((Module { items: st.out }, DesugarInfo { expressions: k, synthetic }))
    }
}

/// Every expression's sink port, lowercased.
pub open spec fn lowered_sinks(items: Seq<Item>) -> Seq<Seq<char>> {
    expr_sinks(items).map_values(|p: Seq<char>| lowercase(p))
}

fn lower_sinks(items: &Vec<Item>) -> (r: Vec<String>)
    ensures
        strs(r@) == lowered_sinks(items@),
{
    let mut r: Vec<String> = Vec::new();
    let mut i: usize = 0;
    while i < items.len()
        invariant
            0 <= i <= items@.len(),
            strs(r@) == lowered_sinks(items@.take(i as int)),
        decreases items@.len() - i,
    {
        proof {
            assert(items@.take(i + 1).drop_last() =~= items@.take(i as int));
        }
        match &items[i] {
            Item::ExprWire(w) => {
                let l = to_lowercase(w.to.port.as_str());
                proof {
                    assert(items@.take(i + 1).last() == items@[i as int]);
                    assert(expr_sinks(items@.take(i + 1)) == expr_sinks(items@.take(i as int)) + seq![w.to.port@]);
                    let a = expr_sinks(items@.take(i as int));
                    assert((a + seq![w.to.port@]).map_values(|p: Seq<char>| lowercase(p)) =~= a.map_values(
                        |p: Seq<char>| lowercase(p),
                    ).push(lowercase(w.to.port@)));
                    assert(strs(r@.push(l)) =~= strs(r@).push(l@));
                    assert(strs(r@.push(l)) =~= lowered_sinks(items@.take(i + 1)));
                }
                r.push(l);
            },
            Item::Block(b) => {
                let ghost r0 = strs(r@);
                let mut j: usize = 0;
                while j < b.args.len()
                    invariant
                        0 <= j <= b.args@.len(),
                        strs(r@) == r0 + arg_sinks(b.args@.take(j as int)).map_values(|p: Seq<char>| lowercase(p)),
                    decreases b.args@.len() - j,
                {
                    proof {
                        assert(b.args@.take(j + 1).drop_last() =~= b.args@.take(j as int));
                    }
                    if let ArgItem::Binding(x) = &b.args[j] {
                        if let BindingKind::Expr(_) = &x.kind {
                            let l = to_lowercase(x.port.as_str());
                            proof {
                                assert(b.args@.take(j + 1).last() == b.args@[j as int]);
                                assert(arg_sinks(b.args@.take(j + 1)) == arg_sinks(b.args@.take(j as int)).push(x.port@));
                                let a = arg_sinks(b.args@.take(j as int));
                                assert(a.push(x.port@).map_values(|p: Seq<char>| lowercase(p)) =~= a.map_values(
                                    |p: Seq<char>| lowercase(p),
                                ).push(lowercase(x.port@)));
                                assert(strs(r@.push(l)) =~= strs(r@).push(l@));
                                assert(strs(r@.push(l)) =~= r0 + arg_sinks(b.args@.take(j + 1)).map_values(
                                    |p: Seq<char>| lowercase(p),
                                ));
                            }
                            r.push(l);
                        } else {
                            proof {
                                assert(arg_sinks(b.args@.take(j + 1)) =~= arg_sinks(b.args@.take(j as int)));
                            }
                        }
                    } else {
                        proof {
                            assert(arg_sinks(b.args@.take(j + 1)) =~= arg_sinks(b.args@.take(j as int)));
                        }
                    }
                    j = j + 1;
                }
                proof {
                    assert(b.args@.take(b.args@.len() as int) =~= b.args@);
                    assert(strs(r@) =~= lowered_sinks(items@.take(i + 1)));
                }
            },
            _ => {
                proof {
                    assert(strs(r@) =~= lowered_sinks(items@.take(i + 1)));
                }
            },
        }
        i = i + 1;
    }
    proof {
        assert(items@.take(items@.len() as int) =~= items@);
    }
    r
}

impl Module {
    /// Replace every expression — `<-` statements and argument-list
    /// expression bindings — with its blocks: each operator node one
    /// block named `<sink>_<port>__<op><n>` (the port lowercased), the
    /// expression's root wired where the expression stood.
    pub fn desugar(&self) -> (r: crate::error::Result<(Module, DesugarInfo)>)
        ensures
            match desugar_spec(self.items@, lowered_sinks(self.items@)) {
                Ok((st, k)) => r matches Ok((m, info)) && items_v(m.items@) == st.out
                    && info.expressions == k && strs(info.synthetic@) == minted_slugs(st.minted),
                Err(msg) => r matches Err(e) && compile_err(e, msg),
            },
    {
        let lowered = lower_sinks(&self.items);
        proof {
            assert(strs(lowered@).len() == lowered@.len());
            assert(lowered_sinks(self.items@).len() == expr_sinks(self.items@).len());
        }
        self.desugar_with(&lowered)
    }
}

proof fn lemma_args_plain(
    st: DState,
    k: nat,
    b: BlockDecl,
    n: nat,
    taken: Seq<Seq<char>>,
    lets: Seq<LetDecl>,
    lowered: Seq<Seq<char>>,
)
    requires
        n <= b.args@.len(),
        arg_sinks(b.args@.take(n as int)).len() == 0,
    ensures
        args_spec(st, k, b, n, taken, lets, lowered) == Ok::<(DState, nat, Seq<SArg>), Seq<char>>(
            (st, k, args_v(b.args@.take(n as int))),
        ),
    decreases n,
{
    if n > 0 {
        let t = b.args@.take(n as int);
        assert(t.drop_last() =~= b.args@.take(n - 1));
        assert(t.last() == b.args@[n - 1]);
        lemma_args_plain(st, k, b, (n - 1) as nat, taken, lets, lowered);
        assert(args_v(t) =~= args_v(b.args@.take(n - 1)).push(arg_v(b.args@[n - 1])));
    } else {
        assert(args_v(b.args@.take(0)) =~= Seq::<SArg>::empty());
    }
}

proof fn lemma_items_plain(
    items: Seq<Item>,
    n: nat,
    taken: Seq<Seq<char>>,
    lets: Seq<LetDecl>,
    lowered: Seq<Seq<char>>,
)
    requires
        n <= items.len(),
        expr_sinks(items.take(n as int)).len() == 0,
    ensures
        items_spec(items, n, taken, lets, lowered) == Ok::<(DState, nat), Seq<char>>(
            (DState { out: items_v(items.take(n as int)), minted: seq![] }, 0),
        ),
    decreases n,
{
    if n > 0 {
        let t = items.take(n as int);
        assert(t.drop_last() =~= items.take(n - 1));
        assert(t.last() == items[n - 1]);
        assert(t =~= items.take(n - 1).push(items[n - 1]));
        lemma_items_plain(items, (n - 1) as nat, taken, lets, lowered);
        crate::ir::copy::lemma_items_v_push(items.take(n - 1), items[n - 1]);
        if let Item::Block(b) = items[n - 1] {
            assert(b.args@.take(b.args@.len() as int) =~= b.args@);
            lemma_args_plain(
                DState { out: items_v(items.take(n - 1)), minted: seq![] },
                0,
                b,
                b.args@.len(),
                taken,
                lets,
                lowered,
            );
        }
    } else {
        assert(items.take(0) =~= Seq::<Item>::empty());
    }
}

/// A module without expressions desugars to itself: every statement comes
/// back as it was, no block is minted and no expression counted.
pub proof fn lemma_desugar_without_expressions(items: Seq<Item>, lowered: Seq<Seq<char>>)
    requires
        expr_sinks(items).len() == 0,
    ensures
        desugar_spec(items, lowered) == Ok::<(DState, nat), Seq<char>>(
            (DState { out: items_v(items), minted: seq![] }, 0),
        ),
{
    assert(items.take(items.len() as int) =~= items);
    lemma_items_plain(items, items.len(), taken_of(items), lets_of(items), lowered);
}

impl Module {
    /// Whether the module declares `name` at module level: an extern, a
    /// block, an instance, a constant or a template.
    pub fn declares(&self, name: &str) -> (r: bool)
        ensures
            r == taken_of(self.items@).contains(name@),
    {
        let taken = taken_names(&self.items);
        let mut i: usize = 0;
        while i < taken.len()
            invariant
                0 <= i <= taken@.len(),
                strs_of(taken@) == taken_of(self.items@),
                forall|j: int| 0 <= j < i ==> taken@[j]@ != name@,
            decreases taken@.len() - i,
        {
            if str_eq(taken[i], name) {
                proof {
                    assert(strs_of(taken@)[i as int] == name@);
                }
                return true;
            }
            i = i + 1;
        }
        proof {
            assert forall|j: int| 0 <= j < taken_of(self.items@).len() implies #[trigger] taken_of(self.items@)[j] != name@ by {
                assert(taken@[j]@ != name@);
            }
        }
        false
    }
}

/// A comparison lowers to one comparator block that computes the source
/// operator: `<` a `Less`, `<=` a `LessEqual`, `>` a `Greater`, `>=` a
/// `GreaterEqual`, `==` an `Equal`, `!=` a `NotEqual` (six operators, six
/// distinct block types). The block reads the left operand on `Input1`,
/// the right on `Input2`, and its `Q` carries the result.
pub proof fn comparison_lowers_to_its_comparator(st: DState, cx: DCtx, op: CmpOp, lhs: Operand, rhs: Operand)
    ensures
        node_spec(st, cx, Expr::Cmp { op, lhs, rhs }) matches Ok((s2, out)) ==> {
            &&& s2.out.len() == st.out.len() + 1
            &&& s2.out.subrange(0, st.out.len() as int) == st.out
            &&& s2.out.last() matches SItem::Block(b) && {
                &&& op is Lt ==> b.block_type == "Less"@
                &&& op is Le ==> b.block_type == "LessEqual"@
                &&& op is Gt ==> b.block_type == "Greater"@
                &&& op is Ge ==> b.block_type == "GreaterEqual"@
                &&& op is Eq ==> b.block_type == "Equal"@
                &&& op is Ne ==> b.block_type == "NotEqual"@
                &&& b.args == seq![operand_arg("Input1"@, lhs), operand_arg("Input2"@, rhs)]
                &&& out == (b.slug, "Q"@)
            }
        },
{
    let r = node_spec(st, cx, Expr::Cmp { op, lhs, rhs });
    if let Ok((s2, out)) = r {
        assert(s2.out.subrange(0, st.out.len() as int) =~= st.out);
    }
}

} // verus!
