//! Template expansion: a source-to-source pass replacing `template`
//! declarations and their instantiations with plain statements. Body slug
//! `b` in instance `sued` becomes `sued_b`, object parameters substitute
//! to the passed slugs, value parameters substitute like shadowing `let`s,
//! and everything else passes through untouched.
use crate::doc::opt_view;
use crate::error::Error;
use crate::ir::ast::{
    bindings_of, derefs, param_name, port_view, ArgItem, Binding, BindingKind, BlockDecl, Expr,
    ExprWireDecl, Item, Module, Operand, PortRef, SetDecl, TemplateDecl, TemplateParam, Value,
    WireDecl,
};
use crate::ir::copy::{copy_item, copy_opt, copy_value, lemma_items_v_push};
use crate::ir::desugar::compile_err;
use crate::ir::model::{
    item_v, items_v, value_v, SArg, SBinding, SBlock, SExpr, SItem, SKind, SOperand, SValue,
};
use crate::text::{push_str, str_eq, string_of};
use vstd::prelude::*;

verus! {

/// The kind of a statement, as a message names it.
pub open spec fn item_kind(i: SItem) -> Seq<char> {
    match i {
        SItem::Extern(_) => "`extern` declaration"@,
        SItem::Block(_) => "block declaration"@,
        SItem::Wire(..) => "wire"@,
        SItem::Assign(..) => "port assignment"@,
        SItem::Let(..) => "`let` constant"@,
        SItem::Removed(..) => "`removed` statement"@,
        SItem::Moved(..) => "`moved` statement"@,
        SItem::Template(_) => "nested `template`"@,
        SItem::Instance(_) => "template instance"@,
        SItem::ExprWire(..) => "expression wire"@,
        SItem::Page(..) => "`page` statement"@,
        SItem::Comment(_) => "comment"@,
    }
}

fn item_kind_exec(i: &Item) -> (r: &'static str)
    ensures
        r@ == item_kind(item_v(*i)),
{
    match i {
        Item::Extern(_) => "`extern` declaration",
        Item::Block(_) => "block declaration",
        Item::Wire(_) => "wire",
        Item::Assign(_) => "port assignment",
        Item::Let(_) => "`let` constant",
        Item::Removed(_) => "`removed` statement",
        Item::Moved(_) => "`moved` statement",
        Item::Template(_) => "nested `template`",
        Item::Instance(_) => "template instance",
        Item::ExprWire(_) => "expression wire",
        Item::Page(_) => "`page` statement",
        Item::Comment(_) => "comment",
    }
}

// ---------------------------------------------------------------------------
// The model
// ---------------------------------------------------------------------------

/// The value stored last under `k`.
pub open spec fn lookup<V>(m: Seq<(Seq<char>, V)>, k: Seq<char>) -> Option<V>
    decreases m.len(),
{
    if m.len() == 0 {
        None
    } else if m.last().0 == k {
        Some(m.last().1)
    } else {
        lookup(m.drop_last(), k)
    }
}

/// A message about the instantiation `call`.
pub open spec fn in_call(call: BlockDecl, m: Seq<char>) -> Seq<char> {
    "in `"@ + call.slug@ + " = "@ + call.block_type@ + "(…)`: "@ + m
}

/// The first parameter of that name.
pub open spec fn find_param(ps: Seq<TemplateParam>, name: Seq<char>) -> Option<TemplateParam>
    decreases ps.len(),
{
    if ps.len() == 0 {
        None
    } else if param_name(ps[0]) == name {
        Some(ps[0])
    } else {
        find_param(ps.drop_first(), name)
    }
}

/// The value parameters with their defaults, in order.
pub open spec fn defaults_of(ps: Seq<TemplateParam>) -> Seq<(Seq<char>, Value)>
    decreases ps.len(),
{
    if ps.len() == 0 {
        seq![]
    } else {
        match ps.last() {
            TemplateParam::Value { name, default } => defaults_of(ps.drop_last()).push((name@, default)),
            TemplateParam::Object { .. } => defaults_of(ps.drop_last()),
        }
    }
}

/// The type of the first top-level extern or managed block named `slug`.
pub open spec fn declared_type(items: Seq<Item>, slug: Seq<char>) -> Option<Seq<char>>
    decreases items.len(),
{
    if items.len() == 0 {
        None
    } else {
        match items[0] {
            Item::Extern(e) if e.slug@ == slug => Some(e.block_type@),
            Item::Block(b) if b.slug@ == slug => Some(b.block_type@),
            _ => declared_type(items.drop_first(), slug),
        }
    }
}

/// Whether `slug` names an instance or a template.
pub open spec fn names_it(i: Item, slug: Seq<char>) -> bool {
    match i {
        Item::Instance(b) => b.slug@ == slug,
        Item::Template(t) => t.name@ == slug,
        _ => false,
    }
}

pub open spec fn names_template_or_instance(items: Seq<Item>, slug: Seq<char>) -> bool {
    exists|i: int| 0 <= i < items.len() && #[trigger] names_it(items[i], slug)
}

/// The argument bindings `bs[..n]` bound to the template's parameters:
/// object parameters to slugs, value parameters to values (after the
/// defaults).
pub open spec fn bind_spec(
    items: Seq<Item>,
    t: TemplateDecl,
    call: BlockDecl,
    bs: Seq<Binding>,
    n: nat,
) -> Result<(Seq<(Seq<char>, Seq<char>)>, Seq<(Seq<char>, Value)>), Seq<char>>
    decreases n,
{
    if n == 0 {
        Ok((seq![], defaults_of(t.params@)))
    } else {
        match bind_spec(items, t, call, bs, (n - 1) as nat) {
            Err(m) => Err(m),
            Ok((objs, vals)) => {
                let x = bs[n - 1];
                match find_param(t.params@, x.port@) {
                    None => Err(in_call(call, "unknown parameter `"@ + x.port@ + "`"@)),
                    Some(TemplateParam::Object { name, block_type }) => match x.kind {
                        BindingKind::Param(Value::Ref(s)) => match declared_type(items, s@) {
                            Some(d) => if d != block_type@ {
                                Err(
                                    in_call(
                                        call,
                                        "`"@ + s@ + "` is a "@ + d + ", but parameter `"@ + name@
                                            + "` expects a "@ + block_type@,
                                    ),
                                )
                            } else {
                                Ok((objs.push((name@, s@)), vals))
                            },
                            None => if names_template_or_instance(items, s@) {
                                Err(
                                    in_call(
                                        call,
                                        "`"@ + s@
                                            + "` is a template or instance, not an object — pass one of an instance's blocks by its expanded name (`"@
                                            + s@ + "_<block>`)"@,
                                    ),
                                )
                            } else {
                                Ok((objs.push((name@, s@)), vals))
                            },
                        },
                        _ => Err(in_call(call, "object parameter `"@ + name@ + "` takes an extern or block slug"@)),
                    },
                    Some(TemplateParam::Value { name, .. }) => match x.kind {
                        BindingKind::Param(v) => Ok((objs, vals.push((name@, v)))),
                        _ => Err(
                            in_call(call, "value parameter `"@ + name@ + "` takes a number, string, or constant"@),
                        ),
                    },
                }
            },
        }
    }
}

/// The first object parameter left unbound.
pub open spec fn missing_object(ps: Seq<TemplateParam>, objs: Seq<(Seq<char>, Seq<char>)>) -> Option<Seq<char>>
    decreases ps.len(),
{
    if ps.len() == 0 {
        None
    } else {
        match ps[0] {
            TemplateParam::Object { name, .. } if lookup(objs, name@) is None => Some(name@),
            _ => missing_object(ps.drop_first(), objs),
        }
    }
}

/// The slugs the template body declares.
pub open spec fn body_slugs(body: Seq<Item>) -> Seq<Seq<char>>
    decreases body.len(),
{
    if body.len() == 0 {
        seq![]
    } else {
        match body.last() {
            Item::Block(b) => body_slugs(body.drop_last()).push(b.slug@),
            _ => body_slugs(body.drop_last()),
        }
    }
}

/// Everything one instantiation substitutes.
pub struct Inst {
    pub call: BlockDecl,
    pub body: Seq<Seq<char>>,
    pub objs: Seq<(Seq<char>, Seq<char>)>,
    pub vals: Seq<(Seq<char>, Value)>,
}

/// A slug as the instance sees it: a body block gets the instance's
/// prefix, an object parameter its argument, anything else stays.
pub open spec fn map_slug(x: Inst, s: Seq<char>) -> Seq<char> {
    if x.body.contains(s) {
        x.call.slug@ + "_"@ + s
    } else {
        match lookup(x.objs, s) {
            Some(o) => o,
            None => s,
        }
    }
}

pub open spec fn map_ref(x: Inst, r: PortRef) -> (Seq<char>, Seq<char>) {
    (map_slug(x, r.slug@), r.port@)
}

pub open spec fn map_value(x: Inst, v: Value) -> Result<SValue, Seq<char>> {
    match v {
        Value::Ref(n) => match lookup(x.vals, n@) {
            Some(val) => Ok(value_v(val)),
            None => if lookup(x.objs, n@) is Some {
                Err(
                    in_call(
                        x.call,
                        "object parameter `"@ + n@ + "` used as a value — reference one of its ports (`"@ + n@
                            + ".<Port>`) or a value parameter instead"@,
                    ),
                )
            } else {
                Ok(value_v(v))
            },
        },
        _ => Ok(value_v(v)),
    }
}

pub open spec fn map_operand(x: Inst, o: Operand) -> Result<SOperand, Seq<char>> {
    match o {
        Operand::Port(p) => Ok(SOperand::Port(map_ref(x, p))),
        Operand::Value(v) => match map_value(x, v) {
            Err(m) => Err(m),
            Ok(w) => Ok(SOperand::Value(w)),
        },
    }
}

/// An expression with its operands substituted, left to right.
pub open spec fn map_expr(x: Inst, e: Expr) -> Result<SExpr, Seq<char>>
    decreases e,
{
    match e {
        Expr::Or(a, b) => match map_expr(x, *a) {
            Err(m) => Err(m),
            Ok(l) => match map_expr(x, *b) {
                Err(m) => Err(m),
                Ok(r) => Ok(SExpr::Or(Box::new(l), Box::new(r))),
            },
        },
        Expr::And(a, b) => match map_expr(x, *a) {
            Err(m) => Err(m),
            Ok(l) => match map_expr(x, *b) {
                Err(m) => Err(m),
                Ok(r) => Ok(SExpr::And(Box::new(l), Box::new(r))),
            },
        },
        Expr::Not(a) => match map_expr(x, *a) {
            Err(m) => Err(m),
            Ok(l) => Ok(SExpr::Not(Box::new(l))),
        },
        Expr::Cmp { op, lhs, rhs } => match map_operand(x, lhs) {
            Err(m) => Err(m),
            Ok(l) => match map_operand(x, rhs) {
                Err(m) => Err(m),
                Ok(r) => Ok(SExpr::Cmp(op, l, r)),
            },
        },
        Expr::Arith { op, lhs, rhs } => match map_expr(x, *lhs) {
            Err(m) => Err(m),
            Ok(l) => match map_expr(x, *rhs) {
                Err(m) => Err(m),
                Ok(r) => Ok(SExpr::Arith(op, Box::new(l), Box::new(r))),
            },
        },
        Expr::Atom(o) => match map_operand(x, o) {
            Err(m) => Err(m),
            Ok(w) => Ok(SExpr::Atom(w)),
        },
    }
}

pub open spec fn map_arg(x: Inst, a: ArgItem) -> Result<SArg, Seq<char>> {
    match a {
        ArgItem::Binding(b) => match b.kind {
            BindingKind::Param(v) => match map_value(x, v) {
                Err(m) => Err(m),
                Ok(w) => Ok(SArg::Binding(SBinding { port: b.port@, kind: SKind::Param(w), comment: opt_view(b.comment) })),
            },
            BindingKind::Wire(r) => Ok(
                SArg::Binding(SBinding { port: b.port@, kind: SKind::Wire(map_ref(x, r)), comment: opt_view(b.comment) }),
            ),
            BindingKind::Expr(e) => match map_expr(x, e) {
                Err(m) => Err(m),
                Ok(w) => Ok(SArg::Binding(SBinding { port: b.port@, kind: SKind::Expr(w), comment: opt_view(b.comment) })),
            },
        },
        ArgItem::Comment(c) => Ok(SArg::Comment(c@)),
    }
}

/// The first `n` arguments, substituted.
pub open spec fn map_args(x: Inst, args: Seq<ArgItem>, n: nat) -> Result<Seq<SArg>, Seq<char>>
    decreases n,
{
    if n == 0 {
        Ok(seq![])
    } else {
        match map_args(x, args, (n - 1) as nat) {
            Err(m) => Err(m),
            Ok(acc) => match map_arg(x, args[n - 1]) {
                Err(m) => Err(m),
                Ok(a) => Ok(acc.push(a)),
            },
        }
    }
}

/// The statements of the first `n` body items, instantiated.
pub open spec fn body_spec(x: Inst, t: TemplateDecl, n: nat) -> Result<Seq<SItem>, Seq<char>>
    decreases n,
{
    if n == 0 {
        Ok(seq![])
    } else {
        match body_spec(x, t, (n - 1) as nat) {
            Err(m) => Err(m),
            Ok(acc) => match t.body@[n - 1] {
                Item::Block(b) => match map_args(x, b.args@, b.args@.len()) {
                    Err(m) => Err(m),
                    Ok(args) => Ok(
                        acc.push(
                            SItem::Block(
                                SBlock {
                                    slug: x.call.slug@ + "_"@ + b.slug@,
                                    block_type: b.block_type@,
                                    title: opt_view(b.title),
                                    args,
                                    comment: opt_view(b.comment),
                                    close_comment: opt_view(b.close_comment),
                                },
                            ),
                        ),
                    ),
                },
                Item::Wire(w) => Ok(acc.push(SItem::Wire(map_ref(x, w.to), map_ref(x, w.from), opt_view(w.comment)))),
                Item::ExprWire(w) => match map_expr(x, w.expr) {
                    Err(m) => Err(m),
                    Ok(e) => Ok(acc.push(SItem::ExprWire(map_ref(x, w.to), e, opt_view(w.comment)))),
                },
                Item::Assign(a) => match map_value(x, a.value) {
                    Err(m) => Err(m),
                    Ok(v) => Ok(acc.push(SItem::Assign(map_ref(x, a.target), v, opt_view(a.comment)))),
                },
                Item::Comment(_) => Ok(acc),
                other => Err(
                    in_call(
                        x.call,
                        "template `"@ + t.name@ + "` carries an unexpected "@ + item_kind(item_v(other))
                            + " in its body"@,
                    ),
                ),
            },
        }
    }
}

/// The statements one instantiation expands to.
pub open spec fn instantiate_spec(items: Seq<Item>, t: TemplateDecl, call: BlockDecl) -> Result<Seq<SItem>, Seq<char>> {
    let bs = bindings_of(call.args@);
    match bind_spec(items, t, call, bs, bs.len()) {
        Err(m) => Err(m),
        Ok((objs, vals)) => match missing_object(t.params@, objs) {
            Some(name) => Err(in_call(call, "object parameter `"@ + name + "` must be given"@)),
            None => body_spec(
                Inst { call, body: body_slugs(t.body@), objs, vals },
                t,
                t.body@.len(),
            ),
        },
    }
}

/// The first template named `name`.
pub open spec fn find_template(items: Seq<Item>, name: Seq<char>) -> Option<TemplateDecl>
    decreases items.len(),
{
    if items.len() == 0 {
        None
    } else {
        match items[0] {
            Item::Template(t) if t.name@ == name => Some(t),
            _ => find_template(items.drop_first(), name),
        }
    }
}

/// The names of the templates in `items`, in order.
pub open spec fn template_names(items: Seq<Item>) -> Seq<Seq<char>>
    decreases items.len(),
{
    if items.len() == 0 {
        seq![]
    } else {
        match items.last() {
            Item::Template(t) => template_names(items.drop_last()).push(t.name@),
            _ => template_names(items.drop_last()),
        }
    }
}

/// The first name that repeats an earlier one.
pub open spec fn first_repeat(names: Seq<Seq<char>>) -> Option<Seq<char>>
    decreases names.len(),
{
    if names.len() == 0 {
        None
    } else {
        match first_repeat(names.drop_last()) {
            Some(n) => Some(n),
            None => if names.drop_last().contains(names.last()) {
                Some(names.last())
            } else {
                None
            },
        }
    }
}

/// The first `n` statements with templates dropped and instances
/// expanded.
pub open spec fn expand_items(items: Seq<Item>, n: nat) -> Result<Seq<SItem>, Seq<char>>
    decreases n,
{
    if n == 0 {
        Ok(seq![])
    } else {
        match expand_items(items, (n - 1) as nat) {
            Err(m) => Err(m),
            Ok(acc) => match items[n - 1] {
                Item::Template(_) => Ok(acc),
                Item::Instance(call) => match find_template(items, call.block_type@) {
                    None => Err(
                        "`"@ + call.slug@ + " = "@ + call.block_type@ + "(…)` instantiates unknown template `"@
                            + call.block_type@ + "`"@,
                    ),
                    Some(t) => match instantiate_spec(items, t, call) {
                        Err(m) => Err(m),
                        Ok(out) => Ok(acc + out),
                    },
                },
                other => Ok(acc.push(item_v(other))),
            },
        }
    }
}

/// The module with every template instantiated.
pub open spec fn expand_spec(items: Seq<Item>) -> Result<Seq<SItem>, Seq<char>> {
    match first_repeat(template_names(items)) {
        Some(n) => Err("duplicate template `"@ + n + "`"@),
        None => expand_items(items, items.len()),
    }
}

// ---------------------------------------------------------------------------
// Implementation
// ---------------------------------------------------------------------------

spec fn strs_of(v: Seq<&str>) -> Seq<Seq<char>> {
    v.map_values(|s: &str| s@)
}

spec fn pairs_v(v: Seq<(&str, &str)>) -> Seq<(Seq<char>, Seq<char>)> {
    v.map_values(|p: (&str, &str)| (p.0@, p.1@))
}

spec fn vals_v(v: Seq<(&str, Value)>) -> Seq<(Seq<char>, Value)> {
    v.map_values(|p: (&str, Value)| (p.0@, p.1))
}

struct InstX<'a> {
    call: &'a BlockDecl,
    body: Vec<&'a str>,
    objs: Vec<(&'a str, &'a str)>,
    vals: Vec<(&'a str, Value)>,
}

spec fn inst_v(x: InstX) -> Inst {
    Inst { call: *x.call, body: strs_of(x.body@), objs: pairs_v(x.objs@), vals: vals_v(x.vals@) }
}

fn fail_in(call: &BlockDecl, m: String) -> (r: Error)
    ensures
        compile_err(r, in_call(*call, m@)),
{
    let mut t = String::new();
    push_str(&mut t, "in `");
    push_str(&mut t, call.slug.as_str());
    push_str(&mut t, " = ");
    push_str(&mut t, call.block_type.as_str());
    push_str(&mut t, "(…)`: ");
    push_str(&mut t, m.as_str());
    proof {
        assert(t@ =~= in_call(*call, m@));
    }
    Error::Compile(t)
}

fn lookup_obj<'a>(objs: &Vec<(&'a str, &'a str)>, k: &str) -> (r: Option<&'a str>)
    ensures
        match lookup(pairs_v(objs@), k@) {
            Some(v) => r matches Some(s) && s@ == v,
            None => r is None,
        },
{
    let ghost all = pairs_v(objs@);
    let mut i: usize = objs.len();
    proof {
        assert(all.take(i as int) =~= all);
    }
    while i > 0
        invariant
            0 <= i <= objs@.len(),
            all == pairs_v(objs@),
            lookup(all, k@) == lookup(all.take(i as int), k@),
        decreases i,
    {
        proof {
            assert(all.take(i as int).drop_last() =~= all.take(i - 1));
        }
        if str_eq(objs[i - 1].0, k) {
            return Some(objs[i - 1].1);
        }
        i = i - 1;
    }
    None
}

fn lookup_val<'a, 'b>(vals: &'b Vec<(&'a str, Value)>, k: &str) -> (r: Option<&'b Value>)
    ensures
        match lookup(vals_v(vals@), k@) {
            Some(v) => r matches Some(s) && *s == v,
            None => r is None,
        },
{
    let ghost all = vals_v(vals@);
    let mut i: usize = vals.len();
    proof {
        assert(all.take(i as int) =~= all);
    }
    while i > 0
        invariant
            0 <= i <= vals@.len(),
            all == vals_v(vals@),
            lookup(all, k@) == lookup(all.take(i as int), k@),
        decreases i,
    {
        proof {
            assert(all.take(i as int).drop_last() =~= all.take(i - 1));
        }
        if str_eq(vals[i - 1].0, k) {
            return Some(&vals[i - 1].1);
        }
        i = i - 1;
    }
    None
}

fn contains_str(v: &Vec<&str>, s: &str) -> (r: bool)
    ensures
        r == strs_of(v@).contains(s@),
{
    let mut i: usize = 0;
    while i < v.len()
        invariant
            0 <= i <= v@.len(),
            forall|j: int| 0 <= j < i ==> v@[j]@ != s@,
        decreases v@.len() - i,
    {
        if str_eq(v[i], s) {
            proof {
                assert(strs_of(v@)[i as int] == s@);
            }
            return true;
        }
        i = i + 1;
    }
    proof {
        assert forall|j: int| 0 <= j < strs_of(v@).len() implies #[trigger] strs_of(v@)[j] != s@ by {
            assert(v@[j]@ != s@);
        }
    }
    false
}

fn map_slug_exec(x: &InstX, s: &str) -> (r: String)
    ensures
        r@ == map_slug(inst_v(*x), s@),
{
    if contains_str(&x.body, s) {
        let mut t = string_of(x.call.slug.as_str());
        push_str(&mut t, "_");
        push_str(&mut t, s);
        t
    } else {
        match lookup_obj(&x.objs, s) {
            Some(o) => string_of(o),
            None => string_of(s),
        }
    }
}

fn map_ref_exec(x: &InstX, r: &PortRef) -> (p: PortRef)
    ensures
        port_view(p) == map_ref(inst_v(*x), *r),
{
    PortRef { slug: map_slug_exec(x, r.slug.as_str()), port: r.port.clone() }
}

fn map_value_exec(x: &InstX, v: &Value) -> (r: crate::error::Result<Value>)
    ensures
        match map_value(inst_v(*x), *v) {
            Ok(w) => r matches Ok(y) && value_v(y) == w,
            Err(m) => r matches Err(e) && compile_err(e, m),
        },
{
    if let Value::Ref(n) = v {
        match lookup_val(&x.vals, n.as_str()) {
            Some(val) => return Ok(copy_value(val)),
            None => {
                if lookup_obj(&x.objs, n.as_str()).is_some() {
                    let mut m = string_of("object parameter `");
                    push_str(&mut m, n.as_str());
                    push_str(&mut m, "` used as a value — reference one of its ports (`");
                    push_str(&mut m, n.as_str());
                    push_str(&mut m, ".<Port>`) or a value parameter instead");
                    let ghost want = map_value(inst_v(*x), *v);
                    proof {
                        assert(want matches Err(y) && y =~= in_call(*x.call, m@));
                    }
                    return Err(fail_in(x.call, m));
                }
            },
        }
    }
    Ok(copy_value(v))
}

fn map_operand_exec(x: &InstX, o: &Operand) -> (r: crate::error::Result<Operand>)
    ensures
        match map_operand(inst_v(*x), *o) {
            Ok(w) => r matches Ok(y) && crate::ir::model::operand_v(y) == w,
            Err(m) => r matches Err(e) && compile_err(e, m),
        },
{
    match o {
        Operand::Port(p) => Ok(Operand::Port(map_ref_exec(x, p))),
        Operand::Value(v) => match map_value_exec(x, v) {
            Ok(w) => Ok(Operand::Value(w)),
            Err(e) => Err(e),
        },
    }
}

fn map_expr_exec(x: &InstX, e: &Expr) -> (r: crate::error::Result<Expr>)
    ensures
        match map_expr(inst_v(*x), *e) {
            Ok(w) => r matches Ok(y) && crate::ir::model::expr_v(y) == w,
            Err(m) => r matches Err(y) && compile_err(y, m),
        },
    decreases e,
{
    match e {
        Expr::Or(a, b) => {
            let l = match map_expr_exec(x, a) {
                Ok(l) => l,
                Err(y) => return Err(y),
            };
            let r = match map_expr_exec(x, b) {
                Ok(r) => r,
                Err(y) => return Err(y),
            };
            Ok(Expr::Or(Box::new(l), Box::new(r)))
        },
        Expr::And(a, b) => {
            let l = match map_expr_exec(x, a) {
                Ok(l) => l,
                Err(y) => return Err(y),
            };
            let r = match map_expr_exec(x, b) {
                Ok(r) => r,
                Err(y) => return Err(y),
            };
            Ok(Expr::And(Box::new(l), Box::new(r)))
        },
        Expr::Not(a) => {
            let l = match map_expr_exec(x, a) {
                Ok(l) => l,
                Err(y) => return Err(y),
            };
            Ok(Expr::Not(Box::new(l)))
        },
        Expr::Cmp { op, lhs, rhs } => {
            let l = match map_operand_exec(x, lhs) {
                Ok(l) => l,
                Err(y) => return Err(y),
            };
            let r = match map_operand_exec(x, rhs) {
                Ok(r) => r,
                Err(y) => return Err(y),
            };
            Ok(Expr::Cmp { op: *op, lhs: l, rhs: r })
        },
        Expr::Arith { op, lhs, rhs } => {
            let l = match map_expr_exec(x, lhs) {
                Ok(l) => l,
                Err(y) => return Err(y),
            };
            let r = match map_expr_exec(x, rhs) {
                Ok(r) => r,
                Err(y) => return Err(y),
            };
            Ok(Expr::Arith { op: *op, lhs: Box::new(l), rhs: Box::new(r) })
        },
        Expr::Atom(o) => match map_operand_exec(x, o) {
            Ok(w) => Ok(Expr::Atom(w)),
            Err(y) => Err(y),
        },
    }
}

fn map_arg_exec(x: &InstX, a: &ArgItem) -> (r: crate::error::Result<ArgItem>)
    ensures
        match map_arg(inst_v(*x), *a) {
            Ok(w) => r matches Ok(y) && crate::ir::model::arg_v(y) == w,
            Err(m) => r matches Err(e) && compile_err(e, m),
        },
{
    match a {
        ArgItem::Binding(b) => {
            let kind = match &b.kind {
                BindingKind::Param(v) => match map_value_exec(x, v) {
                    Ok(w) => BindingKind::Param(w),
                    Err(e) => return Err(e),
                },
                BindingKind::Wire(r) => BindingKind::Wire(map_ref_exec(x, r)),
                BindingKind::Expr(e) => match map_expr_exec(x, e) {
                    Ok(w) => BindingKind::Expr(w),
                    Err(y) => return Err(y),
                },
            };
            Ok(ArgItem::Binding(Binding { port: b.port.clone(), kind, comment: copy_opt(&b.comment) }))
        },
        ArgItem::Comment(c) => Ok(ArgItem::Comment(c.clone())),
    }
}

proof fn lemma_map_args_err_sticks(x: Inst, args: Seq<ArgItem>, n: nat, m: nat)
    requires
        n <= m,
        map_args(x, args, n) is Err,
    ensures
        map_args(x, args, m) == map_args(x, args, n),
    decreases m,
{
    if m > n {
        lemma_map_args_err_sticks(x, args, n, (m - 1) as nat);
    }
}

fn map_args_exec(x: &InstX, args: &Vec<ArgItem>) -> (r: crate::error::Result<Vec<ArgItem>>)
    ensures
        match map_args(inst_v(*x), args@, args@.len()) {
            Ok(w) => r matches Ok(y) && crate::ir::model::args_v(y@) == w,
            Err(m) => r matches Err(e) && compile_err(e, m),
        },
{
    let ghost X = inst_v(*x);
    let mut out: Vec<ArgItem> = Vec::new();
    let mut i: usize = 0;
    proof {
        assert(crate::ir::model::args_v(out@) =~= Seq::<SArg>::empty());
    }
    while i < args.len()
        invariant
            0 <= i <= args@.len(),
            X == inst_v(*x),
            map_args(X, args@, i as nat) == Ok::<Seq<SArg>, Seq<char>>(crate::ir::model::args_v(out@)),
        decreases args@.len() - i,
    {
        match map_arg_exec(x, &args[i]) {
            Ok(a) => {
                proof {
                    assert(crate::ir::model::args_v(out@.push(a)) =~= crate::ir::model::args_v(out@).push(
                        crate::ir::model::arg_v(a),
                    ));
                }
                out.push(a);
            },
            Err(e) => {
                proof {
                    lemma_map_args_err_sticks(X, args@, (i + 1) as nat, args@.len());
                }
                return Err(e);
            },
        }
        i = i + 1;
    }
    Ok(out)
}

fn find_param_exec<'a>(ps: &'a Vec<TemplateParam>, name: &str) -> (r: Option<&'a TemplateParam>)
    ensures
        match find_param(ps@, name@) {
            Some(p) => r matches Some(q) && *q == p,
            None => r is None,
        },
{
    let mut i: usize = 0;
    proof {
        assert(ps@.skip(0) =~= ps@);
    }
    while i < ps.len()
        invariant
            0 <= i <= ps@.len(),
            find_param(ps@, name@) == find_param(ps@.skip(i as int), name@),
        decreases ps@.len() - i,
    {
        proof {
            assert(ps@.skip(i as int).drop_first() =~= ps@.skip(i + 1));
            assert(ps@.skip(i as int)[0] == ps@[i as int]);
        }
        if str_eq(ps[i].name(), name) {
            return Some(&ps[i]);
        }
        i = i + 1;
    }
    None
}

fn declared_type_exec<'a>(items: &'a Vec<Item>, slug: &str) -> (r: Option<&'a str>)
    ensures
        match declared_type(items@, slug@) {
            Some(t) => r matches Some(q) && q@ == t,
            None => r is None,
        },
{
    let mut i: usize = 0;
    proof {
        assert(items@.skip(0) =~= items@);
    }
    while i < items.len()
        invariant
            0 <= i <= items@.len(),
            declared_type(items@, slug@) == declared_type(items@.skip(i as int), slug@),
        decreases items@.len() - i,
    {
        proof {
            assert(items@.skip(i as int).drop_first() =~= items@.skip(i + 1));
            assert(items@.skip(i as int)[0] == items@[i as int]);
        }
        match &items[i] {
            Item::Extern(e) => {
                if str_eq(e.slug.as_str(), slug) {
                    return Some(e.block_type.as_str());
                }
            },
            Item::Block(b) => {
                if str_eq(b.slug.as_str(), slug) {
                    return Some(b.block_type.as_str());
                }
            },
            _ => {},
        }
        i = i + 1;
    }
    None
}

fn names_template_or_instance_exec(items: &Vec<Item>, slug: &str) -> (r: bool)
    ensures
        r == names_template_or_instance(items@, slug@),
{
    let mut i: usize = 0;
    while i < items.len()
        invariant
            0 <= i <= items@.len(),
            forall|j: int| 0 <= j < i ==> !names_it(#[trigger] items@[j], slug@),
        decreases items@.len() - i,
    {
        let hit = match &items[i] {
            Item::Instance(b) => str_eq(b.slug.as_str(), slug),
            Item::Template(t) => str_eq(t.name.as_str(), slug),
            _ => false,
        };
        if hit {
            proof {
                assert(names_it(items@[i as int], slug@));
            }
            return true;
        }
        i = i + 1;
    }
    false
}

fn defaults_exec<'a>(ps: &'a Vec<TemplateParam>) -> (r: Vec<(&'a str, Value)>)
    ensures
        vals_v(r@) == defaults_of(ps@),
{
    let mut r: Vec<(&'a str, Value)> = Vec::new();
    let mut i: usize = 0;
    while i < ps.len()
        invariant
            0 <= i <= ps@.len(),
            vals_v(r@) == defaults_of(ps@.take(i as int)),
        decreases ps@.len() - i,
    {
        proof {
            assert(ps@.take(i + 1).drop_last() =~= ps@.take(i as int));
        }
        match &ps[i] {
            TemplateParam::Value { name, default } => {
                let pair = (name.as_str(), copy_value(default));
                proof {
                    assert(vals_v(r@.push(pair)) =~= vals_v(r@).push((name@, *default)));
                }
                r.push(pair);
            },
            TemplateParam::Object { .. } => {},
        }
        i = i + 1;
    }
    proof {
        assert(ps@.take(ps@.len() as int) =~= ps@);
    }
    r
}

proof fn lemma_bind_err_sticks(items: Seq<Item>, t: TemplateDecl, call: BlockDecl, bs: Seq<Binding>, n: nat, m: nat)
    requires
        n <= m,
        bind_spec(items, t, call, bs, n) is Err,
    ensures
        bind_spec(items, t, call, bs, m) == bind_spec(items, t, call, bs, n),
    decreases m,
{
    if m > n {
        lemma_bind_err_sticks(items, t, call, bs, n, (m - 1) as nat);
    }
}

fn bind_exec<'a>(items: &'a Vec<Item>, t: &'a TemplateDecl, call: &'a BlockDecl) -> (r: crate::error::Result<
    (Vec<(&'a str, &'a str)>, Vec<(&'a str, Value)>),
>)
    ensures
        match bind_spec(items@, *t, *call, bindings_of(call.args@), bindings_of(call.args@).len()) {
            Ok((o, v)) => r matches Ok((ro, rv)) && pairs_v(ro@) == o && vals_v(rv@) == v,
            Err(m) => r matches Err(e) && compile_err(e, m),
        },
{
    let bs = call.bindings();
    let ghost B = bindings_of(call.args@);
    let mut objs: Vec<(&'a str, &'a str)> = Vec::new();
    let mut vals = defaults_exec(&t.params);
    let mut i: usize = 0;
    proof {
        assert(pairs_v(objs@) =~= Seq::<(Seq<char>, Seq<char>)>::empty());
    }
    while i < bs.len()
        invariant
            0 <= i <= bs@.len(),
            derefs(bs@) == B,
            B == bindings_of(call.args@),
            bind_spec(items@, *t, *call, B, i as nat) == Ok::<
                (Seq<(Seq<char>, Seq<char>)>, Seq<(Seq<char>, Value)>),
                Seq<char>,
            >((pairs_v(objs@), vals_v(vals@))),
        decreases bs@.len() - i,
    {
        let x: &Binding = bs[i];
        proof {
            assert(B[i as int] == *x);
        }
        let p = match find_param_exec(&t.params, x.port.as_str()) {
            Some(p) => p,
            None => {
                let mut m = string_of("unknown parameter `");
                push_str(&mut m, x.port.as_str());
                push_str(&mut m, "`");
                proof {
                    assert(m@ =~= "unknown parameter `"@ + x.port@ + "`"@);
                    assert(bind_spec(items@, *t, *call, B, (i + 1) as nat) == Err::<
                        (Seq<(Seq<char>, Seq<char>)>, Seq<(Seq<char>, Value)>),
                        Seq<char>,
                    >(in_call(*call, m@)));
                    lemma_bind_err_sticks(items@, *t, *call, B, (i + 1) as nat, B.len());
                }
                return Err(fail_in(call, m));
            },
        };
        match p {
            TemplateParam::Object { name, block_type } => {
                let s = match &x.kind {
                    BindingKind::Param(Value::Ref(s)) => s,
                    _ => {
                        let mut m = string_of("object parameter `");
                        push_str(&mut m, name.as_str());
                        push_str(&mut m, "` takes an extern or block slug");
                        proof {
                            assert(m@ =~= "object parameter `"@ + name@ + "` takes an extern or block slug"@);
                            assert(bind_spec(items@, *t, *call, B, (i + 1) as nat) == Err::<
                        (Seq<(Seq<char>, Seq<char>)>, Seq<(Seq<char>, Value)>),
                        Seq<char>,
                    >(in_call(*call, m@)));
                    lemma_bind_err_sticks(items@, *t, *call, B, (i + 1) as nat, B.len());
                        }
                        return Err(fail_in(call, m));
                    },
                };
                match declared_type_exec(items, s.as_str()) {
                    Some(d) => {
                        if !str_eq(d, block_type.as_str()) {
                            let mut m = string_of("`");
                            push_str(&mut m, s.as_str());
                            push_str(&mut m, "` is a ");
                            push_str(&mut m, d);
                            push_str(&mut m, ", but parameter `");
                            push_str(&mut m, name.as_str());
                            push_str(&mut m, "` expects a ");
                            push_str(&mut m, block_type.as_str());
                            proof {
                                assert(m@ =~= "`"@ + s@ + "` is a "@ + d@ + ", but parameter `"@ + name@
                                    + "` expects a "@ + block_type@);
                                assert(bind_spec(items@, *t, *call, B, (i + 1) as nat) == Err::<
                        (Seq<(Seq<char>, Seq<char>)>, Seq<(Seq<char>, Value)>),
                        Seq<char>,
                    >(in_call(*call, m@)));
                    lemma_bind_err_sticks(items@, *t, *call, B, (i + 1) as nat, B.len());
                            }
                            return Err(fail_in(call, m));
                        }
                    },
                    None => {
                        if names_template_or_instance_exec(items, s.as_str()) {
                            let mut m = string_of("`");
                            push_str(&mut m, s.as_str());
                            push_str(
                                &mut m,
                                "` is a template or instance, not an object — pass one of an instance's blocks by its expanded name (`",
                            );
                            push_str(&mut m, s.as_str());
                            push_str(&mut m, "_<block>`)");
                            proof {
                                assert(m@ =~= "`"@ + s@
                                    + "` is a template or instance, not an object — pass one of an instance's blocks by its expanded name (`"@
                                    + s@ + "_<block>`)"@);
                                assert(bind_spec(items@, *t, *call, B, (i + 1) as nat) == Err::<
                        (Seq<(Seq<char>, Seq<char>)>, Seq<(Seq<char>, Value)>),
                        Seq<char>,
                    >(in_call(*call, m@)));
                    lemma_bind_err_sticks(items@, *t, *call, B, (i + 1) as nat, B.len());
                            }
                            return Err(fail_in(call, m));
                        }
                    },
                }
                let pair = (name.as_str(), s.as_str());
                proof {
                    assert(pairs_v(objs@.push(pair)) =~= pairs_v(objs@).push((name@, s@)));
                }
                objs.push(pair);
            },
            TemplateParam::Value { name, .. } => {
                match &x.kind {
                    BindingKind::Param(v) => {
                        let pair = (name.as_str(), copy_value(v));
                        proof {
                            assert(vals_v(vals@.push(pair)) =~= vals_v(vals@).push((name@, *v)));
                        }
                        vals.push(pair);
                    },
                    _ => {
                        let mut m = string_of("value parameter `");
                        push_str(&mut m, name.as_str());
                        push_str(&mut m, "` takes a number, string, or constant");
                        proof {
                            assert(m@ =~= "value parameter `"@ + name@ + "` takes a number, string, or constant"@);
                            assert(bind_spec(items@, *t, *call, B, (i + 1) as nat) == Err::<
                        (Seq<(Seq<char>, Seq<char>)>, Seq<(Seq<char>, Value)>),
                        Seq<char>,
                    >(in_call(*call, m@)));
                    lemma_bind_err_sticks(items@, *t, *call, B, (i + 1) as nat, B.len());
                        }
                        return Err(fail_in(call, m));
                    },
                }
            },
        }
        i = i + 1;
    }
    Ok((objs, vals))
}

fn missing_object_exec<'a>(ps: &'a Vec<TemplateParam>, objs: &Vec<(&str, &str)>) -> (r: Option<&'a str>)
    ensures
        match missing_object(ps@, pairs_v(objs@)) {
            Some(n) => r matches Some(q) && q@ == n,
            None => r is None,
        },
{
    let mut i: usize = 0;
    proof {
        assert(ps@.skip(0) =~= ps@);
    }
    while i < ps.len()
        invariant
            0 <= i <= ps@.len(),
            missing_object(ps@, pairs_v(objs@)) == missing_object(ps@.skip(i as int), pairs_v(objs@)),
        decreases ps@.len() - i,
    {
        proof {
            assert(ps@.skip(i as int).drop_first() =~= ps@.skip(i + 1));
            assert(ps@.skip(i as int)[0] == ps@[i as int]);
        }
        if let TemplateParam::Object { name, .. } = &ps[i] {
            if lookup_obj(objs, name.as_str()).is_none() {
                return Some(name.as_str());
            }
        }
        i = i + 1;
    }
    None
}

fn body_slugs_exec<'a>(body: &'a Vec<Item>) -> (r: Vec<&'a str>)
    ensures
        strs_of(r@) == body_slugs(body@),
{
    let mut r: Vec<&'a str> = Vec::new();
    let mut i: usize = 0;
    while i < body.len()
        invariant
            0 <= i <= body@.len(),
            strs_of(r@) == body_slugs(body@.take(i as int)),
        decreases body@.len() - i,
    {
        proof {
            assert(body@.take(i + 1).drop_last() =~= body@.take(i as int));
        }
        if let Item::Block(b) = &body[i] {
            let sl = b.slug.as_str();
            proof {
                assert(strs_of(r@.push(sl)) =~= strs_of(r@).push(b.slug@));
            }
            r.push(sl);
        }
        i = i + 1;
    }
    proof {
        assert(body@.take(body@.len() as int) =~= body@);
    }
    r
}

proof fn lemma_body_err_sticks(x: Inst, t: TemplateDecl, n: nat, m: nat)
    requires
        n <= m,
        body_spec(x, t, n) is Err,
    ensures
        body_spec(x, t, m) == body_spec(x, t, n),
    decreases m,
{
    if m > n {
        lemma_body_err_sticks(x, t, n, (m - 1) as nat);
    }
}

fn push_out(out: &mut Vec<Item>, it: Item)
    ensures
        items_v(final(out)@) == items_v(old(out)@).push(item_v(it)),
{
    proof {
        lemma_items_v_push(out@, it);
    }
    out.push(it);
}

impl Module {
    /// The statements one instantiation of `t` expands to.
    fn instantiate(&self, t: &TemplateDecl, call: &BlockDecl) -> (r: crate::error::Result<Vec<Item>>)
        ensures
            match instantiate_spec(self.items@, *t, *call) {
                Ok(out) => r matches Ok(v) && items_v(v@) == out,
                Err(m) => r matches Err(e) && compile_err(e, m),
            },
    {
        let (objs, vals) = match bind_exec(&self.items, t, call) {
            Ok(p) => p,
            Err(e) => return Err(e),
        };
        if let Some(name) = missing_object_exec(&t.params, &objs) {
            let mut m = string_of("object parameter `");
            push_str(&mut m, name);
            push_str(&mut m, "` must be given");
            proof {
                assert(m@ =~= "object parameter `"@ + name@ + "` must be given"@);
            }
            return Err(fail_in(call, m));
        }
        let x = InstX { call, body: body_slugs_exec(&t.body), objs, vals };
        let ghost X = inst_v(x);
        proof {
            assert(instantiate_spec(self.items@, *t, *call) == body_spec(X, *t, t.body@.len()));
        }
        let mut out: Vec<Item> = Vec::new();
        let mut i: usize = 0;
        proof {
            assert(items_v(out@) =~= Seq::<SItem>::empty());
        }
        while i < t.body.len()
            invariant
                0 <= i <= t.body@.len(),
                X == inst_v(x),
                *x.call == *call,
                X.call == *call,
                instantiate_spec(self.items@, *t, *call) == body_spec(X, *t, t.body@.len()),
                body_spec(X, *t, i as nat) == Ok::<Seq<SItem>, Seq<char>>(items_v(out@)),
            decreases t.body@.len() - i,
        {
            match &t.body[i] {
                Item::Block(b) => {
                    let args = match map_args_exec(&x, &b.args) {
                        Ok(a) => a,
                        Err(e) => {
                            proof {
                                lemma_body_err_sticks(X, *t, (i + 1) as nat, t.body@.len());
                            }
                            return Err(e);
                        },
                    };
                    let mut slug = string_of(call.slug.as_str());
                    push_str(&mut slug, "_");
                    push_str(&mut slug, b.slug.as_str());
                    push_out(
                        &mut out,
                        Item::Block(
                            BlockDecl {
                                slug,
                                block_type: b.block_type.clone(),
                                title: copy_opt(&b.title),
                                args,
                                comment: copy_opt(&b.comment),
                                close_comment: copy_opt(&b.close_comment),
                            },
                        ),
                    );
                },
                Item::Wire(w) => {
                    push_out(
                        &mut out,
                        Item::Wire(
                            WireDecl {
                                to: map_ref_exec(&x, &w.to),
                                from: map_ref_exec(&x, &w.from),
                                comment: copy_opt(&w.comment),
                            },
                        ),
                    );
                },
                Item::ExprWire(w) => {
                    let e = match map_expr_exec(&x, &w.expr) {
                        Ok(e) => e,
                        Err(y) => {
                            proof {
                                lemma_body_err_sticks(X, *t, (i + 1) as nat, t.body@.len());
                            }
                            return Err(y);
                        },
                    };
                    push_out(
                        &mut out,
                        Item::ExprWire(ExprWireDecl { to: map_ref_exec(&x, &w.to), expr: e, comment: copy_opt(&w.comment) }),
                    );
                },
                Item::Assign(a) => {
                    let v = match map_value_exec(&x, &a.value) {
                        Ok(v) => v,
                        Err(y) => {
                            proof {
                                lemma_body_err_sticks(X, *t, (i + 1) as nat, t.body@.len());
                            }
                            return Err(y);
                        },
                    };
                    push_out(
                        &mut out,
                        Item::Assign(SetDecl { target: map_ref_exec(&x, &a.target), value: v, comment: copy_opt(&a.comment) }),
                    );
                },
                Item::Comment(_) => {},
                other => {
                    let mut m = string_of("template `");
                    push_str(&mut m, t.name.as_str());
                    push_str(&mut m, "` carries an unexpected ");
                    push_str(&mut m, item_kind_exec(other));
                    push_str(&mut m, " in its body");
                    proof {
                        assert(m@ =~= "template `"@ + t.name@ + "` carries an unexpected "@ + item_kind(item_v(*other))
                            + " in its body"@);
                        assert(body_spec(X, *t, (i + 1) as nat) == Err::<Seq<SItem>, Seq<char>>(in_call(*call, m@)));
                        lemma_body_err_sticks(X, *t, (i + 1) as nat, t.body@.len());
                    }
                    return Err(fail_in(call, m));
                },
            }
            i = i + 1;
        }
        Ok(out)
    }
}

fn find_template_exec<'a>(items: &'a Vec<Item>, name: &str) -> (r: Option<&'a TemplateDecl>)
    ensures
        match find_template(items@, name@) {
            Some(t) => r matches Some(q) && *q == t,
            None => r is None,
        },
{
    let mut i: usize = 0;
    proof {
        assert(items@.skip(0) =~= items@);
    }
    while i < items.len()
        invariant
            0 <= i <= items@.len(),
            find_template(items@, name@) == find_template(items@.skip(i as int), name@),
        decreases items@.len() - i,
    {
        proof {
            assert(items@.skip(i as int).drop_first() =~= items@.skip(i + 1));
            assert(items@.skip(i as int)[0] == items@[i as int]);
        }
        if let Item::Template(t) = &items[i] {
            if str_eq(t.name.as_str(), name) {
                return Some(t);
            }
        }
        i = i + 1;
    }
    None
}

proof fn lemma_expand_err_sticks(items: Seq<Item>, n: nat, m: nat)
    requires
        n <= m,
        expand_items(items, n) is Err,
    ensures
        expand_items(items, m) == expand_items(items, n),
    decreases m,
{
    if m > n {
        lemma_expand_err_sticks(items, n, (m - 1) as nat);
    }
}

impl Module {
    /// The module with every template instantiated: `template` items drop,
    /// each instance becomes its expansion, all other statements pass
    /// through. Name resolution of the result is left to
    /// [`Module::validate`].
    pub fn expand(&self) -> (r: crate::error::Result<Module>)
        ensures
            match expand_spec(self.items@) {
                Ok(out) => r matches Ok(m) && items_v(m.items@) == out,
                Err(msg) => r matches Err(e) && compile_err(e, msg),
            },
    {
        let ghost items = self.items@;
        // Template names must be unique.
        let mut names: Vec<&str> = Vec::new();
        let mut i: usize = 0;
        proof {
            assert(items.take(0) =~= Seq::<Item>::empty());
        }
        while i < self.items.len()
            invariant
                0 <= i <= items.len(),
                items == self.items@,
                strs_of(names@) == template_names(items.take(i as int)),
                first_repeat(template_names(items.take(i as int))) is None,
            decreases items.len() - i,
        {
            proof {
                assert(items.take(i + 1).drop_last() =~= items.take(i as int));
            }
            if let Item::Template(t) = &self.items[i] {
                let n = t.name.as_str();
                if contains_str(&names, n) {
                    let mut m = string_of("duplicate template `");
                    push_str(&mut m, n);
                    push_str(&mut m, "`");
                    proof {
                        let tn = template_names(items.take(i + 1));
                        assert(tn == strs_of(names@).push(n@));
                        assert(tn.drop_last() =~= strs_of(names@));
                        assert(first_repeat(tn) == Some(n@));
                        lemma_repeat_sticks(items, i + 1);
                        assert(m@ =~= "duplicate template `"@ + n@ + "`"@);
                    }
                    return Err(Error::Compile(m));
                }
                proof {
                    assert(strs_of(names@.push(n)) =~= strs_of(names@).push(n@));
                    let tn = template_names(items.take(i + 1));
                    assert(tn == strs_of(names@).push(n@));
                    assert(tn.drop_last() =~= strs_of(names@));
                }
                names.push(n);
            }
            i = i + 1;
        }
        proof {
            assert(items.take(items.len() as int) =~= items);
        }
        let mut out: Vec<Item> = Vec::new();
        let mut i: usize = 0;
        proof {
            assert(items_v(out@) =~= Seq::<SItem>::empty());
        }
        while i < self.items.len()
            invariant
                0 <= i <= items.len(),
                items == self.items@,
                first_repeat(template_names(items)) is None,
                expand_items(items, i as nat) == Ok::<Seq<SItem>, Seq<char>>(items_v(out@)),
            decreases items.len() - i,
        {
            match &self.items[i] {
                Item::Template(_) => {},
                Item::Instance(call) => {
                    let t = match find_template_exec(&self.items, call.block_type.as_str()) {
                        Some(t) => t,
                        None => {
                            let mut m = string_of("`");
                            push_str(&mut m, call.slug.as_str());
                            push_str(&mut m, " = ");
                            push_str(&mut m, call.block_type.as_str());
                            push_str(&mut m, "(…)` instantiates unknown template `");
                            push_str(&mut m, call.block_type.as_str());
                            push_str(&mut m, "`");
                            proof {
                                assert(m@ =~= "`"@ + call.slug@ + " = "@ + call.block_type@
                                    + "(…)` instantiates unknown template `"@ + call.block_type@ + "`"@);
                                assert(expand_items(items, (i + 1) as nat) == Err::<Seq<SItem>, Seq<char>>(m@));
                                lemma_expand_err_sticks(items, (i + 1) as nat, items.len());
                            }
                            return Err(Error::Compile(m));
                        },
                    };
                    let more = match self.instantiate(t, call) {
                        Ok(v) => v,
                        Err(e) => {
                            proof {
                                lemma_expand_err_sticks(items, (i + 1) as nat, items.len());
                            }
                            return Err(e);
                        },
                    };
                    let ghost before = items_v(out@);
                    let mut j: usize = 0;
                    while j < more.len()
                        invariant
                            0 <= j <= more@.len(),
                            items_v(out@) == before + items_v(more@.take(j as int)),
                        decreases more@.len() - j,
                    {
                        proof {
                            assert(more@.take(j + 1) =~= more@.take(j as int).push(more@[j as int]));
                            lemma_items_v_push(more@.take(j as int), more@[j as int]);
                        }
                        push_out(&mut out, copy_item(&more[j]));
                        j = j + 1;
                    }
                    proof {
                        assert(more@.take(more@.len() as int) =~= more@);
                    }
                },
                other => push_out(&mut out, copy_item(other)),
            }
            i = i + 1;
        }
        proof {
            assert(items.take(items.len() as int) =~= items);
        }
        Ok(Module { items: out })
    }
}

proof fn lemma_repeat_sticks(items: Seq<Item>, n: int)
    requires
        0 <= n <= items.len(),
        first_repeat(template_names(items.take(n))) is Some,
    ensures
        first_repeat(template_names(items)) == first_repeat(template_names(items.take(n))),
    decreases items.len() - n,
{
    if n < items.len() {
        assert(items.take(n + 1).drop_last() =~= items.take(n));
        let a = template_names(items.take(n));
        let b = template_names(items.take(n + 1));
        if let Item::Template(t) = items[n] {
            assert(b == a.push(t.name@));
            assert(b.drop_last() =~= a);
        } else {
            assert(b == a);
        }
        lemma_repeat_sticks(items, n + 1);
    } else {
        assert(items.take(n) =~= items);
    }
}

pub open spec fn has_templates(items: Seq<Item>) -> bool {
    exists|i: int| 0 <= i < items.len() && (#[trigger] items[i] is Template || items[i] is Instance)
}

proof fn lemma_plain_expand(items: Seq<Item>, n: nat)
    requires
        n <= items.len(),
        !has_templates(items),
    ensures
        expand_items(items, n) == Ok::<Seq<SItem>, Seq<char>>(items_v(items.take(n as int))),
        template_names(items.take(n as int)).len() == 0,
    decreases n,
{
    if n > 0 {
        lemma_plain_expand(items, (n - 1) as nat);
        let t = items.take(n as int);
        assert(t.drop_last() =~= items.take(n - 1));
        assert(t =~= items.take(n - 1).push(items[n - 1]));
        lemma_items_v_push(items.take(n - 1), items[n - 1]);
        assert(!(items[n - 1] is Template || items[n - 1] is Instance));
    } else {
        assert(items.take(0) =~= Seq::<Item>::empty());
    }
}

/// A module without templates or instances expands to itself.
pub proof fn lemma_expand_without_templates(items: Seq<Item>)
    requires
        !has_templates(items),
    ensures
        expand_spec(items) == Ok::<Seq<SItem>, Seq<char>>(items_v(items)),
{
    lemma_plain_expand(items, items.len());
    assert(items.take(items.len() as int) =~= items);
}

proof fn lemma_find_param_name(ps: Seq<TemplateParam>, name: Seq<char>)
    ensures
        find_param(ps, name) matches Some(p) ==> param_name(p) == name,
    decreases ps.len(),
{
    if ps.len() > 0 && param_name(ps[0]) != name {
        lemma_find_param_name(ps.drop_first(), name);
    }
}

/// With distinct parameter names, a value parameter's default is what the
/// defaults table holds under its name.
proof fn lemma_default_listed(ps: Seq<TemplateParam>, k: int, name: Seq<char>, d: Value)
    requires
        0 <= k < ps.len(),
        ps[k] matches TemplateParam::Value { default, .. } && default == d,
        param_name(ps[k]) == name,
        forall|i: int, j: int| 0 <= i < j < ps.len() ==> param_name(#[trigger] ps[i]) != param_name(#[trigger] ps[j]),
    ensures
        lookup(defaults_of(ps), name) == Some(d),
    decreases ps.len(),
{
    let q = ps.drop_last();
    let l = ps.last();
    assert(l == ps[ps.len() - 1]);
    if k == ps.len() - 1 {
        match l {
            TemplateParam::Value { name: nm, default } => {
                let m = defaults_of(q).push((nm@, default));
                assert(defaults_of(ps) == m);
                assert(nm@ == name);
                assert(default == d);
                assert(m.last() == (nm@, default));
                assert(lookup(m, name) == Some(d));
            },
            TemplateParam::Object { .. } => {},
        }
    } else {
        assert(q[k] == ps[k]);
        assert forall|i: int, j: int| 0 <= i < j < q.len() implies param_name(#[trigger] q[i]) != param_name(#[trigger] q[j]) by {
            assert(q[i] == ps[i] && q[j] == ps[j]);
        }
        lemma_default_listed(q, k, name, d);
        assert(param_name(ps.last()) != name);
        match l {
            TemplateParam::Value { name: nm, default } => {
                let m = defaults_of(q).push((nm@, default));
                assert(defaults_of(ps) == m);
                assert(nm@ != name);
                assert(m.drop_last() =~= defaults_of(q));
                assert(lookup(m, name) == lookup(defaults_of(q), name));
            },
            TemplateParam::Object { .. } => {
                assert(defaults_of(ps) == defaults_of(q));
            },
        }
    }
}

/// A value parameter an instance leaves unbound takes its default: after
/// binding the first `n` arguments (none of them naming the parameter),
/// the parameter's value is its default, and a reference to it in the body
/// becomes that value rather than staying a reference to the parameter.
pub proof fn unbound_value_parameter_takes_its_default(
    items: Seq<Item>,
    t: TemplateDecl,
    call: BlockDecl,
    bs: Seq<Binding>,
    n: nat,
    k: int,
    d: Value,
)
    requires
        n <= bs.len(),
        0 <= k < t.params@.len(),
        t.params@[k] matches TemplateParam::Value { default, .. } && default == d,
        forall|i: int, j: int|
            0 <= i < j < t.params@.len() ==> param_name(#[trigger] t.params@[i]) != param_name(#[trigger] t.params@[j]),
        forall|i: int| 0 <= i < n ==> (#[trigger] bs[i]).port@ != param_name(t.params@[k]),
    ensures
        bind_spec(items, t, call, bs, n) matches Ok((objs, vals)) ==> lookup(vals, param_name(t.params@[k])) == Some(d)
            && map_value(Inst { call, body: seq![], objs, vals }, Value::Ref(t.params@[k]->Value_name)) == Ok::<
            SValue,
            Seq<char>,
        >(value_v(d)),
    decreases n,
{
    let name = param_name(t.params@[k]);
    assert(t.params@[k]->Value_name@ == name);
    if n == 0 {
        lemma_default_listed(t.params@, k, name, d);
    } else {
        unbound_value_parameter_takes_its_default(items, t, call, bs, (n - 1) as nat, k, d);
        let x = bs[n - 1];
        lemma_find_param_name(t.params@, x.port@);
        assert(x.port@ != name);
        if let Ok((objs, vals)) = bind_spec(items, t, call, bs, n) {
            let (o0, v0) = bind_spec(items, t, call, bs, (n - 1) as nat)->Ok_0;
            assert(lookup(v0, name) == Some(d));
            match find_param(t.params@, x.port@) {
                Some(TemplateParam::Value { name: nm, .. }) => {
                    assert(nm@ == x.port@);
                    if let BindingKind::Param(v) = x.kind {
                        assert(vals == v0.push((nm@, v)));
                        assert(vals.drop_last() =~= v0);
                    }
                },
                _ => {
                    assert(vals == v0);
                },
            }
            assert(lookup(vals, name) == Some(d));
        }
    }
}

} // verus!
