//! Deep copies of syntax-tree values, proved to keep every field.
use crate::ir::ast::{
    ArgItem, Binding, BindingKind, BlockDecl, Expr, ExternDecl, Item, LetDecl, MatchSpec,
    MovedDecl, Operand, PageDecl, PortRef, RemovedDecl, SetDecl, TemplateDecl, TemplateParam,
    Value, WireDecl, ExprWireDecl,
};
use crate::ir::model::{args_v, block_v, item_v, items_v, template_v};
use vstd::prelude::*;

verus! {

pub proof fn lemma_items_v_push(s: Seq<Item>, x: Item)
    ensures
        items_v(s.push(x)) == items_v(s).push(item_v(x)),
{
    assert(s.push(x).subrange(0, s.len() as int) =~= s);
}

pub proof fn lemma_items_v_len(s: Seq<Item>)
    ensures
        items_v(s).len() == s.len(),
    decreases s.len(),
{
    if s.len() > 0 {
        lemma_items_v_len(s.subrange(0, s.len() - 1));
    }
}


pub proof fn lemma_items_v_index(s: Seq<Item>)
    ensures
        items_v(s).len() == s.len(),
        forall|i: int| 0 <= i < s.len() ==> #[trigger] items_v(s)[i] == item_v(s[i]),
    decreases s.len(),
{
    if s.len() > 0 {
        let d = s.subrange(0, s.len() - 1);
        lemma_items_v_index(d);
        assert forall|i: int| 0 <= i < s.len() implies #[trigger] items_v(s)[i] == item_v(s[i]) by {
            if i < s.len() - 1 {
                assert(items_v(s)[i] == items_v(d)[i]);
                assert(d[i] == s[i]);
            }
        }
    }
}

pub(crate) fn copy_opt(o: &Option<String>) -> (r: Option<String>)
    ensures
        r == *o,
{
    match o {
        Some(s) => Some(s.clone()),
        None => None,
    }
}

pub(crate) fn copy_value(v: &Value) -> (r: Value)
    ensures
        r == *v,
{
    match v {
        Value::Number(n) => Value::Number(n.clone()),
        Value::Str(s) => Value::Str(s.clone()),
        Value::Ref(s) => Value::Ref(s.clone()),
        Value::Unit { number, unit } => Value::Unit { number: number.clone(), unit: *unit },
    }
}

pub(crate) fn copy_ref(p: &PortRef) -> (r: PortRef)
    ensures
        r == *p,
{
    PortRef { slug: p.slug.clone(), port: p.port.clone() }
}

pub(crate) fn copy_operand(o: &Operand) -> (r: Operand)
    ensures
        r == *o,
{
    match o {
        Operand::Port(p) => Operand::Port(copy_ref(p)),
        Operand::Value(v) => Operand::Value(copy_value(v)),
    }
}

pub(crate) fn copy_expr(e: &Expr) -> (r: Expr)
    ensures
        r == *e,
    decreases e,
{
    match e {
        Expr::Or(a, b) => Expr::Or(Box::new(copy_expr(a)), Box::new(copy_expr(b))),
        Expr::And(a, b) => Expr::And(Box::new(copy_expr(a)), Box::new(copy_expr(b))),
        Expr::Not(x) => Expr::Not(Box::new(copy_expr(x))),
        Expr::Cmp { op, lhs, rhs } => Expr::Cmp {
            op: *op,
            lhs: copy_operand(lhs),
            rhs: copy_operand(rhs),
        },
        Expr::Arith { op, lhs, rhs } => Expr::Arith {
            op: *op,
            lhs: Box::new(copy_expr(lhs)),
            rhs: Box::new(copy_expr(rhs)),
        },
        Expr::Atom(o) => Expr::Atom(copy_operand(o)),
    }
}

pub(crate) fn copy_kind(k: &BindingKind) -> (r: BindingKind)
    ensures
        r == *k,
{
    match k {
        BindingKind::Param(v) => BindingKind::Param(copy_value(v)),
        BindingKind::Wire(p) => BindingKind::Wire(copy_ref(p)),
        BindingKind::Expr(e) => BindingKind::Expr(copy_expr(e)),
    }
}

pub(crate) fn copy_arg(a: &ArgItem) -> (r: ArgItem)
    ensures
        r == *a,
{
    match a {
        ArgItem::Binding(b) => ArgItem::Binding(
            Binding { port: b.port.clone(), kind: copy_kind(&b.kind), comment: copy_opt(&b.comment) },
        ),
        ArgItem::Comment(t) => ArgItem::Comment(t.clone()),
    }
}

pub(crate) fn copy_args(v: &Vec<ArgItem>) -> (r: Vec<ArgItem>)
    ensures
        r@ == v@,
{
    let mut r: Vec<ArgItem> = Vec::new();
    let mut i: usize = 0;
    while i < v.len()
        invariant
            0 <= i <= v@.len(),
            r@ == v@.take(i as int),
        decreases v@.len() - i,
    {
        r.push(copy_arg(&v[i]));
        proof {
            assert(v@.take(i + 1) =~= v@.take(i as int).push(v@[i as int]));
        }
        i = i + 1;
    }
    proof {
        assert(v@.take(v@.len() as int) =~= v@);
    }
    r
}

pub(crate) fn copy_block(b: &BlockDecl) -> (r: BlockDecl)
    ensures
        block_v(r) == block_v(*b),
        r.slug == b.slug,
        r.block_type == b.block_type,
        r.title == b.title,
        r.args@ == b.args@,
        r.comment == b.comment,
        r.close_comment == b.close_comment,
{
    BlockDecl {
        slug: b.slug.clone(),
        block_type: b.block_type.clone(),
        title: copy_opt(&b.title),
        args: copy_args(&b.args),
        comment: copy_opt(&b.comment),
        close_comment: copy_opt(&b.close_comment),
    }
}

fn copy_match(m: &MatchSpec) -> (r: MatchSpec)
    ensures
        r == *m,
{
    match m {
        MatchSpec::Uuid(s) => MatchSpec::Uuid(s.clone()),
        MatchSpec::IName(s) => MatchSpec::IName(s.clone()),
        MatchSpec::Title(s) => MatchSpec::Title(s.clone()),
        MatchSpec::Mirrors(s) => MatchSpec::Mirrors(s.clone()),
    }
}

fn copy_param(p: &TemplateParam) -> (r: TemplateParam)
    ensures
        r == *p,
{
    match p {
        TemplateParam::Object { name, block_type } => TemplateParam::Object {
            name: name.clone(),
            block_type: block_type.clone(),
        },
        TemplateParam::Value { name, default } => TemplateParam::Value {
            name: name.clone(),
            default: copy_value(default),
        },
    }
}

fn copy_params(v: &Vec<TemplateParam>) -> (r: Vec<TemplateParam>)
    ensures
        r@ == v@,
{
    let mut r: Vec<TemplateParam> = Vec::new();
    let mut i: usize = 0;
    while i < v.len()
        invariant
            0 <= i <= v@.len(),
            r@ == v@.take(i as int),
        decreases v@.len() - i,
    {
        r.push(copy_param(&v[i]));
        proof {
            assert(v@.take(i + 1) =~= v@.take(i as int).push(v@[i as int]));
        }
        i = i + 1;
    }
    proof {
        assert(v@.take(v@.len() as int) =~= v@);
    }
    r
}

pub(crate) fn copy_item(i: &Item) -> (r: Item)
    ensures
        item_v(r) == item_v(*i),
    decreases i, 0nat,
{
    match i {
        Item::Extern(e) => Item::Extern(
            ExternDecl {
                slug: e.slug.clone(),
                block_type: e.block_type.clone(),
                match_spec: copy_match(&e.match_spec),
                room: copy_opt(&e.room),
                category: copy_opt(&e.category),
                comment: copy_opt(&e.comment),
            },
        ),
        Item::Block(b) => Item::Block(copy_block(b)),
        Item::Wire(w) => Item::Wire(
            WireDecl { to: copy_ref(&w.to), from: copy_ref(&w.from), comment: copy_opt(&w.comment) },
        ),
        Item::Assign(a) => Item::Assign(
            SetDecl {
                target: copy_ref(&a.target),
                value: copy_value(&a.value),
                comment: copy_opt(&a.comment),
            },
        ),
        Item::Let(l) => Item::Let(
            LetDecl { name: l.name.clone(), value: copy_value(&l.value), comment: copy_opt(&l.comment) },
        ),
        Item::Removed(x) => Item::Removed(
            RemovedDecl { slug: x.slug.clone(), comment: copy_opt(&x.comment) },
        ),
        Item::Moved(m) => Item::Moved(
            MovedDecl { from: m.from.clone(), to: m.to.clone(), comment: copy_opt(&m.comment) },
        ),
        Item::Template(t) => {
            let body = copy_items(&t.body);
            Item::Template(
                TemplateDecl {
                    name: t.name.clone(),
                    params: copy_params(&t.params),
                    body,
                    comment: copy_opt(&t.comment),
                    end_comment: copy_opt(&t.end_comment),
                },
            )
        },
        Item::Instance(b) => Item::Instance(copy_block(b)),
        Item::ExprWire(w) => Item::ExprWire(
            ExprWireDecl { to: copy_ref(&w.to), expr: copy_expr(&w.expr), comment: copy_opt(&w.comment) },
        ),
        Item::Page(p) => Item::Page(PageDecl { title: p.title.clone(), comment: copy_opt(&p.comment) }),
        Item::Comment(t) => Item::Comment(t.clone()),
    }
}

pub(crate) fn copy_items(v: &Vec<Item>) -> (r: Vec<Item>)
    ensures
        items_v(r@) == items_v(v@),
    decreases v, 1nat,
{
    let mut r: Vec<Item> = Vec::new();
    let mut i: usize = 0;
    while i < v.len()
        invariant
            0 <= i <= v@.len(),
            items_v(r@) == items_v(v@.take(i as int)),
        decreases v@.len() - i,
    {
        proof {
            vstd::std_specs::vec::axiom_vec_index_decreases(*v, i as int);
        }
        let c = copy_item(&v[i]);
        proof {
            lemma_items_v_push(r@, c);
            lemma_items_v_push(v@.take(i as int), v@[i as int]);
            assert(v@.take(i + 1) =~= v@.take(i as int).push(v@[i as int]));
        }
        r.push(c);
        i = i + 1;
    }
    proof {
        assert(v@.take(v@.len() as int) =~= v@);
    }
    r
}

pub(crate) fn copy_template(t: &TemplateDecl) -> (r: TemplateDecl)
    ensures
        template_v(r) == template_v(*t),
        r.name == t.name,
        r.params@ == t.params@,
        items_v(r.body@) == items_v(t.body@),
{
    TemplateDecl {
        name: t.name.clone(),
        params: copy_params(&t.params),
        body: copy_items(&t.body),
        comment: copy_opt(&t.comment),
        end_comment: copy_opt(&t.end_comment),
    }
}

} // verus!
