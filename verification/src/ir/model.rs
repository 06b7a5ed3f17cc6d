//! The IR syntax tree as mathematical values: strings as character
//! sequences, lists as sequences.
use crate::doc::opt_view;
use crate::ir::ast::{
    ArgItem, ArithOp, Binding, BindingKind, BlockDecl, CmpOp, Expr, ExternDecl, Item, MatchSpec,
    Operand, TemplateDecl, TemplateParam, Unit, Value,
};
use vstd::prelude::*;

verus! {

pub enum SValue {
    Number(Seq<char>),
    Str(Seq<char>),
    Ref(Seq<char>),
    Unit(Seq<char>, Unit),
}

pub enum SOperand {
    Port((Seq<char>, Seq<char>)),
    Value(SValue),
}

pub enum SExpr {
    Or(Box<SExpr>, Box<SExpr>),
    And(Box<SExpr>, Box<SExpr>),
    Not(Box<SExpr>),
    Cmp(CmpOp, SOperand, SOperand),
    Arith(ArithOp, Box<SExpr>, Box<SExpr>),
    Atom(SOperand),
}

pub enum SKind {
    Param(SValue),
    Wire((Seq<char>, Seq<char>)),
    Expr(SExpr),
}

pub struct SBinding {
    pub port: Seq<char>,
    pub kind: SKind,
    pub comment: Option<Seq<char>>,
}

pub enum SArg {
    Binding(SBinding),
    Comment(Seq<char>),
}

pub struct SBlock {
    pub slug: Seq<char>,
    pub block_type: Seq<char>,
    pub title: Option<Seq<char>>,
    pub args: Seq<SArg>,
    pub comment: Option<Seq<char>>,
    pub close_comment: Option<Seq<char>>,
}

pub enum SMatch {
    Uuid(Seq<char>),
    IName(Seq<char>),
    Title(Seq<char>),
    Mirrors(Seq<char>),
}

pub struct SExtern {
    pub slug: Seq<char>,
    pub block_type: Seq<char>,
    pub match_spec: SMatch,
    pub room: Option<Seq<char>>,
    pub category: Option<Seq<char>>,
    pub comment: Option<Seq<char>>,
}

pub enum SParam {
    Object(Seq<char>, Seq<char>),
    Value(Seq<char>, SValue),
}

pub struct STemplate {
    pub name: Seq<char>,
    pub params: Seq<SParam>,
    pub body: Seq<SItem>,
    pub comment: Option<Seq<char>>,
    pub end_comment: Option<Seq<char>>,
}

/// A statement; each carries its trailing comment last.
pub enum SItem {
    Extern(SExtern),
    Block(SBlock),
    Wire((Seq<char>, Seq<char>), (Seq<char>, Seq<char>), Option<Seq<char>>),
    Assign((Seq<char>, Seq<char>), SValue, Option<Seq<char>>),
    Let(Seq<char>, SValue, Option<Seq<char>>),
    Removed(Seq<char>, Option<Seq<char>>),
    Moved(Seq<char>, Seq<char>, Option<Seq<char>>),
    Template(STemplate),
    Instance(SBlock),
    ExprWire((Seq<char>, Seq<char>), SExpr, Option<Seq<char>>),
    Page(Seq<char>, Option<Seq<char>>),
    Comment(Seq<char>),
}

pub open spec fn value_v(v: Value) -> SValue {
    match v {
        Value::Number(s) => SValue::Number(s@),
        Value::Str(s) => SValue::Str(s@),
        Value::Ref(s) => SValue::Ref(s@),
        Value::Unit { number, unit } => SValue::Unit(number@, unit),
    }
}

pub open spec fn operand_v(o: Operand) -> SOperand {
    match o {
        Operand::Port(p) => SOperand::Port((p.slug@, p.port@)),
        Operand::Value(v) => SOperand::Value(value_v(v)),
    }
}

pub open spec fn expr_v(e: Expr) -> SExpr
    decreases e,
{
    match e {
        Expr::Or(a, b) => SExpr::Or(Box::new(expr_v(*a)), Box::new(expr_v(*b))),
        Expr::And(a, b) => SExpr::And(Box::new(expr_v(*a)), Box::new(expr_v(*b))),
        Expr::Not(x) => SExpr::Not(Box::new(expr_v(*x))),
        Expr::Cmp { op, lhs, rhs } => SExpr::Cmp(op, operand_v(lhs), operand_v(rhs)),
        Expr::Arith { op, lhs, rhs } => SExpr::Arith(op, Box::new(expr_v(*lhs)), Box::new(expr_v(*rhs))),
        Expr::Atom(o) => SExpr::Atom(operand_v(o)),
    }
}

pub open spec fn kind_v(k: BindingKind) -> SKind {
    match k {
        BindingKind::Param(v) => SKind::Param(value_v(v)),
        BindingKind::Wire(p) => SKind::Wire((p.slug@, p.port@)),
        BindingKind::Expr(e) => SKind::Expr(expr_v(e)),
    }
}

pub open spec fn binding_v(b: Binding) -> SBinding {
    SBinding { port: b.port@, kind: kind_v(b.kind), comment: opt_view(b.comment) }
}

pub open spec fn arg_v(a: ArgItem) -> SArg {
    match a {
        ArgItem::Binding(b) => SArg::Binding(binding_v(b)),
        ArgItem::Comment(t) => SArg::Comment(t@),
    }
}

pub open spec fn args_v(a: Seq<ArgItem>) -> Seq<SArg> {
    a.map_values(|x: ArgItem| arg_v(x))
}

pub open spec fn block_v(b: BlockDecl) -> SBlock {
    SBlock {
        slug: b.slug@,
        block_type: b.block_type@,
        title: opt_view(b.title),
        args: args_v(b.args@),
        comment: opt_view(b.comment),
        close_comment: opt_view(b.close_comment),
    }
}

pub open spec fn match_v(m: MatchSpec) -> SMatch {
    match m {
        MatchSpec::Uuid(s) => SMatch::Uuid(s@),
        MatchSpec::IName(s) => SMatch::IName(s@),
        MatchSpec::Title(s) => SMatch::Title(s@),
        MatchSpec::Mirrors(s) => SMatch::Mirrors(s@),
    }
}

pub open spec fn extern_v(e: ExternDecl) -> SExtern {
    SExtern {
        slug: e.slug@,
        block_type: e.block_type@,
        match_spec: match_v(e.match_spec),
        room: opt_view(e.room),
        category: opt_view(e.category),
        comment: opt_view(e.comment),
    }
}

pub open spec fn param_v(p: TemplateParam) -> SParam {
    match p {
        TemplateParam::Object { name, block_type } => SParam::Object(name@, block_type@),
        TemplateParam::Value { name, default } => SParam::Value(name@, value_v(default)),
    }
}

pub open spec fn params_v(ps: Seq<TemplateParam>) -> Seq<SParam> {
    ps.map_values(|p: TemplateParam| param_v(p))
}

pub open spec fn item_v(i: Item) -> SItem
    decreases i,
{
    match i {
        Item::Extern(e) => SItem::Extern(extern_v(e)),
        Item::Block(b) => SItem::Block(block_v(b)),
        Item::Wire(w) => SItem::Wire(
            (w.to.slug@, w.to.port@),
            (w.from.slug@, w.from.port@),
            opt_view(w.comment),
        ),
        Item::Assign(a) => SItem::Assign(
            (a.target.slug@, a.target.port@),
            value_v(a.value),
            opt_view(a.comment),
        ),
        Item::Let(l) => SItem::Let(l.name@, value_v(l.value), opt_view(l.comment)),
        Item::Removed(r) => SItem::Removed(r.slug@, opt_view(r.comment)),
        Item::Moved(m) => SItem::Moved(m.from@, m.to@, opt_view(m.comment)),
        Item::Template(t) => SItem::Template(
            STemplate {
                name: t.name@,
                params: params_v(t.params@),
                body: items_v(t.body@),
                comment: opt_view(t.comment),
                end_comment: opt_view(t.end_comment),
            },
        ),
        Item::Instance(b) => SItem::Instance(block_v(b)),
        Item::ExprWire(w) => SItem::ExprWire((w.to.slug@, w.to.port@), expr_v(w.expr), opt_view(w.comment)),
        Item::Page(p) => SItem::Page(p.title@, opt_view(p.comment)),
        Item::Comment(t) => SItem::Comment(t@),
    }
}

pub open spec fn items_v(s: Seq<Item>) -> Seq<SItem>
    decreases s,
{
    if s.len() == 0 {
        seq![]
    } else {
        items_v(s.subrange(0, s.len() - 1)).push(item_v(s[s.len() - 1]))
    }
}

pub open spec fn template_v(t: TemplateDecl) -> STemplate {
    STemplate {
        name: t.name@,
        params: params_v(t.params@),
        body: items_v(t.body@),
        comment: opt_view(t.comment),
        end_comment: opt_view(t.end_comment),
    }
}

} // verus!
