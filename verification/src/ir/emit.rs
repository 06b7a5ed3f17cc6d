//! Canonical text emission of the IR.
use crate::ir::ast::{
    arith_symbol, cmp_symbol, extern_spec_text, push_match_spec, push_quoted, push_value, quoted,
    value_text, ArgItem, ArithOp, BindingKind, BlockDecl, Expr, Item, Module, Operand, PortRef,
    TemplateDecl, TemplateParam,
};
use crate::text::{find_from, lemma_find_from, lemma_find_suffix, push_char, push_str};
use vstd::prelude::*;

verus! {

/// A trailing `#` comment as written after a statement.
pub open spec fn tail(c: Option<String>) -> Seq<char> {
    match c {
        Some(t) => " #"@ + t@,
        None => seq![],
    }
}

pub(crate) fn push_tail(out: &mut String, c: &Option<String>)
    ensures
        final(out)@ == old(out)@ + tail(*c),
{
    let ghost o = out@;
    if let Some(t) = c {
        push_str(out, " #");
        push_str(out, t.as_str());
    }
    assert(out@ =~= o + tail(*c));
}

/// `slug.Port`.
pub open spec fn port_text(p: PortRef) -> Seq<char> {
    p.slug@ + "."@ + p.port@
}

pub(crate) fn push_port(out: &mut String, p: &PortRef)
    ensures
        final(out)@ == old(out)@ + port_text(*p),
{
    let ghost o = out@;
    push_str(out, p.slug.as_str());
    push_str(out, ".");
    push_str(out, p.port.as_str());
    assert(out@ =~= o + port_text(*p));
}

pub open spec fn operand_text(o: Operand) -> Seq<char> {
    match o {
        Operand::Port(p) => port_text(p),
        Operand::Value(v) => value_text(v),
    }
}

pub(crate) fn push_operand(out: &mut String, o: &Operand)
    ensures
        final(out)@ == old(out)@ + operand_text(*o),
{
    match o {
        Operand::Port(p) => push_port(out, p),
        Operand::Value(v) => push_value(out, v),
    }
}

/// Binding strength, loosest (`or`) to tightest (a bare operand).
pub open spec fn prec(e: Expr) -> nat {
    match e {
        Expr::Or(..) => 1,
        Expr::And(..) => 2,
        Expr::Not(..) => 3,
        Expr::Cmp { .. } => 4,
        Expr::Arith { op, .. } => if op == ArithOp::Add || op == ArithOp::Sub {
            5
        } else {
            6
        },
        Expr::Atom(_) => 7,
    }
}

pub(crate) fn prec_exec(e: &Expr) -> (r: u8)
    ensures
        r as nat == prec(*e),
{
    match e {
        Expr::Or(..) => 1,
        Expr::And(..) => 2,
        Expr::Not(..) => 3,
        Expr::Cmp { .. } => 4,
        Expr::Arith { op, .. } => match op {
            ArithOp::Add | ArithOp::Sub => 5,
            _ => 6,
        },
        Expr::Atom(_) => 7,
    }
}

/// An expression with the fewest parentheses that re-parse to the same
/// tree: binary operators are left-associative, so an equal-strength
/// right operand keeps its parentheses; a `not` keeps them around anything
/// but an operand or another `not`.
pub open spec fn expr_text(e: Expr) -> Seq<char>
    decreases e,
{
    match e {
        Expr::Or(a, b) => (if prec(*a) < 1 {
            "("@ + expr_text(*a) + ")"@
        } else {
            expr_text(*a)
        }) + " or "@ + (if prec(*b) <= 1 {
            "("@ + expr_text(*b) + ")"@
        } else {
            expr_text(*b)
        }),
        Expr::And(a, b) => (if prec(*a) < 2 {
            "("@ + expr_text(*a) + ")"@
        } else {
            expr_text(*a)
        }) + " and "@ + (if prec(*b) <= 2 {
            "("@ + expr_text(*b) + ")"@
        } else {
            expr_text(*b)
        }),
        Expr::Not(x) => "not "@ + (if !(*x is Atom || *x is Not) {
            "("@ + expr_text(*x) + ")"@
        } else {
            expr_text(*x)
        }),
        Expr::Cmp { op, lhs, rhs } => operand_text(lhs) + " "@ + cmp_symbol(op) + " "@
            + operand_text(rhs),
        Expr::Arith { op, lhs, rhs } => {
            let p = prec(e);
            (if prec(*lhs) < p {
                "("@ + expr_text(*lhs) + ")"@
            } else {
                expr_text(*lhs)
            }) + " "@ + arith_symbol(op) + " "@ + (if prec(*rhs) <= p {
                "("@ + expr_text(*rhs) + ")"@
            } else {
                expr_text(*rhs)
            })
        },
        Expr::Atom(o) => operand_text(o),
    }
}

/// Appends `x`, in parentheses when `paren`.
fn push_child(out: &mut String, x: &Expr, paren: bool)
    ensures
        final(out)@ == old(out)@ + (if paren {
            "("@ + expr_text(*x) + ")"@
        } else {
            expr_text(*x)
        }),
    decreases x, 1nat,
{
    let ghost o = out@;
    if paren {
        push_str(out, "(");
        push_expr(out, x);
        push_str(out, ")");
    } else {
        push_expr(out, x);
    }
    assert(out@ =~= o + (if paren {
        "("@ + expr_text(*x) + ")"@
    } else {
        expr_text(*x)
    }));
}

pub fn push_expr(out: &mut String, e: &Expr)
    ensures
        final(out)@ == old(out)@ + expr_text(*e),
    decreases e, 0nat,
{
    let ghost o = out@;
    match e {
        Expr::Or(a, b) => {
            let pa = prec_exec(a);
            let pb = prec_exec(b);
            push_child(out, a, pa < 1);
            push_str(out, " or ");
            push_child(out, b, pb <= 1);
        },
        Expr::And(a, b) => {
            let pa = prec_exec(a);
            let pb = prec_exec(b);
            push_child(out, a, pa < 2);
            push_str(out, " and ");
            push_child(out, b, pb <= 2);
        },
        Expr::Not(x) => {
            push_str(out, "not ");
            let bare = match &**x {
                Expr::Atom(_) | Expr::Not(_) => true,
                _ => false,
            };
            push_child(out, x, !bare);
        },
        Expr::Cmp { op, lhs, rhs } => {
            push_operand(out, lhs);
            push_str(out, " ");
            push_str(out, op.symbol());
            push_str(out, " ");
            push_operand(out, rhs);
        },
        Expr::Arith { op, lhs, rhs } => {
            let p = prec_exec(e);
            let pl = prec_exec(lhs);
            let pr = prec_exec(rhs);
            push_child(out, lhs, pl < p);
            push_str(out, " ");
            push_str(out, op.symbol());
            push_str(out, " ");
            push_child(out, rhs, pr <= p);
        },
        Expr::Atom(x) => push_operand(out, x),
    }
    assert(out@ =~= o + expr_text(*e));
}

impl Expr {
    /// The expression as canonical source text.
    pub fn to_text(&self) -> (r: String)
        ensures
            r@ == expr_text(*self),
    {
        let mut s = String::new();
        push_expr(&mut s, self);
        assert(s@ =~= expr_text(*self));
        s
    }
}

/// The right-hand side of an argument binding.
pub open spec fn kind_text(k: BindingKind) -> Seq<char> {
    match k {
        BindingKind::Param(v) => value_text(v),
        BindingKind::Wire(r) => port_text(r),
        BindingKind::Expr(e) => expr_text(e),
    }
}

fn push_kind(out: &mut String, k: &BindingKind)
    ensures
        final(out)@ == old(out)@ + kind_text(*k),
{
    match k {
        BindingKind::Param(v) => push_value(out, v),
        BindingKind::Wire(r) => push_port(out, r),
        BindingKind::Expr(e) => push_expr(out, e),
    }
}

/// One line of a multi-line argument list.
pub open spec fn arg_text(a: ArgItem) -> Seq<char> {
    match a {
        ArgItem::Binding(x) => "\t"@ + x.port@ + ": "@ + kind_text(x.kind) + ","@ + tail(x.comment)
            + "\n"@,
        ArgItem::Comment(t) => "\t#"@ + t@ + "\n"@,
    }
}

pub open spec fn args_text(args: Seq<ArgItem>) -> Seq<char>
    decreases args.len(),
{
    if args.len() == 0 {
        seq![]
    } else {
        args_text(args.drop_last()) + arg_text(args.last())
    }
}

/// A block declaration or template instantiation: one line without
/// arguments, else one argument per line.
pub open spec fn call_text(b: BlockDecl) -> Seq<char> {
    b.slug@ + " = "@ + b.block_type@ + "("@ + (if b.args@.len() == 0 {
        (match b.title {
            Some(t) => quoted(t@),
            None => seq![],
        }) + ")"@ + tail(b.comment)
    } else {
        tail(b.comment) + "\n"@ + (match b.title {
            Some(t) => "\t"@ + quoted(t@) + ",\n"@,
            None => seq![],
        }) + args_text(b.args@) + ")"@ + tail(b.close_comment)
    }) + "\n"@
}

fn push_call(out: &mut String, b: &BlockDecl)
    ensures
        final(out)@ == old(out)@ + call_text(*b),
{
    let ghost o = out@;
    push_str(out, b.slug.as_str());
    push_str(out, " = ");
    push_str(out, b.block_type.as_str());
    push_str(out, "(");
    let ghost head = out@;
    if b.args.len() == 0 {
        if let Some(t) = &b.title {
            push_quoted(out, t.as_str());
        }
        push_str(out, ")");
        push_tail(out, &b.comment);
    } else {
        push_tail(out, &b.comment);
        push_str(out, "\n");
        if let Some(t) = &b.title {
            push_str(out, "\t");
            push_quoted(out, t.as_str());
            push_str(out, ",\n");
        }
        let ghost before_args = out@;
        let mut i: usize = 0;
        while i < b.args.len()
            invariant
                0 <= i <= b.args@.len(),
                out@ == before_args + args_text(b.args@.take(i as int)),
            decreases b.args@.len() - i,
        {
            proof {
                assert(b.args@.take(i + 1).drop_last() =~= b.args@.take(i as int));
            }
            let ghost mid = out@;
            match &b.args[i] {
                ArgItem::Binding(x) => {
                    push_str(out, "\t");
                    push_str(out, x.port.as_str());
                    push_str(out, ": ");
                    push_kind(out, &x.kind);
                    push_str(out, ",");
                    push_tail(out, &x.comment);
                    push_str(out, "\n");
                },
                ArgItem::Comment(t) => {
                    push_str(out, "\t#");
                    push_str(out, t.as_str());
                    push_str(out, "\n");
                },
            }
            assert(out@ =~= mid + arg_text(b.args@[i as int]));
            i = i + 1;
        }
        assert(b.args@.take(b.args@.len() as int) =~= b.args@);
        push_str(out, ")");
        push_tail(out, &b.close_comment);
    }
    push_str(out, "\n");
    assert(out@ =~= o + call_text(*b));
}

/// Statement families: a blank line separates two neighbours of different
/// families (plain and expression wires are one family).
pub open spec fn family(i: Item) -> nat {
    match i {
        Item::Extern(_) => 0,
        Item::Block(_) => 1,
        Item::Wire(_) => 2,
        Item::ExprWire(_) => 2,
        Item::Assign(_) => 3,
        Item::Let(_) => 4,
        Item::Removed(_) => 5,
        Item::Moved(_) => 6,
        Item::Template(_) => 7,
        Item::Instance(_) => 8,
        Item::Comment(_) => 9,
        Item::Page(_) => 10,
    }
}

fn family_exec(i: &Item) -> (r: u8)
    ensures
        r as nat == family(*i),
{
    match i {
        Item::Extern(_) => 0,
        Item::Block(_) => 1,
        Item::Wire(_) => 2,
        Item::ExprWire(_) => 2,
        Item::Assign(_) => 3,
        Item::Let(_) => 4,
        Item::Removed(_) => 5,
        Item::Moved(_) => 6,
        Item::Template(_) => 7,
        Item::Instance(_) => 8,
        Item::Comment(_) => 9,
        Item::Page(_) => 10,
    }
}

/// Whether a statement spans lines (a call with arguments, a template):
/// a blank line then follows it whatever comes next.
pub open spec fn multiline(i: Item) -> bool {
    match i {
        Item::Block(b) => b.args@.len() > 0,
        Item::Instance(b) => b.args@.len() > 0,
        Item::Template(_) => true,
        _ => false,
    }
}

fn multiline_exec(i: &Item) -> (r: bool)
    ensures
        r == multiline(*i),
{
    match i {
        Item::Block(b) => b.args.len() > 0,
        Item::Instance(b) => b.args.len() > 0,
        Item::Template(_) => true,
        _ => false,
    }
}

pub open spec fn param_text(p: TemplateParam) -> Seq<char> {
    match p {
        TemplateParam::Object { name, block_type } => name@ + ": "@ + block_type@,
        TemplateParam::Value { name, default } => name@ + " = "@ + value_text(default),
    }
}

/// Template parameters joined with `, `.
pub open spec fn params_text(ps: Seq<TemplateParam>) -> Seq<char>
    decreases ps.len(),
{
    if ps.len() == 0 {
        seq![]
    } else if ps.len() == 1 {
        param_text(ps[0])
    } else {
        params_text(ps.drop_last()) + ", "@ + param_text(ps.last())
    }
}

/// A line without a trailing carriage return.
pub open spec fn strip_cr(l: Seq<char>) -> Seq<char> {
    if l.len() > 0 && l.last() == '\r' {
        l.drop_last()
    } else {
        l
    }
}

pub open spec fn indent_line(l: Seq<char>) -> Seq<char> {
    if l.len() == 0 {
        seq![]
    } else {
        "\t"@ + l
    }
}

/// Every line of `s` indented one tab, empty lines left empty.
pub open spec fn indent_text(s: Seq<char>) -> Seq<char>
    decreases s.len(),
{
    if s.len() == 0 {
        seq![]
    } else {
        let i = find_from(s, 0, '\n');
        if i >= s.len() || i < 0 {
            indent_line(s) + "\n"@
        } else {
            indent_line(strip_cr(s.subrange(0, i))) + "\n"@ + indent_text(
                s.subrange(i + 1, s.len() as int),
            )
        }
    }
}

/// One statement as canonical text.
pub open spec fn item_text(i: Item) -> Seq<char>
    decreases i,
{
    match i {
        Item::Extern(e) => "extern "@ + e.slug@ + " = "@ + e.block_type@ + "("@ + extern_spec_text(e)
            + ")"@ + tail(e.comment) + "\n"@,
        Item::Block(b) => call_text(b),
        Item::Instance(b) => call_text(b),
        Item::Wire(w) => port_text(w.to) + " <- "@ + port_text(w.from) + tail(w.comment) + "\n"@,
        Item::ExprWire(w) => port_text(w.to) + " <- "@ + expr_text(w.expr) + tail(w.comment)
            + "\n"@,
        Item::Assign(a) => port_text(a.target) + " = "@ + value_text(a.value) + tail(a.comment)
            + "\n"@,
        Item::Let(l) => "let "@ + l.name@ + " = "@ + value_text(l.value) + tail(l.comment) + "\n"@,
        Item::Removed(r) => "removed "@ + r.slug@ + tail(r.comment) + "\n"@,
        Item::Moved(m) => "moved "@ + m.from@ + " -> "@ + m.to@ + tail(m.comment) + "\n"@,
        Item::Template(t) => "template "@ + t.name@ + "("@ + params_text(t.params@) + ")"@ + tail(
            t.comment,
        ) + "\n"@ + indent_text(items_text(t.body@)) + "end"@ + tail(t.end_comment) + "\n"@,
        Item::Page(p) => "page "@ + quoted(p.title@) + tail(p.comment) + "\n"@,
        Item::Comment(t) => "#"@ + t@ + "\n"@,
    }
}

/// The separator before `next`, given the statement before it.
pub open spec fn separator(prev: Item, next: Item) -> Seq<char> {
    if family(prev) != family(next) || multiline(prev) {
        "\n"@
    } else {
        seq![]
    }
}

/// Statements as canonical text.
pub open spec fn items_text(items: Seq<Item>) -> Seq<char>
    decreases items,
{
    if items.len() == 0 {
        seq![]
    } else {
        let init = items.subrange(0, items.len() - 1);
        let last = items[items.len() - 1];
        items_text(init) + (if init.len() > 0 {
            separator(init[init.len() - 1], last)
        } else {
            seq![]
        }) + item_text(last)
    }
}

/// One step of `indent_text` on `s[start..]`: the first line (up to the
/// newline at `i`, without a trailing `\r`), then the rest.
proof fn lemma_indent_step(s: Seq<char>, start: int, i: int)
    requires
        0 <= start < s.len(),
        i == find_from(s, start, '\n'),
    ensures
        start <= i <= s.len(),
        indent_text(s.subrange(start, s.len() as int)) == indent_line(
            s.subrange(start, if i < s.len() && i > start && s[i - 1] == '\r' { i - 1 } else { i }),
        ) + "\n"@ + if i < s.len() {
            indent_text(s.subrange(i + 1, s.len() as int))
        } else {
            seq![]
        },
{
    let t = s.subrange(start, s.len() as int);
    lemma_find_from(s, start, '\n');
    lemma_find_suffix(s, start, 0, '\n');
    let line = s.subrange(start, i);
    let end = if i < s.len() && i > start && s[i - 1] == '\r' { i - 1 } else { i };
    if i < s.len() {
        assert(t.subrange(0, i - start) =~= line);
        assert(strip_cr(line) =~= s.subrange(start, end));
        assert(t.subrange(i - start + 1, t.len() as int) =~= s.subrange(i + 1, s.len() as int));
    } else {
        assert(t =~= line);
        assert(line =~= s.subrange(start, end));
        assert(indent_line(t) + "\n"@ + seq![] =~= indent_line(t) + "\n"@);
    }
}

/// Appends `s` from `start` on, every line indented one tab.
fn push_indented(out: &mut String, s: &Vec<char>, start: usize)
    requires
        start <= s@.len(),
    ensures
        final(out)@ == old(out)@ + indent_text(s@.subrange(start as int, s@.len() as int)),
    decreases s@.len() - start,
{
    if start == s.len() {
        assert(s@.subrange(start as int, s@.len() as int).len() == 0);
        assert(out@ =~= old(out)@ + indent_text(s@.subrange(start as int, s@.len() as int)));
        return;
    }
    let i = crate::text::find_char_from(s, start, '\n');
    proof {
        lemma_indent_step(s@, start as int, i as int);
    }
    let ghost o = out@;
    let end = if i < s.len() && i > start && s[i - 1] == '\r' {
        i - 1
    } else {
        i
    };
    if end > start {
        push_str(out, "\t");
        crate::text::push_range(out, s, start, end);
    } else {
        assert(s@.subrange(start as int, end as int).len() == 0);
    }
    push_str(out, "\n");
    let ghost first = out@;
    assert(first =~= o + indent_line(s@.subrange(start as int, end as int)) + "\n"@);
    if i < s.len() {
        push_indented(out, s, i + 1);
        assert(out@ =~= o + indent_text(s@.subrange(start as int, s@.len() as int)));
    } else {
        assert(out@ =~= o + indent_text(s@.subrange(start as int, s@.len() as int)));
    }
}

fn push_param(out: &mut String, p: &TemplateParam)
    ensures
        final(out)@ == old(out)@ + param_text(*p),
{
    let ghost o = out@;
    match p {
        TemplateParam::Object { name, block_type } => {
            push_str(out, name.as_str());
            push_str(out, ": ");
            push_str(out, block_type.as_str());
        },
        TemplateParam::Value { name, default } => {
            push_str(out, name.as_str());
            push_str(out, " = ");
            push_value(out, default);
        },
    }
    assert(out@ =~= o + param_text(*p));
}

#[verifier::rlimit(40)]
fn push_simple(out: &mut String, item: &Item)
    requires
        !(*item is Template),
    ensures
        final(out)@ == old(out)@ + item_text(*item),
{
    let ghost o = out@;
    match item {
        Item::Extern(e) => {
            push_str(out, "extern ");
            push_str(out, e.slug.as_str());
            push_str(out, " = ");
            push_str(out, e.block_type.as_str());
            push_str(out, "(");
            let sp = e.spec();
            push_str(out, sp.as_str());
            push_str(out, ")");
            push_tail(out, &e.comment);
            push_str(out, "\n");
        },
        Item::Block(b) => push_call(out, b),
        Item::Instance(b) => push_call(out, b),
        Item::Wire(w) => {
            push_port(out, &w.to);
            push_str(out, " <- ");
            push_port(out, &w.from);
            push_tail(out, &w.comment);
            push_str(out, "\n");
        },
        Item::ExprWire(w) => {
            push_port(out, &w.to);
            push_str(out, " <- ");
            push_expr(out, &w.expr);
            push_tail(out, &w.comment);
            push_str(out, "\n");
        },
        Item::Assign(a) => {
            push_port(out, &a.target);
            push_str(out, " = ");
            push_value(out, &a.value);
            push_tail(out, &a.comment);
            push_str(out, "\n");
        },
        Item::Let(l) => {
            push_str(out, "let ");
            push_str(out, l.name.as_str());
            push_str(out, " = ");
            push_value(out, &l.value);
            push_tail(out, &l.comment);
            push_str(out, "\n");
        },
        Item::Removed(r) => {
            push_str(out, "removed ");
            push_str(out, r.slug.as_str());
            push_tail(out, &r.comment);
            push_str(out, "\n");
        },
        Item::Moved(m) => {
            push_str(out, "moved ");
            push_str(out, m.from.as_str());
            push_str(out, " -> ");
            push_str(out, m.to.as_str());
            push_tail(out, &m.comment);
            push_str(out, "\n");
        },
        Item::Page(p) => {
            push_str(out, "page ");
            push_quoted(out, p.title.as_str());
            push_tail(out, &p.comment);
            push_str(out, "\n");
        },
        Item::Comment(t) => {
            push_str(out, "#");
            push_str(out, t.as_str());
            push_str(out, "\n");
        },
        Item::Template(_) => {},
    }
    assert(out@ =~= o + item_text(*item));
}

fn push_template(out: &mut String, t: &TemplateDecl)
    ensures
        final(out)@ == old(out)@ + item_text(Item::Template(*t)),
    decreases t, 2nat,
{
    let ghost o = out@;
    push_str(out, "template ");
    push_str(out, t.name.as_str());
    push_str(out, "(");
    let ghost ps = t.params@;
    let ghost before = out@;
    let mut k: usize = 0;
    while k < t.params.len()
        invariant
            0 <= k <= ps.len(),
            ps == t.params@,
            out@ == before + params_text(ps.take(k as int)),
        decreases ps.len() - k,
    {
        proof {
            assert(ps.take(k + 1).drop_last() =~= ps.take(k as int));
        }
        if k > 0 {
            push_str(out, ", ");
        }
        push_param(out, &t.params[k]);
        proof {
            if k == 0 {
                assert(ps.take(1)[0] == ps[0]);
            }
        }
        k = k + 1;
    }
    assert(ps.take(ps.len() as int) =~= ps);
    push_str(out, ")");
    push_tail(out, &t.comment);
    push_str(out, "\n");
    let mut body = String::new();
    push_items(&mut body, &t.body);
    let bc = crate::text::chars_of(body.as_str());
    push_indented(out, &bc, 0);
    assert(bc@.subrange(0, bc@.len() as int) =~= bc@);
    push_str(out, "end");
    push_tail(out, &t.end_comment);
    push_str(out, "\n");
    assert(out@ =~= o + item_text(Item::Template(*t)));
}

fn push_item(out: &mut String, item: &Item)
    ensures
        final(out)@ == old(out)@ + item_text(*item),
    decreases item, 0nat,
{
    match item {
        Item::Template(t) => push_template(out, t),
        _ => push_simple(out, item),
    }
}

fn push_items(out: &mut String, items: &Vec<Item>)
    ensures
        final(out)@ == old(out)@ + items_text(items@),
    decreases items@, 1nat,
{
    let ghost o = out@;
    let mut i: usize = 0;
    assert(items@.subrange(0, 0) =~= Seq::<Item>::empty());
    while i < items.len()
        invariant
            0 <= i <= items@.len(),
            out@ == o + items_text(items@.subrange(0, i as int)),
        decreases items@.len() - i,
    {
        let ghost pre = items@.subrange(0, i as int);
        let ghost next = items@.subrange(0, i + 1);
        proof {
            assert(next.subrange(0, next.len() - 1) =~= pre);
            assert(next[next.len() - 1] == items@[i as int]);
        }
        if i > 0 {
            let pf = family_exec(&items[i - 1]);
            let nf = family_exec(&items[i]);
            if pf != nf || multiline_exec(&items[i - 1]) {
                push_str(out, "\n");
            }
            proof {
                assert(pre[pre.len() - 1] == items@[i - 1]);
            }
        }
        let ghost mid = out@;
        push_item(out, &items[i]);
        proof {
            assert(out@ =~= o + items_text(next));
        }
        i = i + 1;
    }
    assert(items@.subrange(0, items@.len() as int) =~= items@);
}

impl Module {
    /// Canonical text form: statements in source order, a blank line
    /// between statement families and after every multi-line statement.
    pub fn to_text(&self) -> (r: String)
        ensures
            r@ == items_text(self.items@),
    {
        let mut out = String::new();
        push_items(&mut out, &self.items);
        assert(out@ =~= items_text(self.items@));
        out
    }
}

} // verus!
