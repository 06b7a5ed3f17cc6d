//! Renaming slugs: word-boundary substitution in prose, and the rules a
//! slug must meet.
use crate::error::{Error, Result};
use crate::ir::decompile::{is_reserved, is_reserved_word};
use crate::text::{chars_of, push_range, push_str, string_from_chars, string_of, starts_at};
use crate::doc::opt_view;
use crate::ir::desugar::{desugar_spec, lowered_sinks};
use crate::ir::template::expand_spec;
use crate::lock::{taken_msg, LockedExternal, LockedObject, Lockfile};
use crate::strmap::{map_get, map_insert, map_remove};
use crate::ir::ast::{
    port_view, ArgItem, Binding, BindingKind, BlockDecl, Expr, ExprWireDecl, ExternDecl, Item, LetDecl,
    MatchSpec, Module, MovedDecl, Operand, PageDecl, PortRef, RemovedDecl, SetDecl, TemplateDecl,
    Value, WireDecl,
};
use crate::ir::copy::{copy_items, copy_opt, copy_template, copy_value, lemma_items_v_index, lemma_items_v_push};
use crate::ir::model::{
    arg_v, args_v, block_v, expr_v, item_v, items_v, operand_v, param_v, template_v, value_v,
    SArg, SBinding, SBlock, SExpr, SExtern, SItem, SKind, SMatch, SOperand, SParam, STemplate, SValue,
};
use vstd::prelude::*;

verus! {

/// Characters a slug is made of.
pub open spec fn is_slug_char(c: char) -> bool {
    ('a' <= c && c <= 'z') || ('0' <= c && c <= '9') || c == '_'
}

/// Whether `s` is a well-formed slug: `[a-z][a-z0-9_]*`.
pub open spec fn slug_shape(s: Seq<char>) -> bool {
    s.len() > 0 && 'a' <= s[0] && s[0] <= 'z' && forall|i: int|
        0 <= i < s.len() ==> is_slug_char(#[trigger] s[i])
}

/// The slug rules the parser enforces, without a source line: lowercase
/// `[a-z][a-z0-9_]*`, not a reserved word.
pub fn valid_slug(s: &str) -> (r: Result<()>)
    ensures
        match r {
            Ok(()) => !is_reserved(s@) && slug_shape(s@),
            Err(e) => e is Compile && if is_reserved(s@) {
                e->Compile_0@ == "`"@ + s@ + "` is a reserved word and cannot be used as a name"@
            } else {
                !slug_shape(s@) && e->Compile_0@ == "invalid slug `"@ + s@
                    + "` (expected [a-z][a-z0-9_]*)"@
            },
        },
{
    if is_reserved_word(s) {
        let mut m = string_of("`");
        push_str(&mut m, s);
        push_str(&mut m, "` is a reserved word and cannot be used as a name");
        return Err(Error::Compile(m));
    }
    let cs = chars_of(s);
    let mut ok = cs.len() > 0 && 'a' <= cs[0] && cs[0] <= 'z';
    let mut i: usize = 0;
    while i < cs.len()
        invariant
            0 <= i <= cs@.len(),
            cs@ == s@,
            ok == (cs@.len() > 0 && 'a' <= cs@[0] && cs@[0] <= 'z' && forall|j: int|
                0 <= j < i ==> is_slug_char(#[trigger] cs@[j])),
        decreases cs@.len() - i,
    {
        let c = cs[i];
        if !(('a' <= c && c <= 'z') || ('0' <= c && c <= '9') || c == '_') {
            ok = false;
        }
        proof {
            if ok {
                assert forall|j: int| 0 <= j < i + 1 implies is_slug_char(#[trigger] cs@[j]) by {}
            }
        }
        i = i + 1;
    }
    if ok {
        Ok(())
    } else {
        let mut m = string_of("invalid slug `");
        push_str(&mut m, s);
        push_str(&mut m, "` (expected [a-z][a-z0-9_]*)");
        Err(Error::Compile(m))
    }
}

/// The first position at or after `i` where `pat` occurs in `s`, or -1.
pub open spec fn find_sub(s: Seq<char>, i: int, pat: Seq<char>) -> int
    decreases s.len() + 1 - i,
{
    if i < 0 || i + pat.len() > s.len() {
        -1
    } else if s.subrange(i, i + pat.len()) == pat {
        i
    } else {
        find_sub(s, i + 1, pat)
    }
}

/// Whether the occurrence `s[start..end]` stands alone: no slug character
/// right before or right after it.
pub open spec fn at_word_boundary(s: Seq<char>, start: int, end: int) -> bool {
    !(start > 0 && is_slug_char(s[start - 1])) && !(end < s.len() && is_slug_char(s[end]))
}

/// The text from `i` on with every standalone occurrence of `old` replaced
/// by `new` (occurrences are found left to right, without overlap).
pub open spec fn sub_from(s: Seq<char>, i: int, old: Seq<char>, new: Seq<char>) -> Seq<char>
    decreases s.len() - i,
{
    let start = find_sub(s, i, old);
    if old.len() == 0 || i < 0 || i > s.len() || start < i {
        s.subrange(i, s.len() as int)
    } else {
        let end = start + old.len();
        proof {
            lemma_find_sub(s, i, old);
        }
        s.subrange(i, start) + (if at_word_boundary(s, start, end) {
            new
        } else {
            old
        }) + sub_from(s, end, old, new)
    }
}

pub proof fn lemma_find_sub(s: Seq<char>, i: int, pat: Seq<char>)
    requires
        0 <= i,
    ensures
        find_sub(s, i, pat) == -1 || (i <= find_sub(s, i, pat) && find_sub(s, i, pat) + pat.len()
            <= s.len() && s.subrange(find_sub(s, i, pat), find_sub(s, i, pat) + pat.len())
            == pat),
    decreases s.len() + 1 - i,
{
    if i + pat.len() <= s.len() && s.subrange(i, i + pat.len()) != pat {
        lemma_find_sub(s, i + 1, pat);
    }
}

fn find_sub_exec(s: &Vec<char>, i: usize, pat: &Vec<char>) -> (r: Option<usize>)
    requires
        i <= s@.len(),
        pat@.len() > 0,
    ensures
        match r {
            Some(p) => find_sub(s@, i as int, pat@) == p,
            None => find_sub(s@, i as int, pat@) == -1,
        },
{
    let mut k = i;
    while k <= s.len() && pat.len() <= s.len() - k
        invariant
            i <= k,
            pat@.len() > 0,
            find_sub(s@, i as int, pat@) == find_sub(s@, k as int, pat@),
        decreases s@.len() + 1 - k,
    {
        if crate::text::range_eq(s, k, k + pat.len(), pat) {
            return Some(k);
        }
        k = k + 1;
    }
    None
}

fn is_slug_char_exec(c: char) -> (r: bool)
    ensures
        r == is_slug_char(c),
{
    ('a' <= c && c <= 'z') || ('0' <= c && c <= '9') || c == '_'
}

/// Replace word-boundary occurrences of `old` in free text (comments):
/// an occurrence counts when neither neighbor is a slug character, so
/// `alarm` matches in "the alarm fires" and `alarm.Q`, but not inside
/// `voralarm` or `alarm_2`.
pub fn sub_text(text: &mut String, from: &str, to: &str)
    requires
        from@.len() > 0,
    ensures
        final(text)@ == sub_from(old(text)@, 0, from@, to@),
{
    let s = chars_of(text.as_str());
    let o = chars_of(from);
    let ghost sv = s@;
    let mut out = String::new();
    let mut i: usize = 0;
    assert(sv.subrange(0, 0) =~= Seq::<char>::empty());
    loop
        invariant
            0 <= i <= sv.len(),
            s@ == sv,
            sv == old(text)@,
            o@ == from@,
            from@.len() > 0,
            out@ + sub_from(sv, i as int, from@, to@) == sub_from(sv, 0, from@, to@),
        decreases sv.len() - i,
    {
        match find_sub_exec(&s, i, &o) {
            None => {
                push_range(&mut out, &s, i, s.len());
                proof {
                    assert(out@ =~= sub_from(sv, 0, from@, to@));
                }
                *text = out;
                return ;
            },
            Some(start) => {
                proof {
                    lemma_find_sub(sv, i as int, from@);
                }
                let end = start + o.len();
                let before_ok = !(start > 0 && is_slug_char_exec(s[start - 1]));
                let after_ok = !(end < s.len() && is_slug_char_exec(s[end]));
                let ghost before = out@;
                push_range(&mut out, &s, i, start);
                if before_ok && after_ok {
                    push_str(&mut out, to);
                } else {
                    push_str(&mut out, from);
                }
                proof {
                    assert(out@ + sub_from(sv, end as int, from@, to@) =~= before + sub_from(
                        sv,
                        i as int,
                        from@,
                        to@,
                    ));
                }
                i = end;
            },
        }
    }
}

// ---------------------------------------------------------------------------
// Renaming a name across a module
// ---------------------------------------------------------------------------

/// `s`, or `to` where `s` is exactly `from`.
pub open spec fn sub_name(s: Seq<char>, from: Seq<char>, to: Seq<char>) -> Seq<char> {
    if s == from {
        to
    } else {
        s
    }
}

/// Word-boundary mentions of `from` in a comment, replaced.
pub open spec fn sub_comment(c: Option<Seq<char>>, from: Seq<char>, to: Seq<char>) -> Option<Seq<char>> {
    match c {
        Some(t) => Some(sub_from(t, 0, from, to)),
        None => None,
    }
}

pub open spec fn sub_ref(p: (Seq<char>, Seq<char>), from: Seq<char>, to: Seq<char>) -> (Seq<char>, Seq<char>) {
    (sub_name(p.0, from, to), p.1)
}

pub open spec fn rename_svalue(v: SValue, from: Seq<char>, to: Seq<char>) -> SValue {
    match v {
        SValue::Ref(r) => SValue::Ref(sub_name(r, from, to)),
        _ => v,
    }
}

pub open spec fn rename_soperand(o: SOperand, from: Seq<char>, to: Seq<char>) -> SOperand {
    match o {
        SOperand::Port(p) => SOperand::Port(sub_ref(p, from, to)),
        SOperand::Value(v) => SOperand::Value(rename_svalue(v, from, to)),
    }
}

pub open spec fn rename_sexpr(e: SExpr, from: Seq<char>, to: Seq<char>) -> SExpr
    decreases e,
{
    match e {
        SExpr::Or(a, b) => SExpr::Or(Box::new(rename_sexpr(*a, from, to)), Box::new(rename_sexpr(*b, from, to))),
        SExpr::And(a, b) => SExpr::And(Box::new(rename_sexpr(*a, from, to)), Box::new(rename_sexpr(*b, from, to))),
        SExpr::Not(x) => SExpr::Not(Box::new(rename_sexpr(*x, from, to))),
        SExpr::Cmp(op, l, r) => SExpr::Cmp(op, rename_soperand(l, from, to), rename_soperand(r, from, to)),
        SExpr::Arith(op, l, r) => SExpr::Arith(
            op,
            Box::new(rename_sexpr(*l, from, to)),
            Box::new(rename_sexpr(*r, from, to)),
        ),
        SExpr::Atom(o) => SExpr::Atom(rename_soperand(o, from, to)),
    }
}

pub open spec fn rename_sarg(a: SArg, from: Seq<char>, to: Seq<char>) -> SArg {
    match a {
        SArg::Binding(b) => SArg::Binding(
            SBinding {
                port: b.port,
                kind: match b.kind {
                    SKind::Param(v) => SKind::Param(rename_svalue(v, from, to)),
                    SKind::Wire(p) => SKind::Wire(sub_ref(p, from, to)),
                    SKind::Expr(e) => SKind::Expr(rename_sexpr(e, from, to)),
                },
                comment: sub_comment(b.comment, from, to),
            },
        ),
        SArg::Comment(t) => SArg::Comment(sub_from(t, 0, from, to)),
    }
}

/// A block's argument list and comments renamed; `slug` and `block_type`
/// as given.
pub open spec fn rename_sblock(b: SBlock, slug: Seq<char>, block_type: Seq<char>, from: Seq<char>, to: Seq<char>) -> SBlock {
    SBlock {
        slug,
        block_type,
        title: b.title,
        args: b.args.map_values(|a: SArg| rename_sarg(a, from, to)),
        comment: sub_comment(b.comment, from, to),
        close_comment: sub_comment(b.close_comment, from, to),
    }
}

/// Whether a template's own namespace — a parameter or a body block —
/// shadows `name`.
pub open spec fn shadows(t: STemplate, name: Seq<char>) -> bool {
    (exists|i: int| 0 <= i < t.params.len() && #[trigger] sparam_name(t.params[i]) == name) || (exists|i: int|
        0 <= i < t.body.len() && #[trigger] block_named(t.body[i], name))
}

pub open spec fn block_named(i: SItem, name: Seq<char>) -> bool {
    match i {
        SItem::Block(b) => b.slug == name,
        _ => false,
    }
}

pub open spec fn sparam_name(p: SParam) -> Seq<char> {
    match p {
        SParam::Object(n, _) => n,
        SParam::Value(n, _) => n,
    }
}

/// One statement with the module-level name `from` renamed to `to`.
pub open spec fn rename_sitem(i: SItem, from: Seq<char>, to: Seq<char>) -> SItem
    decreases i, 0nat,
{
    match i {
        SItem::Extern(e) => SItem::Extern(
            SExtern {
                slug: sub_name(e.slug, from, to),
                match_spec: match e.match_spec {
                    SMatch::Mirrors(m) => SMatch::Mirrors(sub_name(m, from, to)),
                    m => m,
                },
                comment: sub_comment(e.comment, from, to),
                ..e
            },
        ),
        SItem::Block(b) => SItem::Block(rename_sblock(b, sub_name(b.slug, from, to), b.block_type, from, to)),
        SItem::Instance(b) => SItem::Instance(
            rename_sblock(b, sub_name(b.slug, from, to), sub_name(b.block_type, from, to), from, to),
        ),
        SItem::Wire(a, b, c) => SItem::Wire(sub_ref(a, from, to), sub_ref(b, from, to), sub_comment(c, from, to)),
        SItem::ExprWire(a, e, c) => SItem::ExprWire(
            sub_ref(a, from, to),
            rename_sexpr(e, from, to),
            sub_comment(c, from, to),
        ),
        SItem::Assign(a, v, c) => SItem::Assign(
            sub_ref(a, from, to),
            rename_svalue(v, from, to),
            sub_comment(c, from, to),
        ),
        SItem::Let(n, v, c) => SItem::Let(sub_name(n, from, to), v, sub_comment(c, from, to)),
        SItem::Removed(s, c) => SItem::Removed(s, sub_comment(c, from, to)),
        SItem::Moved(a, b, c) => SItem::Moved(a, sub_name(b, from, to), sub_comment(c, from, to)),
        SItem::Template(t) => SItem::Template(
            STemplate {
                name: sub_name(t.name, from, to),
                params: t.params,
                body: if shadows(t, from) {
                    t.body
                } else {
                    rename_sitems(t.body, from, to)
                },
                comment: sub_comment(t.comment, from, to),
                end_comment: sub_comment(t.end_comment, from, to),
            },
        ),
        SItem::Page(title, c) => SItem::Page(title, sub_comment(c, from, to)),
        SItem::Comment(t) => SItem::Comment(sub_from(t, 0, from, to)),
    }
}

pub open spec fn rename_sitems(s: Seq<SItem>, from: Seq<char>, to: Seq<char>) -> Seq<SItem>
    decreases s, 1nat,
{
    if s.len() == 0 {
        seq![]
    } else {
        rename_sitems(s.subrange(0, s.len() - 1), from, to).push(rename_sitem(s[s.len() - 1], from, to))
    }
}

fn sub_name_exec(s: &String, from: &str, to: &str) -> (r: String)
    ensures
        r@ == sub_name(s@, from@, to@),
{
    if crate::text::str_eq(s.as_str(), from) {
        string_of(to)
    } else {
        s.clone()
    }
}

fn sub_comment_exec(c: &Option<String>, from: &str, to: &str) -> (r: Option<String>)
    requires
        from@.len() > 0,
    ensures
        opt_view(r) == sub_comment(opt_view(*c), from@, to@),
{
    match c {
        Some(t) => {
            let mut x = t.clone();
            sub_text(&mut x, from, to);
            Some(x)
        },
        None => None,
    }
}

fn rename_value_exec(v: &Value, from: &str, to: &str) -> (r: Value)
    ensures
        value_v(r) == rename_svalue(value_v(*v), from@, to@),
{
    match v {
        Value::Ref(x) => Value::Ref(sub_name_exec(x, from, to)),
        _ => copy_value(v),
    }
}

fn rename_ref_exec(p: &PortRef, from: &str, to: &str) -> (r: PortRef)
    ensures
        port_view(r) == sub_ref(port_view(*p), from@, to@),
{
    PortRef { slug: sub_name_exec(&p.slug, from, to), port: p.port.clone() }
}

fn rename_operand_exec(o: &Operand, from: &str, to: &str) -> (r: Operand)
    ensures
        operand_v(r) == rename_soperand(operand_v(*o), from@, to@),
{
    match o {
        Operand::Port(p) => Operand::Port(rename_ref_exec(p, from, to)),
        Operand::Value(v) => Operand::Value(rename_value_exec(v, from, to)),
    }
}

fn rename_expr_exec(e: &Expr, from: &str, to: &str) -> (r: Expr)
    ensures
        expr_v(r) == rename_sexpr(expr_v(*e), from@, to@),
    decreases e,
{
    match e {
        Expr::Or(a, b) => Expr::Or(Box::new(rename_expr_exec(a, from, to)), Box::new(rename_expr_exec(b, from, to))),
        Expr::And(a, b) => Expr::And(Box::new(rename_expr_exec(a, from, to)), Box::new(rename_expr_exec(b, from, to))),
        Expr::Not(x) => Expr::Not(Box::new(rename_expr_exec(x, from, to))),
        Expr::Cmp { op, lhs, rhs } => Expr::Cmp {
            op: *op,
            lhs: rename_operand_exec(lhs, from, to),
            rhs: rename_operand_exec(rhs, from, to),
        },
        Expr::Arith { op, lhs, rhs } => Expr::Arith {
            op: *op,
            lhs: Box::new(rename_expr_exec(lhs, from, to)),
            rhs: Box::new(rename_expr_exec(rhs, from, to)),
        },
        Expr::Atom(o) => Expr::Atom(rename_operand_exec(o, from, to)),
    }
}

fn rename_arg_exec(a: &ArgItem, from: &str, to: &str) -> (r: ArgItem)
    requires
        from@.len() > 0,
    ensures
        arg_v(r) == rename_sarg(arg_v(*a), from@, to@),
{
    match a {
        ArgItem::Binding(b) => {
            let kind = match &b.kind {
                BindingKind::Param(v) => BindingKind::Param(rename_value_exec(v, from, to)),
                BindingKind::Wire(p) => BindingKind::Wire(rename_ref_exec(p, from, to)),
                BindingKind::Expr(e) => BindingKind::Expr(rename_expr_exec(e, from, to)),
            };
            ArgItem::Binding(Binding { port: b.port.clone(), kind, comment: sub_comment_exec(&b.comment, from, to) })
        },
        ArgItem::Comment(t) => {
            let mut x = t.clone();
            sub_text(&mut x, from, to);
            ArgItem::Comment(x)
        },
    }
}

fn rename_block_exec(b: &BlockDecl, rename_type: bool, from: &str, to: &str) -> (r: BlockDecl)
    requires
        from@.len() > 0,
    ensures
        block_v(r) == rename_sblock(
            block_v(*b),
            sub_name(b.slug@, from@, to@),
            if rename_type {
                sub_name(b.block_type@, from@, to@)
            } else {
                b.block_type@
            },
            from@,
            to@,
        ),
{
    let mut args: Vec<ArgItem> = Vec::new();
    let ghost A = args_v(b.args@);
    let mut i: usize = 0;
    while i < b.args.len()
        invariant
            0 <= i <= b.args@.len(),
            from@.len() > 0,
            A == args_v(b.args@),
            args_v(args@) == A.take(i as int).map_values(|a: SArg| rename_sarg(a, from@, to@)),
        decreases b.args@.len() - i,
    {
        let a = rename_arg_exec(&b.args[i], from, to);
        proof {
            assert(args_v(args@.push(a)) =~= args_v(args@).push(arg_v(a)));
            assert(A.take(i + 1).map_values(|a: SArg| rename_sarg(a, from@, to@)) =~= A.take(i as int).map_values(
                |a: SArg| rename_sarg(a, from@, to@),
            ).push(rename_sarg(A[i as int], from@, to@)));
        }
        args.push(a);
        i = i + 1;
    }
    proof {
        assert(A.take(A.len() as int) =~= A);
    }
    let block_type = if rename_type {
        sub_name_exec(&b.block_type, from, to)
    } else {
        b.block_type.clone()
    };
    BlockDecl {
        slug: sub_name_exec(&b.slug, from, to),
        block_type,
        title: copy_opt(&b.title),
        args,
        comment: sub_comment_exec(&b.comment, from, to),
        close_comment: sub_comment_exec(&b.close_comment, from, to),
    }
}

fn shadows_exec(t: &TemplateDecl, name: &str) -> (r: bool)
    ensures
        r == shadows(template_v(*t), name@),
{
    let ghost T = template_v(*t);
    let mut i: usize = 0;
    while i < t.params.len()
        invariant
            0 <= i <= t.params@.len(),
            T == template_v(*t),
            forall|j: int| 0 <= j < i ==> sparam_name(#[trigger] T.params[j]) != name@,
        decreases t.params@.len() - i,
    {
        proof {
            assert(T.params[i as int] == param_v(t.params@[i as int]));
        }
        if crate::text::str_eq(t.params[i].name(), name) {
            proof {
                assert(sparam_name(T.params[i as int]) == name@);
            }
            return true;
        }
        i = i + 1;
    }
    proof {
        lemma_items_v_index(t.body@);
    }
    let mut i: usize = 0;
    while i < t.body.len()
        invariant
            0 <= i <= t.body@.len(),
            T == template_v(*t),
            T.body.len() == t.body@.len(),
            forall|k: int| 0 <= k < t.body@.len() ==> #[trigger] T.body[k] == item_v(t.body@[k]),
            forall|j: int| 0 <= j < T.params.len() ==> sparam_name(#[trigger] T.params[j]) != name@,
            forall|j: int| 0 <= j < i ==> !block_named(#[trigger] T.body[j], name@),
        decreases t.body@.len() - i,
    {
        if let Item::Block(b) = &t.body[i] {
            if crate::text::str_eq(b.slug.as_str(), name) {
                proof {
                    assert(block_named(T.body[i as int], name@));
                }
                return true;
            }
        }
        proof {
            assert(!block_named(T.body[i as int], name@));
        }
        i = i + 1;
    }
    false
}

fn rename_item_exec(i: &Item, from: &str, to: &str) -> (r: Item)
    requires
        from@.len() > 0,
    ensures
        item_v(r) == rename_sitem(item_v(*i), from@, to@),
    decreases i, 0nat,
{
    match i {
        Item::Extern(e) => {
            let match_spec = match &e.match_spec {
                MatchSpec::Mirrors(m) => MatchSpec::Mirrors(sub_name_exec(m, from, to)),
                MatchSpec::Uuid(x) => MatchSpec::Uuid(x.clone()),
                MatchSpec::IName(x) => MatchSpec::IName(x.clone()),
                MatchSpec::Title(x) => MatchSpec::Title(x.clone()),
            };
            Item::Extern(
                ExternDecl {
                    slug: sub_name_exec(&e.slug, from, to),
                    block_type: e.block_type.clone(),
                    match_spec,
                    room: copy_opt(&e.room),
                    category: copy_opt(&e.category),
                    comment: sub_comment_exec(&e.comment, from, to),
                },
            )
        },
        Item::Block(b) => Item::Block(rename_block_exec(b, false, from, to)),
        Item::Instance(b) => Item::Instance(rename_block_exec(b, true, from, to)),
        Item::Wire(w) => Item::Wire(
            WireDecl {
                to: rename_ref_exec(&w.to, from, to),
                from: rename_ref_exec(&w.from, from, to),
                comment: sub_comment_exec(&w.comment, from, to),
            },
        ),
        Item::ExprWire(w) => Item::ExprWire(
            ExprWireDecl {
                to: rename_ref_exec(&w.to, from, to),
                expr: rename_expr_exec(&w.expr, from, to),
                comment: sub_comment_exec(&w.comment, from, to),
            },
        ),
        Item::Assign(a) => Item::Assign(
            SetDecl {
                target: rename_ref_exec(&a.target, from, to),
                value: rename_value_exec(&a.value, from, to),
                comment: sub_comment_exec(&a.comment, from, to),
            },
        ),
        Item::Let(l) => Item::Let(
            LetDecl {
                name: sub_name_exec(&l.name, from, to),
                value: copy_value(&l.value),
                comment: sub_comment_exec(&l.comment, from, to),
            },
        ),
        Item::Removed(x) => Item::Removed(
            RemovedDecl { slug: x.slug.clone(), comment: sub_comment_exec(&x.comment, from, to) },
        ),
        Item::Moved(m) => Item::Moved(
            MovedDecl {
                from: m.from.clone(),
                to: sub_name_exec(&m.to, from, to),
                comment: sub_comment_exec(&m.comment, from, to),
            },
        ),
        Item::Template(t) => {
            let body = if shadows_exec(t, from) {
                copy_items(&t.body)
            } else {
                rename_items_exec(&t.body, from, to)
            };
            let r = Item::Template(
                TemplateDecl {
                    name: sub_name_exec(&t.name, from, to),
                    params: copy_template(t).params,
                    body,
                    comment: sub_comment_exec(&t.comment, from, to),
                    end_comment: sub_comment_exec(&t.end_comment, from, to),
                },
            );
            r
        },
        Item::Page(p) => Item::Page(PageDecl { title: p.title.clone(), comment: sub_comment_exec(&p.comment, from, to) }),
        Item::Comment(t) => {
            let mut x = t.clone();
            sub_text(&mut x, from, to);
            Item::Comment(x)
        },
    }
}

fn rename_items_exec(v: &Vec<Item>, from: &str, to: &str) -> (r: Vec<Item>)
    requires
        from@.len() > 0,
    ensures
        items_v(r@) == rename_sitems(items_v(v@), from@, to@),
    decreases v, 1nat,
{
    let mut r: Vec<Item> = Vec::new();
    let mut i: usize = 0;
    while i < v.len()
        invariant
            0 <= i <= v@.len(),
            from@.len() > 0,
            items_v(r@) == rename_sitems(items_v(v@.take(i as int)), from@, to@),
        decreases v@.len() - i,
    {
        proof {
            vstd::std_specs::vec::axiom_vec_index_decreases(*v, i as int);
        }
        let c = rename_item_exec(&v[i], from, to);
        proof {
            lemma_items_v_push(r@, c);
            lemma_items_v_push(v@.take(i as int), v@[i as int]);
            assert(v@.take(i + 1) =~= v@.take(i as int).push(v@[i as int]));
            let s = items_v(v@.take(i as int));
            assert(s.push(item_v(v@[i as int])).subrange(0, s.len() as int) =~= s);
        }
        r.push(c);
        i = i + 1;
    }
    proof {
        assert(v@.take(v@.len() as int) =~= v@);
    }
    r
}

/// Rename every occurrence of the module-level name `from` to `to`:
/// declarations, port references, wire endpoints, expression operands,
/// `mirrors:` targets, constant references, template-body captures
/// (unless the template's own namespace shadows `from`), `moved` targets,
/// and word-boundary mentions inside comments.
pub fn rename_slug(module: &mut Module, from: &str, to: &str)
    requires
        from@.len() > 0,
    ensures
        items_v(final(module).items@) == rename_sitems(items_v(old(module).items@), from@, to@),
{
    let items = rename_items_exec(&module.items, from, to);
    module.items = items;
}

// ---------------------------------------------------------------------------
// What a rename does to references
// ---------------------------------------------------------------------------

/// The port references an operand makes.
pub open spec fn operand_refs(o: SOperand) -> Seq<(Seq<char>, Seq<char>)> {
    match o {
        SOperand::Port(p) => seq![p],
        SOperand::Value(_) => seq![],
    }
}

/// The port references an expression reads, left to right.
pub open spec fn expr_refs(e: SExpr) -> Seq<(Seq<char>, Seq<char>)>
    decreases e,
{
    match e {
        SExpr::Or(a, b) => expr_refs(*a) + expr_refs(*b),
        SExpr::And(a, b) => expr_refs(*a) + expr_refs(*b),
        SExpr::Not(x) => expr_refs(*x),
        SExpr::Cmp(_, l, r) => operand_refs(l) + operand_refs(r),
        SExpr::Arith(_, l, r) => expr_refs(*l) + expr_refs(*r),
        SExpr::Atom(o) => operand_refs(o),
    }
}

/// The port references one block argument makes: a wired source, or the
/// operands of an expression.
pub open spec fn arg_port_refs(a: SArg) -> Seq<(Seq<char>, Seq<char>)> {
    match a {
        SArg::Binding(b) => match b.kind {
            SKind::Wire(p) => seq![p],
            SKind::Expr(e) => expr_refs(e),
            SKind::Param(_) => seq![],
        },
        SArg::Comment(_) => seq![],
    }
}

pub open spec fn args_port_refs(args: Seq<SArg>) -> Seq<(Seq<char>, Seq<char>)>
    decreases args.len(),
{
    if args.len() == 0 {
        seq![]
    } else {
        args_port_refs(args.drop_last()) + arg_port_refs(args.last())
    }
}

/// The port references a top-level statement makes: wire endpoints, the
/// sink and operands of `<-`, a set target, block argument sources.
pub open spec fn item_port_refs(i: SItem) -> Seq<(Seq<char>, Seq<char>)> {
    match i {
        SItem::Wire(a, b, _) => seq![a, b],
        SItem::ExprWire(a, e, _) => seq![a] + expr_refs(e),
        SItem::Assign(a, _, _) => seq![a],
        SItem::Block(b) => args_port_refs(b.args),
        SItem::Instance(b) => args_port_refs(b.args),
        _ => seq![],
    }
}

/// A reference to `from` now names `to`; others are unchanged.
pub open spec fn retarget(p: (Seq<char>, Seq<char>), from: Seq<char>, to: Seq<char>) -> (Seq<char>, Seq<char>) {
    if p.0 == from {
        (to, p.1)
    } else {
        p
    }
}

pub open spec fn retargeted(s: Seq<(Seq<char>, Seq<char>)>, from: Seq<char>, to: Seq<char>) -> Seq<
    (Seq<char>, Seq<char>),
> {
    s.map_values(|p: (Seq<char>, Seq<char>)| retarget(p, from, to))
}

proof fn lemma_retargeted_concat(a: Seq<(Seq<char>, Seq<char>)>, b: Seq<(Seq<char>, Seq<char>)>, from: Seq<char>, to: Seq<char>)
    ensures
        retargeted(a + b, from, to) == retargeted(a, from, to) + retargeted(b, from, to),
{
    assert(retargeted(a + b, from, to) =~= retargeted(a, from, to) + retargeted(b, from, to));
}

proof fn lemma_operand_refs(o: SOperand, from: Seq<char>, to: Seq<char>)
    ensures
        operand_refs(rename_soperand(o, from, to)) == retargeted(operand_refs(o), from, to),
{
    assert(operand_refs(rename_soperand(o, from, to)) =~= retargeted(operand_refs(o), from, to));
}

proof fn lemma_expr_refs(e: SExpr, from: Seq<char>, to: Seq<char>)
    ensures
        expr_refs(rename_sexpr(e, from, to)) == retargeted(expr_refs(e), from, to),
    decreases e,
{
    match e {
        SExpr::Or(a, b) => {
            lemma_expr_refs(*a, from, to);
            lemma_expr_refs(*b, from, to);
            lemma_retargeted_concat(expr_refs(*a), expr_refs(*b), from, to);
        },
        SExpr::And(a, b) => {
            lemma_expr_refs(*a, from, to);
            lemma_expr_refs(*b, from, to);
            lemma_retargeted_concat(expr_refs(*a), expr_refs(*b), from, to);
        },
        SExpr::Not(x) => {
            lemma_expr_refs(*x, from, to);
        },
        SExpr::Cmp(_, l, r) => {
            lemma_operand_refs(l, from, to);
            lemma_operand_refs(r, from, to);
            lemma_retargeted_concat(operand_refs(l), operand_refs(r), from, to);
        },
        SExpr::Arith(_, l, r) => {
            lemma_expr_refs(*l, from, to);
            lemma_expr_refs(*r, from, to);
            lemma_retargeted_concat(expr_refs(*l), expr_refs(*r), from, to);
        },
        SExpr::Atom(o) => {
            lemma_operand_refs(o, from, to);
        },
    }
}

proof fn lemma_args_refs(args: Seq<SArg>, from: Seq<char>, to: Seq<char>)
    ensures
        args_port_refs(args.map_values(|a: SArg| rename_sarg(a, from, to))) == retargeted(args_port_refs(args), from, to),
    decreases args.len(),
{
    let r = args.map_values(|a: SArg| rename_sarg(a, from, to));
    if args.len() == 0 {
        assert(r =~= Seq::<SArg>::empty());
        assert(retargeted(args_port_refs(args), from, to) =~= Seq::<(Seq<char>, Seq<char>)>::empty());
    } else {
        let q = args.drop_last();
        lemma_args_refs(q, from, to);
        assert(r.drop_last() =~= q.map_values(|a: SArg| rename_sarg(a, from, to)));
        assert(r.last() == rename_sarg(args.last(), from, to));
        let a = args.last();
        match a {
            SArg::Binding(b) => match b.kind {
                SKind::Expr(e) => {
                    lemma_expr_refs(e, from, to);
                },
                SKind::Wire(p) => {
                    assert(arg_port_refs(rename_sarg(a, from, to)) =~= retargeted(arg_port_refs(a), from, to));
                },
                SKind::Param(_) => {
                    assert(arg_port_refs(rename_sarg(a, from, to)) =~= retargeted(arg_port_refs(a), from, to));
                },
            },
            SArg::Comment(_) => {
                assert(arg_port_refs(rename_sarg(a, from, to)) =~= retargeted(arg_port_refs(a), from, to));
            },
        }
        lemma_retargeted_concat(args_port_refs(q), arg_port_refs(a), from, to);
    }
}

proof fn lemma_item_refs(i: SItem, from: Seq<char>, to: Seq<char>)
    ensures
        item_port_refs(rename_sitem(i, from, to)) == retargeted(item_port_refs(i), from, to),
{
    match i {
        SItem::Wire(a, b, _) => {
            assert(item_port_refs(rename_sitem(i, from, to)) =~= retargeted(item_port_refs(i), from, to));
        },
        SItem::ExprWire(a, e, _) => {
            lemma_expr_refs(e, from, to);
            lemma_retargeted_concat(seq![a], expr_refs(e), from, to);
            assert(retargeted(seq![a], from, to) =~= seq![retarget(a, from, to)]);
        },
        SItem::Assign(a, _, _) => {
            assert(item_port_refs(rename_sitem(i, from, to)) =~= retargeted(item_port_refs(i), from, to));
        },
        SItem::Block(b) => {
            lemma_args_refs(b.args, from, to);
        },
        SItem::Instance(b) => {
            lemma_args_refs(b.args, from, to);
        },
        _ => {
            assert(item_port_refs(rename_sitem(i, from, to)) =~= retargeted(item_port_refs(i), from, to));
        },
    }
}

proof fn lemma_rename_sitems_index(s: Seq<SItem>, from: Seq<char>, to: Seq<char>)
    ensures
        rename_sitems(s, from, to).len() == s.len(),
        forall|k: int| 0 <= k < s.len() ==> #[trigger] rename_sitems(s, from, to)[k] == rename_sitem(s[k], from, to),
    decreases s.len(),
{
    if s.len() > 0 {
        let q = s.subrange(0, s.len() - 1);
        lemma_rename_sitems_index(q, from, to);
        assert forall|k: int| 0 <= k < s.len() implies #[trigger] rename_sitems(s, from, to)[k] == rename_sitem(s[k], from, to) by {
            if k < s.len() - 1 {
                assert(q[k] == s[k]);
            }
        }
    }
}

/// A rename retargets every port reference of every top-level statement:
/// each reference that named `from` names `to` afterwards, every other
/// reference is unchanged, and (when the names differ) no reference to
/// `from` is left.
pub proof fn rename_retargets_every_reference(items: Seq<SItem>, from: Seq<char>, to: Seq<char>)
    ensures
        rename_sitems(items, from, to).len() == items.len(),
        forall|k: int|
            0 <= k < items.len() ==> item_port_refs(#[trigger] rename_sitems(items, from, to)[k]) == retargeted(
                item_port_refs(items[k]),
                from,
                to,
            ),
        from != to ==> forall|k: int, q: int|
            0 <= k < items.len() && 0 <= q < item_port_refs(rename_sitems(items, from, to)[k]).len()
                ==> (#[trigger] item_port_refs(rename_sitems(items, from, to)[k])[q]).0 != from,
{
    lemma_rename_sitems_index(items, from, to);
    assert forall|k: int| 0 <= k < items.len() implies item_port_refs(#[trigger] rename_sitems(items, from, to)[k])
        == retargeted(item_port_refs(items[k]), from, to) by {
        lemma_item_refs(items[k], from, to);
    }
}

// ---------------------------------------------------------------------------
// Lockfile key moves
// ---------------------------------------------------------------------------

/// Which lockfile map a rekey touches.
#[derive(Debug, Clone, Copy, PartialEq, Eq, Structural)]
pub enum RekeyKind {
    Object,
    Extern,
}

/// One lockfile key move implied by a rename: `(old, new, kind)`.
pub type Rekey = (String, String, RekeyKind);

pub open spec fn rekey_v(r: Rekey) -> (Seq<char>, Seq<char>, RekeyKind) {
    (r.0@, r.1@, r.2)
}

pub open spec fn rekeys_v(rs: Seq<Rekey>) -> Seq<(Seq<char>, Seq<char>, RekeyKind)> {
    rs.map_values(|r: Rekey| rekey_v(r))
}

/// The managed blocks and externs of flat statements, in order.
pub open spec fn flat_keys(flat: Seq<SItem>) -> Seq<(RekeyKind, Seq<char>)>
    decreases flat.len(),
{
    if flat.len() == 0 {
        seq![]
    } else {
        let p = flat_keys(flat.drop_last());
        match flat.last() {
            SItem::Block(b) => p.push((RekeyKind::Object, b.slug)),
            SItem::Extern(e) => p.push((RekeyKind::Extern, e.slug)),
            _ => p,
        }
    }
}

pub open spec fn flat_outcome(m1: Seq<Item>, r: core::result::Result<Seq<(RekeyKind, Seq<char>)>, Seq<char>>) -> bool {
    match desugar_spec(m1, lowered_sinks(m1)) {
        Err(m) => r == Err::<Seq<(RekeyKind, Seq<char>)>, Seq<char>>(m),
        Ok((st, _)) => r == Ok::<Seq<(RekeyKind, Seq<char>)>, Seq<char>>(flat_keys(st.out)),
    }
}

/// `r` is what expanding and desugaring `items` gives: the keys of the
/// flat statements, or the error.
pub open spec fn flattens(items: Seq<Item>, r: core::result::Result<Seq<(RekeyKind, Seq<char>)>, Seq<char>>) -> bool {
    match expand_spec(items) {
        Err(m) => r == Err::<Seq<(RekeyKind, Seq<char>)>, Seq<char>>(m),
        Ok(ex) => exists|m1: Seq<Item>| items_v(m1) == ex && #[trigger] flat_outcome(m1, r),
    }
}

/// The key pairs whose names differ, as `(old, new, kind)`.
pub open spec fn moves(a: Seq<(RekeyKind, Seq<char>)>, b: Seq<(RekeyKind, Seq<char>)>, n: nat) -> Seq<(Seq<char>, Seq<char>, RekeyKind)>
    decreases n,
{
    if n == 0 {
        seq![]
    } else {
        let p = moves(a, b, (n - 1) as nat);
        if a[n - 1].1 != b[n - 1].1 {
            p.push((a[n - 1].1, b[n - 1].1, a[n - 1].0))
        } else {
            p
        }
    }
}

pub open spec fn same_shape(a: Seq<(RekeyKind, Seq<char>)>, b: Seq<(RekeyKind, Seq<char>)>) -> bool {
    a.len() == b.len() && forall|i: int| 0 <= i < a.len() ==> #[trigger] a[i].0 == b[i].0
}

pub open spec fn rekeys_of(a: Seq<(RekeyKind, Seq<char>)>, b: Seq<(RekeyKind, Seq<char>)>) -> core::result::Result<Seq<(Seq<char>, Seq<char>, RekeyKind)>, Seq<char>> {
    if same_shape(a, b) {
        Ok(moves(a, b, a.len()))
    } else {
        Err("internal: the rename changed the module's structure"@)
    }
}

spec fn keys_v(v: Seq<(RekeyKind, String)>) -> Seq<(RekeyKind, Seq<char>)> {
    v.map_values(|k: (RekeyKind, String)| (k.0, k.1@))
}

spec fn flat_res(r: Result<Vec<(RekeyKind, String)>>) -> core::result::Result<Seq<(RekeyKind, Seq<char>)>, Seq<char>> {
    match r {
        Ok(v) => Ok(keys_v(v@)),
        Err(Error::Compile(m)) => Err(m@),
        Err(_) => Err(seq![]),
    }
}

fn flatten(m: &Module) -> (r: Result<Vec<(RekeyKind, String)>>)
    ensures
        flattens(m.items@, flat_res(r)),
        r is Err ==> r->Err_0 is Compile,
{
    let ex = match m.expand() {
        Ok(x) => x,
        Err(e) => return Err(e),
    };
    let ghost m1 = ex.items@;
    let flat = match ex.desugar() {
        Ok((f, _)) => f,
        Err(e) => {
            proof {
                assert(flat_outcome(m1, flat_res(Err::<Vec<(RekeyKind, String)>, Error>(e))));
            }
            return Err(e);
        },
    };
    let ghost V = items_v(flat.items@);
    proof {
        lemma_items_v_index(flat.items@);
    }
    let mut out: Vec<(RekeyKind, String)> = Vec::new();
    let mut i: usize = 0;
    while i < flat.items.len()
        invariant
            0 <= i <= flat.items@.len(),
            V == items_v(flat.items@),
            V.len() == flat.items@.len(),
            forall|k: int| 0 <= k < flat.items@.len() ==> #[trigger] V[k] == item_v(flat.items@[k]),
            keys_v(out@) == flat_keys(V.take(i as int)),
        decreases flat.items@.len() - i,
    {
        proof {
            assert(V.take(i + 1).drop_last() =~= V.take(i as int));
            assert(V.take(i + 1).last() == item_v(flat.items@[i as int]));
        }
        match &flat.items[i] {
            Item::Block(b) => {
                let k = (RekeyKind::Object, b.slug.clone());
                proof {
                    assert(keys_v(out@.push(k)) =~= keys_v(out@).push((k.0, k.1@)));
                }
                out.push(k);
            },
            Item::Extern(e) => {
                let k = (RekeyKind::Extern, e.slug.clone());
                proof {
                    assert(keys_v(out@.push(k)) =~= keys_v(out@).push((k.0, k.1@)));
                }
                out.push(k);
            },
            _ => {},
        }
        i = i + 1;
    }
    proof {
        assert(V.take(V.len() as int) =~= V);
        assert(flat_outcome(m1, flat_res(Ok::<Vec<(RekeyKind, String)>, Error>(out))));
    }
    Ok(out)
}

/// How a rekey computation reports the two flattenings.
pub open spec fn rekeys_reported(
    fa: core::result::Result<Seq<(RekeyKind, Seq<char>)>, Seq<char>>,
    fb: core::result::Result<Seq<(RekeyKind, Seq<char>)>, Seq<char>>,
    r: Result<Vec<Rekey>>,
) -> bool {
    match fa {
        Err(m) => r matches Err(e) && e matches Error::Compile(x) && x@ == m,
        Ok(a) => match fb {
            Err(m) => r matches Err(e) && e matches Error::Compile(x) && x@ == m,
            Ok(b) => match rekeys_of(a, b) {
                Err(m) => r matches Err(e) && e matches Error::Compile(x) && x@ == m,
                Ok(mv) => r matches Ok(v) && rekeys_v(v@) == mv,
            },
        },
    }
}

fn rekeys_from(before: &Vec<(RekeyKind, String)>, after: &Vec<(RekeyKind, String)>) -> (r: Result<Vec<Rekey>>)
    ensures
        match rekeys_of(keys_v(before@), keys_v(after@)) {
            Err(m) => r matches Err(e) && e matches Error::Compile(x) && x@ == m,
            Ok(mv) => r matches Ok(v) && rekeys_v(v@) == mv,
        },
{
    let ghost A = keys_v(before@);
    let ghost B = keys_v(after@);
    let mut same = before.len() == after.len();
    if same {
        let mut i: usize = 0;
        while i < before.len()
            invariant
                0 <= i <= before@.len(),
                before@.len() == after@.len(),
                A == keys_v(before@),
                B == keys_v(after@),
                same == (forall|j: int| 0 <= j < i ==> #[trigger] A[j].0 == B[j].0),
            decreases before@.len() - i,
        {
            if before[i].0 != after[i].0 {
                same = false;
            }
            proof {
                if same {
                    assert forall|j: int| 0 <= j < i + 1 implies #[trigger] A[j].0 == B[j].0 by {
                        if j == i {
                            assert(A[j].0 == before@[j].0);
                        }
                    }
                } else {
                    if A[i as int].0 != B[i as int].0 {
                        assert(!(forall|j: int| 0 <= j < i + 1 ==> #[trigger] A[j].0 == B[j].0));
                    }
                }
            }
            i = i + 1;
        }
    }
    if !same {
        return Err(Error::Compile(string_of("internal: the rename changed the module's structure")));
    }
    let mut out: Vec<Rekey> = Vec::new();
    let mut i: usize = 0;
    proof {
        assert(rekeys_v(out@) =~= Seq::<(Seq<char>, Seq<char>, RekeyKind)>::empty());
    }
    while i < before.len()
        invariant
            0 <= i <= before@.len(),
            before@.len() == after@.len(),
            A == keys_v(before@),
            B == keys_v(after@),
            rekeys_v(out@) == moves(A, B, i as nat),
        decreases before@.len() - i,
    {
        if !crate::text::str_eq(before[i].1.as_str(), after[i].1.as_str()) {
            let k: Rekey = (before[i].1.clone(), after[i].1.clone(), before[i].0);
            proof {
                assert(rekeys_v(out@.push(k)) =~= rekeys_v(out@).push(rekey_v(k)));
            }
            out.push(k);
        }
        i = i + 1;
    }
    Ok(out)
}

/// The lockfile key moves a rename implies: the module is expanded and
/// desugared before and after the rename and the managed blocks and
/// externs are paired by position, so synthetic slugs (template bodies,
/// expression blocks) whose keys shift with a declared name move too.
pub fn lock_rekeys(old_module: &Module, new_module: &Module) -> (r: Result<Vec<Rekey>>)
    ensures
        exists|fa: core::result::Result<Seq<(RekeyKind, Seq<char>)>, Seq<char>>|
            #[trigger] flattens(old_module.items@, fa) && match fa {
                Err(m) => r matches Err(e) && e matches Error::Compile(x) && x@ == m,
                Ok(_) => exists|fb: core::result::Result<Seq<(RekeyKind, Seq<char>)>, Seq<char>>|
                    #[trigger] flattens(new_module.items@, fb) && rekeys_reported(fa, fb, r),
            },
{
    let ra = flatten(old_module);
    let ghost fa = flat_res(ra);
    let before = match ra {
        Ok(v) => v,
        Err(e) => {
            let r = Err(e);
            proof {
                assert(flattens(old_module.items@, fa));
            }
            return r;
        },
    };
    let rb = flatten(new_module);
    let ghost fb = flat_res(rb);
    let after = match rb {
        Ok(v) => v,
        Err(e) => {
            let r = Err(e);
            proof {
                assert(flattens(old_module.items@, fa));
                assert(flattens(new_module.items@, fb) && rekeys_reported(fa, fb, r));
            }
            return r;
        },
    };
    let r = rekeys_from(&before, &after);
    proof {
        assert(flattens(old_module.items@, fa));
        assert(flattens(new_module.items@, fb) && rekeys_reported(fa, fb, r));
    }
    r
}

/// The lock maps while rekeys are applied, the number of entries moved so
/// far, and the message of a failed move.
pub struct RekeyState {
    pub objects: Seq<(Seq<char>, LockedObject)>,
    pub externals: Seq<(Seq<char>, LockedExternal)>,
    pub moved: nat,
    pub failed: Option<Seq<char>>,
}

pub open spec fn extern_taken_msg(slug: Seq<char>) -> Seq<char> {
    "extern slug `"@ + slug + "` already exists in lock"@
}

/// One rekey applied. An entry the lock does not carry is skipped; once a
/// move failed nothing changes any more.
pub open spec fn rekey_step(s: RekeyState, r: (Seq<char>, Seq<char>, RekeyKind)) -> RekeyState {
    if s.failed is Some {
        s
    } else {
        match r.2 {
            RekeyKind::Object => match map_get(s.objects, r.0) {
                None => s,
                Some(o) => if map_get(s.objects, r.1) is Some {
                    RekeyState { failed: Some(taken_msg(r.1)), ..s }
                } else {
                    RekeyState { objects: map_insert(map_remove(s.objects, r.0), r.1, o), moved: s.moved + 1, ..s }
                },
            },
            RekeyKind::Extern => match map_get(s.externals, r.0) {
                None => s,
                Some(x) => {
                    let rest = map_remove(s.externals, r.0);
                    if map_get(rest, r.1) is Some {
                        RekeyState { externals: rest, failed: Some(extern_taken_msg(r.1)), ..s }
                    } else {
                        RekeyState { externals: map_insert(rest, r.1, x), moved: s.moved + 1, ..s }
                    }
                },
            },
        }
    }
}

pub open spec fn rekeys_apply(s: RekeyState, rs: Seq<(Seq<char>, Seq<char>, RekeyKind)>) -> RekeyState
    decreases rs.len(),
{
    if rs.len() == 0 {
        s
    } else {
        rekey_step(rekeys_apply(s, rs.drop_last()), rs.last())
    }
}

/// Apply the rekeys to a lockfile, in order. Entries the lock does not
/// carry are skipped; a move onto a key the lock already has fails.
/// Returns how many entries moved.
pub fn apply_rekeys(lock: &mut Lockfile, rekeys: &[Rekey]) -> (r: Result<usize>)
    ensures
        ({
            let fin = rekeys_apply(
                RekeyState { objects: old(lock).objects@, externals: old(lock).externals@, moved: 0, failed: None },
                rekeys_v(rekeys@),
            );
            &&& final(lock).objects@ == fin.objects
            &&& final(lock).externals@ == fin.externals
            &&& match fin.failed {
                None => r == Ok::<usize, Error>(fin.moved as usize),
                Some(m) => r matches Err(e) && e matches Error::Lock(x) && x@ == m,
            }
        }),
        final(lock).lockfile_version == old(lock).lockfile_version,
        final(lock).target == old(lock).target,
        final(lock).counters == old(lock).counters,
        final(lock).extern_wires == old(lock).extern_wires,
        final(lock).set_originals == old(lock).set_originals,
        final(lock).removed == old(lock).removed,
        final(lock).removed_sets == old(lock).removed_sets,
{
    let ghost s0 = RekeyState { objects: lock.objects@, externals: lock.externals@, moved: 0, failed: None };
    let ghost R = rekeys_v(rekeys@);
    let mut moved: usize = 0;
    let mut i: usize = 0;
    while i < rekeys.len()
        invariant
            0 <= i <= rekeys@.len(),
            moved <= i,
            R == rekeys_v(rekeys@),
            ({
                let s = rekeys_apply(s0, R.take(i as int));
                &&& s.failed is None
                &&& lock.objects@ == s.objects
                &&& lock.externals@ == s.externals
                &&& s.moved == moved
            }),
            s0 == (RekeyState { objects: old(lock).objects@, externals: old(lock).externals@, moved: 0, failed: None }),
            lock.lockfile_version == old(lock).lockfile_version,
            lock.target == old(lock).target,
            lock.counters == old(lock).counters,
            lock.extern_wires == old(lock).extern_wires,
            lock.set_originals == old(lock).set_originals,
            lock.removed == old(lock).removed,
            lock.removed_sets == old(lock).removed_sets,
        decreases rekeys@.len() - i,
    {
        proof {
            assert(R.take(i + 1).drop_last() =~= R.take(i as int));
            assert(R.take(i + 1).last() == rekey_v(rekeys@[i as int]));
        }
        let (from, to, kind) = (&rekeys[i].0, &rekeys[i].1, rekeys[i].2);
        match kind {
            RekeyKind::Object => {
                if lock.objects.contains_key(from.as_str()) {
                    match lock.rename_object(from.as_str(), to.as_str()) {
                        Ok(()) => {
                            moved = moved + 1;
                        },
                        Err(e) => {
                            proof {
                                lemma_failed_sticks(s0, R, i + 1);
                            }
                            return Err(e);
                        },
                    }
                }
            },
            RekeyKind::Extern => {
                if let Some(entry) = lock.externals.remove(from.as_str()) {
                    if lock.externals.contains_key(to.as_str()) {
                        let mut m = string_of("extern slug `");
                        push_str(&mut m, to.as_str());
                        push_str(&mut m, "` already exists in lock");
                        proof {
                            assert(m@ =~= extern_taken_msg(to@));
                            lemma_failed_sticks(s0, R, i + 1);
                        }
                        return Err(Error::Lock(m));
                    }
                    lock.externals.insert(to.clone(), entry);
                    moved = moved + 1;
                }
            },
        }
        i = i + 1;
    }
    proof {
        assert(R.take(R.len() as int) =~= R);
    }
    Ok(moved)
}

proof fn lemma_failed_sticks(s0: RekeyState, rs: Seq<(Seq<char>, Seq<char>, RekeyKind)>, n: int)
    requires
        0 <= n <= rs.len(),
        rekeys_apply(s0, rs.take(n)).failed is Some,
    ensures
        rekeys_apply(s0, rs) == rekeys_apply(s0, rs.take(n)),
    decreases rs.len() - n,
{
    if n < rs.len() {
        assert(rs.take(n + 1).drop_last() =~= rs.take(n));
        lemma_failed_sticks(s0, rs, n + 1);
    } else {
        assert(rs.take(n) =~= rs);
    }
}

} // verus!
