//! Module validation: name uniqueness, reference resolution, and
//! statement-level consistency (no base config needed).
use crate::doc::last_assigned;
use crate::error::Error;
use crate::ir::ast::{
    lets_of, operands_of, quoted, value_text, BindingKind, BlockDecl, Expr, Item, LetDecl, Module,
    Operand, PortRef, Value,
};
use crate::ir::emit::{expr_text, port_text};
use crate::ir::validate::{suggest, suggestion};
use crate::strmap::{map_get, StrMap};
use crate::text::{push_str, str_eq};
use vstd::prelude::*;

verus! {

/// What a declared name refers to.
#[derive(Debug, Clone, Copy, PartialEq, Eq, Structural)]
pub enum NameKind {
    Extern,
    Block,
    Let,
    Template,
    Instance,
}

pub open spec fn describe(k: NameKind) -> Seq<char> {
    match k {
        NameKind::Extern => "an extern"@,
        NameKind::Block => "a managed block"@,
        NameKind::Let => "a `let` constant"@,
        NameKind::Template => "a template"@,
        NameKind::Instance => "a template instance"@,
    }
}

fn push_describe(out: &mut String, k: NameKind)
    ensures
        final(out)@ == old(out)@ + describe(k),
{
    match k {
        NameKind::Extern => push_str(out, "an extern"),
        NameKind::Block => push_str(out, "a managed block"),
        NameKind::Let => push_str(out, "a `let` constant"),
        NameKind::Template => push_str(out, "a template"),
        NameKind::Instance => push_str(out, "a template instance"),
    }
}

/// The name a statement declares in the module namespace, if any.
pub open spec fn declared(i: Item) -> Option<(Seq<char>, NameKind)> {
    match i {
        Item::Extern(e) => Some((e.slug@, NameKind::Extern)),
        Item::Block(b) => Some((b.slug@, NameKind::Block)),
        Item::Let(l) => Some((l.name@, NameKind::Let)),
        Item::Template(t) => Some((t.name@, NameKind::Template)),
        Item::Instance(b) => Some((b.slug@, NameKind::Instance)),
        _ => None,
    }
}

/// The declarations of a statement list, in order.
pub open spec fn name_entries(items: Seq<Item>) -> Seq<(Seq<char>, NameKind)>
    decreases items.len(),
{
    if items.len() == 0 {
        seq![]
    } else {
        name_entries(items.drop_last()) + match declared(items.last()) {
            Some(d) => seq![d],
            None => seq![],
        }
    }
}

/// The first name declared a second time.
pub open spec fn first_duplicate(es: Seq<(Seq<char>, NameKind)>) -> Option<Seq<char>>
    decreases es.len(),
{
    if es.len() == 0 {
        None
    } else {
        match first_duplicate(es.drop_last()) {
            Some(n) => Some(n),
            None => if last_assigned(es.drop_last(), es.last().0) is Some {
                Some(es.last().0)
            } else {
                None
            },
        }
    }
}

pub open spec fn err(m: Seq<char>) -> Result<(), Seq<char>> {
    Err(m)
}

/// `a`, or `b` when `a` passed.
pub open spec fn then(a: Result<(), Seq<char>>, b: Result<(), Seq<char>>) -> Result<(), Seq<char>> {
    match a {
        Err(m) => Err(m),
        Ok(()) => b,
    }
}

/// A check's outcome as the library reports it.
pub open spec fn reports(r: crate::error::Result<()>, s: Result<(), Seq<char>>) -> bool {
    match r {
        Ok(()) => s is Ok,
        Err(e) => s is Err && (e matches Error::Compile(m) && s == err(m@)),
    }
}

pub fn fail(m: String) -> (r: crate::error::Result<()>)
    ensures
        reports(r, err(m@)),
{
    Err(Error::Compile(m))
}

/// A reference to a block or extern (`slug.Port`).
pub open spec fn object_ref(es: Seq<(Seq<char>, NameKind)>, r: PortRef) -> Result<(), Seq<char>> {
    let slug = r.slug@;
    let at = " (in `"@ + port_text(r) + "`)"@;
    match last_assigned(es, slug) {
        None => err("reference to undeclared slug `"@ + slug + "`"@ + at),
        Some(NameKind::Let) => err("`"@ + slug + "` is a `let` constant, not a block or extern"@ + at),
        Some(NameKind::Template) => err(
            "`"@ + slug + "` is a template, not an object — instantiate it first (`<slug> = "@ + slug
                + "(…)`)"@ + at,
        ),
        Some(NameKind::Instance) => err(
            "`"@ + slug
                + "` is a template instance and names no object itself — reference one of its blocks by its expanded name (`"@
                + slug + "_<block>`)"@ + at,
        ),
        Some(_) => Ok(()),
    }
}

/// A value's reference to a `let` constant, if it holds one.
pub open spec fn value_ref(
    es: Seq<(Seq<char>, NameKind)>,
    lets: Seq<Seq<char>>,
    v: Value,
) -> Result<(), Seq<char>> {
    match v {
        Value::Ref(name) => match last_assigned(es, name@) {
            Some(NameKind::Let) => Ok(()),
            Some(k) => err(
                "`"@ + name@ + "` is "@ + describe(k)
                    + ", not a `let` constant (quote the value if a string was intended)"@,
            ),
            None => err(
                "undeclared constant `"@ + name@ + "`"@ + suggestion(name@, lets)
                    + " (declare it with `let "@ + name@
                    + " = …`, or quote the value if a string was intended)"@,
            ),
        },
        _ => Ok(()),
    }
}

/// The operands of an expression, in order: ports resolve, constants are
/// numbers or `let` references.
pub open spec fn operands_check(
    es: Seq<(Seq<char>, NameKind)>,
    lets: Seq<Seq<char>>,
    ops: Seq<Operand>,
    sink: Seq<char>,
) -> Result<(), Seq<char>>
    decreases ops.len(),
{
    if ops.len() == 0 {
        Ok(())
    } else {
        then(
            operands_check(es, lets, ops.drop_last(), sink),
            match ops.last() {
                Operand::Port(p) => object_ref(es, p),
                Operand::Value(Value::Str(s)) => err(
                    "string "@ + quoted(s@) + " in the expression on `"@ + sink
                        + "` — expressions compare numbers and ports only"@,
                ),
                Operand::Value(v) => value_ref(es, lets, v),
            },
        )
    }
}

/// The module namespace and the names of its constants, as validation
/// reads them.
pub struct Names<'a> {
    kinds: StrMap<NameKind>,
    lets: Vec<&'a str>,
}

impl<'a> Names<'a> {
    pub closed spec fn models(&self, es: Seq<(Seq<char>, NameKind)>, lets: Seq<Seq<char>>) -> bool {
        &&& forall|k: Seq<char>| #[trigger] map_get(self.kinds@, k) == last_assigned(es, k)
        &&& self.lets@.map_values(|c: &str| c@) == lets
    }

    fn kind(&self, name: &str, Ghost(es): Ghost<Seq<(Seq<char>, NameKind)>>, Ghost(lets): Ghost<Seq<Seq<char>>>) -> (r: Option<NameKind>)
        requires
            self.models(es, lets),
        ensures
            r == last_assigned(es, name@),
    {
        let r = self.kinds.get(name);
        proof {
            let _ = map_get(self.kinds@, name@);
        }
        match r {
            Some(k) => Some(*k),
            None => None,
        }
    }

    fn object_ref(&self, r: &PortRef, Ghost(es): Ghost<Seq<(Seq<char>, NameKind)>>, Ghost(lets): Ghost<Seq<Seq<char>>>) -> (res: crate::error::Result<()>)
        requires
            self.models(es, lets),
        ensures
            reports(res, object_ref(es, *r)),
    {
        let slug = r.slug.as_str();
        let k = self.kind(slug, Ghost(es), Ghost(lets));
        let mut at = String::new();
        push_str(&mut at, " (in `");
        crate::ir::emit::push_port(&mut at, r);
        push_str(&mut at, "`)");
        assert(at@ =~= " (in `"@ + port_text(*r) + "`)"@);
        let mut m = String::new();
        match k {
            None => {
                push_str(&mut m, "reference to undeclared slug `");
                push_str(&mut m, slug);
                push_str(&mut m, "`");
            },
            Some(NameKind::Let) => {
                push_str(&mut m, "`");
                push_str(&mut m, slug);
                push_str(&mut m, "` is a `let` constant, not a block or extern");
            },
            Some(NameKind::Template) => {
                push_str(&mut m, "`");
                push_str(&mut m, slug);
                push_str(&mut m, "` is a template, not an object — instantiate it first (`<slug> = ");
                push_str(&mut m, slug);
                push_str(&mut m, "(…)`)");
            },
            Some(NameKind::Instance) => {
                push_str(&mut m, "`");
                push_str(&mut m, slug);
                push_str(&mut m, "` is a template instance and names no object itself — reference one of its blocks by its expanded name (`");
                push_str(&mut m, slug);
                push_str(&mut m, "_<block>`)");
            },
            Some(_) => {
                return Ok(());
            },
        }
        push_str(&mut m, at.as_str());
        assert(err(m@) == object_ref(es, *r));
        fail(m)
    }

    fn value_ref(&self, v: &Value, Ghost(es): Ghost<Seq<(Seq<char>, NameKind)>>, Ghost(lets): Ghost<Seq<Seq<char>>>) -> (res: crate::error::Result<()>)
        requires
            self.models(es, lets),
        ensures
            reports(res, value_ref(es, lets, *v)),
    {
        if let Value::Ref(name) = v {
            let mut m = String::new();
            match self.kind(name.as_str(), Ghost(es), Ghost(lets)) {
                Some(NameKind::Let) => {
                    return Ok(());
                },
                Some(k) => {
                    push_str(&mut m, "`");
                    push_str(&mut m, name.as_str());
                    push_str(&mut m, "` is ");
                    push_describe(&mut m, k);
                    push_str(&mut m, ", not a `let` constant (quote the value if a string was intended)");
                },
                None => {
                    let hint = suggest(name.as_str(), &self.lets);
                    push_str(&mut m, "undeclared constant `");
                    push_str(&mut m, name.as_str());
                    push_str(&mut m, "`");
                    push_str(&mut m, hint.as_str());
                    push_str(&mut m, " (declare it with `let ");
                    push_str(&mut m, name.as_str());
                    push_str(&mut m, " = …`, or quote the value if a string was intended)");
                },
            }
            assert(err(m@) == value_ref(es, lets, *v));
            fail(m)
        } else {
            Ok(())
        }
    }

    fn operands_check(&self, e: &Expr, sink: &str, Ghost(es): Ghost<Seq<(Seq<char>, NameKind)>>, Ghost(lets): Ghost<Seq<Seq<char>>>) -> (res: crate::error::Result<()>)
        requires
            self.models(es, lets),
        ensures
            reports(res, operands_check(es, lets, operands_of(*e), sink@)),
    {
        let ops = e.operands();
        let ghost ov = operands_of(*e);
        let mut i: usize = 0;
        while i < ops.len()
            invariant
                0 <= i <= ops@.len(),
                self.models(es, lets),
                crate::ir::ast::derefs(ops@) == ov,
                ov == operands_of(*e),
                operands_check(es, lets, ov.take(i as int), sink@) is Ok,
            decreases ops@.len() - i,
        {
            proof {
                assert(ov.take(i + 1).drop_last() =~= ov.take(i as int));
                assert(ov.take(i + 1).last() == *ops@[i as int]);
            }
            let r = match ops[i] {
                Operand::Port(p) => self.object_ref(p, Ghost(es), Ghost(lets)),
                Operand::Value(Value::Str(s)) => {
                    let mut m = String::new();
                    push_str(&mut m, "string ");
                    crate::ir::ast::push_quoted(&mut m, s.as_str());
                    push_str(&mut m, " in the expression on `");
                    push_str(&mut m, sink);
                    push_str(&mut m, "` — expressions compare numbers and ports only");
                    assert(m@ =~= "string "@ + quoted(s@) + " in the expression on `"@ + sink@
                        + "` — expressions compare numbers and ports only"@);
                    fail(m)
                },
                Operand::Value(v) => self.value_ref(v, Ghost(es), Ghost(lets)),
            };
            let ghost elem = match ov[i as int] {
                Operand::Port(p) => object_ref(es, p),
                Operand::Value(Value::Str(s)) => err(
                    "string "@ + quoted(s@) + " in the expression on `"@ + sink@
                        + "` — expressions compare numbers and ports only"@,
                ),
                Operand::Value(v) => value_ref(es, lets, v),
            };
            assert(reports(r, elem));
            assert(operands_check(es, lets, ov.take(i + 1), sink@) == then(
                operands_check(es, lets, ov.take(i as int), sink@),
                elem,
            ));
            if r.is_err() {
                proof {
                    assert(operands_check(es, lets, ov.take(i + 1), sink@) == elem);
                    lemma_operands_err_sticks(es, lets, ov, sink@, i + 1, ov.len() as int);
                    assert(ov.take(ov.len() as int) =~= ov);
                    assert(operands_check(es, lets, ov, sink@) == elem);
                }
                return r;
            }
            i = i + 1;
        }
        proof {
            assert(ov.take(ov.len() as int) =~= ov);
        }
        Ok(())
    }
}

/// Once a prefix of the operands fails, every longer prefix fails the
/// same way.
proof fn lemma_operands_err_sticks(
    es: Seq<(Seq<char>, NameKind)>,
    lets: Seq<Seq<char>>,
    ov: Seq<Operand>,
    sink: Seq<char>,
    j: int,
    k: int,
)
    requires
        0 <= j <= k <= ov.len(),
        operands_check(es, lets, ov.take(j), sink) is Err,
    ensures
        operands_check(es, lets, ov.take(k), sink) == operands_check(es, lets, ov.take(j), sink),
    decreases k - j,
{
    if k > j {
        lemma_operands_err_sticks(es, lets, ov, sink, j, k - 1);
        assert(ov.take(k).drop_last() =~= ov.take(k - 1));
    }
}

/// The checks `f(0)`, …, `f(n - 1)` in order: the first failure, or `Ok`.
pub open spec fn all_ok(n: nat, f: spec_fn(int) -> Result<(), Seq<char>>) -> Result<(), Seq<char>>
    decreases n,
{
    if n == 0 {
        Ok(())
    } else {
        then(all_ok((n - 1) as nat, f), f(n - 1))
    }
}

/// A failure among the first checks is the failure of all of them.
pub proof fn lemma_all_ok_sticks(f: spec_fn(int) -> Result<(), Seq<char>>, j: nat, k: nat)
    requires
        j <= k,
        all_ok(j, f) is Err,
    ensures
        all_ok(k, f) == all_ok(j, f),
    decreases k - j,
{
    if k > j {
        lemma_all_ok_sticks(f, j, (k - 1) as nat);
    }
}

/// `` `slug = Type(…)` ``.
pub open spec fn call_sig(slug: Seq<char>, ty: Seq<char>) -> Seq<char> {
    "`"@ + slug + " = "@ + ty + "(…)`"@
}

fn push_call_sig(out: &mut String, slug: &str, ty: &str)
    ensures
        final(out)@ == old(out)@ + call_sig(slug@, ty@),
{
    let ghost o = out@;
    push_str(out, "`");
    push_str(out, slug);
    push_str(out, " = ");
    push_str(out, ty);
    push_str(out, "(…)`");
    assert(out@ =~= o + call_sig(slug@, ty@));
}

/// Whether an earlier binding set parameter `port`.
pub open spec fn seen_param(prefix: Seq<crate::ir::ast::Binding>, port: Seq<char>) -> bool {
    exists|j: int| 0 <= j < prefix.len() && (#[trigger] prefix[j]).kind is Param && prefix[j].port@ == port
}

/// Whether an earlier binding drew the same wire into `port`.
pub open spec fn seen_wire(prefix: Seq<crate::ir::ast::Binding>, port: Seq<char>, src: PortRef) -> bool {
    exists|j: int|
        0 <= j < prefix.len() && (#[trigger] prefix[j]).port@ == port && (prefix[j].kind matches BindingKind::Wire(s2)
            && crate::ir::ast::port_view(s2) == crate::ir::ast::port_view(src))
}

/// Whether an earlier binding wired the same expression into `port`.
pub open spec fn seen_expr(prefix: Seq<crate::ir::ast::Binding>, port: Seq<char>, text: Seq<char>) -> bool {
    exists|j: int|
        0 <= j < prefix.len() && (#[trigger] prefix[j]).port@ == port && (prefix[j].kind matches BindingKind::Expr(e2)
            && expr_text(e2) == text)
}

/// A parameter argument's value: `mirrors:` only on refs, anything else
/// a literal or a `let` reference.
pub open spec fn param_value_check(
    es: Seq<(Seq<char>, NameKind)>,
    lets: Seq<Seq<char>>,
    b: BlockDecl,
    port: Seq<char>,
    v: Value,
) -> Result<(), Seq<char>> {
    if port == "mirrors"@ {
        if b.block_type@ == "InputRef"@ || b.block_type@ == "OutputRef"@ {
            Ok(())
        } else {
            err(
                "`mirrors:` applies to InputRef/OutputRef only, not "@ + b.block_type@ + " (in "@
                    + call_sig(b.slug@, b.block_type@) + ")"@,
            )
        }
    } else {
        value_ref(es, lets, v)
    }
}

/// One argument of a managed block, given the arguments before it.
pub open spec fn binding_check(
    es: Seq<(Seq<char>, NameKind)>,
    lets: Seq<Seq<char>>,
    b: BlockDecl,
    prefix: Seq<crate::ir::ast::Binding>,
    x: crate::ir::ast::Binding,
) -> Result<(), Seq<char>> {
    let sig = call_sig(b.slug@, b.block_type@);
    let port = x.port@;
    match x.kind {
        BindingKind::Param(v) => then(
            param_value_check(es, lets, b, port, v),
            if seen_param(prefix, port) {
                err("duplicate parameter `"@ + port + "` in "@ + sig)
            } else {
                Ok(())
            },
        ),
        BindingKind::Wire(src) => then(
            object_ref(es, src),
            if seen_wire(prefix, port, src) {
                err("duplicate wire `"@ + port + ": "@ + port_text(src) + "` in "@ + sig)
            } else {
                Ok(())
            },
        ),
        BindingKind::Expr(e) => then(
            operands_check(es, lets, operands_of(e), b.slug@ + "."@ + port),
            if seen_expr(prefix, port, expr_text(e)) {
                err("duplicate expression `"@ + port + ": "@ + expr_text(e) + "` in "@ + sig)
            } else {
                Ok(())
            },
        ),
    }
}

/// The arguments of a managed block, in order.
pub open spec fn block_check(
    es: Seq<(Seq<char>, NameKind)>,
    lets: Seq<Seq<char>>,
    b: BlockDecl,
) -> Result<(), Seq<char>> {
    let bs = crate::ir::ast::bindings_of(b.args@);
    all_ok(bs.len(), |k: int| binding_check(es, lets, b, bs.take(k), bs[k]))
}

impl<'a> Names<'a> {
    fn binding_check(&self, b: &BlockDecl, bs: &Vec<&crate::ir::ast::Binding>, i: usize, Ghost(es): Ghost<Seq<(Seq<char>, NameKind)>>, Ghost(lets): Ghost<Seq<Seq<char>>>) -> (res: crate::error::Result<()>)
        requires
            self.models(es, lets),
            i < bs@.len(),
        ensures
            reports(
                res,
                binding_check(
                    es,
                    lets,
                    *b,
                    crate::ir::ast::derefs(bs@).take(i as int),
                    *bs@[i as int],
                ),
            ),
    {
        let ghost bv = crate::ir::ast::derefs(bs@);
        let ghost prefix = bv.take(i as int);
        let x = bs[i];
        let port = x.port.as_str();
        let mut sig = String::new();
        push_call_sig(&mut sig, b.slug.as_str(), b.block_type.as_str());
        match &x.kind {
            BindingKind::Param(v) => {
                let first = if str_eq(port, "mirrors") {
                    let t = b.block_type.as_str();
                    if str_eq(t, "InputRef") || str_eq(t, "OutputRef") {
                        Ok(())
                    } else {
                        let mut m = String::new();
                        push_str(&mut m, "`mirrors:` applies to InputRef/OutputRef only, not ");
                        push_str(&mut m, t);
                        push_str(&mut m, " (in ");
                        push_str(&mut m, sig.as_str());
                        push_str(&mut m, ")");
                        fail(m)
                    }
                } else {
                    self.value_ref(v, Ghost(es), Ghost(lets))
                };
                if first.is_err() {
                    return first;
                }
                assert(param_value_check(es, lets, *b, port@, *v) is Ok);
                let mut j: usize = 0;
                while j < i
                    invariant
                        0 <= j <= i < bs@.len(),
                        bv == crate::ir::ast::derefs(bs@),
                        prefix == bv.take(i as int),
                        bs@[i as int] == x,
                        port@ == x.port@,
                        x.kind == BindingKind::Param(*v),
                        sig@ == call_sig(b.slug@, b.block_type@),
                        param_value_check(es, lets, *b, port@, *v) is Ok,
                        forall|q: int| 0 <= q < j ==> !((#[trigger] prefix[q]).kind is Param && prefix[q].port@ == port@),
                    decreases i - j,
                {
                    let y = bs[j];
                    assert(prefix[j as int] == *y);
                    if let BindingKind::Param(_) = &y.kind {
                        if str_eq(y.port.as_str(), port) {
                            let mut m = String::new();
                            push_str(&mut m, "duplicate parameter `");
                            push_str(&mut m, port);
                            push_str(&mut m, "` in ");
                            push_str(&mut m, sig.as_str());
                            proof {
                                assert(seen_param(prefix, port@)) by {
                                    assert(prefix[j as int].kind is Param && prefix[j as int].port@ == port@);
                                }
                                assert(m@ =~= "duplicate parameter `"@ + port@ + "` in "@ + sig@);
                            }
                            return fail(m);
                        }
                    }
                    j = j + 1;
                }
                Ok(())
            },
            BindingKind::Wire(src) => {
                let first = self.object_ref(src, Ghost(es), Ghost(lets));
                if first.is_err() {
                    return first;
                }
                let mut j: usize = 0;
                while j < i
                    invariant
                        0 <= j <= i < bs@.len(),
                        bv == crate::ir::ast::derefs(bs@),
                        prefix == bv.take(i as int),
                        bs@[i as int] == x,
                        port@ == x.port@,
                        x.kind == BindingKind::Wire(*src),
                        sig@ == call_sig(b.slug@, b.block_type@),
                        object_ref(es, *src) is Ok,
                        forall|q: int| 0 <= q < j ==> !((#[trigger] prefix[q]).port@ == port@ && (prefix[q].kind matches BindingKind::Wire(s2)
                            && crate::ir::ast::port_view(s2) == crate::ir::ast::port_view(*src))),
                    decreases i - j,
                {
                    let y = bs[j];
                    assert(prefix[j as int] == *y);
                    if let BindingKind::Wire(s2) = &y.kind {
                        if str_eq(y.port.as_str(), port) && str_eq(s2.slug.as_str(), src.slug.as_str())
                            && str_eq(s2.port.as_str(), src.port.as_str()) {
                            let mut m = String::new();
                            push_str(&mut m, "duplicate wire `");
                            push_str(&mut m, port);
                            push_str(&mut m, ": ");
                            crate::ir::emit::push_port(&mut m, src);
                            push_str(&mut m, "` in ");
                            push_str(&mut m, sig.as_str());
                            proof {
                                assert(seen_wire(prefix, port@, *src)) by {
                                    assert(prefix[j as int].port@ == port@);
                                }
                                assert(m@ =~= "duplicate wire `"@ + port@ + ": "@ + port_text(*src) + "` in "@ + sig@);
                            }
                            return fail(m);
                        }
                    }
                    j = j + 1;
                }
                Ok(())
            },
            BindingKind::Expr(e) => {
                let mut sink = String::new();
                push_str(&mut sink, b.slug.as_str());
                push_str(&mut sink, ".");
                push_str(&mut sink, port);
                assert(sink@ =~= b.slug@ + "."@ + port@);
                let first = self.operands_check(e, sink.as_str(), Ghost(es), Ghost(lets));
                if first.is_err() {
                    return first;
                }
                let text = e.to_text();
                let mut j: usize = 0;
                while j < i
                    invariant
                        0 <= j <= i < bs@.len(),
                        bv == crate::ir::ast::derefs(bs@),
                        prefix == bv.take(i as int),
                        text@ == expr_text(*e),
                        bs@[i as int] == x,
                        port@ == x.port@,
                        x.kind == BindingKind::Expr(*e),
                        sig@ == call_sig(b.slug@, b.block_type@),
                        sink@ == b.slug@ + "."@ + port@,
                        operands_check(es, lets, operands_of(*e), sink@) is Ok,
                        forall|q: int| 0 <= q < j ==> !((#[trigger] prefix[q]).port@ == port@ && (prefix[q].kind matches BindingKind::Expr(e2)
                            && expr_text(e2) == text@)),
                    decreases i - j,
                {
                    let y = bs[j];
                    assert(prefix[j as int] == *y);
                    if let BindingKind::Expr(e2) = &y.kind {
                        let t2 = e2.to_text();
                        if str_eq(y.port.as_str(), port) && str_eq(t2.as_str(), text.as_str()) {
                            let mut m = String::new();
                            push_str(&mut m, "duplicate expression `");
                            push_str(&mut m, port);
                            push_str(&mut m, ": ");
                            push_str(&mut m, text.as_str());
                            push_str(&mut m, "` in ");
                            push_str(&mut m, sig.as_str());
                            proof {
                                assert(seen_expr(prefix, port@, text@)) by {
                                    assert(prefix[j as int].port@ == port@);
                                }
                                assert(m@ =~= "duplicate expression `"@ + port@ + ": "@ + expr_text(*e) + "` in "@ + sig@);
                            }
                            return fail(m);
                        }
                    }
                    j = j + 1;
                }
                Ok(())
            },
        }
    }

    fn block_check(&self, b: &BlockDecl, Ghost(es): Ghost<Seq<(Seq<char>, NameKind)>>, Ghost(lets): Ghost<Seq<Seq<char>>>) -> (res: crate::error::Result<()>)
        requires
            self.models(es, lets),
        ensures
            reports(res, block_check(es, lets, *b)),
    {
        let bs = b.bindings();
        let ghost bv = crate::ir::ast::derefs(bs@);
        let ghost f = |k: int| binding_check(es, lets, *b, bv.take(k), bv[k]);
        let mut i: usize = 0;
        while i < bs.len()
            invariant
                0 <= i <= bs@.len(),
                self.models(es, lets),
                bv == crate::ir::ast::derefs(bs@),
                bv == crate::ir::ast::bindings_of(b.args@),
                f == (|k: int| binding_check(es, lets, *b, bv.take(k), bv[k])),
                all_ok(i as nat, f) is Ok,
            decreases bs@.len() - i,
        {
            let r = self.binding_check(b, &bs, i, Ghost(es), Ghost(lets));
            assert(bv[i as int] == *bs@[i as int]);
            assert(all_ok((i + 1) as nat, f) == then(all_ok(i as nat, f), f(i as int)));
            if r.is_err() {
                proof {
                    lemma_all_ok_sticks(f, (i + 1) as nat, bv.len());
                }
                return r;
            }
            i = i + 1;
        }
        Ok(())
    }
}

/// The type of the first managed block named `slug`, or `…`.
pub open spec fn block_type_in(bs: Seq<BlockDecl>, slug: Seq<char>) -> Seq<char>
    decreases bs.len(),
{
    if bs.len() == 0 {
        "…"@
    } else if bs[0].slug@ == slug {
        bs[0].block_type@
    } else {
        block_type_in(bs.drop_first(), slug)
    }
}

fn block_type_exec<'a>(bs: &Vec<&'a BlockDecl>, slug: &str) -> (r: &'a str)
    ensures
        r@ == block_type_in(crate::ir::ast::derefs(bs@), slug@),
{
    let ghost bv = crate::ir::ast::derefs(bs@);
    let mut i: usize = 0;
    assert(bv.subrange(0, bv.len() as int) =~= bv);
    while i < bs.len()
        invariant
            0 <= i <= bv.len(),
            bv == crate::ir::ast::derefs(bs@),
            block_type_in(bv, slug@) == block_type_in(bv.subrange(i as int, bv.len() as int), slug@),
        decreases bv.len() - i,
    {
        proof {
            assert(bv.subrange(i as int, bv.len() as int)[0] == *bs@[i as int]);
            assert(bv.subrange(i as int, bv.len() as int).drop_first() =~= bv.subrange(
                i + 1,
                bv.len() as int,
            ));
        }
        if str_eq(bs[i].slug.as_str(), slug) {
            return bs[i].block_type.as_str();
        }
        i = i + 1;
    }
    "…"
}

pub open spec fn is_block(es: Seq<(Seq<char>, NameKind)>, slug: Seq<char>) -> bool {
    last_assigned(es, slug) == Some(NameKind::Block)
}

/// A `<-` wire: both ends resolve, and the sink is not a managed block.
pub open spec fn wire_check(
    es: Seq<(Seq<char>, NameKind)>,
    bs: Seq<BlockDecl>,
    w: crate::ir::ast::WireDecl,
) -> Result<(), Seq<char>> {
    then(
        object_ref(es, w.to),
        then(
            object_ref(es, w.from),
            if is_block(es, w.to.slug@) {
                err(
                    "`"@ + port_text(w.to) + " <- "@ + port_text(w.from) + "` targets managed block `"@
                        + w.to.slug@ + "` — wire it in the argument list instead (`"@ + w.to.port@
                        + ": "@ + port_text(w.from) + "` inside "@ + call_sig(
                        w.to.slug@,
                        block_type_in(bs, w.to.slug@),
                    ) + "); `<-` is for extern ports only"@,
                )
            } else {
                Ok(())
            },
        ),
    )
}

/// A `<-` expression: the sink resolves and is no managed block, the
/// operands resolve.
pub open spec fn expr_wire_check(
    es: Seq<(Seq<char>, NameKind)>,
    lets: Seq<Seq<char>>,
    w: crate::ir::ast::ExprWireDecl,
) -> Result<(), Seq<char>> {
    then(
        object_ref(es, w.to),
        then(
            if is_block(es, w.to.slug@) {
                err(
                    "`"@ + port_text(w.to) + " <- …` targets managed block `"@ + w.to.slug@
                        + "` — wire the expression's result in the argument list instead; `<-` is for extern ports only"@,
                )
            } else {
                Ok(())
            },
            operands_check(es, lets, operands_of(w.expr), port_text(w.to)),
        ),
    )
}

/// A port assignment: the target resolves and is no managed block, the
/// value resolves.
pub open spec fn assign_check(
    es: Seq<(Seq<char>, NameKind)>,
    lets: Seq<Seq<char>>,
    bs: Seq<BlockDecl>,
    a: crate::ir::ast::SetDecl,
) -> Result<(), Seq<char>> {
    then(
        object_ref(es, a.target),
        then(
            if is_block(es, a.target.slug@) {
                err(
                    "`"@ + port_text(a.target) + " = …` targets managed block `"@ + a.target.slug@
                        + "` — bind the parameter in the argument list instead (`"@ + a.target.port@
                        + ": …` inside "@ + call_sig(
                        a.target.slug@,
                        block_type_in(bs, a.target.slug@),
                    ) + "); port assignment is for extern ports only"@,
                )
            } else {
                Ok(())
            },
            value_ref(es, lets, a.value),
        ),
    )
}

impl<'a> Names<'a> {
    fn is_block(&self, slug: &str, Ghost(es): Ghost<Seq<(Seq<char>, NameKind)>>, Ghost(lets): Ghost<Seq<Seq<char>>>) -> (r: bool)
        requires
            self.models(es, lets),
        ensures
            r == is_block(es, slug@),
    {
        match self.kind(slug, Ghost(es), Ghost(lets)) {
            Some(NameKind::Block) => true,
            _ => false,
        }
    }

    fn wire_check(&self, bs: &Vec<&BlockDecl>, w: &crate::ir::ast::WireDecl, Ghost(es): Ghost<Seq<(Seq<char>, NameKind)>>, Ghost(lets): Ghost<Seq<Seq<char>>>) -> (res: crate::error::Result<()>)
        requires
            self.models(es, lets),
        ensures
            reports(res, wire_check(es, crate::ir::ast::derefs(bs@), *w)),
    {
        let r = self.object_ref(&w.to, Ghost(es), Ghost(lets));
        if r.is_err() {
            return r;
        }
        let r = self.object_ref(&w.from, Ghost(es), Ghost(lets));
        if r.is_err() {
            return r;
        }
        if self.is_block(w.to.slug.as_str(), Ghost(es), Ghost(lets)) {
            let ty = block_type_exec(bs, w.to.slug.as_str());
            let mut m = String::new();
            push_str(&mut m, "`");
            crate::ir::emit::push_port(&mut m, &w.to);
            push_str(&mut m, " <- ");
            crate::ir::emit::push_port(&mut m, &w.from);
            push_str(&mut m, "` targets managed block `");
            push_str(&mut m, w.to.slug.as_str());
            push_str(&mut m, "` — wire it in the argument list instead (`");
            push_str(&mut m, w.to.port.as_str());
            push_str(&mut m, ": ");
            crate::ir::emit::push_port(&mut m, &w.from);
            push_str(&mut m, "` inside ");
            push_call_sig(&mut m, w.to.slug.as_str(), ty);
            push_str(&mut m, "); `<-` is for extern ports only");
            return fail(m);
        }
        Ok(())
    }

    fn expr_wire_check(&self, w: &crate::ir::ast::ExprWireDecl, Ghost(es): Ghost<Seq<(Seq<char>, NameKind)>>, Ghost(lets): Ghost<Seq<Seq<char>>>) -> (res: crate::error::Result<()>)
        requires
            self.models(es, lets),
        ensures
            reports(res, expr_wire_check(es, lets, *w)),
    {
        let r = self.object_ref(&w.to, Ghost(es), Ghost(lets));
        if r.is_err() {
            return r;
        }
        if self.is_block(w.to.slug.as_str(), Ghost(es), Ghost(lets)) {
            let mut m = String::new();
            push_str(&mut m, "`");
            crate::ir::emit::push_port(&mut m, &w.to);
            push_str(&mut m, " <- …` targets managed block `");
            push_str(&mut m, w.to.slug.as_str());
            push_str(&mut m, "` — wire the expression's result in the argument list instead; `<-` is for extern ports only");
            return fail(m);
        }
        let mut sink = String::new();
        crate::ir::emit::push_port(&mut sink, &w.to);
        assert(sink@ =~= port_text(w.to));
        self.operands_check(&w.expr, sink.as_str(), Ghost(es), Ghost(lets))
    }

    fn assign_check(&self, bs: &Vec<&BlockDecl>, a: &crate::ir::ast::SetDecl, Ghost(es): Ghost<Seq<(Seq<char>, NameKind)>>, Ghost(lets): Ghost<Seq<Seq<char>>>) -> (res: crate::error::Result<()>)
        requires
            self.models(es, lets),
        ensures
            reports(res, assign_check(es, lets, crate::ir::ast::derefs(bs@), *a)),
    {
        let r = self.object_ref(&a.target, Ghost(es), Ghost(lets));
        if r.is_err() {
            return r;
        }
        if self.is_block(a.target.slug.as_str(), Ghost(es), Ghost(lets)) {
            let ty = block_type_exec(bs, a.target.slug.as_str());
            let mut m = String::new();
            push_str(&mut m, "`");
            crate::ir::emit::push_port(&mut m, &a.target);
            push_str(&mut m, " = …` targets managed block `");
            push_str(&mut m, a.target.slug.as_str());
            push_str(&mut m, "` — bind the parameter in the argument list instead (`");
            push_str(&mut m, a.target.port.as_str());
            push_str(&mut m, ": …` inside ");
            push_call_sig(&mut m, a.target.slug.as_str(), ty);
            push_str(&mut m, "); port assignment is for extern ports only");
            return fail(m);
        }
        self.value_ref(&a.value, Ghost(es), Ghost(lets))
    }
}

/// The template's parameters, each named once.
pub open spec fn template_params_check(t: crate::ir::ast::TemplateDecl) -> Result<(), Seq<char>> {
    let ps = t.params@;
    all_ok(
        ps.len(),
        |k: int|
            if exists|j: int|
                0 <= j < k && crate::ir::ast::param_name(#[trigger] ps[j])
                    == crate::ir::ast::param_name(ps[k]) {
                err(
                    "template `"@ + t.name@ + "`: duplicate parameter `"@
                        + crate::ir::ast::param_name(ps[k]) + "`"@,
                )
            } else {
                Ok(())
            },
    )
}

/// Whether `slug` is already taken in a template body: a parameter, or a
/// block declared earlier in the body.
pub open spec fn in_local(t: crate::ir::ast::TemplateDecl, prefix: Seq<Item>, slug: Seq<char>) -> bool {
    ||| exists|j: int| 0 <= j < t.params@.len() && crate::ir::ast::param_name(#[trigger] t.params@[j]) == slug
    ||| exists|j: int| 0 <= j < prefix.len() && (#[trigger] prefix[j] matches Item::Block(b2) && b2.slug@ == slug)
}

/// A block in a template body binds each parameter once.
pub open spec fn body_params_check(t: crate::ir::ast::TemplateDecl, b: BlockDecl) -> Result<(), Seq<char>> {
    let bs = crate::ir::ast::bindings_of(b.args@);
    all_ok(
        bs.len(),
        |k: int|
            if bs[k].kind is Param && seen_param(bs.take(k), bs[k].port@) {
                err(
                    "template `"@ + t.name@ + "`: duplicate parameter `"@ + bs[k].port@ + "` in "@
                        + call_sig(b.slug@, b.block_type@),
                )
            } else {
                Ok(())
            },
    )
}

/// One statement of a template body, given the ones before it.
pub open spec fn body_item_check(t: crate::ir::ast::TemplateDecl, prefix: Seq<Item>, i: Item) -> Result<(), Seq<char>> {
    match i {
        Item::Block(b) => then(
            if in_local(t, prefix, b.slug@) {
                err("template `"@ + t.name@ + "`: duplicate name `"@ + b.slug@ + "` in the body"@)
            } else {
                Ok(())
            },
            body_params_check(t, b),
        ),
        Item::Wire(_) => Ok(()),
        Item::ExprWire(_) => Ok(()),
        Item::Assign(_) => Ok(()),
        Item::Comment(_) => Ok(()),
        _ => err(
            "template `"@ + t.name@
                + "`: only block declarations, wires, port assignments, and comments are allowed in a body"@,
        ),
    }
}

/// A template: unique parameters, and a body of blocks, wires, port
/// assignments and comments with unique names.
pub open spec fn template_check(t: crate::ir::ast::TemplateDecl) -> Result<(), Seq<char>> {
    let body = t.body@;
    then(
        template_params_check(t),
        all_ok(body.len(), |k: int| body_item_check(t, body.take(k), body[k])),
    )
}

fn push_param_name(out: &mut String, p: &crate::ir::ast::TemplateParam)
    ensures
        final(out)@ == old(out)@ + crate::ir::ast::param_name(*p),
{
    push_str(out, p.name());
}

fn param_named(ps: &Vec<crate::ir::ast::TemplateParam>, upto: usize, name: &str) -> (r: bool)
    requires
        upto <= ps@.len(),
    ensures
        r == exists|j: int| 0 <= j < upto && crate::ir::ast::param_name(#[trigger] ps@[j]) == name@,
{
    let mut j: usize = 0;
    while j < upto
        invariant
            0 <= j <= upto <= ps@.len(),
            forall|q: int| 0 <= q < j ==> crate::ir::ast::param_name(#[trigger] ps@[q]) != name@,
        decreases upto - j,
    {
        if str_eq(ps[j].name(), name) {
            return true;
        }
        j = j + 1;
    }
    false
}

fn body_block_named(body: &Vec<Item>, upto: usize, slug: &str) -> (r: bool)
    requires
        upto <= body@.len(),
    ensures
        r == exists|j: int| 0 <= j < upto && (#[trigger] body@[j] matches Item::Block(b2) && b2.slug@ == slug@),
{
    let mut j: usize = 0;
    while j < upto
        invariant
            0 <= j <= upto <= body@.len(),
            forall|q: int| 0 <= q < j ==> !(#[trigger] body@[q] matches Item::Block(b2) && b2.slug@ == slug@),
        decreases upto - j,
    {
        if let Item::Block(b2) = &body[j] {
            if str_eq(b2.slug.as_str(), slug) {
                return true;
            }
        }
        j = j + 1;
    }
    false
}

fn seen_param_exec(bs: &Vec<&crate::ir::ast::Binding>, upto: usize, port: &str) -> (r: bool)
    requires
        upto <= bs@.len(),
    ensures
        r == seen_param(crate::ir::ast::derefs(bs@).take(upto as int), port@),
{
    let ghost prefix = crate::ir::ast::derefs(bs@).take(upto as int);
    let mut j: usize = 0;
    while j < upto
        invariant
            0 <= j <= upto <= bs@.len(),
            prefix == crate::ir::ast::derefs(bs@).take(upto as int),
            forall|q: int| 0 <= q < j ==> !((#[trigger] prefix[q]).kind is Param && prefix[q].port@ == port@),
        decreases upto - j,
    {
        let y = bs[j];
        assert(prefix[j as int] == *y);
        if let BindingKind::Param(_) = &y.kind {
            if str_eq(y.port.as_str(), port) {
                assert(prefix[j as int].kind is Param && prefix[j as int].port@ == port@);
                return true;
            }
        }
        j = j + 1;
    }
    false
}

fn body_params_exec(t: &crate::ir::ast::TemplateDecl, b: &BlockDecl) -> (res: crate::error::Result<()>)
    ensures
        reports(res, body_params_check(*t, *b)),
{
    let bs = b.bindings();
    let ghost bv = crate::ir::ast::derefs(bs@);
    let ghost f = |k: int|
        if bv[k].kind is Param && seen_param(bv.take(k), bv[k].port@) {
            err(
                "template `"@ + t.name@ + "`: duplicate parameter `"@ + bv[k].port@ + "` in "@
                    + call_sig(b.slug@, b.block_type@),
            )
        } else {
            Ok(())
        };
    let mut i: usize = 0;
    while i < bs.len()
        invariant
            0 <= i <= bs@.len(),
            bv == crate::ir::ast::derefs(bs@),
            bv == crate::ir::ast::bindings_of(b.args@),
            f == (|k: int|
                if bv[k].kind is Param && seen_param(bv.take(k), bv[k].port@) {
                    err(
                        "template `"@ + t.name@ + "`: duplicate parameter `"@ + bv[k].port@ + "` in "@
                            + call_sig(b.slug@, b.block_type@),
                    )
                } else {
                    Ok(())
                }),
            all_ok(i as nat, f) is Ok,
        decreases bs@.len() - i,
    {
        let x = bs[i];
        assert(bv[i as int] == *x);
        let dup = match &x.kind {
            BindingKind::Param(_) => seen_param_exec(&bs, i, x.port.as_str()),
            _ => false,
        };
        assert(dup == (bv[i as int].kind is Param && seen_param(bv.take(i as int), bv[i as int].port@)));
        assert(all_ok((i + 1) as nat, f) == then(all_ok(i as nat, f), f(i as int)));
        if dup {
            let mut m = String::new();
            push_str(&mut m, "template `");
            push_str(&mut m, t.name.as_str());
            push_str(&mut m, "`: duplicate parameter `");
            push_str(&mut m, x.port.as_str());
            push_str(&mut m, "` in ");
            push_call_sig(&mut m, b.slug.as_str(), b.block_type.as_str());
            proof {
                lemma_all_ok_sticks(f, (i + 1) as nat, bv.len());
            }
            return fail(m);
        }
        i = i + 1;
    }
    Ok(())
}

fn template_exec(t: &crate::ir::ast::TemplateDecl) -> (res: crate::error::Result<()>)
    ensures
        reports(res, template_check(*t)),
{
    let ghost ps = t.params@;
    let ghost fp = |k: int|
        if exists|j: int|
            0 <= j < k && crate::ir::ast::param_name(#[trigger] ps[j]) == crate::ir::ast::param_name(ps[k]) {
            err(
                "template `"@ + t.name@ + "`: duplicate parameter `"@ + crate::ir::ast::param_name(ps[k])
                    + "`"@,
            )
        } else {
            Ok(())
        };
    let mut i: usize = 0;
    while i < t.params.len()
        invariant
            0 <= i <= ps.len(),
            ps == t.params@,
            fp == (|k: int|
                if exists|j: int|
                    0 <= j < k && crate::ir::ast::param_name(#[trigger] ps[j]) == crate::ir::ast::param_name(ps[k]) {
                    err(
                        "template `"@ + t.name@ + "`: duplicate parameter `"@
                            + crate::ir::ast::param_name(ps[k]) + "`"@,
                    )
                } else {
                    Ok(())
                }),
            all_ok(i as nat, fp) is Ok,
        decreases ps.len() - i,
    {
        let dup = param_named(&t.params, i, t.params[i].name());
        assert(all_ok((i + 1) as nat, fp) == then(all_ok(i as nat, fp), fp(i as int)));
        if dup {
            let mut m = String::new();
            push_str(&mut m, "template `");
            push_str(&mut m, t.name.as_str());
            push_str(&mut m, "`: duplicate parameter `");
            push_str(&mut m, t.params[i].name());
            push_str(&mut m, "`");
            proof {
                lemma_all_ok_sticks(fp, (i + 1) as nat, ps.len());
            }
            return fail(m);
        }
        i = i + 1;
    }
    let ghost body = t.body@;
    let ghost fb = |k: int| body_item_check(*t, body.take(k), body[k]);
    let mut k: usize = 0;
    while k < t.body.len()
        invariant
            0 <= k <= body.len(),
            body == t.body@,
            all_ok(ps.len(), fp) is Ok,
            ps == t.params@,
            fp == (|k: int|
                if exists|j: int|
                    0 <= j < k && crate::ir::ast::param_name(#[trigger] ps[j]) == crate::ir::ast::param_name(ps[k]) {
                    err(
                        "template `"@ + t.name@ + "`: duplicate parameter `"@
                            + crate::ir::ast::param_name(ps[k]) + "`"@,
                    )
                } else {
                    Ok(())
                }),
            fb == (|k: int| body_item_check(*t, body.take(k), body[k])),
            all_ok(k as nat, fb) is Ok,
        decreases body.len() - k,
    {
        let r = match &t.body[k] {
            Item::Block(b) => {
                let taken = param_named(&t.params, t.params.len(), b.slug.as_str()) || body_block_named(
                    &t.body,
                    k,
                    b.slug.as_str(),
                );
                proof {
                    assert forall|j: int| 0 <= j < k implies body.take(k as int)[j] == body[j] by {}
                    assert(taken == in_local(*t, body.take(k as int), b.slug@));
                }
                if taken {
                    let mut m = String::new();
                    push_str(&mut m, "template `");
                    push_str(&mut m, t.name.as_str());
                    push_str(&mut m, "`: duplicate name `");
                    push_str(&mut m, b.slug.as_str());
                    push_str(&mut m, "` in the body");
                    fail(m)
                } else {
                    body_params_exec(t, b)
                }
            },
            Item::Wire(_) | Item::ExprWire(_) | Item::Assign(_) | Item::Comment(_) => Ok(()),
            _ => {
                let mut m = String::new();
                push_str(&mut m, "template `");
                push_str(&mut m, t.name.as_str());
                push_str(&mut m, "`: only block declarations, wires, port assignments, and comments are allowed in a body");
                fail(m)
            },
        };
        assert(reports(r, fb(k as int)));
        assert(all_ok((k + 1) as nat, fb) == then(all_ok(k as nat, fb), fb(k as int)));
        if r.is_err() {
            proof {
                lemma_all_ok_sticks(fb, (k + 1) as nat, body.len());
            }
            return r;
        }
        k = k + 1;
    }
    Ok(())
}

/// The first template named `name`.
pub open spec fn first_template(items: Seq<Item>, name: Seq<char>) -> Option<crate::ir::ast::TemplateDecl>
    decreases items.len(),
{
    if items.len() == 0 {
        None
    } else {
        match items[0] {
            Item::Template(t) => if t.name@ == name {
                Some(t)
            } else {
                first_template(items.drop_first(), name)
            },
            _ => first_template(items.drop_first(), name),
        }
    }
}

/// The names of the templates, in order.
pub open spec fn template_names(items: Seq<Item>) -> Seq<Seq<char>>
    decreases items.len(),
{
    if items.len() == 0 {
        seq![]
    } else {
        template_names(items.drop_last()) + match items.last() {
            Item::Template(t) => seq![t.name@],
            _ => seq![],
        }
    }
}

/// The first parameter named `name`.
pub open spec fn first_param(ps: Seq<crate::ir::ast::TemplateParam>, name: Seq<char>) -> Option<crate::ir::ast::TemplateParam>
    decreases ps.len(),
{
    if ps.len() == 0 {
        None
    } else if crate::ir::ast::param_name(ps[0]) == name {
        Some(ps[0])
    } else {
        first_param(ps.drop_first(), name)
    }
}

pub open spec fn param_names(ps: Seq<crate::ir::ast::TemplateParam>) -> Seq<Seq<char>> {
    ps.map_values(|p: crate::ir::ast::TemplateParam| crate::ir::ast::param_name(p))
}

/// One argument of a template instantiation, given the ones before it.
pub open spec fn inst_binding_check(
    es: Seq<(Seq<char>, NameKind)>,
    lets: Seq<Seq<char>>,
    c: BlockDecl,
    t: crate::ir::ast::TemplateDecl,
    prefix: Seq<crate::ir::ast::Binding>,
    x: crate::ir::ast::Binding,
) -> Result<(), Seq<char>> {
    let sig = call_sig(c.slug@, c.block_type@);
    let port = x.port@;
    match first_param(t.params@, port) {
        None => {
            let n = crate::ir::ast::blocks_of(t.body@).len();
            if n == 1 {
                match x.kind {
                    BindingKind::Param(v) => value_ref(es, lets, v),
                    _ => Ok(()),
                }
            } else {
                err(
                    sig + ": `"@ + port + "` names no parameter of `"@ + c.block_type@
                        + "`, and port bindings forward only when the template body declares exactly one block (this one declares "@
                        + crate::text::dec(n) + ")"@ + suggestion(port, param_names(t.params@)),
                )
            }
        },
        Some(p) => then(
            if exists|j: int| 0 <= j < prefix.len() && (#[trigger] prefix[j]).port@ == port {
                err(sig + ": duplicate argument `"@ + port + "`"@)
            } else {
                Ok(())
            },
            match p {
                crate::ir::ast::TemplateParam::Object { name, .. } => match x.kind {
                    BindingKind::Param(Value::Ref(_)) => Ok(()),
                    _ => err(
                        sig + ": object parameter `"@ + name@ + "` takes an extern or block slug (`"@
                            + name@ + ": <slug>`)"@,
                    ),
                },
                crate::ir::ast::TemplateParam::Value { name, .. } => match x.kind {
                    BindingKind::Param(v) => value_ref(es, lets, v),
                    _ => err(
                        sig + ": value parameter `"@ + name@
                            + "` takes a number, string, or constant — not a port or expression"@,
                    ),
                },
            },
        ),
    }
}

/// The object parameters an instantiation must give.
pub open spec fn objects_given(c: BlockDecl, t: crate::ir::ast::TemplateDecl) -> Result<(), Seq<char>> {
    let bs = crate::ir::ast::bindings_of(c.args@);
    let ps = t.params@;
    all_ok(
        ps.len(),
        |k: int|
            match ps[k] {
                crate::ir::ast::TemplateParam::Object { name, .. } => if exists|j: int|
                    0 <= j < bs.len() && (#[trigger] bs[j]).port@ == name@ {
                    Ok(())
                } else {
                    err(
                        call_sig(c.slug@, c.block_type@) + ": object parameter `"@ + name@
                            + "` must be given"@,
                    )
                },
                _ => Ok(()),
            },
    )
}

/// A template instantiation: a known template, no label, arguments that
/// fit its parameters, every object parameter given.
pub open spec fn instance_check(
    es: Seq<(Seq<char>, NameKind)>,
    lets: Seq<Seq<char>>,
    items: Seq<Item>,
    c: BlockDecl,
) -> Result<(), Seq<char>> {
    let sig = call_sig(c.slug@, c.block_type@);
    match first_template(items, c.block_type@) {
        None => err(
            sig + " instantiates unknown template `"@ + c.block_type@ + "`"@ + suggestion(
                c.block_type@,
                template_names(items),
            ),
        ),
        Some(t) => if c.title is Some {
            err(sig + ": an instantiation takes no label string — titles belong on the template's blocks"@)
        } else {
            let bs = crate::ir::ast::bindings_of(c.args@);
            then(
                all_ok(bs.len(), |k: int| inst_binding_check(es, lets, c, t, bs.take(k), bs[k])),
                objects_given(c, t),
            )
        },
    }
}

fn find_template<'a>(items: &'a Vec<Item>, name: &str) -> (r: Option<&'a crate::ir::ast::TemplateDecl>)
    ensures
        match r {
            Some(t) => first_template(items@, name@) == Some(*t),
            None => first_template(items@, name@) is None,
        },
{
    let ghost iv = items@;
    let mut i: usize = 0;
    assert(iv.subrange(0, iv.len() as int) =~= iv);
    while i < items.len()
        invariant
            0 <= i <= iv.len(),
            iv == items@,
            first_template(iv, name@) == first_template(iv.subrange(i as int, iv.len() as int), name@),
        decreases iv.len() - i,
    {
        proof {
            assert(iv.subrange(i as int, iv.len() as int)[0] == iv[i as int]);
            assert(iv.subrange(i as int, iv.len() as int).drop_first() =~= iv.subrange(
                i + 1,
                iv.len() as int,
            ));
        }
        if let Item::Template(t) = &items[i] {
            if str_eq(t.name.as_str(), name) {
                return Some(t);
            }
        }
        i = i + 1;
    }
    None
}

fn template_name_list(items: &Vec<Item>) -> (r: Vec<&str>)
    ensures
        r@.map_values(|c: &str| c@) == template_names(items@),
{
    let mut out: Vec<&str> = Vec::new();
    let mut i: usize = 0;
    while i < items.len()
        invariant
            0 <= i <= items@.len(),
            out@.map_values(|c: &str| c@) == template_names(items@.take(i as int)),
        decreases items@.len() - i,
    {
        proof {
            assert(items@.take(i + 1).drop_last() =~= items@.take(i as int));
        }
        let ghost before = out@.map_values(|c: &str| c@);
        if let Item::Template(t) = &items[i] {
            out.push(t.name.as_str());
            assert(out@.map_values(|c: &str| c@) =~= before.push(t.name@));
        } else {
            assert(before + seq![] =~= before);
        }
        i = i + 1;
    }
    assert(items@.take(items@.len() as int) =~= items@);
    out
}

fn find_param<'a>(ps: &'a Vec<crate::ir::ast::TemplateParam>, name: &str) -> (r: Option<&'a crate::ir::ast::TemplateParam>)
    ensures
        match r {
            Some(p) => first_param(ps@, name@) == Some(*p),
            None => first_param(ps@, name@) is None,
        },
{
    let ghost pv = ps@;
    let mut i: usize = 0;
    assert(pv.subrange(0, pv.len() as int) =~= pv);
    while i < ps.len()
        invariant
            0 <= i <= pv.len(),
            pv == ps@,
            first_param(pv, name@) == first_param(pv.subrange(i as int, pv.len() as int), name@),
        decreases pv.len() - i,
    {
        proof {
            assert(pv.subrange(i as int, pv.len() as int)[0] == pv[i as int]);
            assert(pv.subrange(i as int, pv.len() as int).drop_first() =~= pv.subrange(
                i + 1,
                pv.len() as int,
            ));
        }
        if str_eq(ps[i].name(), name) {
            return Some(&ps[i]);
        }
        i = i + 1;
    }
    None
}

fn param_name_list(ps: &Vec<crate::ir::ast::TemplateParam>) -> (r: Vec<&str>)
    ensures
        r@.map_values(|c: &str| c@) == param_names(ps@),
{
    let mut out: Vec<&str> = Vec::new();
    let mut i: usize = 0;
    while i < ps.len()
        invariant
            0 <= i <= ps@.len(),
            out@.map_values(|c: &str| c@) == param_names(ps@.take(i as int)),
        decreases ps@.len() - i,
    {
        let ghost before = out@.map_values(|c: &str| c@);
        out.push(ps[i].name());
        proof {
            assert(out@.map_values(|c: &str| c@) =~= before.push(crate::ir::ast::param_name(ps@[i as int])));
            assert(ps@.take(i + 1) =~= ps@.take(i as int).push(ps@[i as int]));
            assert(param_names(ps@.take(i + 1)) =~= param_names(ps@.take(i as int)).push(crate::ir::ast::param_name(ps@[i as int])));
        }
        i = i + 1;
    }
    assert(ps@.take(ps@.len() as int) =~= ps@);
    out
}

fn count_blocks(items: &Vec<Item>) -> (r: usize)
    ensures
        r == crate::ir::ast::blocks_of(items@).len(),
{
    let mut n: usize = 0;
    let mut i: usize = 0;
    while i < items.len()
        invariant
            0 <= i <= items@.len(),
            n == crate::ir::ast::blocks_of(items@.take(i as int)).len(),
            n <= i,
        decreases items@.len() - i,
    {
        proof {
            assert(items@.take(i + 1).drop_last() =~= items@.take(i as int));
        }
        if let Item::Block(_) = &items[i] {
            n = n + 1;
        }
        i = i + 1;
    }
    assert(items@.take(items@.len() as int) =~= items@);
    n
}

fn port_seen(bs: &Vec<&crate::ir::ast::Binding>, upto: usize, port: &str) -> (r: bool)
    requires
        upto <= bs@.len(),
    ensures
        r == exists|j: int| 0 <= j < upto && (#[trigger] crate::ir::ast::derefs(bs@)[j]).port@ == port@,
{
    let ghost bv = crate::ir::ast::derefs(bs@);
    let mut j: usize = 0;
    while j < upto
        invariant
            0 <= j <= upto <= bs@.len(),
            bv == crate::ir::ast::derefs(bs@),
            forall|q: int| 0 <= q < j ==> (#[trigger] bv[q]).port@ != port@,
        decreases upto - j,
    {
        assert(bv[j as int] == *bs@[j as int]);
        if str_eq(bs[j].port.as_str(), port) {
            return true;
        }
        j = j + 1;
    }
    false
}

impl<'a> Names<'a> {
    fn inst_binding_check(&self, c: &BlockDecl, t: &crate::ir::ast::TemplateDecl, bs: &Vec<&crate::ir::ast::Binding>, i: usize, Ghost(es): Ghost<Seq<(Seq<char>, NameKind)>>, Ghost(lets): Ghost<Seq<Seq<char>>>) -> (res: crate::error::Result<()>)
        requires
            self.models(es, lets),
            i < bs@.len(),
        ensures
            reports(
                res,
                inst_binding_check(
                    es,
                    lets,
                    *c,
                    *t,
                    crate::ir::ast::derefs(bs@).take(i as int),
                    *bs@[i as int],
                ),
            ),
    {
        let ghost bv = crate::ir::ast::derefs(bs@);
        let x = bs[i];
        let port = x.port.as_str();
        let mut sig = String::new();
        push_call_sig(&mut sig, c.slug.as_str(), c.block_type.as_str());
        match find_param(&t.params, port) {
            None => {
                let n = count_blocks(&t.body);
                if n == 1 {
                    match &x.kind {
                        BindingKind::Param(v) => self.value_ref(v, Ghost(es), Ghost(lets)),
                        _ => Ok(()),
                    }
                } else {
                    let names = param_name_list(&t.params);
                    let hint = suggest(port, &names);
                    let mut m = String::new();
                    push_str(&mut m, sig.as_str());
                    push_str(&mut m, ": `");
                    push_str(&mut m, port);
                    push_str(&mut m, "` names no parameter of `");
                    push_str(&mut m, c.block_type.as_str());
                    push_str(&mut m, "`, and port bindings forward only when the template body declares exactly one block (this one declares ");
                    crate::text::push_dec(&mut m, n as u64);
                    push_str(&mut m, ")");
                    push_str(&mut m, hint.as_str());
                    fail(m)
                }
            },
            Some(p) => {
                if port_seen(bs, i, port) {
                    let mut m = String::new();
                    push_str(&mut m, sig.as_str());
                    push_str(&mut m, ": duplicate argument `");
                    push_str(&mut m, port);
                    push_str(&mut m, "`");
                    proof {
                        assert forall|j: int| 0 <= j < i implies bv.take(i as int)[j] == bv[j] by {}
                    }
                    return fail(m);
                }
                proof {
                    assert forall|j: int| 0 <= j < i implies bv.take(i as int)[j] == bv[j] by {}
                }
                match p {
                    crate::ir::ast::TemplateParam::Object { name, .. } => match &x.kind {
                        BindingKind::Param(Value::Ref(_)) => Ok(()),
                        _ => {
                            let mut m = String::new();
                            push_str(&mut m, sig.as_str());
                            push_str(&mut m, ": object parameter `");
                            push_str(&mut m, name.as_str());
                            push_str(&mut m, "` takes an extern or block slug (`");
                            push_str(&mut m, name.as_str());
                            push_str(&mut m, ": <slug>`)");
                            fail(m)
                        },
                    },
                    crate::ir::ast::TemplateParam::Value { name, .. } => match &x.kind {
                        BindingKind::Param(v) => self.value_ref(v, Ghost(es), Ghost(lets)),
                        _ => {
                            let mut m = String::new();
                            push_str(&mut m, sig.as_str());
                            push_str(&mut m, ": value parameter `");
                            push_str(&mut m, name.as_str());
                            push_str(&mut m, "` takes a number, string, or constant — not a port or expression");
                            fail(m)
                        },
                    },
                }
            },
        }
    }

    fn instance_check(&self, items: &Vec<Item>, c: &BlockDecl, Ghost(es): Ghost<Seq<(Seq<char>, NameKind)>>, Ghost(lets): Ghost<Seq<Seq<char>>>) -> (res: crate::error::Result<()>)
        requires
            self.models(es, lets),
        ensures
            reports(res, instance_check(es, lets, items@, *c)),
    {
        let mut sig = String::new();
        push_call_sig(&mut sig, c.slug.as_str(), c.block_type.as_str());
        let t = match find_template(items, c.block_type.as_str()) {
            None => {
                let names = template_name_list(items);
                let hint = suggest(c.block_type.as_str(), &names);
                let mut m = String::new();
                push_str(&mut m, sig.as_str());
                push_str(&mut m, " instantiates unknown template `");
                push_str(&mut m, c.block_type.as_str());
                push_str(&mut m, "`");
                push_str(&mut m, hint.as_str());
                return fail(m);
            },
            Some(t) => t,
        };
        if c.title.is_some() {
            let mut m = String::new();
            push_str(&mut m, sig.as_str());
            push_str(&mut m, ": an instantiation takes no label string — titles belong on the template's blocks");
            return fail(m);
        }
        let bs = c.bindings();
        let ghost bv = crate::ir::ast::derefs(bs@);
        let ghost f = |k: int| inst_binding_check(es, lets, *c, *t, bv.take(k), bv[k]);
        let mut i: usize = 0;
        while i < bs.len()
            invariant
                0 <= i <= bs@.len(),
                self.models(es, lets),
                bv == crate::ir::ast::derefs(bs@),
                bv == crate::ir::ast::bindings_of(c.args@),
                first_template(items@, c.block_type@) == Some(*t),
                c.title is None,
                f == (|k: int| inst_binding_check(es, lets, *c, *t, bv.take(k), bv[k])),
                all_ok(i as nat, f) is Ok,
            decreases bs@.len() - i,
        {
            let r = self.inst_binding_check(c, t, &bs, i, Ghost(es), Ghost(lets));
            assert(bv[i as int] == *bs@[i as int]);
            assert(all_ok((i + 1) as nat, f) == then(all_ok(i as nat, f), f(i as int)));
            if r.is_err() {
                proof {
                    lemma_all_ok_sticks(f, (i + 1) as nat, bv.len());
                }
                return r;
            }
            i = i + 1;
        }
        let ghost ps = t.params@;
        let ghost g = |k: int|
            match ps[k] {
                crate::ir::ast::TemplateParam::Object { name, .. } => if exists|j: int|
                    0 <= j < bv.len() && (#[trigger] bv[j]).port@ == name@ {
                    Ok(())
                } else {
                    err(
                        call_sig(c.slug@, c.block_type@) + ": object parameter `"@ + name@
                            + "` must be given"@,
                    )
                },
                _ => Ok(()),
            };
        let mut k: usize = 0;
        while k < t.params.len()
            invariant
                0 <= k <= ps.len(),
                ps == t.params@,
                bv == crate::ir::ast::derefs(bs@),
                bv == crate::ir::ast::bindings_of(c.args@),
                first_template(items@, c.block_type@) == Some(*t),
                c.title is None,
                f == (|k: int| inst_binding_check(es, lets, *c, *t, bv.take(k), bv[k])),
                all_ok(bv.len(), f) is Ok,
                sig@ == call_sig(c.slug@, c.block_type@),
                g == (|k: int|
                    match ps[k] {
                        crate::ir::ast::TemplateParam::Object { name, .. } => if exists|j: int|
                            0 <= j < bv.len() && (#[trigger] bv[j]).port@ == name@ {
                            Ok(())
                        } else {
                            err(
                                call_sig(c.slug@, c.block_type@) + ": object parameter `"@ + name@
                                    + "` must be given"@,
                            )
                        },
                        _ => Ok(()),
                    }),
                all_ok(k as nat, g) is Ok,
            decreases ps.len() - k,
        {
            assert(all_ok((k + 1) as nat, g) == then(all_ok(k as nat, g), g(k as int)));
            if let crate::ir::ast::TemplateParam::Object { name, .. } = &t.params[k] {
                if !port_seen(&bs, bs.len(), name.as_str()) {
                    let mut m = String::new();
                    push_str(&mut m, sig.as_str());
                    push_str(&mut m, ": object parameter `");
                    push_str(&mut m, name.as_str());
                    push_str(&mut m, "` must be given");
                    proof {
                        lemma_all_ok_sticks(g, (k + 1) as nat, ps.len());
                    }
                    return fail(m);
                }
            }
            k = k + 1;
        }
        Ok(())
    }
}

/// One statement, against the module namespace.
pub open spec fn item_check(
    es: Seq<(Seq<char>, NameKind)>,
    lets: Seq<Seq<char>>,
    items: Seq<Item>,
    i: Item,
) -> Result<(), Seq<char>> {
    match i {
        Item::Block(b) => block_check(es, lets, b),
        Item::Wire(w) => wire_check(es, crate::ir::ast::blocks_of(items), w),
        Item::ExprWire(w) => expr_wire_check(es, lets, w),
        Item::Assign(a) => assign_check(es, lets, crate::ir::ast::blocks_of(items), a),
        Item::Template(t) => template_check(t),
        Item::Instance(c) => instance_check(es, lets, items, c),
        Item::Page(p) => if p.title@.len() == 0 {
            err("`page \"\"`: the page title must not be empty"@)
        } else {
            Ok(())
        },
        _ => Ok(()),
    }
}

/// A `removed` statement: the slug is not declared, and removed once.
pub open spec fn removed_one(
    es: Seq<(Seq<char>, NameKind)>,
    prefix: Seq<crate::ir::ast::RemovedDecl>,
    r: crate::ir::ast::RemovedDecl,
) -> Result<(), Seq<char>> {
    let s = r.slug@;
    match last_assigned(es, s) {
        Some(k) => err(
            "`removed "@ + s + "` contradicts the declaration of "@ + describe(k) + " `"@ + s
                + "` — delete the `removed` line or the declaration"@,
        ),
        None => if exists|j: int| 0 <= j < prefix.len() && (#[trigger] prefix[j]).slug@ == s {
            err("duplicate `removed "@ + s + "`"@)
        } else {
            Ok(())
        },
    }
}

/// A `moved` statement, given the ones before it and every `removed`.
pub open spec fn moved_one(
    es: Seq<(Seq<char>, NameKind)>,
    rs: Seq<crate::ir::ast::RemovedDecl>,
    prefix: Seq<crate::ir::ast::MovedDecl>,
    m: crate::ir::ast::MovedDecl,
) -> Result<(), Seq<char>> {
    let f = m.from@;
    let t = m.to@;
    let head = "`moved "@ + f + " -> "@ + t + "`"@;
    if f == t {
        err(head + " moves a slug to itself"@)
    } else {
        match last_assigned(es, f) {
            Some(k) => err(
                head + " conflicts with the declaration of "@ + describe(k) + " `"@ + f
                    + "` — the old slug must no longer be declared"@,
            ),
            None => if last_assigned(es, t) == Some(NameKind::Extern) || last_assigned(es, t) == Some(
                NameKind::Let,
            ) {
                err(head + " — `"@ + t + "` is not a managed block"@)
            } else if exists|j: int| 0 <= j < prefix.len() && (#[trigger] prefix[j]).from@ == f {
                err("duplicate `moved` from `"@ + f + "`"@)
            } else if exists|j: int| 0 <= j < prefix.len() && (#[trigger] prefix[j]).to@ == t {
                err("duplicate `moved` to `"@ + t + "`"@)
            } else if exists|j: int|
                0 <= j < rs.len() && ((#[trigger] rs[j]).slug@ == f || rs[j].slug@ == t) {
                err(head + " conflicts with a `removed` of the same slug"@)
            } else {
                Ok(())
            },
        }
    }
}

/// No `moved` targets the source of another.
pub open spec fn chain_one(ms: Seq<crate::ir::ast::MovedDecl>, m: crate::ir::ast::MovedDecl) -> Result<(), Seq<char>> {
    if exists|j: int| 0 <= j < ms.len() && (#[trigger] ms[j]).from@ == m.to@ {
        err("chained `moved` through `"@ + m.to@ + "` — collapse into one `moved` statement"@)
    } else {
        Ok(())
    }
}

/// Every statement, in order.
pub open spec fn items_phase(es: Seq<(Seq<char>, NameKind)>, lets: Seq<Seq<char>>, items: Seq<Item>) -> Result<(), Seq<char>> {
    all_ok(items.len(), |k: int| item_check(es, lets, items, items[k]))
}

/// Every `removed` statement, in order.
pub open spec fn removed_phase(es: Seq<(Seq<char>, NameKind)>, rs: Seq<crate::ir::ast::RemovedDecl>) -> Result<(), Seq<char>> {
    all_ok(rs.len(), |k: int| removed_one(es, rs.take(k), rs[k]))
}

/// Every `moved` statement, in order.
pub open spec fn moved_phase(
    es: Seq<(Seq<char>, NameKind)>,
    rs: Seq<crate::ir::ast::RemovedDecl>,
    ms: Seq<crate::ir::ast::MovedDecl>,
) -> Result<(), Seq<char>> {
    all_ok(ms.len(), |k: int| moved_one(es, rs, ms.take(k), ms[k]))
}

/// No chained `moved` statements.
pub open spec fn chain_phase(ms: Seq<crate::ir::ast::MovedDecl>) -> Result<(), Seq<char>> {
    all_ok(ms.len(), |k: int| chain_one(ms, ms[k]))
}

/// What validation finds: the first violation, in statement order, of
/// name uniqueness, reference resolution, statement consistency, and the
/// lifecycle statements.
pub open spec fn validate_spec(items: Seq<Item>) -> Result<(), Seq<char>> {
    let es = name_entries(items);
    let lets = lets_of(items).map_values(|l: LetDecl| l.name@);
    let rs = crate::ir::ast::removed_of(items);
    let ms = crate::ir::ast::moved_of(items);
    match first_duplicate(es) {
        Some(n) => err("duplicate name `"@ + n + "`"@),
        None => then(
            items_phase(es, lets, items),
            then(removed_phase(es, rs), then(moved_phase(es, rs, ms), chain_phase(ms))),
        ),
    }
}

fn declared_exec(i: &Item) -> (r: Option<(&str, NameKind)>)
    ensures
        match r {
            Some(d) => declared(*i) == Some((d.0@, d.1)),
            None => declared(*i) is None,
        },
{
    match i {
        Item::Extern(e) => Some((e.slug.as_str(), NameKind::Extern)),
        Item::Block(b) => Some((b.slug.as_str(), NameKind::Block)),
        Item::Let(l) => Some((l.name.as_str(), NameKind::Let)),
        Item::Template(t) => Some((t.name.as_str(), NameKind::Template)),
        Item::Instance(b) => Some((b.slug.as_str(), NameKind::Instance)),
        _ => None,
    }
}

/// The namespace, or the first name declared twice.
fn build_names(items: &Vec<Item>) -> (r: core::result::Result<StrMap<NameKind>, String>)
    ensures
        match r {
            Ok(m) => first_duplicate(name_entries(items@)) is None && forall|k: Seq<char>|
                #[trigger] map_get(m@, k) == last_assigned(name_entries(items@), k),
            Err(n) => first_duplicate(name_entries(items@)) == Some(n@),
        },
{
    let mut kinds: StrMap<NameKind> = StrMap::new();
    let mut i: usize = 0;
    while i < items.len()
        invariant
            0 <= i <= items@.len(),
            first_duplicate(name_entries(items@.take(i as int))) is None,
            forall|k: Seq<char>| #[trigger] map_get(kinds@, k) == last_assigned(name_entries(items@.take(i as int)), k),
        decreases items@.len() - i,
    {
        let ghost es = name_entries(items@.take(i as int));
        proof {
            assert(items@.take(i + 1).drop_last() =~= items@.take(i as int));
        }
        match declared_exec(&items[i]) {
            Some((name, kind)) => {
                let ghost es2 = es.push((name@, kind));
                assert(name_entries(items@.take(i + 1)) =~= es2);
                assert(es2.drop_last() =~= es);
                if kinds.contains_key(name) {
                    proof {
                        let _ = map_get(kinds@, name@);
                    }
                    proof {
                        lemma_first_dup_from_prefix(items@, i as int);
                    }
                    return Err(crate::text::string_of(name));
                }
                proof {
                    let _ = map_get(kinds@, name@);
                }
                kinds.insert(crate::text::string_of(name), kind);
                proof {
                    assert forall|k: Seq<char>| #[trigger] map_get(kinds@, k) == last_assigned(es2, k) by {
                        let _ = map_get(kinds@, k);
                    }
                }
            },
            None => {
                assert(name_entries(items@.take(i + 1)) =~= es);
            },
        }
        i = i + 1;
    }
    assert(items@.take(items@.len() as int) =~= items@);
    Ok(kinds)
}

/// A duplicate found in a prefix is the first one of the whole list.
proof fn lemma_first_dup_from_prefix(items: Seq<Item>, i: int)
    requires
        0 <= i < items.len(),
        first_duplicate(name_entries(items.take(i + 1))) is Some,
    ensures
        first_duplicate(name_entries(items)) == first_duplicate(name_entries(items.take(i + 1))),
    decreases items.len() - i,
{
    if i + 1 < items.len() {
        lemma_first_dup_grow(items, i + 1);
        lemma_first_dup_from_prefix(items, i + 1);
    } else {
        assert(items.take(i + 1) =~= items);
    }
}

proof fn lemma_first_dup_grow(items: Seq<Item>, n: int)
    requires
        0 < n < items.len(),
        first_duplicate(name_entries(items.take(n))) is Some,
    ensures
        first_duplicate(name_entries(items.take(n + 1))) == first_duplicate(name_entries(items.take(n))),
{
    assert(items.take(n + 1).drop_last() =~= items.take(n));
    let es = name_entries(items.take(n));
    match declared(items[n]) {
        Some(d) => {
            assert(name_entries(items.take(n + 1)) =~= es.push(d));
            assert(es.push(d).drop_last() =~= es);
        },
        None => {
            assert(name_entries(items.take(n + 1)) =~= es);
        },
    }
}

impl<'a> Names<'a> {
    fn item_check(&self, items: &Vec<Item>, bs: &Vec<&BlockDecl>, i: usize, Ghost(es): Ghost<Seq<(Seq<char>, NameKind)>>, Ghost(lets): Ghost<Seq<Seq<char>>>) -> (res: crate::error::Result<()>)
        requires
            self.models(es, lets),
            i < items@.len(),
            crate::ir::ast::derefs(bs@) == crate::ir::ast::blocks_of(items@),
        ensures
            reports(res, item_check(es, lets, items@, items@[i as int])),
    {
        match &items[i] {
            Item::Block(b) => self.block_check(b, Ghost(es), Ghost(lets)),
            Item::Wire(w) => self.wire_check(bs, w, Ghost(es), Ghost(lets)),
            Item::ExprWire(w) => self.expr_wire_check(w, Ghost(es), Ghost(lets)),
            Item::Assign(a) => self.assign_check(bs, a, Ghost(es), Ghost(lets)),
            Item::Template(t) => template_exec(t),
            Item::Instance(c) => self.instance_check(items, c, Ghost(es), Ghost(lets)),
            Item::Page(p) => {
                if p.title.as_str().unicode_len() == 0 {
                    let mut m = String::new();
                    push_str(&mut m, "`page \"\"`: the page title must not be empty");
                    fail(m)
                } else {
                    Ok(())
                }
            },
            _ => Ok(()),
        }
    }
}

fn removed_before(rs: &Vec<&crate::ir::ast::RemovedDecl>, upto: usize, slug: &str) -> (r: bool)
    requires
        upto <= rs@.len(),
    ensures
        r == exists|j: int| 0 <= j < upto && (#[trigger] crate::ir::ast::derefs(rs@)[j]).slug@ == slug@,
{
    let ghost rv = crate::ir::ast::derefs(rs@);
    let mut j: usize = 0;
    while j < upto
        invariant
            0 <= j <= upto <= rs@.len(),
            rv == crate::ir::ast::derefs(rs@),
            forall|q: int| 0 <= q < j ==> (#[trigger] rv[q]).slug@ != slug@,
        decreases upto - j,
    {
        assert(rv[j as int] == *rs@[j as int]);
        if str_eq(rs[j].slug.as_str(), slug) {
            return true;
        }
        j = j + 1;
    }
    false
}

/// Whether a `moved` before `upto` has `from` (`which`) or `to` equal to `slug`.
fn moved_before(ms: &Vec<&crate::ir::ast::MovedDecl>, upto: usize, slug: &str, from_side: bool) -> (r: bool)
    requires
        upto <= ms@.len(),
    ensures
        from_side ==> r == exists|j: int| 0 <= j < upto && (#[trigger] crate::ir::ast::derefs(ms@)[j]).from@ == slug@,
        !from_side ==> r == exists|j: int| 0 <= j < upto && (#[trigger] crate::ir::ast::derefs(ms@)[j]).to@ == slug@,
{
    let ghost mv = crate::ir::ast::derefs(ms@);
    let mut j: usize = 0;
    while j < upto
        invariant
            0 <= j <= upto <= ms@.len(),
            mv == crate::ir::ast::derefs(ms@),
            from_side ==> forall|q: int| 0 <= q < j ==> (#[trigger] mv[q]).from@ != slug@,
            !from_side ==> forall|q: int| 0 <= q < j ==> (#[trigger] mv[q]).to@ != slug@,
        decreases upto - j,
    {
        assert(mv[j as int] == *ms@[j as int]);
        let hit = if from_side {
            str_eq(ms[j].from.as_str(), slug)
        } else {
            str_eq(ms[j].to.as_str(), slug)
        };
        if hit {
            return true;
        }
        j = j + 1;
    }
    false
}

fn removed_any(rs: &Vec<&crate::ir::ast::RemovedDecl>, a: &str, b: &str) -> (r: bool)
    ensures
        r == exists|j: int|
            0 <= j < rs@.len() && ((#[trigger] crate::ir::ast::derefs(rs@)[j]).slug@ == a@
                || crate::ir::ast::derefs(rs@)[j].slug@ == b@),
{
    let ghost rv = crate::ir::ast::derefs(rs@);
    let mut j: usize = 0;
    while j < rs.len()
        invariant
            0 <= j <= rs@.len(),
            rv == crate::ir::ast::derefs(rs@),
            forall|q: int| 0 <= q < j ==> !((#[trigger] rv[q]).slug@ == a@ || rv[q].slug@ == b@),
        decreases rs@.len() - j,
    {
        assert(rv[j as int] == *rs@[j as int]);
        if str_eq(rs[j].slug.as_str(), a) || str_eq(rs[j].slug.as_str(), b) {
            return true;
        }
        j = j + 1;
    }
    false
}

impl<'a> Names<'a> {
    fn removed_one(&self, rs: &Vec<&crate::ir::ast::RemovedDecl>, i: usize, Ghost(es): Ghost<Seq<(Seq<char>, NameKind)>>, Ghost(lets): Ghost<Seq<Seq<char>>>) -> (res: crate::error::Result<()>)
        requires
            self.models(es, lets),
            i < rs@.len(),
        ensures
            reports(res, removed_one(es, crate::ir::ast::derefs(rs@).take(i as int), *rs@[i as int])),
    {
        let ghost rv = crate::ir::ast::derefs(rs@);
        let s = rs[i].slug.as_str();
        match self.kind(s, Ghost(es), Ghost(lets)) {
            Some(k) => {
                let mut m = String::new();
                push_str(&mut m, "`removed ");
                push_str(&mut m, s);
                push_str(&mut m, "` contradicts the declaration of ");
                push_describe(&mut m, k);
                push_str(&mut m, " `");
                push_str(&mut m, s);
                push_str(&mut m, "` — delete the `removed` line or the declaration");
                fail(m)
            },
            None => {
                let dup = removed_before(rs, i, s);
                proof {
                    assert forall|j: int| 0 <= j < i implies rv.take(i as int)[j] == rv[j] by {}
                }
                if dup {
                    let mut m = String::new();
                    push_str(&mut m, "duplicate `removed ");
                    push_str(&mut m, s);
                    push_str(&mut m, "`");
                    fail(m)
                } else {
                    Ok(())
                }
            },
        }
    }

    fn moved_one(&self, rs: &Vec<&crate::ir::ast::RemovedDecl>, ms: &Vec<&crate::ir::ast::MovedDecl>, i: usize, Ghost(es): Ghost<Seq<(Seq<char>, NameKind)>>, Ghost(lets): Ghost<Seq<Seq<char>>>) -> (res: crate::error::Result<()>)
        requires
            self.models(es, lets),
            i < ms@.len(),
        ensures
            reports(
                res,
                moved_one(
                    es,
                    crate::ir::ast::derefs(rs@),
                    crate::ir::ast::derefs(ms@).take(i as int),
                    *ms@[i as int],
                ),
            ),
    {
        let ghost mv = crate::ir::ast::derefs(ms@);
        let f = ms[i].from.as_str();
        let t = ms[i].to.as_str();
        let mut head = String::new();
        push_str(&mut head, "`moved ");
        push_str(&mut head, f);
        push_str(&mut head, " -> ");
        push_str(&mut head, t);
        push_str(&mut head, "`");
        proof {
            assert forall|j: int| 0 <= j < i implies mv.take(i as int)[j] == mv[j] by {}
        }
        if str_eq(f, t) {
            let mut m = String::new();
            push_str(&mut m, head.as_str());
            push_str(&mut m, " moves a slug to itself");
            return fail(m);
        }
        if let Some(k) = self.kind(f, Ghost(es), Ghost(lets)) {
            let mut m = String::new();
            push_str(&mut m, head.as_str());
            push_str(&mut m, " conflicts with the declaration of ");
            push_describe(&mut m, k);
            push_str(&mut m, " `");
            push_str(&mut m, f);
            push_str(&mut m, "` — the old slug must no longer be declared");
            return fail(m);
        }
        let tk = self.kind(t, Ghost(es), Ghost(lets));
        if tk == Some(NameKind::Extern) || tk == Some(NameKind::Let) {
            let mut m = String::new();
            push_str(&mut m, head.as_str());
            push_str(&mut m, " — `");
            push_str(&mut m, t);
            push_str(&mut m, "` is not a managed block");
            return fail(m);
        }
        if moved_before(ms, i, f, true) {
            let mut m = String::new();
            push_str(&mut m, "duplicate `moved` from `");
            push_str(&mut m, f);
            push_str(&mut m, "`");
            return fail(m);
        }
        if moved_before(ms, i, t, false) {
            let mut m = String::new();
            push_str(&mut m, "duplicate `moved` to `");
            push_str(&mut m, t);
            push_str(&mut m, "`");
            return fail(m);
        }
        if removed_any(rs, f, t) {
            let mut m = String::new();
            push_str(&mut m, head.as_str());
            push_str(&mut m, " conflicts with a `removed` of the same slug");
            return fail(m);
        }
        Ok(())
    }
}

impl<'a> Names<'a> {
    fn items_phase(&self, items: &Vec<Item>, bs: &Vec<&BlockDecl>, Ghost(es): Ghost<Seq<(Seq<char>, NameKind)>>, Ghost(lets): Ghost<Seq<Seq<char>>>) -> (res: crate::error::Result<()>)
        requires
            self.models(es, lets),
            crate::ir::ast::derefs(bs@) == crate::ir::ast::blocks_of(items@),
        ensures
            reports(res, items_phase(es, lets, items@)),
    {
        let ghost fi = |k: int| item_check(es, lets, items@, items@[k]);
        let mut i: usize = 0;
        while i < items.len()
            invariant
                0 <= i <= items@.len(),
                self.models(es, lets),
                crate::ir::ast::derefs(bs@) == crate::ir::ast::blocks_of(items@),
                fi == (|k: int| item_check(es, lets, items@, items@[k])),
                all_ok(i as nat, fi) is Ok,
            decreases items@.len() - i,
        {
            let r = self.item_check(items, bs, i, Ghost(es), Ghost(lets));
            assert(all_ok((i + 1) as nat, fi) == then(all_ok(i as nat, fi), fi(i as int)));
            if r.is_err() {
                proof {
                    lemma_all_ok_sticks(fi, (i + 1) as nat, items@.len());
                }
                return r;
            }
            i = i + 1;
        }
        Ok(())
    }

    fn removed_phase(&self, rs: &Vec<&crate::ir::ast::RemovedDecl>, Ghost(es): Ghost<Seq<(Seq<char>, NameKind)>>, Ghost(lets): Ghost<Seq<Seq<char>>>) -> (res: crate::error::Result<()>)
        requires
            self.models(es, lets),
        ensures
            reports(res, removed_phase(es, crate::ir::ast::derefs(rs@))),
    {
        let ghost rv = crate::ir::ast::derefs(rs@);
        let ghost fr = |k: int| removed_one(es, rv.take(k), rv[k]);
        let mut i: usize = 0;
        while i < rs.len()
            invariant
                0 <= i <= rs@.len(),
                self.models(es, lets),
                rv == crate::ir::ast::derefs(rs@),
                fr == (|k: int| removed_one(es, rv.take(k), rv[k])),
                all_ok(i as nat, fr) is Ok,
            decreases rs@.len() - i,
        {
            let r = self.removed_one(rs, i, Ghost(es), Ghost(lets));
            assert(rv[i as int] == *rs@[i as int]);
            assert(all_ok((i + 1) as nat, fr) == then(all_ok(i as nat, fr), fr(i as int)));
            if r.is_err() {
                proof {
                    lemma_all_ok_sticks(fr, (i + 1) as nat, rv.len());
                }
                return r;
            }
            i = i + 1;
        }
        Ok(())
    }

    fn moved_phase(&self, rs: &Vec<&crate::ir::ast::RemovedDecl>, ms: &Vec<&crate::ir::ast::MovedDecl>, Ghost(es): Ghost<Seq<(Seq<char>, NameKind)>>, Ghost(lets): Ghost<Seq<Seq<char>>>) -> (res: crate::error::Result<()>)
        requires
            self.models(es, lets),
        ensures
            reports(res, moved_phase(es, crate::ir::ast::derefs(rs@), crate::ir::ast::derefs(ms@))),
    {
        let ghost rv = crate::ir::ast::derefs(rs@);
        let ghost mv = crate::ir::ast::derefs(ms@);
        let ghost fm = |k: int| moved_one(es, rv, mv.take(k), mv[k]);
        let mut i: usize = 0;
        while i < ms.len()
            invariant
                0 <= i <= ms@.len(),
                self.models(es, lets),
                rv == crate::ir::ast::derefs(rs@),
                mv == crate::ir::ast::derefs(ms@),
                fm == (|k: int| moved_one(es, rv, mv.take(k), mv[k])),
                all_ok(i as nat, fm) is Ok,
            decreases ms@.len() - i,
        {
            let r = self.moved_one(rs, ms, i, Ghost(es), Ghost(lets));
            assert(mv[i as int] == *ms@[i as int]);
            assert(all_ok((i + 1) as nat, fm) == then(all_ok(i as nat, fm), fm(i as int)));
            if r.is_err() {
                proof {
                    lemma_all_ok_sticks(fm, (i + 1) as nat, mv.len());
                }
                return r;
            }
            i = i + 1;
        }
        Ok(())
    }
}

fn check_chains(ms: &Vec<&crate::ir::ast::MovedDecl>) -> (res: crate::error::Result<()>)
    ensures
        reports(res, chain_phase(crate::ir::ast::derefs(ms@))),
{
    let ghost mv = crate::ir::ast::derefs(ms@);
    let ghost fc = |k: int| chain_one(mv, mv[k]);
    let mut i: usize = 0;
    while i < ms.len()
        invariant
            0 <= i <= ms@.len(),
            mv == crate::ir::ast::derefs(ms@),
            fc == (|k: int| chain_one(mv, mv[k])),
            all_ok(i as nat, fc) is Ok,
        decreases ms@.len() - i,
    {
        assert(mv[i as int] == *ms@[i as int]);
        assert(all_ok((i + 1) as nat, fc) == then(all_ok(i as nat, fc), fc(i as int)));
        if moved_before(ms, ms.len(), ms[i].to.as_str(), true) {
            let mut m = String::new();
            push_str(&mut m, "chained `moved` through `");
            push_str(&mut m, ms[i].to.as_str());
            push_str(&mut m, "` — collapse into one `moved` statement");
            proof {
                lemma_all_ok_sticks(fc, (i + 1) as nat, mv.len());
            }
            return fail(m);
        }
        i = i + 1;
    }
    Ok(())
}

fn let_name_list<'a>(ls: &Vec<&'a LetDecl>) -> (r: Vec<&'a str>)
    ensures
        r@.map_values(|c: &str| c@) == crate::ir::ast::derefs(ls@).map_values(|l: LetDecl| l.name@),
{
    let ghost lv = crate::ir::ast::derefs(ls@);
    let mut out: Vec<&str> = Vec::new();
    let mut q: usize = 0;
    while q < ls.len()
        invariant
            0 <= q <= ls@.len(),
            lv == crate::ir::ast::derefs(ls@),
            out@.map_values(|c: &str| c@) == lv.take(q as int).map_values(|l: LetDecl| l.name@),
        decreases ls@.len() - q,
    {
        let ghost before = out@.map_values(|c: &str| c@);
        out.push(ls[q].name.as_str());
        proof {
            assert(lv[q as int] == *ls@[q as int]);
            assert(lv.take(q + 1) =~= lv.take(q as int).push(lv[q as int]));
            assert(lv.take(q + 1).map_values(|l: LetDecl| l.name@) =~= lv.take(q as int).map_values(
                |l: LetDecl| l.name@,
            ).push(lv[q as int].name@));
            assert(out@.map_values(|c: &str| c@) =~= before.push(lv[q as int].name@));
        }
        q = q + 1;
    }
    assert(lv.take(lv.len() as int) =~= lv);
    out
}

impl Module {
    /// Name uniqueness, reference resolution, and statement-level
    /// consistency (no base config needed). Port existence and directions
    /// on managed blocks are checked separately by `validate_ports`.
    pub fn validate(&self) -> (res: crate::error::Result<()>)
        ensures
            reports(res, validate_spec(self.items@)),
    {
        let items = &self.items;
        let ghost es = name_entries(items@);
        let ghost lets = lets_of(items@).map_values(|l: LetDecl| l.name@);
        let kinds = match build_names(items) {
            Ok(k) => k,
            Err(n) => {
                let mut m = String::new();
                push_str(&mut m, "duplicate name `");
                push_str(&mut m, n.as_str());
                push_str(&mut m, "`");
                return fail(m);
            },
        };
        let ls = self.lets();
        let let_names = let_name_list(&ls);
        let names = Names { kinds, lets: let_names };
        assert(names.models(es, lets));
        let bs = self.blocks();
        let r = names.items_phase(items, &bs, Ghost(es), Ghost(lets));
        if r.is_err() {
            return r;
        }
        let rs = self.removed();
        let r = names.removed_phase(&rs, Ghost(es), Ghost(lets));
        if r.is_err() {
            return r;
        }
        let ms = self.moved();
        let r = names.moved_phase(&rs, &ms, Ghost(es), Ghost(lets));
        if r.is_err() {
            return r;
        }
        check_chains(&ms)
    }
}

} // verus!
