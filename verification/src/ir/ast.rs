//! IR abstract syntax and canonical text emission.
use crate::text::{
    all_digits, chars_of, find_from, lemma_find_from, push_char, push_str, str_eq, string_of,
};
use vstd::prelude::*;

verus! {

#[derive(Debug)]
pub struct Module {
    pub items: Vec<Item>,
}

#[derive(Debug)]
pub enum Item {
    Extern(ExternDecl),
    Block(BlockDecl),
    Wire(WireDecl),
    /// `target.Port = value` — a parameter written onto an extern port.
    Assign(SetDecl),
    Let(LetDecl),
    Removed(RemovedDecl),
    Moved(MovedDecl),
    /// `template <name>(<params>)` … `end` — a reusable statement body.
    Template(TemplateDecl),
    /// `<slug> = <template_name>(<param>: <arg>, …)` — a template
    /// instantiation (`block_type` holds the template name).
    Instance(BlockDecl),
    /// `target.Port <- <expr>` — expression sugar onto an extern port.
    ExprWire(ExprWireDecl),
    /// `page "Title"` — the page the following block declarations are
    /// placed on.
    Page(PageDecl),
    /// A whole-line `#` comment, stored verbatim (text after the `#`).
    Comment(String),
}

/// A parameter/assignment value, recording how it was written.
#[derive(Debug, Clone, PartialEq, Eq)]
pub enum Value {
    /// Bare numeric literal, kept exactly as written (e.g. `-2.5`).
    Number(String),
    /// Quoted string, stored decoded.
    Str(String),
    /// Bare identifier referencing a `let` constant.
    Ref(String),
    /// A number with a unit suffix (`40s`, `1.5h`, `2700K`), kept as
    /// written.
    Unit { number: String, unit: Unit },
}

/// A value's unit suffix. Time units scale to seconds; `K` and `%` are
/// annotations with factor 1.
#[derive(Debug, Clone, Copy, PartialEq, Eq, Structural)]
pub enum Unit {
    Ms,
    S,
    Min,
    H,
    K,
    Pct,
}

/// `extern slug = Type(matcher: "value")` — a reference to an object owned
/// by Loxone Config.
#[derive(Debug, Clone, PartialEq, Eq)]
pub struct ExternDecl {
    pub slug: String,
    pub block_type: String,
    pub match_spec: MatchSpec,
    /// Room constraint (`room: "Büro"`).
    pub room: Option<String>,
    /// Category constraint (`category: "Beleuchtung"`).
    pub category: Option<String>,
    /// Trailing `#` comment on the statement line, verbatim.
    pub comment: Option<String>,
}

#[derive(Debug, Clone, PartialEq, Eq)]
pub enum MatchSpec {
    Uuid(String),
    IName(String),
    Title(String),
    /// `mirrors: <slug>` — for `InputRef`/`OutputRef` externs only.
    Mirrors(String),
}

/// `slug = Type("Label", Port: value, Port: source.Q, …)` — a managed block.
#[derive(Debug)]
pub struct BlockDecl {
    pub slug: String,
    pub block_type: String,
    /// The optional leading string argument: the display title.
    pub title: Option<String>,
    /// Keyword arguments and whole-line comments, in source order.
    pub args: Vec<ArgItem>,
    /// Trailing `#` comment on the header line.
    pub comment: Option<String>,
    /// Trailing `#` comment on the closing `)` line, verbatim.
    pub close_comment: Option<String>,
}

/// One entry of a block's argument list.
#[derive(Debug)]
pub enum ArgItem {
    Binding(Binding),
    /// A whole-line `#` comment inside the argument list, verbatim.
    Comment(String),
}

/// `Port: value`, `Port: slug.Port` or `Port: <expr>` inside an argument
/// list.
#[derive(Debug)]
pub struct Binding {
    pub port: String,
    pub kind: BindingKind,
    /// Trailing `#` comment on the argument line, verbatim.
    pub comment: Option<String>,
}

#[derive(Debug)]
pub enum BindingKind {
    /// A literal or constant reference: becomes `Def=` on the port.
    Param(Value),
    /// A `slug.Port` source reference: becomes a wire into the port.
    Wire(PortRef),
    /// A boolean expression wired into the port.
    Expr(Expr),
}

/// `target.Port <- source.Port` — a wire onto an *extern* port.
#[derive(Debug, Clone, PartialEq, Eq)]
pub struct WireDecl {
    pub to: PortRef,
    pub from: PortRef,
    pub comment: Option<String>,
}

/// `target.Port <- <expr>` — expression sugar on an extern port.
#[derive(Debug)]
pub struct ExprWireDecl {
    pub to: PortRef,
    pub expr: Expr,
    pub comment: Option<String>,
}

/// A boolean expression. Precedence, loosest to tightest:
/// `or` < `and` < `not` < comparison < `+ -` < `* /`.
#[derive(Debug)]
pub enum Expr {
    Or(Box<Expr>, Box<Expr>),
    And(Box<Expr>, Box<Expr>),
    Not(Box<Expr>),
    Cmp { op: CmpOp, lhs: Operand, rhs: Operand },
    Arith { op: ArithOp, lhs: Box<Expr>, rhs: Box<Expr> },
    /// A bare operand in gate position.
    Atom(Operand),
}

/// Comparison operator; each maps to one verified comparator block type.
#[derive(Debug, Clone, Copy, PartialEq, Eq, Structural)]
pub enum CmpOp {
    Ge,
    Gt,
    Le,
    Lt,
    Eq,
    Ne,
}

/// Arithmetic operator; all four land in the same `Formula` block.
#[derive(Debug, Clone, Copy, PartialEq, Eq, Structural)]
pub enum ArithOp {
    Add,
    Sub,
    Mul,
    Div,
}

/// A leaf of an expression: a source port or a constant.
#[derive(Debug)]
pub enum Operand {
    Port(PortRef),
    Value(Value),
}

/// `target.Port = value` — write a parameter on an *extern* port.
#[derive(Debug, Clone, PartialEq, Eq)]
pub struct SetDecl {
    pub target: PortRef,
    pub value: Value,
    pub comment: Option<String>,
}

/// `let name = value` — a named constant.
#[derive(Debug, Clone, PartialEq, Eq)]
pub struct LetDecl {
    pub name: String,
    pub value: Value,
    pub comment: Option<String>,
}

/// `removed slug` — a managed block's absence is intentional.
#[derive(Debug, Clone, PartialEq, Eq)]
pub struct RemovedDecl {
    pub slug: String,
    pub comment: Option<String>,
}

/// `page "<Title>"` — the page later block declarations are built on.
#[derive(Debug, Clone, PartialEq, Eq)]
pub struct PageDecl {
    pub title: String,
    pub comment: Option<String>,
}

/// `moved old_slug -> new_slug` — a slug rename keeping identity.
#[derive(Debug, Clone, PartialEq, Eq)]
pub struct MovedDecl {
    pub from: String,
    pub to: String,
    pub comment: Option<String>,
}

/// `template <name>(<params>)` … `end`.
#[derive(Debug)]
pub struct TemplateDecl {
    pub name: String,
    pub params: Vec<TemplateParam>,
    /// Block declarations, wires, port assignments, and comments.
    pub body: Vec<Item>,
    pub comment: Option<String>,
    pub end_comment: Option<String>,
}

/// One parameter of a template header.
#[derive(Debug, Clone, PartialEq, Eq)]
pub enum TemplateParam {
    /// `name: Type` — the instance passes an extern or block slug.
    Object { name: String, block_type: String },
    /// `name = <literal>` — a value parameter with a default.
    Value { name: String, default: Value },
}

#[derive(Debug, Clone, PartialEq, Eq)]
pub struct PortRef {
    pub slug: String,
    pub port: String,
}

// ---------------------------------------------------------------------------
// Small accessors
// ---------------------------------------------------------------------------

pub open spec fn unit_suffix(u: Unit) -> Seq<char> {
    match u {
        Unit::Ms => "ms"@,
        Unit::S => "s"@,
        Unit::Min => "min"@,
        Unit::H => "h"@,
        Unit::K => "K"@,
        Unit::Pct => "%"@,
    }
}

pub open spec fn unit_of(s: Seq<char>) -> Option<Unit> {
    if s == "ms"@ {
        Some(Unit::Ms)
    } else if s == "s"@ {
        Some(Unit::S)
    } else if s == "min"@ {
        Some(Unit::Min)
    } else if s == "h"@ {
        Some(Unit::H)
    } else if s == "K"@ {
        Some(Unit::K)
    } else if s == "%"@ {
        Some(Unit::Pct)
    } else {
        None
    }
}

/// `(multiplier, extra decimal digits)` of a unit.
pub open spec fn unit_factor(u: Unit) -> (u128, u32) {
    match u {
        Unit::Ms => (1, 3),
        Unit::S | Unit::K | Unit::Pct => (1, 0),
        Unit::Min => (60, 0),
        Unit::H => (3600, 0),
    }
}

impl Unit {
    pub fn suffix(self) -> (r: &'static str)
        ensures
            r@ == unit_suffix(self),
    {
        match self {
            Unit::Ms => "ms",
            Unit::S => "s",
            Unit::Min => "min",
            Unit::H => "h",
            Unit::K => "K",
            Unit::Pct => "%",
        }
    }

    pub fn parse(s: &str) -> (r: Option<Unit>)
        ensures
            r == unit_of(s@),
    {
        if str_eq(s, "ms") {
            Some(Unit::Ms)
        } else if str_eq(s, "s") {
            Some(Unit::S)
        } else if str_eq(s, "min") {
            Some(Unit::Min)
        } else if str_eq(s, "h") {
            Some(Unit::H)
        } else if str_eq(s, "K") {
            Some(Unit::K)
        } else if str_eq(s, "%") {
            Some(Unit::Pct)
        } else {
            None
        }
    }

    pub fn factor(self) -> (r: (u128, u32))
        ensures
            r == unit_factor(self),
    {
        match self {
            Unit::Ms => (1, 3),
            Unit::S | Unit::K | Unit::Pct => (1, 0),
            Unit::Min => (60, 0),
            Unit::H => (3600, 0),
        }
    }
}

pub open spec fn cmp_symbol(op: CmpOp) -> Seq<char> {
    match op {
        CmpOp::Ge => ">="@,
        CmpOp::Gt => ">"@,
        CmpOp::Le => "<="@,
        CmpOp::Lt => "<"@,
        CmpOp::Eq => "=="@,
        CmpOp::Ne => "!="@,
    }
}

impl CmpOp {
    pub fn symbol(self) -> (r: &'static str)
        ensures
            r@ == cmp_symbol(self),
    {
        match self {
            CmpOp::Ge => ">=",
            CmpOp::Gt => ">",
            CmpOp::Le => "<=",
            CmpOp::Lt => "<",
            CmpOp::Eq => "==",
            CmpOp::Ne => "!=",
        }
    }
}

pub open spec fn arith_symbol(op: ArithOp) -> Seq<char> {
    match op {
        ArithOp::Add => "+"@,
        ArithOp::Sub => "-"@,
        ArithOp::Mul => "*"@,
        ArithOp::Div => "/"@,
    }
}

impl ArithOp {
    pub fn symbol(self) -> (r: &'static str)
        ensures
            r@ == arith_symbol(self),
    {
        match self {
            ArithOp::Add => "+",
            ArithOp::Sub => "-",
            ArithOp::Mul => "*",
            ArithOp::Div => "/",
        }
    }
}

pub open spec fn param_name(p: TemplateParam) -> Seq<char> {
    match p {
        TemplateParam::Object { name, .. } => name@,
        TemplateParam::Value { name, .. } => name@,
    }
}

impl TemplateParam {
    pub fn name(&self) -> (r: &str)
        ensures
            r@ == param_name(*self),
    {
        match self {
            TemplateParam::Object { name, .. } => name.as_str(),
            TemplateParam::Value { name, .. } => name.as_str(),
        }
    }
}

/// Whether `s` is a run of ASCII digits, at least one.
pub open spec fn digit_run(s: Seq<char>) -> bool {
    s.len() > 0 && forall|i: int| 0 <= i < s.len() ==> '0' <= #[trigger] s[i] && s[i] <= '9'
}

/// Without one leading `-`.
pub open spec fn unsigned_part(s: Seq<char>) -> Seq<char> {
    if s.len() > 0 && s[0] == '-' {
        s.drop_first()
    } else {
        s
    }
}

/// Whether `s` is exactly a number token: `-?[0-9]+(\.[0-9]+)?`.
pub open spec fn number_literal(s: Seq<char>) -> bool {
    let t = unsigned_part(s);
    let d = find_from(t, 0, '.');
    if d >= t.len() {
        digit_run(t)
    } else {
        digit_run(t.subrange(0, d)) && digit_run(t.subrange(d + 1, t.len() as int))
    }
}

fn digit_run_exec(v: &Vec<char>, lo: usize, hi: usize) -> (r: bool)
    requires
        lo <= hi <= v@.len(),
    ensures
        r == digit_run(v@.subrange(lo as int, hi as int)),
{
    if lo == hi {
        return false;
    }
    let mut i = lo;
    while i < hi
        invariant
            lo <= i <= hi <= v@.len(),
            forall|k: int| lo <= k < i ==> '0' <= v@[k] && v@[k] <= '9',
        decreases hi - i,
    {
        if !('0' <= v[i] && v[i] <= '9') {
            assert(v@.subrange(lo as int, hi as int)[i - lo] == v@[i as int]);
            return false;
        }
        i = i + 1;
    }
    assert forall|k: int| 0 <= k < hi - lo implies '0' <= #[trigger] v@.subrange(
        lo as int,
        hi as int,
    )[k] && v@.subrange(lo as int, hi as int)[k] <= '9' by {
        assert(v@.subrange(lo as int, hi as int)[k] == v@[lo + k]);
    }
    true
}

/// Whether `s` is exactly a number token: `-?[0-9]+(\.[0-9]+)?`.
pub fn is_number_literal(s: &str) -> (r: bool)
    ensures
        r == number_literal(s@),
{
    let all = chars_of(s);
    let start: usize = if all.len() > 0 && all[0] == '-' {
        1
    } else {
        0
    };
    let t = crate::text::chars_range(&all, start, all.len());
    proof {
        assert(t@ =~= unsigned_part(s@));
    }
    let d = crate::text::find_char_from(&t, 0, '.');
    proof {
        lemma_find_from(t@, 0, '.');
    }
    if d >= t.len() {
        proof {
            assert(t@.subrange(0, t@.len() as int) =~= t@);
        }
        digit_run_exec(&t, 0, t.len())
    } else {
        digit_run_exec(&t, 0, d) && digit_run_exec(&t, d + 1, t.len())
    }
}

/// `quote`: a string in IR source form — `"`, `\` and newlines escaped.
pub open spec fn quote_char(c: char) -> Seq<char> {
    if c == '"' {
        seq!['\\', '"']
    } else if c == '\\' {
        seq!['\\', '\\']
    } else if c == '\n' {
        seq!['\\', 'n']
    } else {
        seq![c]
    }
}

pub open spec fn quote_body(s: Seq<char>) -> Seq<char>
    decreases s.len(),
{
    if s.len() == 0 {
        seq![]
    } else {
        quote_body(s.drop_last()) + quote_char(s.last())
    }
}

pub open spec fn quoted(s: Seq<char>) -> Seq<char> {
    seq!['"'] + quote_body(s) + seq!['"']
}

/// Appends `s` in quoted IR source form.
pub fn push_quoted(out: &mut String, s: &str)
    ensures
        final(out)@ == old(out)@ + quoted(s@),
{
    let cs = chars_of(s);
    let ghost o = out@;
    push_char(out, '"');
    let mut i: usize = 0;
    while i < cs.len()
        invariant
            0 <= i <= cs@.len(),
            cs@ == s@,
            out@ == o + seq!['"'] + quote_body(cs@.take(i as int)),
        decreases cs@.len() - i,
    {
        let c = cs[i];
        let ghost before = out@;
        if c == '"' {
            push_char(out, '\\');
            push_char(out, '"');
        } else if c == '\\' {
            push_char(out, '\\');
            push_char(out, '\\');
        } else if c == '\n' {
            push_char(out, '\\');
            push_char(out, 'n');
        } else {
            push_char(out, c);
        }
        proof {
            assert(cs@.take(i + 1).drop_last() =~= cs@.take(i as int));
            assert(out@ =~= before + quote_char(c));
        }
        i = i + 1;
    }
    push_char(out, '"');
    proof {
        assert(cs@.take(cs@.len() as int) =~= cs@);
        assert(out@ =~= o + quoted(s@));
    }
}

/// A string in quoted IR source form.
pub fn quote(s: &str) -> (r: String)
    ensures
        r@ == quoted(s@),
{
    let mut out = String::new();
    push_quoted(&mut out, s);
    proof {
        assert(out@ =~= quoted(s@));
    }
    out
}

impl Value {
    /// Classify a raw literal (e.g. a `Def=` value lifted from XML).
    pub fn from_literal(s: &str) -> (r: Value)
        ensures
            if number_literal(s@) {
                r matches Value::Number(n) && n@ == s@
            } else {
                r matches Value::Str(t) && t@ == s@
            },
    {
        if is_number_literal(s) {
            Value::Number(string_of(s))
        } else {
            Value::Str(string_of(s))
        }
    }
}

// ---------------------------------------------------------------------------
// Module accessors
// ---------------------------------------------------------------------------

pub open spec fn externs_of(items: Seq<Item>) -> Seq<ExternDecl>
    decreases items.len(),
{
    if items.len() == 0 {
        seq![]
    } else {
        match items.last() {
            Item::Extern(e) => externs_of(items.drop_last()).push(e),
            _ => externs_of(items.drop_last()),
        }
    }
}

pub open spec fn blocks_of(items: Seq<Item>) -> Seq<BlockDecl>
    decreases items.len(),
{
    if items.len() == 0 {
        seq![]
    } else {
        match items.last() {
            Item::Block(b) => blocks_of(items.drop_last()).push(b),
            _ => blocks_of(items.drop_last()),
        }
    }
}

pub open spec fn wires_of(items: Seq<Item>) -> Seq<WireDecl>
    decreases items.len(),
{
    if items.len() == 0 {
        seq![]
    } else {
        match items.last() {
            Item::Wire(w) => wires_of(items.drop_last()).push(w),
            _ => wires_of(items.drop_last()),
        }
    }
}

pub open spec fn expr_wires_of(items: Seq<Item>) -> Seq<ExprWireDecl>
    decreases items.len(),
{
    if items.len() == 0 {
        seq![]
    } else {
        match items.last() {
            Item::ExprWire(w) => expr_wires_of(items.drop_last()).push(w),
            _ => expr_wires_of(items.drop_last()),
        }
    }
}

pub open spec fn sets_of(items: Seq<Item>) -> Seq<SetDecl>
    decreases items.len(),
{
    if items.len() == 0 {
        seq![]
    } else {
        match items.last() {
            Item::Assign(s) => sets_of(items.drop_last()).push(s),
            _ => sets_of(items.drop_last()),
        }
    }
}

pub open spec fn lets_of(items: Seq<Item>) -> Seq<LetDecl>
    decreases items.len(),
{
    if items.len() == 0 {
        seq![]
    } else {
        match items.last() {
            Item::Let(l) => lets_of(items.drop_last()).push(l),
            _ => lets_of(items.drop_last()),
        }
    }
}

pub open spec fn removed_of(items: Seq<Item>) -> Seq<RemovedDecl>
    decreases items.len(),
{
    if items.len() == 0 {
        seq![]
    } else {
        match items.last() {
            Item::Removed(r) => removed_of(items.drop_last()).push(r),
            _ => removed_of(items.drop_last()),
        }
    }
}

pub open spec fn moved_of(items: Seq<Item>) -> Seq<MovedDecl>
    decreases items.len(),
{
    if items.len() == 0 {
        seq![]
    } else {
        match items.last() {
            Item::Moved(m) => moved_of(items.drop_last()).push(m),
            _ => moved_of(items.drop_last()),
        }
    }
}

pub open spec fn derefs<T>(v: Seq<&T>) -> Seq<T> {
    v.map_values(|x: &T| *x)
}

impl Module {
    pub fn externs(&self) -> (r: Vec<&ExternDecl>)
        ensures
            derefs(r@) == externs_of(self.items@),
    {
        let mut out: Vec<&ExternDecl> = Vec::new();
        let mut i: usize = 0;
        while i < self.items.len()
            invariant
                0 <= i <= self.items@.len(),
                derefs(out@) == externs_of(self.items@.take(i as int)),
            decreases self.items@.len() - i,
        {
            proof {
                assert(self.items@.take(i + 1).drop_last() =~= self.items@.take(i as int));
            }
            let ghost b = out@;
            match &self.items[i] {
                Item::Extern(e) => {
                    out.push(e);
                    assert(derefs(out@) =~= derefs(b).push(*e));
                },
                _ => {},
            }
            i = i + 1;
        }
        assert(self.items@.take(self.items@.len() as int) =~= self.items@);
        out
    }

    pub fn blocks(&self) -> (r: Vec<&BlockDecl>)
        ensures
            derefs(r@) == blocks_of(self.items@),
    {
        let mut out: Vec<&BlockDecl> = Vec::new();
        let mut i: usize = 0;
        while i < self.items.len()
            invariant
                0 <= i <= self.items@.len(),
                derefs(out@) == blocks_of(self.items@.take(i as int)),
            decreases self.items@.len() - i,
        {
            proof {
                assert(self.items@.take(i + 1).drop_last() =~= self.items@.take(i as int));
            }
            let ghost b = out@;
            match &self.items[i] {
                Item::Block(x) => {
                    out.push(x);
                    assert(derefs(out@) =~= derefs(b).push(*x));
                },
                _ => {},
            }
            i = i + 1;
        }
        assert(self.items@.take(self.items@.len() as int) =~= self.items@);
        out
    }

    /// The `<-` statements (wires onto extern ports).
    pub fn extern_wires(&self) -> (r: Vec<&WireDecl>)
        ensures
            derefs(r@) == wires_of(self.items@),
    {
        let mut out: Vec<&WireDecl> = Vec::new();
        let mut i: usize = 0;
        while i < self.items.len()
            invariant
                0 <= i <= self.items@.len(),
                derefs(out@) == wires_of(self.items@.take(i as int)),
            decreases self.items@.len() - i,
        {
            proof {
                assert(self.items@.take(i + 1).drop_last() =~= self.items@.take(i as int));
            }
            let ghost b = out@;
            match &self.items[i] {
                Item::Wire(x) => {
                    out.push(x);
                    assert(derefs(out@) =~= derefs(b).push(*x));
                },
                _ => {},
            }
            i = i + 1;
        }
        assert(self.items@.take(self.items@.len() as int) =~= self.items@);
        out
    }

    /// The `<-` statements with an expression right-hand side.
    pub fn expr_wires(&self) -> (r: Vec<&ExprWireDecl>)
        ensures
            derefs(r@) == expr_wires_of(self.items@),
    {
        let mut out: Vec<&ExprWireDecl> = Vec::new();
        let mut i: usize = 0;
        while i < self.items.len()
            invariant
                0 <= i <= self.items@.len(),
                derefs(out@) == expr_wires_of(self.items@.take(i as int)),
            decreases self.items@.len() - i,
        {
            proof {
                assert(self.items@.take(i + 1).drop_last() =~= self.items@.take(i as int));
            }
            let ghost b = out@;
            match &self.items[i] {
                Item::ExprWire(x) => {
                    out.push(x);
                    assert(derefs(out@) =~= derefs(b).push(*x));
                },
                _ => {},
            }
            i = i + 1;
        }
        assert(self.items@.take(self.items@.len() as int) =~= self.items@);
        out
    }

    /// The `=` port statements.
    pub fn sets(&self) -> (r: Vec<&SetDecl>)
        ensures
            derefs(r@) == sets_of(self.items@),
    {
        let mut out: Vec<&SetDecl> = Vec::new();
        let mut i: usize = 0;
        while i < self.items.len()
            invariant
                0 <= i <= self.items@.len(),
                derefs(out@) == sets_of(self.items@.take(i as int)),
            decreases self.items@.len() - i,
        {
            proof {
                assert(self.items@.take(i + 1).drop_last() =~= self.items@.take(i as int));
            }
            let ghost b = out@;
            match &self.items[i] {
                Item::Assign(x) => {
                    out.push(x);
                    assert(derefs(out@) =~= derefs(b).push(*x));
                },
                _ => {},
            }
            i = i + 1;
        }
        assert(self.items@.take(self.items@.len() as int) =~= self.items@);
        out
    }

    pub fn lets(&self) -> (r: Vec<&LetDecl>)
        ensures
            derefs(r@) == lets_of(self.items@),
    {
        let mut out: Vec<&LetDecl> = Vec::new();
        let mut i: usize = 0;
        while i < self.items.len()
            invariant
                0 <= i <= self.items@.len(),
                derefs(out@) == lets_of(self.items@.take(i as int)),
            decreases self.items@.len() - i,
        {
            proof {
                assert(self.items@.take(i + 1).drop_last() =~= self.items@.take(i as int));
            }
            let ghost b = out@;
            match &self.items[i] {
                Item::Let(x) => {
                    out.push(x);
                    assert(derefs(out@) =~= derefs(b).push(*x));
                },
                _ => {},
            }
            i = i + 1;
        }
        assert(self.items@.take(self.items@.len() as int) =~= self.items@);
        out
    }

    pub fn removed(&self) -> (r: Vec<&RemovedDecl>)
        ensures
            derefs(r@) == removed_of(self.items@),
    {
        let mut out: Vec<&RemovedDecl> = Vec::new();
        let mut i: usize = 0;
        while i < self.items.len()
            invariant
                0 <= i <= self.items@.len(),
                derefs(out@) == removed_of(self.items@.take(i as int)),
            decreases self.items@.len() - i,
        {
            proof {
                assert(self.items@.take(i + 1).drop_last() =~= self.items@.take(i as int));
            }
            let ghost b = out@;
            match &self.items[i] {
                Item::Removed(x) => {
                    out.push(x);
                    assert(derefs(out@) =~= derefs(b).push(*x));
                },
                _ => {},
            }
            i = i + 1;
        }
        assert(self.items@.take(self.items@.len() as int) =~= self.items@);
        out
    }

    pub fn moved(&self) -> (r: Vec<&MovedDecl>)
        ensures
            derefs(r@) == moved_of(self.items@),
    {
        let mut out: Vec<&MovedDecl> = Vec::new();
        let mut i: usize = 0;
        while i < self.items.len()
            invariant
                0 <= i <= self.items@.len(),
                derefs(out@) == moved_of(self.items@.take(i as int)),
            decreases self.items@.len() - i,
        {
            proof {
                assert(self.items@.take(i + 1).drop_last() =~= self.items@.take(i as int));
            }
            let ghost b = out@;
            match &self.items[i] {
                Item::Moved(x) => {
                    out.push(x);
                    assert(derefs(out@) =~= derefs(b).push(*x));
                },
                _ => {},
            }
            i = i + 1;
        }
        assert(self.items@.take(self.items@.len() as int) =~= self.items@);
        out
    }
}

// ---------------------------------------------------------------------------
// Argument lists
// ---------------------------------------------------------------------------

pub open spec fn bindings_of(args: Seq<ArgItem>) -> Seq<Binding>
    decreases args.len(),
{
    if args.len() == 0 {
        seq![]
    } else {
        match args.last() {
            ArgItem::Binding(b) => bindings_of(args.drop_last()).push(b),
            ArgItem::Comment(_) => bindings_of(args.drop_last()),
        }
    }
}

/// `(port, value)` of the parameter bindings.
pub open spec fn params_of(bs: Seq<Binding>) -> Seq<(Seq<char>, Value)>
    decreases bs.len(),
{
    if bs.len() == 0 {
        seq![]
    } else {
        match bs.last().kind {
            BindingKind::Param(v) => params_of(bs.drop_last()).push((bs.last().port@, v)),
            _ => params_of(bs.drop_last()),
        }
    }
}

/// `(port, source)` of the wire bindings.
pub open spec fn input_wires_of(bs: Seq<Binding>) -> Seq<(Seq<char>, PortRef)>
    decreases bs.len(),
{
    if bs.len() == 0 {
        seq![]
    } else {
        match bs.last().kind {
            BindingKind::Wire(p) => input_wires_of(bs.drop_last()).push((bs.last().port@, p)),
            _ => input_wires_of(bs.drop_last()),
        }
    }
}

/// `(port, expression)` of the expression bindings.
pub open spec fn expr_bindings_of(bs: Seq<Binding>) -> Seq<(Seq<char>, Expr)>
    decreases bs.len(),
{
    if bs.len() == 0 {
        seq![]
    } else {
        match bs.last().kind {
            BindingKind::Expr(e) => expr_bindings_of(bs.drop_last()).push((bs.last().port@, e)),
            _ => expr_bindings_of(bs.drop_last()),
        }
    }
}

impl BlockDecl {
    /// All keyword arguments, in source order.
    pub fn bindings(&self) -> (r: Vec<&Binding>)
        ensures
            derefs(r@) == bindings_of(self.args@),
    {
        let mut out: Vec<&Binding> = Vec::new();
        let mut i: usize = 0;
        while i < self.args.len()
            invariant
                0 <= i <= self.args@.len(),
                derefs(out@) == bindings_of(self.args@.take(i as int)),
            decreases self.args@.len() - i,
        {
            proof {
                assert(self.args@.take(i + 1).drop_last() =~= self.args@.take(i as int));
            }
            let ghost b = out@;
            match &self.args[i] {
                ArgItem::Binding(x) => {
                    out.push(x);
                    assert(derefs(out@) =~= derefs(b).push(*x));
                },
                ArgItem::Comment(_) => {},
            }
            i = i + 1;
        }
        assert(self.args@.take(self.args@.len() as int) =~= self.args@);
        out
    }

    /// The parameter bindings (`Port: value`).
    pub fn params(&self) -> (r: Vec<(&str, &Value)>)
        ensures
            r@.map_values(|p: (&str, &Value)| (p.0@, *p.1)) == params_of(bindings_of(self.args@)),
    {
        let bs = self.bindings();
        let ghost bv = derefs(bs@);
        let mut out: Vec<(&str, &Value)> = Vec::new();
        let mut i: usize = 0;
        while i < bs.len()
            invariant
                0 <= i <= bs@.len(),
                bv == derefs(bs@),
                bv == bindings_of(self.args@),
                out@.map_values(|p: (&str, &Value)| (p.0@, *p.1)) == params_of(bv.take(i as int)),
            decreases bs@.len() - i,
        {
            let b = bs[i];
            proof {
                assert(bv.take(i + 1).drop_last() =~= bv.take(i as int));
                assert(bv.take(i + 1).last() == *b);
            }
            let ghost before = out@;
            match &b.kind {
                BindingKind::Param(v) => {
                    out.push((b.port.as_str(), v));
                    assert(out@.map_values(|p: (&str, &Value)| (p.0@, *p.1)) =~= before.map_values(
                        |p: (&str, &Value)| (p.0@, *p.1),
                    ).push((b.port@, *v)));
                },
                _ => {},
            }
            i = i + 1;
        }
        assert(bv.take(bv.len() as int) =~= bv);
        out
    }

    /// The wire bindings (`Port: source.Q`) as `(sink_port, source)`.
    pub fn input_wires(&self) -> (r: Vec<(&str, &PortRef)>)
        ensures
            r@.map_values(|p: (&str, &PortRef)| (p.0@, *p.1)) == input_wires_of(
                bindings_of(self.args@),
            ),
    {
        let bs = self.bindings();
        let ghost bv = derefs(bs@);
        let mut out: Vec<(&str, &PortRef)> = Vec::new();
        let mut i: usize = 0;
        while i < bs.len()
            invariant
                0 <= i <= bs@.len(),
                bv == derefs(bs@),
                bv == bindings_of(self.args@),
                out@.map_values(|p: (&str, &PortRef)| (p.0@, *p.1)) == input_wires_of(
                    bv.take(i as int),
                ),
            decreases bs@.len() - i,
        {
            let b = bs[i];
            proof {
                assert(bv.take(i + 1).drop_last() =~= bv.take(i as int));
                assert(bv.take(i + 1).last() == *b);
            }
            let ghost before = out@;
            match &b.kind {
                BindingKind::Wire(p) => {
                    out.push((b.port.as_str(), p));
                    assert(out@.map_values(|p: (&str, &PortRef)| (p.0@, *p.1)) =~= before.map_values(
                        |p: (&str, &PortRef)| (p.0@, *p.1),
                    ).push((b.port@, *p)));
                },
                _ => {},
            }
            i = i + 1;
        }
        assert(bv.take(bv.len() as int) =~= bv);
        out
    }

    /// The expression bindings (`Port: a.Q and b.Q`) as `(sink_port, expr)`.
    pub fn expr_bindings(&self) -> (r: Vec<(&str, &Expr)>)
        ensures
            r@.map_values(|p: (&str, &Expr)| (p.0@, *p.1)) == expr_bindings_of(
                bindings_of(self.args@),
            ),
    {
        let bs = self.bindings();
        let ghost bv = derefs(bs@);
        let mut out: Vec<(&str, &Expr)> = Vec::new();
        let mut i: usize = 0;
        while i < bs.len()
            invariant
                0 <= i <= bs@.len(),
                bv == derefs(bs@),
                bv == bindings_of(self.args@),
                out@.map_values(|p: (&str, &Expr)| (p.0@, *p.1)) == expr_bindings_of(
                    bv.take(i as int),
                ),
            decreases bs@.len() - i,
        {
            let b = bs[i];
            proof {
                assert(bv.take(i + 1).drop_last() =~= bv.take(i as int));
                assert(bv.take(i + 1).last() == *b);
            }
            let ghost before = out@;
            match &b.kind {
                BindingKind::Expr(e) => {
                    out.push((b.port.as_str(), e));
                    assert(out@.map_values(|p: (&str, &Expr)| (p.0@, *p.1)) =~= before.map_values(
                        |p: (&str, &Expr)| (p.0@, *p.1),
                    ).push((b.port@, *e)));
                },
                _ => {},
            }
            i = i + 1;
        }
        assert(bv.take(bv.len() as int) =~= bv);
        out
    }
}

// ---------------------------------------------------------------------------
// Expressions
// ---------------------------------------------------------------------------

/// Every leaf operand, in evaluation (post-order) order.
pub open spec fn operands_of(e: Expr) -> Seq<Operand>
    decreases e,
{
    match e {
        Expr::Or(a, b) => operands_of(*a) + operands_of(*b),
        Expr::And(a, b) => operands_of(*a) + operands_of(*b),
        Expr::Not(x) => operands_of(*x),
        Expr::Cmp { lhs, rhs, .. } => seq![lhs, rhs],
        Expr::Arith { lhs, rhs, .. } => operands_of(*lhs) + operands_of(*rhs),
        Expr::Atom(o) => seq![o],
    }
}

fn collect_operands<'a>(e: &'a Expr, out: &mut Vec<&'a Operand>)
    ensures
        derefs(final(out)@) == derefs(old(out)@) + operands_of(*e),
    decreases e,
{
    let ghost o = derefs(out@);
    match e {
        Expr::Or(a, b) | Expr::And(a, b) => {
            collect_operands(a, out);
            collect_operands(b, out);
        },
        Expr::Not(x) => collect_operands(x, out),
        Expr::Cmp { lhs, rhs, .. } => {
            out.push(lhs);
            out.push(rhs);
        },
        Expr::Arith { lhs, rhs, .. } => {
            collect_operands(lhs, out);
            collect_operands(rhs, out);
        },
        Expr::Atom(x) => out.push(x),
    }
    assert(derefs(out@) =~= o + operands_of(*e));
}

impl Expr {
    /// Every leaf operand, in evaluation (post-order) order.
    pub fn operands(&self) -> (r: Vec<&Operand>)
        ensures
            derefs(r@) == operands_of(*self),
    {
        let mut out: Vec<&Operand> = Vec::new();
        assert(derefs(out@) =~= Seq::<Operand>::empty());
        collect_operands(self, &mut out);
        assert(derefs(out@) =~= operands_of(*self));
        out
    }
}

// ---------------------------------------------------------------------------
// Values
// ---------------------------------------------------------------------------

/// A value as written in source.
pub open spec fn value_text(v: Value) -> Seq<char> {
    match v {
        Value::Number(n) => n@,
        Value::Str(s) => quoted(s@),
        Value::Ref(r) => r@,
        Value::Unit { number, unit } => number@ + unit_suffix(unit),
    }
}

/// Appends a value as written in source.
pub fn push_value(out: &mut String, v: &Value)
    ensures
        final(out)@ == old(out)@ + value_text(*v),
{
    match v {
        Value::Number(n) => push_str(out, n.as_str()),
        Value::Str(t) => push_quoted(out, t.as_str()),
        Value::Ref(r) => push_str(out, r.as_str()),
        Value::Unit { number, unit } => {
            let ghost o = out@;
            push_str(out, number.as_str());
            push_str(out, unit.suffix());
            assert(out@ =~= o + value_text(*v));
        },
    }
}

/// The part before the first `.` and the part after it (empty without one).
pub open spec fn split_point(s: Seq<char>) -> (Seq<char>, Seq<char>) {
    let d = find_from(s, 0, '.');
    if d >= s.len() {
        (s, seq![])
    } else {
        (s.subrange(0, d), s.subrange(d + 1, s.len() as int))
    }
}

/// `s` right-aligned in a field of `w` zeros.
pub open spec fn zero_pad(s: Seq<char>, w: nat) -> Seq<char> {
    if s.len() >= w {
        s
    } else {
        Seq::new((w - s.len()) as nat, |i: int| '0') + s
    }
}

pub open spec fn end_not_zero(s: Seq<char>, n: int) -> int
    decreases n,
{
    if n <= 0 || n > s.len() || s[n - 1] != '0' {
        n
    } else {
        end_not_zero(s, n - 1)
    }
}

/// Without trailing `0`s.
pub open spec fn trim_zeros(s: Seq<char>) -> Seq<char> {
    s.subrange(0, end_not_zero(s, s.len() as int))
}

/// The digits of `m` with a decimal point `point` places from the right,
/// trailing fractional zeros dropped (`5400`, `0.25`).
pub open spec fn point_text(m: nat, point: nat) -> Seq<char> {
    let digits = crate::text::dec(m);
    if point == 0 {
        digits
    } else {
        let (ip, fp) = if digits.len() > point {
            (
                digits.subrange(0, digits.len() - point),
                digits.subrange(digits.len() - point, digits.len() as int),
            )
        } else {
            ("0"@, zero_pad(digits, point))
        };
        let fp2 = trim_zeros(fp);
        if fp2.len() == 0 {
            ip
        } else {
            ip + "."@ + fp2
        }
    }
}

/// A number literal's sign, and the digits before and after its point.
pub open spec fn number_parts(number: Seq<char>) -> (bool, Seq<char>, Seq<char>) {
    let neg = number.len() > 0 && number[0] == '-';
    let rest = if neg {
        number.drop_first()
    } else {
        number
    };
    let (ipart, frac) = split_point(rest);
    (neg, ipart, frac)
}

/// A number literal scaled by a unit's factor, exactly (`1.5` hours →
/// `5400`, `250` ms → `0.25`); `None` when the digits overflow the exact
/// range of a 128-bit integer.
pub open spec fn scale_spec(number: Seq<char>, unit: Unit) -> Option<Seq<char>> {
    let (mul, shift) = unit_factor(unit);
    let (neg, ipart, frac) = number_parts(number);
    match crate::text::parse_unsigned(ipart + frac, false, u128::MAX as int) {
        None => None,
        Some(m) => if m * mul > u128::MAX {
            None
        } else {
            let out = point_text((m * mul) as nat, (frac.len() + shift) as nat);
            Some(
                if neg && out != "0"@ {
                    "-"@ + out
                } else {
                    out
                },
            )
        },
    }
}

fn split_number(number: &str) -> (r: (bool, Vec<char>, Vec<char>))
    ensures
        (r.0, r.1@, r.2@) == number_parts(number@),
        r.2@.len() <= number@.len(),
{
    let all = chars_of(number);
    let neg = all.len() > 0 && all[0] == '-';
    let start: usize = if neg {
        1
    } else {
        0
    };
    let rest = crate::text::chars_range(&all, start, all.len());
    assert(rest@ =~= (if neg {
        number@.drop_first()
    } else {
        number@
    }));
    let d = crate::text::find_char_from(&rest, 0, '.');
    proof {
        lemma_find_from(rest@, 0, '.');
    }
    let (ipart, frac) = if d >= rest.len() {
        (crate::text::chars_range(&rest, 0, rest.len()), Vec::new())
    } else {
        (crate::text::chars_range(&rest, 0, d), crate::text::chars_range(&rest, d + 1, rest.len()))
    };
    proof {
        if d >= rest@.len() {
            assert(rest@.subrange(0, rest@.len() as int) =~= rest@);
            assert(frac@ =~= Seq::<char>::empty());
        }
        assert((ipart@, frac@) == split_point(rest@));
    }
    (neg, ipart, frac)
}

fn concat_chars(a: &Vec<char>, b: &Vec<char>) -> (r: Vec<char>)
    ensures
        r@ == a@ + b@,
{
    let mut r = crate::text::chars_range(a, 0, a.len());
    let mut k: usize = 0;
    while k < b.len()
        invariant
            0 <= k <= b@.len(),
            r@ == a@ + b@.take(k as int),
        decreases b@.len() - k,
    {
        r.push(b[k]);
        proof {
            assert(b@.take(k + 1) =~= b@.take(k as int).push(b@[k as int]));
        }
        k = k + 1;
    }
    proof {
        assert(a@.subrange(0, a@.len() as int) =~= a@);
        assert(b@.take(b@.len() as int) =~= b@);
    }
    r
}

fn zero_padded(dv: &Vec<char>, p: usize) -> (z: Vec<char>)
    requires
        dv@.len() <= p,
    ensures
        z@ == zero_pad(dv@, p as nat),
{
    let mut z: Vec<char> = Vec::new();
    let mut q: usize = 0;
    while q < p - dv.len()
        invariant
            0 <= q <= p - dv@.len(),
            dv@.len() <= p,
            z@ == Seq::new(q as nat, |i: int| '0'),
        decreases p - dv@.len() - q,
    {
        z.push('0');
        proof {
            assert(z@ =~= Seq::new((q + 1) as nat, |i: int| '0'));
        }
        q = q + 1;
    }
    let r = concat_chars(&z, dv);
    proof {
        if dv@.len() == p {
            assert(z@ =~= Seq::<char>::empty());
            assert(r@ =~= dv@);
        }
    }
    r
}

fn point_chars(m: u128, point: u32) -> (out: Vec<char>)
    ensures
        out@ == point_text(m as nat, point as nat),
{
    proof {
        reveal_strlit("0");
        reveal_strlit(".");
    }
    let mut ds = String::new();
    crate::text::push_dec_wide(&mut ds, m);
    let dv = chars_of(ds.as_str());
    assert(dv@ =~= crate::text::dec(m as nat));
    if point == 0 {
        return dv;
    }
    let p = point as usize;
    let (ip, fp) = if dv.len() > p {
        (crate::text::chars_range(&dv, 0, dv.len() - p), crate::text::chars_range(&dv, dv.len() - p, dv.len()))
    } else {
        let z = zero_padded(&dv, p);
        let zero = vec!['0'];
        assert(zero@ =~= "0"@);
        (zero, z)
    };
    let mut e = fp.len();
    while e > 0 && fp[e - 1] == '0'
        invariant
            0 <= e <= fp@.len(),
            end_not_zero(fp@, fp@.len() as int) == end_not_zero(fp@, e as int),
        decreases e,
    {
        e = e - 1;
    }
    let fp2 = crate::text::chars_range(&fp, 0, e);
    if fp2.len() == 0 {
        ip
    } else {
        let mut head = crate::text::chars_range(&ip, 0, ip.len());
        head.push('.');
        let out = concat_chars(&head, &fp2);
        proof {
            assert(ip@.subrange(0, ip@.len() as int) =~= ip@);
            assert(out@ =~= ip@ + "."@ + fp2@);
        }
        out
    }
}

/// Scale a number literal (`-?digits(.digits)?`) by a unit's factor,
/// exactly, rendering a plain number literal. `None` when the digits
/// overflow the exact range.
pub fn scale_by_unit(number: &str, unit: Unit) -> (r: Option<String>)
    requires
        number@.len() + 3 <= u32::MAX,
    ensures
        match r {
            Some(v) => scale_spec(number@, unit) == Some(v@),
            None => scale_spec(number@, unit) is None,
        },
{
    proof {
        reveal_strlit("0");
        reveal_strlit("-");
    }
    let (mul, shift) = unit.factor();
    let (neg, ipart, frac) = split_number(number);
    let joined = concat_chars(&ipart, &frac);
    let m = match crate::text::parse_unsigned_wide(&joined, false, u128::MAX) {
        Some(m) => m,
        None => {
            return None;
        },
    };
    let m = match m.checked_mul(mul) {
        Some(x) => x,
        None => {
            return None;
        },
    };
    let point: u32 = (frac.len() as u32) + shift;
    let out = point_chars(m, point);
    let is_zero = out.len() == 1 && out[0] == '0';
    proof {
        if out@ == "0"@ {
            assert(out@.len() == 1 && out@[0] == '0');
        }
        if is_zero {
            assert(out@ =~= "0"@);
        }
    }
    let mut r = String::new();
    if neg && !is_zero {
        push_char(&mut r, '-');
    }
    crate::text::push_range(&mut r, &out, 0, out.len());
    proof {
        assert(out@.subrange(0, out@.len() as int) =~= out@);
        if neg && !is_zero {
            assert(r@ =~= "-"@ + out@);
        } else {
            assert(r@ =~= out@);
        }
    }
    Some(r)
}

/// Whether a value's unit literal (if any) is short enough to scale.
pub open spec fn value_ok(v: Value) -> bool {
    v matches Value::Unit { number, .. } ==> number@.len() + 3 <= u32::MAX
}

/// The literal content a value resolves to.
pub open spec fn literal_of(v: Value) -> Option<Seq<char>> {
    match v {
        Value::Number(s) => Some(s@),
        Value::Str(s) => Some(s@),
        Value::Ref(_) => None,
        Value::Unit { number, unit } => scale_spec(number@, unit),
    }
}

impl Value {
    /// The literal content this value resolves to: `Number`/`Str` verbatim,
    /// `Unit` scaled into its base unit; `None` for a `Ref`.
    pub fn literal(&self) -> (r: Option<String>)
        requires
            value_ok(*self),
        ensures
            match r {
                Some(s) => literal_of(*self) == Some(s@),
                None => literal_of(*self) is None,
            },
    {
        match self {
            Value::Number(s) => Some(string_of(s.as_str())),
            Value::Str(s) => Some(string_of(s.as_str())),
            Value::Ref(_) => None,
            Value::Unit { number, unit } => scale_by_unit(number.as_str(), *unit),
        }
    }
}


// ---------------------------------------------------------------------------
// Extern match specs
// ---------------------------------------------------------------------------

/// A match spec as source text (`title: "…"`, `mirrors: slug`).
pub open spec fn match_text(m: MatchSpec) -> Seq<char> {
    match m {
        MatchSpec::Uuid(v) => "uuid: "@ + quoted(v@),
        MatchSpec::IName(v) => "iname: "@ + quoted(v@),
        MatchSpec::Title(v) => "title: "@ + quoted(v@),
        MatchSpec::Mirrors(v) => "mirrors: "@ + v@,
    }
}

/// An extern's full match spec as source text, room and category included.
pub open spec fn extern_spec_text(e: ExternDecl) -> Seq<char> {
    match_text(e.match_spec) + (match e.room {
        Some(r) => ", room: "@ + quoted(r@),
        None => seq![],
    }) + (match e.category {
        Some(c) => ", category: "@ + quoted(c@),
        None => seq![],
    })
}

pub fn push_match_spec(out: &mut String, m: &MatchSpec)
    ensures
        final(out)@ == old(out)@ + match_text(*m),
{
    let ghost o = out@;
    match m {
        MatchSpec::Uuid(v) => {
            push_str(out, "uuid: ");
            push_quoted(out, v.as_str());
        },
        MatchSpec::IName(v) => {
            push_str(out, "iname: ");
            push_quoted(out, v.as_str());
        },
        MatchSpec::Title(v) => {
            push_str(out, "title: ");
            push_quoted(out, v.as_str());
        },
        MatchSpec::Mirrors(v) => {
            push_str(out, "mirrors: ");
            push_str(out, v.as_str());
        },
    }
    assert(out@ =~= o + match_text(*m));
}

impl ExternDecl {
    /// The full match spec as source text: `title: "…", room: "…"`.
    pub fn spec(&self) -> (r: String)
        ensures
            r@ == extern_spec_text(*self),
    {
        let mut s = String::new();
        push_match_spec(&mut s, &self.match_spec);
        let ghost a = s@;
        if let Some(r) = &self.room {
            push_str(&mut s, ", room: ");
            push_quoted(&mut s, r.as_str());
        }
        let ghost b = s@;
        if let Some(c) = &self.category {
            push_str(&mut s, ", category: ");
            push_quoted(&mut s, c.as_str());
        }
        proof {
            assert(a =~= match_text(self.match_spec));
            assert(b =~= a + (match self.room {
                Some(r) => ", room: "@ + quoted(r@),
                None => seq![],
            }));
            assert(s@ =~= extern_spec_text(*self));
        }
        s
    }
}

// ---------------------------------------------------------------------------
// Wires
// ---------------------------------------------------------------------------

/// A port reference as `(slug, port)`.
pub open spec fn port_view(p: PortRef) -> (Seq<char>, Seq<char>) {
    (p.slug@, p.port@)
}

/// The `(source, sink)` pairs of a block's wire bindings.
pub open spec fn block_pairs(slug: Seq<char>, ws: Seq<(Seq<char>, PortRef)>) -> Seq<
    ((Seq<char>, Seq<char>), (Seq<char>, Seq<char>)),
> {
    ws.map_values(|w: (Seq<char>, PortRef)| (port_view(w.1), (slug, w.0)))
}

/// The `(source, sink)` pairs one statement contributes.
pub open spec fn item_pairs(i: Item) -> Seq<((Seq<char>, Seq<char>), (Seq<char>, Seq<char>))> {
    match i {
        Item::Block(b) => block_pairs(b.slug@, input_wires_of(bindings_of(b.args@))),
        Item::Wire(w) => seq![(port_view(w.from), port_view(w.to))],
        _ => seq![],
    }
}

/// Every wire of a statement list as `(source, sink)`, in source order.
pub open spec fn wire_pairs_of(items: Seq<Item>) -> Seq<
    ((Seq<char>, Seq<char>), (Seq<char>, Seq<char>)),
>
    decreases items.len(),
{
    if items.len() == 0 {
        seq![]
    } else {
        wire_pairs_of(items.drop_last()) + item_pairs(items.last())
    }
}

/// A copy of a port reference.
pub fn copy_port(p: &PortRef) -> (r: PortRef)
    ensures
        port_view(r) == port_view(*p),
{
    PortRef { slug: string_of(p.slug.as_str()), port: string_of(p.port.as_str()) }
}

impl Module {
    /// Every wire in the module as `(source, sink)`, in source order: a
    /// block's wire bindings sink into the block itself; `<-` statements
    /// sink onto extern ports.
    pub fn wire_pairs(&self) -> (r: Vec<(PortRef, PortRef)>)
        ensures
            r@.map_values(|p: (PortRef, PortRef)| (port_view(p.0), port_view(p.1)))
                == wire_pairs_of(self.items@),
    {
        let mut out: Vec<(PortRef, PortRef)> = Vec::new();
        let mut i: usize = 0;
        while i < self.items.len()
            invariant
                0 <= i <= self.items@.len(),
                out@.map_values(|p: (PortRef, PortRef)| (port_view(p.0), port_view(p.1)))
                    == wire_pairs_of(self.items@.take(i as int)),
            decreases self.items@.len() - i,
        {
            proof {
                assert(self.items@.take(i + 1).drop_last() =~= self.items@.take(i as int));
            }
            let ghost before = out@.map_values(
                |p: (PortRef, PortRef)| (port_view(p.0), port_view(p.1)),
            );
            match &self.items[i] {
                Item::Block(b) => {
                    let ws = b.input_wires();
                    let ghost wv = ws@.map_values(|p: (&str, &PortRef)| (p.0@, *p.1));
                    let mut k: usize = 0;
                    while k < ws.len()
                        invariant
                            0 <= k <= ws@.len(),
                            wv == ws@.map_values(|p: (&str, &PortRef)| (p.0@, *p.1)),
                            out@.map_values(
                                |p: (PortRef, PortRef)| (port_view(p.0), port_view(p.1)),
                            ) == before + block_pairs(b.slug@, wv.take(k as int)),
                        decreases ws@.len() - k,
                    {
                        let (port, src) = ws[k];
                        let ghost mid = out@.map_values(
                            |p: (PortRef, PortRef)| (port_view(p.0), port_view(p.1)),
                        );
                        let sink = PortRef { slug: string_of(b.slug.as_str()), port: string_of(port) };
                        out.push((copy_port(src), sink));
                        proof {
                            assert(wv[k as int] == (port@, *src));
                            assert(wv.take(k + 1) =~= wv.take(k as int).push(wv[k as int]));
                            assert(block_pairs(b.slug@, wv.take(k + 1)) =~= block_pairs(
                                b.slug@,
                                wv.take(k as int),
                            ).push((port_view(*src), (b.slug@, port@))));
                            assert(out@.map_values(
                                |p: (PortRef, PortRef)| (port_view(p.0), port_view(p.1)),
                            ) =~= mid.push((port_view(*src), (b.slug@, port@))));
                        }
                        k = k + 1;
                    }
                    proof {
                        assert(wv.take(wv.len() as int) =~= wv);
                        assert(self.items@.take(i + 1).last() == Item::Block(*b));
                    }
                },
                Item::Wire(w) => {
                    out.push((copy_port(&w.from), copy_port(&w.to)));
                    proof {
                        assert(self.items@.take(i + 1).last() == Item::Wire(*w));
                        assert(out@.map_values(
                            |p: (PortRef, PortRef)| (port_view(p.0), port_view(p.1)),
                        ) =~= before + item_pairs(Item::Wire(*w)));
                    }
                },
                _ => {
                    proof {
                        assert(item_pairs(self.items@.take(i + 1).last()) =~= seq![]);
                        assert(before + seq![] =~= before);
                    }
                },
            }
            i = i + 1;
        }
        assert(self.items@.take(self.items@.len() as int) =~= self.items@);
        out
    }
}

// ---------------------------------------------------------------------------
// Constant resolution
// ---------------------------------------------------------------------------

/// The first `let` named `name`.
pub open spec fn first_let(ls: Seq<LetDecl>, name: Seq<char>) -> Option<LetDecl>
    decreases ls.len(),
{
    if ls.len() == 0 {
        None
    } else if ls[0].name@ == name {
        Some(ls[0])
    } else {
        first_let(ls.drop_first(), name)
    }
}

pub open spec fn undeclared_constant_msg(name: Seq<char>) -> Seq<char> {
    "undeclared constant `"@ + name + "`"@
}

pub open spec fn overflow_msg(v: Value) -> Seq<char> {
    "value `"@ + value_text(v) + "` overflows its unit"@
}

/// What a value resolves to through a module's constants: the literal
/// that becomes `Def=`, or the message of the error.
pub open spec fn resolve_spec(ls: Seq<LetDecl>, v: Value) -> Result<Seq<char>, Seq<char>> {
    match v {
        Value::Ref(name) => match first_let(ls, name@) {
            Some(l) => match literal_of(l.value) {
                Some(s) => Ok(s),
                None => Err(undeclared_constant_msg(name@)),
            },
            None => Err(undeclared_constant_msg(name@)),
        },
        _ => match literal_of(v) {
            Some(s) => Ok(s),
            None => Err(overflow_msg(v)),
        },
    }
}

fn find_let<'a>(ls: &Vec<&'a LetDecl>, name: &str) -> (r: Option<&'a LetDecl>)
    ensures
        match r {
            Some(l) => first_let(derefs(ls@), name@) == Some(*l),
            None => first_let(derefs(ls@), name@) is None,
        },
{
    let ghost lv = derefs(ls@);
    assert(lv.subrange(0, lv.len() as int) =~= lv);
    let mut i: usize = 0;
    while i < ls.len()
        invariant
            0 <= i <= ls@.len(),
            lv == derefs(ls@),
            first_let(lv, name@) == first_let(lv.subrange(i as int, lv.len() as int), name@),
        decreases ls@.len() - i,
    {
        let l = ls[i];
        proof {
            assert(lv.subrange(i as int, lv.len() as int)[0] == *l);
            assert(lv.subrange(i as int, lv.len() as int).drop_first() =~= lv.subrange(
                i + 1,
                lv.len() as int,
            ));
        }
        if str_eq(l.name.as_str(), name) {
            return Some(l);
        }
        i = i + 1;
    }
    None
}

impl Module {
    /// Resolve a value to the literal string that becomes `Def=`: literals
    /// resolve to themselves, unit values scale into their base unit
    /// (`1.5h` → `5400`), `Ref`s resolve through the module's `let`
    /// constants.
    pub fn resolve_value(&self, value: &Value) -> (r: crate::error::Result<String>)
        requires
            value_ok(*value),
            forall|i: int| 0 <= i < lets_of(self.items@).len() ==> value_ok(
                #[trigger] lets_of(self.items@)[i].value,
            ),
        ensures
            match r {
                Ok(s) => resolve_spec(lets_of(self.items@), *value) == Ok::<Seq<char>, Seq<char>>(s@),
                Err(e) => resolve_spec(lets_of(self.items@), *value) is Err && (e matches crate::error::Error::Compile(m)
                    && Err::<Seq<char>, Seq<char>>(m@) == resolve_spec(lets_of(self.items@), *value)),
            },
    {
        match value {
            Value::Ref(name) => {
                let ls = self.lets();
                let found = find_let(&ls, name.as_str());
                proof {
                    lemma_first_let_in(derefs(ls@), name@);
                }
                let lit = match found {
                    Some(l) => l.value.literal(),
                    None => None,
                };
                match lit {
                    Some(s) => Ok(s),
                    None => {
                        let mut m = String::new();
                        push_str(&mut m, "undeclared constant `");
                        push_str(&mut m, name.as_str());
                        push_str(&mut m, "`");
                        assert(m@ =~= undeclared_constant_msg(name@));
                        Err(crate::error::Error::Compile(m))
                    },
                }
            },
            _ => match value.literal() {
                Some(s) => Ok(s),
                None => {
                    let mut m = String::new();
                    push_str(&mut m, "value `");
                    push_value(&mut m, value);
                    push_str(&mut m, "` overflows its unit");
                    assert(m@ =~= overflow_msg(*value));
                    Err(crate::error::Error::Compile(m))
                },
            },
        }
    }
}

/// A `let` found by name is one of the list.
proof fn lemma_first_let_in(ls: Seq<LetDecl>, name: Seq<char>)
    ensures
        first_let(ls, name) matches Some(l) ==> exists|i: int| 0 <= i < ls.len() && ls[i] == l,
    decreases ls.len(),
{
    if ls.len() > 0 && ls[0].name@ != name {
        lemma_first_let_in(ls.drop_first(), name);
        if let Some(l) = first_let(ls.drop_first(), name) {
            let i = choose|i: int| 0 <= i < ls.drop_first().len() && ls.drop_first()[i] == l;
            assert(ls[i + 1] == l);
        }
    }
}

} // verus!
