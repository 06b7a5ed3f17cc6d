use lxir::ir::ast::ArithOp;
use lxir::ir::{Expr, ExprWireDecl, ExternDecl, Item, LetDecl, MatchSpec, Module, Operand, PortRef, Value};

fn block_slugs(m: &Module) -> Vec<String> {
    m.blocks().iter().map(|b| b.slug.clone()).collect()
}

#[test]
fn expressions_become_named_gate_blocks() {
    let m = Module::parse(
        "extern a = VirtualIn(iname: \"VI1\")\nextern b = VirtualIn(iname: \"VI2\")\n\
         extern s = VirtualIn(iname: \"VI3\")\ns.I <- a.Q and not b.Q\n",
    )
    .unwrap();
    let (flat, info) = m.desugar().unwrap();
    assert_eq!(info.expressions, 1);
    assert_eq!(block_slugs(&flat), ["s_i__not1", "s_i__and1"]);
    assert_eq!(info.synthetic, ["s_i__not1", "s_i__and1"]);
    let and = flat.blocks()[1];
    assert_eq!(and.block_type, "And");
    assert_eq!(and.title.as_deref(), Some("a.Q and not b.Q"));
    let wires = and.input_wires();
    assert_eq!(format!("{}.{}", wires[0].1.slug, wires[0].1.port), "a.Q");
    assert_eq!(format!("{}.{}", wires[1].1.slug, wires[1].1.port), "s_i__not1.Q");
    // The statement itself becomes a plain wire from the root.
    let w = flat.extern_wires()[0];
    assert_eq!(format!("{}.{}", w.from.slug, w.from.port), "s_i__and1.Q");
}

fn port(slug: &str, port: &str) -> PortRef {
    PortRef { slug: slug.to_string(), port: port.to_string() }
}

fn atom_port(slug: &str, p: &str) -> Box<Expr> {
    Box::new(Expr::Atom(Operand::Port(port(slug, p))))
}

fn atom_value(v: Value) -> Box<Expr> {
    Box::new(Expr::Atom(Operand::Value(v)))
}

fn ext(slug: &str, iname: &str) -> Item {
    Item::Extern(ExternDecl {
        slug: slug.to_string(),
        block_type: "VirtualIn".to_string(),
        match_spec: MatchSpec::IName(iname.to_string()),
        room: None,
        category: None,
        comment: None,
    })
}

#[test]
fn arithmetic_becomes_one_formula_block() {
    // a.AQ / k - b.AQ * (a.AQ - 5), with k = 1000
    let expr = Expr::Arith {
        op: ArithOp::Sub,
        lhs: Box::new(Expr::Arith {
            op: ArithOp::Div,
            lhs: atom_port("a", "AQ"),
            rhs: atom_value(Value::Ref("k".into())),
        }),
        rhs: Box::new(Expr::Arith {
            op: ArithOp::Mul,
            lhs: atom_port("b", "AQ"),
            rhs: Box::new(Expr::Arith {
                op: ArithOp::Sub,
                lhs: atom_port("a", "AQ"),
                rhs: atom_value(Value::Number("5".into())),
            }),
        }),
    };
    let m = Module {
        items: vec![
            Item::Let(LetDecl { name: "k".into(), value: Value::Number("1000".into()), comment: None }),
            ext("a", "VI1"),
            ext("b", "VI2"),
            ext("s", "VI3"),
            Item::ExprWire(ExprWireDecl { to: port("s", "I"), expr, comment: None }),
        ],
    };
    let (flat, info) = m.desugar().unwrap();
    assert_eq!(info.expressions, 1);
    let f = flat.blocks()[0];
    assert_eq!(f.slug, "s_i__f1");
    assert_eq!(f.block_type, "Formula");
    assert_eq!(f.title.as_deref(), Some("a.AQ / k - b.AQ * (a.AQ - 5)"));
    let (p, v) = f.params()[0];
    assert_eq!(p, "Formula");
    assert_eq!(v, &Value::Str("I1/1000-I2*(I1-5)".into()));
    let ins: Vec<String> = f
        .input_wires()
        .iter()
        .map(|(p, r)| format!("{p}:{}.{}", r.slug, r.port))
        .collect();
    assert_eq!(ins, ["Input1:a.AQ", "Input2:b.AQ"]);
    let w = flat.extern_wires()[0];
    assert_eq!(format!("{}.{}", w.from.slug, w.from.port), "s_i__f1.AQ");
}

#[test]
fn argument_list_expressions_wire_into_the_block() {
    let m = Module::parse(
        "extern a = VirtualIn(iname: \"VI1\")\nextern b = VirtualIn(iname: \"VI2\")\n\
         g = Or(I1: a.Q or b.Q)\n",
    )
    .unwrap();
    let (flat, info) = m.desugar().unwrap();
    assert_eq!(info.expressions, 1);
    assert_eq!(block_slugs(&flat), ["g_i1__or1", "g"]);
    let g = flat.blocks()[1];
    let w = g.input_wires();
    assert_eq!(w[0].0, "I1");
    assert_eq!(format!("{}.{}", w[0].1.slug, w[0].1.port), "g_i1__or1.Q");
}

#[test]
fn desugar_refusals_name_the_sink() {
    let m = Module::parse("extern s = VirtualIn(iname: \"VI3\")\ns.I <- 1 >= 2\n").unwrap();
    let e = m.desugar().unwrap_err().to_string();
    assert!(e.contains("`1 >= 2` in the expression on `s.I` compares two constants"), "{e}");

    let m = Module {
        items: vec![
            ext("a", "VI1"),
            ext("s", "VI3"),
            Item::ExprWire(ExprWireDecl {
                to: port("s", "I"),
                expr: Expr::Arith {
                    op: ArithOp::Add,
                    lhs: atom_port("a", "AQ"),
                    rhs: atom_value(Value::Str("x".into())),
                },
                comment: None,
            }),
        ],
    };
    let e = m.desugar().unwrap_err().to_string();
    assert!(e.contains("`\"x\"` in the arithmetic on `s.I` is a string"), "{e}");
}

#[test]
fn a_module_without_expressions_desugars_to_itself() {
    let src = "extern a = VirtualIn(iname: \"VI1\")\nb = And(I1: a.Q)\n";
    let m = Module::parse(src).unwrap();
    let (flat, info) = m.desugar().unwrap();
    assert_eq!(info.expressions, 0);
    assert!(info.synthetic.is_empty());
    assert_eq!(flat.to_text(), m.to_text());
}

#[test]
fn templates_expand_with_prefixed_slugs() {
    let src = "\
extern takt = VirtualIn(iname: \"VI1\")
template blinker(t: VirtualIn, zeit = 5)
\tgate = Monoflop(
\t\tTime: zeit,
\t\tTrg: t.Q,
\t)
end
b1 = blinker(t: takt, zeit: 7)
";
    let m = Module::parse(src).unwrap();
    let x = m.expand().unwrap();
    assert!(!x.items.iter().any(|i| matches!(i, Item::Template(_) | Item::Instance(_))));
    let g = x.blocks()[0];
    assert_eq!(g.slug, "b1_gate");
    assert_eq!(g.params()[0].1, &lxir::ir::Value::Number("7".into()));
    let w = g.input_wires();
    assert_eq!(format!("{}.{}", w[0].1.slug, w[0].1.port), "takt.Q");
}

#[test]
fn template_errors_name_the_instance() {
    let src = "\
extern takt = VirtualIn(iname: \"VI1\")
template blinker(t: VirtualIn)
\tgate = And(
\t\tI1: t.Q,
\t)
end
";
    let m = Module::parse_fragment(&format!("{src}b1 = blinker(u: takt)\n")).unwrap();
    let e = m.expand().unwrap_err().to_string();
    assert!(e.contains("in `b1 = blinker(…)`: unknown parameter `u`"), "{e}");
    let m = Module::parse_fragment(&format!("{src}b1 = blinker()\n")).unwrap();
    let e = m.expand().unwrap_err().to_string();
    assert!(e.contains("object parameter `t` must be given"), "{e}");
    let m = Module::parse_fragment(&format!("{src}b1 = nope(t: takt)\n")).unwrap();
    let e = m.expand().unwrap_err().to_string();
    assert!(e.contains("`b1 = nope(…)` instantiates unknown template `nope`"), "{e}");
}
