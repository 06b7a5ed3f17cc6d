use lxir::ir::{Item, Module, Value, validate_ports};

const SAMPLE: &str = r#"
# Beschattung
extern sonne = VirtualIn(iname: "VI3")
extern jal = AutoJalousie(title: "Beschattung Süd")

let schwelle = 28

temp_hoch = GreaterEqual(
	"Temp über 28",
	Input1: sonne.Q,
	Input2: schwelle,
)
beschatten = And(I1: temp_hoch.Q, I2: sonne.Q)

jal.AutoShade <- beschatten.Q
jal.TargetPos = 70
"#;

/// Structural equality of two modules (every field, in order).
fn same(a: &Module, b: &Module) -> bool {
    format!("{a:?}") == format!("{b:?}")
}

fn err_of(src: &str) -> String {
    match Module::parse(src) {
        Ok(m) => panic!("expected an error for {src:?}, got {m:?}"),
        Err(e) => e.to_string(),
    }
}

#[test]
fn parses_sample() {
    let m = Module::parse(SAMPLE).unwrap();
    assert_eq!(m.externs().len(), 2);
    assert_eq!(m.blocks().len(), 2);
    assert_eq!(m.extern_wires().len(), 1);
    assert_eq!(m.wire_pairs().len(), 4);
    assert_eq!(m.sets().len(), 1);
    assert_eq!(m.lets().len(), 1);
    let block = m.blocks()[0];
    assert_eq!(block.title.as_deref(), Some("Temp über 28"));
    let params = block.params();
    assert_eq!(params, vec![("Input2", &Value::Ref("schwelle".into()))]);
    assert_eq!(m.resolve_value(params[0].1).unwrap(), "28");
    let wires = block.input_wires();
    assert_eq!(wires.len(), 1);
    assert_eq!(wires[0].0, "Input1");
    assert_eq!(format!("{}.{}", wires[0].1.slug, wires[0].1.port), "sonne.Q");
}

#[test]
fn text_roundtrip() {
    let m = Module::parse(SAMPLE).unwrap();
    let text = m.to_text();
    let again = Module::parse(&text).unwrap();
    assert!(same(&m, &again));
    assert_eq!(again.to_text(), text, "canonical form is a fixpoint");
}

#[test]
fn single_line_calls_canonicalize_to_one_argument_per_line() {
    let m = Module::parse("extern x = VirtualIn(iname: \"VI1\")\nb = And(I1: x.Q, I2: x.Qm)\n")
        .unwrap();
    let text = m.to_text();
    assert!(text.contains("b = And(\n\tI1: x.Q,\n\tI2: x.Qm,\n)"), "{text}");
    let again = Module::parse(&text).unwrap();
    assert!(same(&m, &again));
    assert_eq!(again.to_text(), text);
    let m = Module::parse("b = And()\nc = Or(\"Oder\")\n").unwrap();
    let text = m.to_text();
    assert!(text.contains("b = And()\n"), "{text}");
    assert!(text.contains("c = Or(\"Oder\")\n"), "{text}");
}

#[test]
fn comments_are_preserved() {
    let src = "\
# header
extern sonne = VirtualIn(iname: \"VI3\") # the sun
t = GreaterEqual( # threshold block
\t# arg note
\tInput1: sonne.Q, # main wire
\tInput2: 28, # degrees
) # done

sonne.Qm = 30 # override
";
    let m = Module::parse(src).unwrap();
    let text = m.to_text();
    for needle in [
        "# header",
        "\"VI3\") # the sun",
        "GreaterEqual( # threshold block",
        "\t# arg note",
        "sonne.Q, # main wire",
        "28, # degrees",
        ") # done",
        "= 30 # override",
    ] {
        assert!(text.contains(needle), "missing {needle:?} in:\n{text}");
    }
    let again = Module::parse(&text).unwrap();
    assert!(same(&m, &again));
    assert_eq!(again.to_text(), text);
}

#[test]
fn string_values_never_emit_as_unparsable_bare_tokens() {
    for tricky in ["5+", "1-2", "--1", "1.2.3", "+", "."] {
        let src = format!("extern s = VirtualIn(iname: \"VI1\")\ns.Q = \"{tricky}\"\n");
        let m = Module::parse(&src).unwrap();
        let text = m.to_text();
        let again = Module::parse(&text).unwrap_or_else(|e| {
            panic!("canonical form for {tricky:?} does not re-parse: {}\n{text}", e.to_string())
        });
        assert!(same(&m, &again), "value {tricky:?} must survive the round trip");
    }
    let m = Module::parse("extern s = VirtualIn(iname: \"VI1\")\ns.Q = \"28\"\n").unwrap();
    assert!(m.to_text().contains("s.Q = 28"), "{}", m.to_text());
    let m = Module::parse("b = GreaterEqual(Input2: \"28\")\n").unwrap();
    assert!(m.to_text().contains("Input2: 28,"), "{}", m.to_text());
}

#[test]
fn unit_values_parse_scale_and_roundtrip() {
    let m = Module::parse(
        "let nachlauf = 90min\n\
         t = Monoflop(Time: 1.5h)\n\
         p = PulseGen(TimeHigh: 250ms, TimeLow: 2s)\n",
    )
    .unwrap();
    let text = m.to_text();
    for needle in ["nachlauf = 90min", "Time: 1.5h,", "TimeHigh: 250ms,"] {
        assert!(text.contains(needle), "missing {needle:?} in:\n{text}");
    }
    assert!(same(&Module::parse(&text).unwrap(), &m));
    assert_eq!(Module::parse(&text).unwrap().to_text(), text, "fixpoint");
    let resolved: Vec<String> = m
        .blocks()
        .iter()
        .flat_map(|b| {
            b.params()
                .into_iter()
                .map(|(_, v)| m.resolve_value(v).unwrap())
                .collect::<Vec<_>>()
        })
        .collect();
    assert_eq!(resolved, ["5400", "0.25", "2"]);
    let nachlauf = m.lets()[0];
    assert_eq!(
        m.resolve_value(&Value::Ref(nachlauf.name.clone())).unwrap(),
        "5400"
    );

    for (src, want) in [
        ("2700K", "2700"),
        ("70%", "70"),
        ("-30s", "-30"),
        ("0.3s", "0.3"),
        ("1000ms", "1"),
        ("0ms", "0"),
    ] {
        let m = Module::parse(&format!("t = Monoflop(Time: {src})\n")).unwrap();
        let (_, v) = m.blocks()[0].params()[0];
        assert_eq!(m.resolve_value(v).unwrap(), want, "{src}");
        assert!(m.to_text().contains(&format!("Time: {src},")), "{src}");
    }

    let m = Module::parse(
        "extern a = VirtualIn(iname: \"VI1\")\n\
         extern j = AutoJalousie(title: \"J\")\n\
         j.AutoShade <- a.AQ >= 1.5h\n",
    )
    .unwrap();
    let (plain, _) = m.desugar().unwrap();
    let ge = plain.blocks()[0];
    assert_eq!(ge.title.as_deref(), Some("a.AQ >= 1.5h"));
    let (_, v) = ge.params()[0];
    assert_eq!(plain.resolve_value(v).unwrap(), "5400");
    Module::parse("template t(x: VirtualIn, zeit = 5min)\n\ty = Monoflop(Time: zeit)\nend\n")
        .unwrap();

    let e = err_of("t = Monoflop(Time: 5x)\n");
    assert!(e.contains("unknown unit `x`"), "{e}");
    let e = err_of("t = Monoflop(Time: 5sec)\n");
    assert!(e.contains("unknown unit `sec`"), "{e}");
    let m = Module::parse("t = Monoflop(Time: \"40s\")\n").unwrap();
    let (_, v) = m.blocks()[0].params()[0];
    assert_eq!(v, &Value::Str("40s".into()));
}

#[test]
fn malformed_numbers_are_rejected() {
    for bad in ["1.2.3", "5.", "-5."] {
        let e = err_of(&format!("b = GreaterEqual(Input2: {bad})\n"));
        assert!(e.contains("invalid number literal"), "{bad}: {e}");
    }
}

#[test]
fn let_statements_parse_and_resolve() {
    let m = Module::parse(
        "let schwelle = 28\nlet gruss = \"hallo\"\nb = GreaterEqual(Input2: schwelle)\n",
    )
    .unwrap();
    assert_eq!(m.lets().len(), 2);
    let (_, v) = m.blocks()[0].params()[0];
    assert_eq!(m.resolve_value(v).unwrap(), "28");

    let e = err_of("let a = 1\nlet b = a\n");
    assert!(e.contains("number or a quoted string"), "{e}");

    let e = err_of("let schwelle = 28\nb = GreaterEqual(Input2: schwele)\n");
    assert!(e.contains("undeclared constant `schwele`"), "{e}");
    assert!(e.contains("did you mean `schwelle`?"), "{e}");

    let e = err_of("let x = 1\nx = And()\n");
    assert!(e.contains("duplicate name `x`"), "{e}");
    let e = err_of("let x = 1\nb = And(I1: x.Q)\n");
    assert!(e.contains("not a block or extern"), "{e}");
}

#[test]
fn removed_and_moved_parse_and_are_checked() {
    let m = Module::parse("removed old_block # gone\nmoved a -> b\n").unwrap();
    assert_eq!(m.removed().len(), 1);
    assert_eq!(m.moved().len(), 1);
    let text = m.to_text();
    assert!(text.contains("removed old_block # gone"), "{text}");
    assert!(text.contains("moved a -> b"), "{text}");
    assert!(same(&Module::parse(&text).unwrap(), &m));

    let e = err_of("a = And()\nremoved a\n");
    assert!(e.contains("contradicts the declaration"), "{e}");
    let e = err_of("removed a\nremoved a\n");
    assert!(e.contains("duplicate `removed a`"), "{e}");

    let e = err_of("a = And()\nmoved a -> b\n");
    assert!(e.contains("must no longer be declared"), "{e}");
    let e = err_of("moved a -> a\n");
    assert!(e.contains("to itself"), "{e}");
    let e = err_of("moved a -> b\nmoved b -> c\n");
    assert!(e.contains("chained `moved`"), "{e}");
    let e = err_of("moved a -> b\nremoved a\n");
    assert!(e.contains("conflicts with a `removed`"), "{e}");
    let e = err_of("extern e = VirtualIn(iname: \"VI1\")\nmoved a -> e\n");
    assert!(e.contains("not a managed block"), "{e}");

    let e = err_of("removed Bad\n");
    assert!(e.contains("invalid slug"), "{e}");
    let e = err_of("moved a b\n");
    assert!(e.contains("moved <old_slug> -> <new_slug>"), "{e}");
}

#[test]
fn port_statements_on_managed_blocks_are_rejected() {
    let msg = err_of("b = And()\nb.I1 = 3\n");
    assert!(msg.contains("targets managed block `b`"), "{msg}");
    assert!(msg.contains("argument list"), "{msg}");
    let msg = err_of("a = And()\nb = And()\nb.I1 <- a.Q\n");
    assert!(msg.contains("targets managed block `b`"), "{msg}");
    assert!(msg.contains("I1: a.Q"), "{msg}");
}

#[test]
fn duplicate_arguments_are_rejected() {
    let e = err_of("b = GreaterEqual(Input2: 1, Input2: 2)\n");
    assert!(e.contains("duplicate parameter `Input2`"), "{e}");
    let e = err_of("extern x = VirtualIn(iname: \"VI1\")\nb = And(I1: x.Q, I1: x.Q)\n");
    assert!(e.contains("duplicate wire `I1: x.Q`"), "{e}");
    Module::parse("extern x = VirtualIn(iname: \"VI1\")\nb = And(I1: x.Q, I1: x.Qm)\n").unwrap();
}

#[test]
fn label_must_come_first() {
    let e = err_of("extern x = VirtualIn(iname: \"VI1\")\nb = And(I1: x.Q, \"L\")\n");
    assert!(e.contains("first argument"), "{e}");
    let e = err_of("b = And(\"L\", \"M\")\n");
    assert!(e.contains("one label"), "{e}");
}

#[test]
fn v0_keywords_carry_migration_guidance() {
    let e = err_of("block b: And\n");
    assert!(e.contains("v0 syntax"), "{e}");
    assert!(e.contains("= <Type>("), "{e}");
    let e = err_of("wire a.Q -> b.I1\n");
    assert!(e.contains("argument list"), "{e}");
    assert!(e.contains("<-"), "{e}");
    let e = err_of("set a.B = 3\n");
    assert!(e.contains("<extern>.<Port> = <value>"), "{e}");
    let e = err_of("extern s: VirtualIn match iname \"VI1\"\n");
    assert!(e.contains("uuid|iname|title"), "{e}");
}

#[test]
fn wrong_arrow_and_value_forms_are_guided() {
    let e = err_of("extern j = AutoJalousie(title: \"J\")\nj.Pos = j.Q\n");
    assert!(e.contains("use `<-` to wire"), "{e}");
    let e = err_of("extern j = AutoJalousie(title: \"J\")\nj.Pos <- 5\n");
    assert!(e.contains("use `j.Pos = 5`"), "{e}");
    let e = err_of("x = 28\n");
    assert!(e.contains("let x = 28"), "{e}");
}

#[test]
fn errors_carry_line_numbers() {
    let e = err_of("t.Q <- \n");
    assert!(e.contains("line 1"), "{e}");
    let e = err_of("Bad = And()\n");
    assert!(e.contains("invalid slug"), "{e}");
    let e = err_of("ok = And(\nI1: x.Q,\n");
    assert!(e.contains("unclosed"), "{e}");
}

#[test]
fn undeclared_reference_is_rejected() {
    let e = err_of("a.Q <- b.I\n");
    assert!(e.contains("undeclared slug"), "{e}");
}

#[test]
fn page_statements_parse_and_roundtrip() {
    let src = "extern wind = VirtualIn(iname: \"VI2\")\n\n\
               page \"Beschattung\" # Süd\n\n\
               gate = Not(\n\tI: wind.Q,\n)\n\n\
               page \"Regeln\"\n\n\
               halt = Or(\n\tI1: gate.Q,\n)\n";
    let m = Module::parse(src).unwrap();
    assert_eq!(m.to_text(), src);
    let pages: Vec<&str> = m
        .items
        .iter()
        .filter_map(|i| match i {
            Item::Page(p) => Some(p.title.as_str()),
            _ => None,
        })
        .collect();
    assert_eq!(pages, ["Beschattung", "Regeln"]);

    let e = err_of("page Regeln\n");
    assert!(e.contains("page \"<Title>\""), "{e}");
    let e = err_of("template t(a: VirtualIn)\n\tpage \"X\"\nend\n");
    assert!(e.contains("not allowed inside a template"), "{e}");
    let e = err_of("page \"\"\n");
    assert!(e.contains("must not be empty"), "{e}");
}

#[test]
fn unknown_type_and_port_carry_suggestions() {
    let m = Module::parse("a = Monoflop(Tme: 5)\n").unwrap();
    let err = validate_ports(&m).unwrap_err().to_string();
    assert!(err.contains("did you mean `Time`?"), "{err}");

    let m = Module::parse("a = Monofop()\n").unwrap();
    let err = validate_ports(&m).unwrap_err().to_string();
    assert!(err.contains("did you mean `Monoflop`?"), "{err}");
}

#[test]
fn wire_ports_and_directions_are_checked_statically() {
    let m = Module::parse("a = And()\nb = And(I2: a.I1)\n").unwrap();
    let err = validate_ports(&m).unwrap_err().to_string();
    assert!(err.contains("wire source"), "{err}");

    let m = Module::parse("a = And()\nb = And(Q: a.Q)\n").unwrap();
    let err = validate_ports(&m).unwrap_err().to_string();
    assert!(err.contains("wire sink"), "{err}");

    let m = Module::parse("a = And()\nb = And(I3: a.Q)\n").unwrap();
    let err = validate_ports(&m).unwrap_err().to_string();
    assert!(err.contains("unknown port `I3`"), "{err}");
    assert!(err.contains("cascade"), "{err}");
}

#[test]
fn valid_module_passes() {
    let m = Module::parse("a = And(I1: b.Q)\nb = GreaterEqual(Input2: 28)\n").unwrap();
    validate_ports(&m).unwrap();
}
