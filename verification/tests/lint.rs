use lxir::doc::LoxoneDoc;
use lxir::ir::lint::{lint_dead_outputs, lint_source, LintKind};
use lxir::lock::{LockedObject, Lockfile};
use lxir::strmap::StrMap;
use lxir::ir::Module;

#[test]
fn source_lints_find_unused_names() {
    let src = "\
extern used = VirtualIn(iname: \"VI1\")
extern lonely = VirtualIn(iname: \"VI2\")
extern sink = VirtualIn(iname: \"VI3\")

let schwelle = 28
let verwaist = 5

template nie_benutzt(x: VirtualIn)
\tg = And(
\t\tI1: x.Q,
\t)
end

gate = GreaterEqual(
\tInput1: used.Q,
\tInput2: schwelle,
)

sink.I <- gate.Q
";
    let m = Module::parse(src).unwrap();
    let findings = lint_source(&m).unwrap();
    let got: Vec<(&str, &str)> = findings
        .iter()
        .map(|f| (f.kind.label(), f.slug.as_str()))
        .collect();
    assert!(got.contains(&("unused-extern", "lonely")), "{got:?}");
    assert!(got.contains(&("unused-let", "verwaist")), "{got:?}");
    assert!(got.contains(&("unused-template", "nie_benutzt")), "{got:?}");
    assert!(!got.iter().any(|(_, s)| *s == "used"), "{got:?}");
    assert!(!got.iter().any(|(_, s)| *s == "schwelle"), "{got:?}");
    assert!(!got.iter().any(|(_, s)| *s == "sink"), "{got:?}");
}

#[test]
fn mirrors_target_counts_as_use() {
    let src = "\
extern status = VirtualIn(iname: \"VI1\")
extern status_ref = InputRef(mirrors: status)
extern sink = VirtualIn(iname: \"VI2\")

status_ref.AI <- status.AQ
sink.I <- status_ref.Q
";
    let m = Module::parse(src).unwrap();
    let findings = lint_source(&m).unwrap();
    assert!(findings.is_empty(), "{findings:?}");
}

#[test]
fn lint_findings_carry_their_details_in_order() {
    let m = Module::parse(
        "template t(x: VirtualIn)\n\tg = And(\n\t\tI1: x.Q,\n\t)\nend\nextern e = VirtualIn(iname: \"VI1\")\nlet k = 1\n",
    )
    .unwrap();
    let f = lint_source(&m).unwrap();
    assert_eq!(f.len(), 3);
    assert_eq!(f[0].kind, LintKind::UnusedTemplate);
    assert_eq!(f[0].slug, "t");
    assert_eq!(f[0].detail, "declared but never instantiated");
    assert_eq!(f[1].kind, LintKind::UnusedExtern);
    assert_eq!(f[1].detail, "extern VirtualIn is never referenced");
    assert_eq!(f[2].kind, LintKind::UnusedLet);
    assert_eq!(f[2].slug, "k");
    assert_eq!(f[2].detail, "constant is never referenced");
    assert_eq!(LintKind::DeadOutputs.label(), "dead-outputs");
}

const DEAD_SRC: &str = "\
extern sonne = VirtualIn(iname: \"VI1\")

verwaist = And(
\tI1: sonne.Q,
)

genutzt = And(
\tI1: sonne.Q,
)

gespiegelt = Or(
\tI1: sonne.Q,
)

zentral = Or(
\tI1: sonne.Q,
)

programm = Or(
\tI1: sonne.Q,
)

neu = Or(
\tI1: sonne.Q,
)
";

fn dead_doc() -> LoxoneDoc {
    let s = "<ControlList Version=\"1\" NextObj=\"20\">\r\n\
         \t<C Type=\"Document\" U=\"DOC\">\r\n\
         \t\t<C Type=\"Page\" U=\"PAGE\" Title=\"P\">\r\n\
         \t\t\t<C Type=\"VirtualIn\" U=\"VI\" Title=\"Sonne\" IName=\"VI1\">\r\n\
         \t\t\t\t<Co K=\"Q\" U=\"VI-Q\"/>\r\n\
         \t\t\t</C>\r\n\
         \t\t\t<C Type=\"And\" U=\"AND1\" Title=\"verwaist\">\r\n\
         \t\t\t\t<Co K=\"I1\" U=\"AND1-I1\">\r\n\
         \t\t\t\t\t<In Input=\"VI-Q\"/>\r\n\
         \t\t\t\t</Co>\r\n\
         \t\t\t\t<Co K=\"Q\" U=\"AND1-Q\"/>\r\n\
         \t\t\t</C>\r\n\
         \t\t\t<C Type=\"And\" U=\"AND2\" Title=\"genutzt\">\r\n\
         \t\t\t\t<Co K=\"Q\" U=\"AND2-Q\"/>\r\n\
         \t\t\t</C>\r\n\
         \t\t\t<C Type=\"AutoJalousie\" U=\"JAL\" Title=\"Jalousie\">\r\n\
         \t\t\t\t<Co K=\"AutoShade\" U=\"JAL-AS\">\r\n\
         \t\t\t\t\t<In Input=\"AND2-Q\"/>\r\n\
         \t\t\t\t</Co>\r\n\
         \t\t\t</C>\r\n\
         \t\t\t<C Type=\"Or\" U=\"OR\" Title=\"gespiegelt\">\r\n\
         \t\t\t\t<Co K=\"Q\" U=\"OR-Q\"/>\r\n\
         \t\t\t\t<IoData Pr=\"1\"/>\r\n\
         \t\t\t</C>\r\n\
         \t\t\t<C Type=\"InputRef\" U=\"REF\" Title=\"Spiegel\">\r\n\
         \t\t\t\t<Co K=\"AI\" U=\"REF-AI\">\r\n\
         \t\t\t\t\t<In Input=\"OR-Q\"/>\r\n\
         \t\t\t\t</Co>\r\n\
         \t\t\t\t<Co K=\"Q\" U=\"REF-Q\"/>\r\n\
         \t\t\t</C>\r\n\
         \t\t\t<C Type=\"Or\" U=\"CENT\" Title=\"zentral\" rec=\"JAL\">\r\n\
         \t\t\t\t<Co K=\"Q\" U=\"CENT-Q\"/>\r\n\
         \t\t\t</C>\r\n\
         \t\t\t<C Type=\"Code16\" U=\"PROG\" Title=\"programm\">\r\n\
         \t\t\t\t<Co K=\"Q\" U=\"PROG-Q\"/>\r\n\
         \t\t\t</C>\r\n\
         \t\t</C>\r\n\
         \t</C>\r\n\
         </ControlList>\r\n";
    LoxoneDoc::parse(s.as_bytes()).unwrap()
}

fn dead_lock() -> Lockfile {
    let mut lock = Lockfile::new();
    for (slug, uuid, ty, expr_owned) in [
        ("verwaist", "AND1", "And", false),
        ("genutzt", "AND2", "And", false),
        ("gespiegelt", "OR", "Or", false),
        ("zentral", "CENT", "Or", false),
        ("programm", "PROG", "Or", false),
    ] {
        lock.objects.insert(
            slug.to_string(),
            LockedObject {
                uuid: uuid.to_string(),
                block_type: ty.to_string(),
                ports: StrMap::new(),
                layout: None,
                page_uuid: None,
                expr_owned,
            },
        );
    }
    lock
}

#[test]
fn dead_outputs_flags_unconsumed_and_ref_only_blocks() {
    let m = Module::parse(DEAD_SRC).unwrap();
    let findings = lint_dead_outputs(&m, &dead_lock(), &dead_doc()).unwrap();
    let got: Vec<(LintKind, &str, &str)> = findings
        .iter()
        .map(|f| (f.kind, f.slug.as_str(), f.detail.as_str()))
        .collect();
    assert_eq!(
        got,
        vec![
            (
                LintKind::DeadOutputs,
                "verwaist",
                "no wire draws from any of its ports (compiled config, GUI wires included)"
            ),
            (
                LintKind::DeadOutputs,
                "gespiegelt",
                "feeds only ref plumbing that itself feeds nothing — carries IoData, may be app-visible"
            ),
        ]
    );
    assert_eq!(findings[0].kind.label(), "dead-outputs");
}

#[test]
fn dead_outputs_skips_expression_blocks() {
    let m = Module::parse(DEAD_SRC).unwrap();
    let mut lock = dead_lock();
    let mut entry = lock.objects.get("verwaist").unwrap().clone();
    entry.expr_owned = true;
    lock.objects.insert("verwaist".to_string(), entry);
    let findings = lint_dead_outputs(&m, &lock, &dead_doc()).unwrap();
    let slugs: Vec<&str> = findings.iter().map(|f| f.slug.as_str()).collect();
    assert_eq!(slugs, vec!["gespiegelt"]);
}

#[test]
fn dead_outputs_ref_feeding_a_consumer_is_alive() {
    let m = Module::parse(DEAD_SRC).unwrap();
    let doc = String::from_utf8(dead_doc().to_bytes()).unwrap().replace(
        "<Co K=\"AutoShade\" U=\"JAL-AS\">",
        "<Co K=\"AutoShade\" U=\"JAL-AS\">\r\n\t\t\t\t\t<In Input=\"REF-Q\"/>",
    );
    let doc = LoxoneDoc::parse(doc.as_bytes()).unwrap();
    let findings = lint_dead_outputs(&m, &dead_lock(), &doc).unwrap();
    let slugs: Vec<&str> = findings.iter().map(|f| f.slug.as_str()).collect();
    assert_eq!(slugs, vec!["verwaist"]);
}
