use lxir::ir::rename::{apply_rekeys, lock_rekeys, rename_slug, RekeyKind};
use lxir::ir::Module;
use lxir::lock::Lockfile;

#[test]
fn rename_covers_references_and_comments() {
    let src = "\
extern sonne = VirtualIn(iname: \"VI3\") # sonne sensor input
extern sonne_ref = InputRef(mirrors: sonne)

gate = And(
\tI1: sonne.Q, # from sonne
\tI2: sonne_ref.Q,
)

sonne_ref.AI <- sonne.AQ
";
    let mut m = Module::parse(src).unwrap();
    rename_slug(&mut m, "sonne", "sonnenschein");
    let text = m.to_text();
    assert!(!text.contains("sonne "), "stale slug in:\n{text}");
    assert!(text.contains("extern sonnenschein = VirtualIn"));
    assert!(text.contains("mirrors: sonnenschein"));
    assert!(text.contains("# sonnenschein sensor input"));
    assert!(text.contains("sonne_ref.AI <- sonnenschein.AQ"));
    assert!(text.contains("extern sonne_ref = InputRef"));
}

#[test]
fn template_shadowing_protects_bodies() {
    let src = "\
extern takt = VirtualIn(iname: \"VI1\")

template blinker(takt: VirtualIn)
\tgate = And(
\t\tI1: takt.Q,
\t)
end

b1 = blinker(takt: takt)
";
    let mut m = Module::parse(src).unwrap();
    rename_slug(&mut m, "takt", "sekundentakt");
    let text = m.to_text();
    assert!(text.contains("extern sekundentakt = VirtualIn"));
    assert!(text.contains("template blinker(takt: VirtualIn)"));
    assert!(text.contains("I1: takt.Q"));
    assert!(text.contains("takt: sekundentakt,"), "instance arg:\n{text}");
}

#[test]
fn rekeys_track_synthetic_slugs() {
    let src = "\
extern a = VirtualIn(iname: \"VI1\")
extern b = VirtualIn(iname: \"VI2\")
extern sink = VirtualIn(iname: \"VI3\")

sink.I <- a.Q and b.Q
";
    let old = Module::parse(src).unwrap();
    let mut renamed = Module::parse(src).unwrap();
    rename_slug(&mut renamed, "sink", "ziel");
    let rekeys = lock_rekeys(&old, &renamed).unwrap();
    assert!(
        rekeys
            .iter()
            .any(|(o, n, k)| o == "sink" && n == "ziel" && *k == RekeyKind::Extern)
    );
    assert!(
        rekeys.iter().any(|(o, n, k)| o.starts_with("sink_")
            && n.starts_with("ziel_")
            && *k == RekeyKind::Object),
        "expression block not rekeyed: {rekeys:?}"
    );
}

#[test]
fn rekeys_of_an_unchanged_module_are_empty_and_apply_moves_only_known_keys() {
    let src = "extern a = VirtualIn(iname: \"VI1\")\nb = And(I1: a.Q)\n";
    let m1 = Module::parse(src).unwrap();
    let m2 = Module::parse(src).unwrap();
    assert!(lock_rekeys(&m1, &m2).unwrap().is_empty());

    let mut lock = Lockfile::new();
    let moved = apply_rekeys(
        &mut lock,
        &[("b".to_string(), "c".to_string(), RekeyKind::Object)],
    )
    .unwrap();
    assert_eq!(moved, 0);
}

#[test]
fn a_changed_structure_is_refused() {
    let m1 = Module::parse("extern a = VirtualIn(iname: \"VI1\")\n").unwrap();
    let m2 = Module::parse("b = And()\n").unwrap();
    let e = lock_rekeys(&m1, &m2).unwrap_err().to_string();
    assert!(e.contains("changed the module's structure"), "{e}");
}
