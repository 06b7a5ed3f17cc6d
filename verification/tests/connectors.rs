use lxir::connectors::{
    builtin, builtin_types, crosscheck, merge, LegacyDb, LegacyType, ObservedPort, Observations,
    PortDir,
};
use lxir::strmap::StrMap;

#[test]
fn builtin_shapes() {
    let and = builtin("And").unwrap();
    assert_eq!(and.len(), 3);
    assert_eq!(and[2].key, "Q");
    assert_eq!(and[2].dir, PortDir::Output);
    assert!(builtin("AutoJalousie").is_none(), "not verified — must not be mintable");
    let formula = builtin("Formula").unwrap();
    assert_eq!(formula.len(), 6);
    assert_eq!((formula[0].key, formula[0].dir), ("Input1", PortDir::Input));
    assert_eq!((formula[4].key, formula[4].dir), ("AQ", PortDir::Output));
    assert_eq!((formula[5].key, formula[5].dir), ("TQ", PortDir::Output));
    let mono = builtin("Monoflop").unwrap();
    assert_eq!((mono[1].key, mono[1].dir), ("Reset", PortDir::Input));
    assert_eq!((mono[3].key, mono[3].dir), ("Time", PortDir::Param));
    assert_eq!((mono[4].key, mono[4].dir), ("Q", PortDir::Output));
    assert_eq!(builtin("Less").unwrap().len(), 3);
    assert_eq!(builtin("AnalogThresholdTrigger").unwrap().len(), 8);
    assert!(builtin("PulseAt").is_none(), "OutputAPI direction unresolved — must not be mintable yet");
    assert!(builtin("Memory").is_none(), "Q direction unresolved");
    for t in builtin_types() {
        assert!(builtin(t).is_some(), "builtin_types lists `{t}`");
    }
}

fn port(index: Option<u8>, sink: u32, source: u32, def: u32) -> ObservedPort {
    ObservedPort {
        index,
        index_conflict: false,
        wired_as_sink: sink,
        wired_as_source: source,
        has_def: def,
        occurrences: 1,
    }
}

fn obs(ty: &str, ports: &[(&str, ObservedPort)]) -> Observations {
    let mut m = StrMap::new();
    for (k, p) in ports {
        m.insert((*k).to_string(), *p);
    }
    let mut o = Observations::new();
    o.insert(ty.to_string(), m);
    o
}

fn get(o: &Observations, ty: &str, key: &str) -> ObservedPort {
    *o.get(ty).unwrap().get(key).unwrap()
}

#[test]
fn merging() {
    let mut a = obs("T", &[("Q", port(Some(2), 0, 1, 0))]);
    merge(&mut a, obs("T", &[("Q", port(Some(2), 0, 3, 0))]));
    let q = get(&a, "T", "Q");
    assert_eq!((q.index, q.wired_as_source, q.occurrences), (Some(2), 4, 2));
    assert!(!q.index_conflict);

    merge(&mut a, obs("T", &[("Q", port(Some(5), 0, 1, 0))]));
    assert!(get(&a, "T", "Q").index_conflict);
    assert_eq!(get(&a, "T", "Q").index, None);
    merge(&mut a, obs("T", &[("Q", port(Some(2), 0, 1, 0))]));
    assert_eq!(get(&a, "T", "Q").index, None);

    merge(&mut a, obs("U", &[("I", port(Some(0), 1, 0, 0))]));
    assert_eq!(get(&a, "U", "I").index, Some(0));
}

fn legacy_type(c: &[&str], t: &[(&str, &str)]) -> LegacyType {
    let mut map = StrMap::new();
    for (k, v) in t {
        map.insert((*k).to_string(), (*v).to_string());
    }
    LegacyType {
        c: c.iter().map(|s| s.to_string()).collect(),
        t: map,
    }
}

#[test]
fn crosschecking() {
    let o = obs(
        "And",
        &[
            ("I1", port(Some(0), 2, 0, 0)),
            ("I2", port(Some(1), 1, 0, 1)),
            ("Q", port(Some(2), 0, 3, 0)),
            ("Mystery", port(Some(3), 0, 0, 2)),
        ],
    );
    let mut legacy: LegacyDb = StrMap::new();
    legacy.insert(
        "And".to_string(),
        legacy_type(
            &["I1", "I2", "Q"],
            &[("I1", "I"), ("I2", "I"), ("Q", "I"), ("Ghost", "O")],
        ),
    );
    legacy.insert("OnlyLegacy".to_string(), legacy_type(&[], &[]));
    let checks = crosscheck(&o, &legacy);
    let c = checks.get("And").unwrap();
    assert_eq!(c.dir_agreements, 2, "I1, I2");
    assert_eq!(c.dir_conflicts, ["Q: corpus=Output legacy=I"]);
    assert_eq!(c.only_in_corpus, ["Mystery"]);
    assert_eq!(c.only_in_legacy, ["Ghost"]);
    assert!(c.order_mismatch.is_none());
    assert!(!checks.contains_key("OnlyLegacy"), "intersection only");
}

#[test]
fn inference() {
    let mut o = ObservedPort::default();
    assert_eq!(o.inferred_dir(), None);
    o.has_def = 1;
    assert_eq!(o.inferred_dir(), Some(PortDir::Param));
    o.wired_as_source = 2;
    assert_eq!(o.inferred_dir(), Some(PortDir::Output));
    o.wired_as_sink = 3;
    assert_eq!(o.inferred_dir(), Some(PortDir::Input));
}

#[test]
fn order_mismatch_is_reported_in_debug_form() {
    let o = obs(
        "Or",
        &[("I1", port(Some(1), 1, 0, 0)), ("I2", port(Some(0), 1, 0, 0))],
    );
    let mut legacy: LegacyDb = StrMap::new();
    legacy.insert("Or".to_string(), legacy_type(&["I1", "I2"], &[("I1", "P"), ("I2", "I")]));
    let checks = crosscheck(&o, &legacy);
    let c = checks.get("Or").unwrap();
    assert_eq!(c.dir_agreements, 2);
    assert_eq!(
        c.order_mismatch.as_deref(),
        Some("observed [\"I2\", \"I1\"] vs legacy [\"I1\", \"I2\"]")
    );
}

#[test]
fn observe_collects_direction_evidence() {
    let src = "<ControlList>\r\n\
        \t<C Type=\"Or\" U=\"o1\">\r\n\
        \t\t<Co K=\"I1\" U=\"1d844a67-0333-52d5-00ff6c7a837b4406\">\r\n\
        \t\t\t<In Input=\"1d844a67-0333-52d5-02ff6c7a837b4407\"/>\r\n\
        \t\t</Co>\r\n\
        \t\t<Co K=\"I2\" Def=\"1\" U=\"1d844a67-0333-52d5-01ff6c7a837b4406\"/>\r\n\
        \t</C>\r\n\
        \t<C Type=\"And\" U=\"a1\">\r\n\
        \t\t<Co K=\"Q\" U=\"1d844a67-0333-52d5-02ff6c7a837b4407\"/>\r\n\
        \t</C>\r\n\
        </ControlList>\r\n";
    let doc = lxir::doc::LoxoneDoc::parse(src.as_bytes()).unwrap();
    let o = lxir::connectors::observe(&doc);
    let i1 = get(&o, "Or", "I1");
    assert_eq!((i1.index, i1.wired_as_sink, i1.occurrences), (Some(0), 1, 1));
    let i2 = get(&o, "Or", "I2");
    assert_eq!((i2.index, i2.has_def), (Some(1), 1));
    let q = get(&o, "And", "Q");
    assert_eq!((q.index, q.wired_as_source), (Some(2), 1));
    assert_eq!(q.inferred_dir(), Some(PortDir::Output));
}
