use lxir::doc::LoxoneDoc;
use lxir::lock::{LockedExternal, LockedObject, LockedWire, Lockfile, Tombstone};
use lxir::status::{triage, ManagedChange, StatusReport};
use lxir::strmap::StrMap;

/// Reference (last compiled output) and a drifted download of the same
/// little installation. The drift covers every classification arm.
fn reference() -> LoxoneDoc {
    parse(
        "<C Type=\"And\" U=\"AND\" Title=\"Beschatten\">\r\n\
         \t\t\t\t<Co K=\"I1\" U=\"AND-I1\"/>\r\n\
         \t\t\t\t<Co K=\"I2\" Def=\"1\" U=\"AND-I2\"/>\r\n\
         \t\t\t\t<Co K=\"Q\" U=\"AND-Q\"/>\r\n\
         \t\t\t</C>\r\n\
         \t\t\t<C Type=\"GreaterEqual\" U=\"GE\" Title=\"Temp hoch\">\r\n\
         \t\t\t\t<Co K=\"Q\" U=\"GE-Q\"/>\r\n\
         \t\t\t</C>\r\n\
         \t\t\t<C Type=\"VirtualIn\" U=\"VI\" Title=\"Sonne\" IName=\"VI1\">\r\n\
         \t\t\t\t<Co K=\"Q\" U=\"VI-Q\"/>\r\n\
         \t\t\t</C>\r\n\
         \t\t\t<C Type=\"AutoJalousie\" U=\"JAL\" Title=\"Jalousie\">\r\n\
         \t\t\t\t<Co K=\"AutoShade\" U=\"JAL-AS\">\r\n\
         \t\t\t\t\t<In Input=\"AND-Q\"/>\r\n\
         \t\t\t\t</Co>\r\n\
         \t\t\t</C>",
    )
}

fn drifted() -> LoxoneDoc {
    parse(
        // I2 retuned, a foreign wire drawn into I1, block retitled.
        "<C Type=\"And\" U=\"AND\" Title=\"Beschatten NEU\">\r\n\
         \t\t\t\t<Co K=\"I1\" U=\"AND-I1\">\r\n\
         \t\t\t\t\t<In Input=\"VI-Q\"/>\r\n\
         \t\t\t\t</Co>\r\n\
         \t\t\t\t<Co K=\"I2\" Def=\"2\" U=\"AND-I2\"/>\r\n\
         \t\t\t\t<Co K=\"Q\" U=\"AND-Q\"/>\r\n\
         \t\t\t</C>\r\n\
         // GE deleted; extern retitled; the compiler's AutoShade wire deleted.
         \t\t\t<C Type=\"VirtualIn\" U=\"VI\" Title=\"Sonnenfühler\" IName=\"VI1\">\r\n\
         \t\t\t\t<Co K=\"Q\" U=\"VI-Q\"/>\r\n\
         \t\t\t</C>\r\n\
         \t\t\t<C Type=\"AutoJalousie\" U=\"JAL\" Title=\"Jalousie\">\r\n\
         \t\t\t\t<Co K=\"AutoShade\" U=\"JAL-AS\"/>\r\n\
         \t\t\t</C>\r\n\
         // Two new managed-type blocks with a colliding title, one\r\n
         // unmanaged-type block, and one block the last compile removed.
         \t\t\t<C Type=\"Monoflop\" U=\"MONO1\" Title=\"Treppenlicht\"/>\r\n\
         \t\t\t<C Type=\"Monoflop\" U=\"MONO2\" Title=\"Treppenlicht\"/>\r\n\
         \t\t\t<C Type=\"AnalogInput\" U=\"AIN\" Title=\"Sensor\"/>\r\n\
         \t\t\t<C Type=\"Or\" U=\"TOMB\" Title=\"Alt\"/>",
    )
}

fn parse(blocks: &str) -> LoxoneDoc {
    // The test XML uses `//` comment markers for readability; strip them.
    let blocks: String = blocks
        .lines()
        .filter(|l| !l.trim_start().starts_with("//"))
        .collect::<Vec<_>>()
        .join("\n");
    let s = format!(
        "<ControlList Version=\"1\" NextObj=\"20\">\r\n\
         \t<C Type=\"Document\" U=\"DOC\">\r\n\
         \t\t<C Type=\"Page\" U=\"PAGE\" Title=\"P\">\r\n\
         \t\t\t{blocks}\r\n\
         \t\t</C>\r\n\
         \t</C>\r\n\
         </ControlList>\r\n"
    );
    LoxoneDoc::parse(s.as_bytes()).unwrap()
}

fn port_map(ports: &[(&str, &str)]) -> StrMap<String> {
    let mut m = StrMap::new();
    for (k, u) in ports {
        m.insert((*k).to_string(), (*u).to_string());
    }
    m
}

fn lock() -> Lockfile {
    let mut lock = Lockfile::new();
    let obj = |uuid: &str, ty: &str, ports: &[(&str, &str)]| LockedObject {
        uuid: uuid.into(),
        block_type: ty.into(),
        ports: port_map(ports),
        layout: None,
        page_uuid: None,
        expr_owned: false,
    };
    lock.objects.insert(
        "beschatten".into(),
        obj(
            "AND",
            "And",
            &[("I1", "AND-I1"), ("I2", "AND-I2"), ("Q", "AND-Q")],
        ),
    );
    lock.objects.insert(
        "temp_hoch".into(),
        obj("GE", "GreaterEqual", &[("Q", "GE-Q")]),
    );
    let ext = |uuid: &str, matched_by: &str| LockedExternal {
        uuid: uuid.into(),
        matched_by: matched_by.into(),
        title_at_match: None,
        iname_at_match: None,
    };
    lock.externals.insert("sonne".into(), ext("VI", "title"));
    lock.externals.insert("jal_sued".into(), ext("JAL", "uuid"));
    lock.extern_wires.push(LockedWire {
        from: "AND-Q".into(),
        to: "JAL-AS".into(),
    });
    lock.removed.insert(
        "TOMB".into(),
        Tombstone {
            slug: "alt".into(),
            block_type: "Or".into(),
        },
    );
    lock
}

fn find<'a>(report: &'a StatusReport, slug: &str, detail_part: &str) -> &'a ManagedChange {
    report
        .managed
        .iter()
        .find(|m| m.slug == slug && m.detail.contains(detail_part))
        .unwrap_or_else(|| {
            panic!("no managed change `{slug}` / `{detail_part}` in {report:#?}")
        })
}

#[test]
fn classifies_every_arm() {
    let report = triage(&drifted(), Some(&reference()), &lock());

    // The last compile's removal, still present → push, not drift.
    assert_eq!(report.pending_push.len(), 1);
    assert_eq!(report.pending_push[0].slug, "alt");

    // Foreign edits to managed identity, each with a pointed action.
    let deleted = find(&report, "temp_hoch", "deleted by another writer");
    assert!(deleted.action.contains("removed temp_hoch"));
    let param = find(&report, "beschatten", "param I2");
    assert!(param.detail.contains("\"1\" -> \"2\""));
    let retitle = find(&report, "beschatten", "retitled");
    assert!(retitle.action.contains("label"));
    let wire_in = find(&report, "beschatten", "new wire sonne.Q -> beschatten.I1");
    assert!(wire_in.action.contains("I1: sonne.Q"));
    let ext_retitle = find(&report, "sonne", "retitled");
    assert!(ext_retitle.action.contains("title:"));
    let wire_gone = find(&report, "jal_sued.AutoShade", "deleted");
    assert!(wire_gone.action.contains("<-"));
    assert_eq!(report.managed.len(), 6, "{report:#?}");

    // New managed-type blocks: adopt suggestions with deduped slugs.
    assert_eq!(report.adoptable.len(), 2);
    assert_eq!(report.adoptable[0].slug, "treppenlicht");
    assert_eq!(report.adoptable[1].slug, "treppenlicht_2");
    assert!(report.adoptable.iter().all(|a| a.block_type == "Monoflop"));

    // The AnalogInput is not lxir's business.
    assert_eq!(report.unmanaged_changes, 1);
    assert_eq!(report.locale_renames, 0);
    assert!(report.needs_attention());
}

#[test]
fn without_a_reference_only_lock_findings_remain() {
    let report = triage(&drifted(), None, &lock());
    assert!(!report.has_reference);
    assert_eq!(report.pending_push.len(), 1);
    // Deleted managed block and nothing diff-based.
    assert_eq!(report.managed.len(), 1);
    assert_eq!(report.managed[0].slug, "temp_hoch");
    assert!(report.adoptable.is_empty());
    assert_eq!(report.unmanaged_changes, 0);
}

#[test]
fn in_sync_config_reports_nothing() {
    let doc = reference();
    let mut lock = lock();
    lock.removed = StrMap::new();
    let report = triage(&doc, Some(&doc), &lock);
    assert!(!report.needs_attention(), "{report:#?}");
    assert_eq!(report.unmanaged_changes, 0);
}
