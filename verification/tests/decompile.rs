use lxir::doc::LoxoneDoc;
use lxir::ir::{decompile, DecompileOptions};

const FIXTURE: &str = "<ControlList Version=\"1\" NextObj=\"9\" NextConst=\"1\" NextNote=\"1\" NextMem=\"1\">\r\n\
    \t<C Type=\"Document\" V=\"17010727\" U=\"00000001-0000-0000-ffff000000000001\" Title=\"T\">\r\n\
    \t\t<C Type=\"Page\" V=\"175\" U=\"00000002-0000-0000-ffff000000000001\" Title=\"P1\">\r\n\
    \t\t\t<C Type=\"VirtualIn\" V=\"175\" U=\"00000004-0000-0000-ffff000000000001\" Title=\"Taster Küche\" IName=\"VI1\">\r\n\
    \t\t\t\t<Co K=\"Q\" U=\"00000004-0000-0001-00ff000000000003\"/>\r\n\
    \t\t\t</C>\r\n\
    \t\t\t<C Type=\"Or\" V=\"175\" U=\"00000003-0000-0000-ffff000000000001\" Title=\"Oder\">\r\n\
    \t\t\t\t<Co K=\"I1\" U=\"00000003-0000-0001-00ff000000000002\">\r\n\
    \t\t\t\t\t<In Input=\"00000004-0000-0001-00ff000000000003\"/>\r\n\
    \t\t\t\t</Co>\r\n\
    \t\t\t\t<Co K=\"I2\" Def=\"1\" U=\"00000003-0000-0002-01ff000000000002\"/>\r\n\
    \t\t\t\t<Co K=\"Q\" U=\"00000003-0000-0003-02ff000000000002\"/>\r\n\
    \t\t\t</C>\r\n\
    \t\t\t<C Type=\"Memo\" V=\"175\" U=\"00000005-0000-0000-ffff000000000001\" Title=\"Notiz\"/>\r\n\
    \t\t</C>\r\n\
    \t</C>\r\n\
    </ControlList>\r\n";

#[test]
fn decompile_lifts_managed_blocks_and_their_sources() {
    let doc = LoxoneDoc::parse(FIXTURE.as_bytes()).unwrap();
    let (m, report) = decompile(&doc, &DecompileOptions::default()).unwrap();
    assert_eq!(report.managed, 1);
    assert_eq!(report.externs, 1);
    // The memo stays raw; Document and Page are containers.
    assert_eq!(report.raw_objects, 1);
    let text = m.to_text();
    assert!(text.contains("extern taster_kueche = VirtualIn(iname: \"VI1\")"), "{text}");
    assert!(text.contains("oder = Or("), "{text}");
    assert!(text.contains("\tI1: taster_kueche.Q,"), "{text}");
    assert!(text.contains("\tI2: 1,"), "{text}");
    // A title equal to the slug would be the default; a different one stays.
    assert!(text.contains("\"Oder\""), "{text}");
}

#[test]
fn nothing_managed_lifts_nothing() {
    let doc = LoxoneDoc::parse(FIXTURE.as_bytes()).unwrap();
    let opts = DecompileOptions { managed_types: vec!["And".to_string()] };
    let (m, report) = decompile(&doc, &opts).unwrap();
    assert!(m.items.is_empty());
    assert_eq!(report.managed, 0);
    assert_eq!(report.externs, 0);
    assert_eq!(report.raw_objects, 3);
}
