use lxir::doc::{ports, Counters, LoxoneDoc};

const FIXTURE: &str = "<ControlList Version=\"1\" NextObj=\"5\" NextConst=\"1\" NextNote=\"1\" NextMem=\"1\">\r\n\
    \t<C Type=\"Document\" V=\"17010727\" U=\"00000001-0000-0000-ffff000000000001\" Title=\"T\" ConfigVersion=\"17010727\">\r\n\
    \t\t<C Type=\"Page\" V=\"175\" U=\"00000002-0000-0000-ffff000000000001\" Title=\"P1\">\r\n\
    \t\t\t<C Type=\"Or\" V=\"175\" U=\"00000003-0000-0000-ffff000000000001\" Title=\"O1\" Nio=\"3\">\r\n\
    \t\t\t\t<Co K=\"I1\" Nc=\"1\" U=\"00000003-0000-0001-00ff000000000002\">\r\n\
    \t\t\t\t\t<In Input=\"00000004-0000-0001-00ff000000000003\"/>\r\n\
    \t\t\t\t</Co>\r\n\
    \t\t\t\t<Co K=\"I2\" Def=\"1\" U=\"00000003-0000-0002-01ff000000000002\"/>\r\n\
    \t\t\t\t<Co K=\"Q\" U=\"00000003-0000-0003-02ff000000000002\"/>\r\n\
    \t\t\t</C>\r\n\
    \t\t</C>\r\n\
    \t</C>\r\n\
    </ControlList>\r\n";

#[test]
fn objects_ports_wires() {
    let doc = LoxoneDoc::parse(FIXTURE.as_bytes()).unwrap();
    let objs = doc.objects();
    assert_eq!(objs.len(), 3);
    assert_eq!(doc.counters().next_obj, 5);
    assert_eq!(doc.config_version().as_deref(), Some("17010727"));

    let or = objs.iter().find(|o| o.block_type == "Or").unwrap();
    let el = doc.element_at(&or.path).unwrap();
    let ports = ports(el);
    assert_eq!(ports.len(), 3);
    assert_eq!(ports[1].def.as_deref(), Some("1"));

    let wires = doc.wires();
    assert_eq!(wires.len(), 1);
    assert_eq!(wires[0].to_port, "00000003-0000-0001-00ff000000000002");

    let idx = doc.index();
    assert_eq!(
        idx.port_owner.get("00000003-0000-0003-02ff000000000002"),
        Some(&(
            "00000003-0000-0000-ffff000000000001".to_string(),
            "Q".to_string()
        ))
    );
}

#[test]
fn remove_and_page() {
    let mut doc = LoxoneDoc::parse(FIXTURE.as_bytes()).unwrap();
    assert!(doc.page_path(Some("P1")).is_some());
    assert!(doc.page_path(Some("Nope")).is_none());
    let removed = doc
        .remove_by_uuid("00000003-0000-0000-ffff000000000001")
        .unwrap();
    assert_eq!(removed.attr("Type"), Some("Or"));
    assert_eq!(doc.objects().len(), 2);
}

#[test]
fn counters_roundtrip_and_default_to_one() {
    let mut doc = LoxoneDoc::parse(FIXTURE.as_bytes()).unwrap();
    doc.set_counters(Counters {
        next_obj: 42,
        next_const: 7,
        next_note: 8,
        next_mem: 9,
    });
    let c = doc.counters();
    assert_eq!((c.next_obj, c.next_const, c.next_note, c.next_mem), (42, 7, 8, 9));
    let bare = LoxoneDoc::parse("<ControlList NextObj=\"x\"/>\r\n".as_bytes()).unwrap();
    let c = bare.counters();
    assert_eq!((c.next_obj, c.next_const), (1, 1));
    assert!(bare.document().is_none());
}

#[test]
fn non_controllist_root_is_refused() {
    let e = LoxoneDoc::parse("<Other/>".as_bytes()).unwrap_err().to_string();
    assert!(e.contains("expected <ControlList> root, found <Other>"), "{e}");
}

#[test]
fn paths_address_elements_and_bytes_roundtrip() {
    let doc = LoxoneDoc::parse(FIXTURE.as_bytes()).unwrap();
    assert_eq!(doc.to_bytes(), FIXTURE.as_bytes());
    let page = doc.page_path(None).unwrap();
    assert_eq!(doc.element_at(&page).unwrap().attr("Title"), Some("P1"));
    assert!(doc.element_at(&[9]).is_none());
}
