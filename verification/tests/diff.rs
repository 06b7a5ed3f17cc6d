use lxir::diff::diff;
use lxir::doc::LoxoneDoc;

fn doc(title: &str, def: &str, wired: bool) -> LoxoneDoc {
    let wire = if wired {
        "<In Input=\"00000009-0000-0001-00ff000000000009\"/>"
    } else {
        ""
    };
    let s = format!(
        "<ControlList Version=\"1\" NextObj=\"5\">\r\n\
         \t<C Type=\"Document\" U=\"00000001-0000-0000-ffff000000000001\">\r\n\
         \t\t<C Type=\"Page\" U=\"00000002-0000-0000-ffff000000000001\" Title=\"P\">\r\n\
         \t\t\t<C Type=\"Or\" U=\"00000003-0000-0000-ffff000000000001\" Title=\"{title}\">\r\n\
         \t\t\t\t<Co K=\"I2\" Def=\"{def}\" U=\"00000003-0000-0002-01ff000000000002\">{wire}</Co>\r\n\
         \t\t\t</C>\r\n\
         \t\t\t<C Type=\"ModeCaption\" U=\"00000000-0000-0004-1500000000000000\" Title=\"{title}\"/>\r\n\
         \t\t</C>\r\n\
         \t</C>\r\n\
         </ControlList>\r\n"
    );
    LoxoneDoc::parse(s.as_bytes()).unwrap()
}

#[test]
fn detects_rename_param_and_wire_changes() {
    let a = doc("Alt", "1", false);
    let b = doc("Neu", "2", true);
    let d = diff(&a, &b);
    assert!(d.added.is_empty() && d.removed.is_empty());
    assert_eq!(d.renamed.len(), 2);
    let or = d.renamed.iter().find(|r| r.block_type == "Or").unwrap();
    assert!(!or.locale_suspect);
    let cap = d.renamed.iter().find(|r| r.block_type == "ModeCaption").unwrap();
    assert!(cap.locale_suspect, "Caption + system UUID → locale noise");
    assert_eq!(d.param_changes.len(), 1);
    assert_eq!(d.param_changes[0].from.as_deref(), Some("1"));
    assert_eq!(d.param_changes[0].to.as_deref(), Some("2"));
    assert_eq!(d.wires_added.len(), 1);
    assert!(d.wires_removed.is_empty());
}

#[test]
fn identical_docs_diff_empty() {
    let a = doc("X", "1", true);
    assert!(diff(&a, &a).is_empty());
}

#[test]
fn added_removed_and_formula_changes() {
    let a = LoxoneDoc::parse(
        "<ControlList>\r\n\t<C Type=\"Formula\" U=\"f\" Formula=\"I1+1\"/>\r\n\t<C Type=\"Or\" U=\"gone\"/>\r\n</ControlList>\r\n"
            .as_bytes(),
    )
    .unwrap();
    let b = LoxoneDoc::parse(
        "<ControlList>\r\n\t<C Type=\"Formula\" U=\"f\" Formula=\"I1+2\"/>\r\n\t<C Type=\"And\" U=\"new\"/>\r\n</ControlList>\r\n"
            .as_bytes(),
    )
    .unwrap();
    let d = diff(&a, &b);
    assert_eq!(d.added.len(), 1);
    assert_eq!(d.added[0].uuid, "new");
    assert_eq!(d.removed.len(), 1);
    assert_eq!(d.removed[0].uuid, "gone");
    assert_eq!(d.param_changes.len(), 1);
    assert_eq!(d.param_changes[0].port_key, "Formula");
    assert_eq!(d.param_changes[0].to.as_deref(), Some("I1+2"));
    assert!(!d.is_empty());
}

#[test]
fn swapping_documents_swaps_additions_and_removals() {
    let a = doc("Alt", "1", false);
    let b = LoxoneDoc::parse(
        String::from_utf8(doc("Alt", "1", true).to_bytes())
            .unwrap()
            .replace(
                "\t\t</C>\r\n\t</C>",
                "\t\t\t<C Type=\"And\" U=\"00000007-0000-0000-ffff000000000001\" Title=\"Neu\"/>\r\n\t\t</C>\r\n\t</C>",
            )
            .as_bytes(),
    )
    .unwrap();
    let ab = diff(&a, &b);
    let ba = diff(&b, &a);
    assert_eq!(ab.added.len(), 1);
    assert_eq!(ab.added, ba.removed);
    assert_eq!(ab.removed, ba.added);
    assert_eq!(ab.wires_added.len(), 1);
    assert_eq!(ab.wires_added, ba.wires_removed);
    assert_eq!(ab.wires_removed, ba.wires_added);
}
