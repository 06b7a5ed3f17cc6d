use lxir::xml::{escape, unescape, XmlDocument};

const SAMPLE: &str = "\u{feff}<?xml version=\"1.0\" encoding=\"utf-8\"?>\r\n\
    <ControlList Version=\"1\" NextObj=\"3\">\r\n\
    \t<C Type=\"Or\" U=\"aa\" Title=\"O1\">\r\n\
    \t\t<Co K=\"I1\" Nc=\"1\" U=\"bb\">\r\n\
    \t\t\t<In Input=\"cc\"/>\r\n\
    \t\t</Co>\r\n\
    \t\t<Key>2B35</Key>\r\n\
    \t</C>\r\n\
    </ControlList>\r\n";

#[test]
fn roundtrip_sample() {
    let doc = XmlDocument::parse(SAMPLE.as_bytes()).unwrap();
    assert_eq!(doc.to_bytes(), SAMPLE.as_bytes());
}

#[test]
fn raw_newline_in_attr_value() {
    let s = "<Root Code=\"line1\nline2\"/>\r\n";
    let doc = XmlDocument::parse(s.as_bytes()).unwrap();
    assert_eq!(doc.root.attr("Code"), Some("line1\nline2"));
    assert_eq!(doc.to_bytes(), s.as_bytes());
}

#[test]
fn digit_prefixed_attr_name() {
    let s = "<Root 12hTF=\"true\"/>\r\n";
    let doc = XmlDocument::parse(s.as_bytes()).unwrap();
    assert_eq!(doc.root.attr("12hTF"), Some("true"));
    assert_eq!(doc.to_bytes(), s.as_bytes());
}

#[test]
fn entities() {
    assert_eq!(unescape("a &lt;= b &amp; c"), "a <= b & c");
    assert_eq!(unescape("&#228;&#xE4;"), "ää");
    assert_eq!(escape("a<b & 'c'"), "a&lt;b &amp; &apos;c&apos;");
    assert_eq!(unescape(&escape("x < & > \" ' y")), "x < & > \" ' y");
}

#[test]
fn mismatched_close_is_error() {
    let s = "<A><B></A></A>";
    assert!(XmlDocument::parse(s.as_bytes()).is_err());
}

#[test]
fn lf_files_keep_lf_and_crlf_files_keep_crlf() {
    let lf = "<A>\n\t<B/>\n</A>\n";
    let doc = XmlDocument::parse(lf.as_bytes()).unwrap();
    assert!(!doc.crlf);
    assert_eq!(doc.to_bytes(), lf.as_bytes());
    let crlf = "<A>\r\n\t<B/>\r\n</A>\r\n";
    let doc = XmlDocument::parse(crlf.as_bytes()).unwrap();
    assert!(doc.crlf);
    assert_eq!(doc.to_bytes(), crlf.as_bytes());
}

#[test]
fn errors_name_the_line() {
    let e = XmlDocument::parse("<A>\n<B>\n</C>\n</A>".as_bytes()).unwrap_err();
    match e {
        lxir::Error::Xml { line, .. } => assert_eq!(line, 3),
        other => panic!("unexpected {:?}", other),
    }
    let e = XmlDocument::parse(&[0xff, 0xfe]).unwrap_err();
    match e {
        lxir::Error::Xml { line, .. } => assert_eq!(line, 0),
        other => panic!("unexpected {:?}", other),
    }
}

#[test]
fn comments_and_trailing_content_are_refused() {
    assert!(XmlDocument::parse("<!-- c --><A/>".as_bytes()).is_err());
    assert!(XmlDocument::parse("<A/>junk".as_bytes()).is_err());
    assert!(XmlDocument::parse("<A x=\"1/>".as_bytes()).is_err());
}

#[test]
fn unknown_entities_and_stray_ampersands_stay_verbatim() {
    assert_eq!(unescape("a &nbsp; b"), "a &nbsp; b");
    assert_eq!(unescape("fish & chips"), "fish & chips");
    assert_eq!(unescape("&#xD800;"), "&#xD800;");
    assert_eq!(unescape("&#+65;"), "A");
    assert_eq!(unescape("&#X41;&#65;"), "AA");
}

#[test]
fn element_editing() {
    let mut e = lxir::xml::Element::new("C");
    assert!(e.self_closing);
    e.set_attr("Title", "a<b");
    assert_eq!(e.attr("Title"), Some("a&lt;b"));
    assert_eq!(e.attr_decoded("Title").as_deref(), Some("a<b"));
    e.set_attr_raw("Title", "x");
    assert_eq!(e.attrs.len(), 1);
    assert_eq!(e.attr("Title"), Some("x"));
    e.push_child(lxir::xml::Element::new("Co"));
    assert!(!e.self_closing);
    assert_eq!(e.child_elements().len(), 1);
    let removed = e.remove_attr("Title").unwrap();
    assert_eq!(removed.value, "x");
    assert!(e.remove_attr("Title").is_none());
}
