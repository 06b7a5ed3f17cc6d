use lxir::project::Project;
use std::path::Path;

#[test]
fn parses_a_full_project_file() {
    let src = r#"
        # r50 — Wohnhaus
        base = "r50.Loxone"     # the deployed config
        module = "pages"
        lock = "r50.lock.json"
        out = "out/r50.Loxone"
        serial = "504F94A26236"
        page = "lxir"
    "#;
    let p = Project::parse(src, "/haus").unwrap();
    assert_eq!(Path::new(&p.base), Path::new("/haus/r50.Loxone"));
    assert_eq!(Path::new(&p.module), Path::new("/haus/pages"));
    assert_eq!(Path::new(&p.lock), Path::new("/haus/r50.lock.json"));
    assert_eq!(Path::new(&p.out), Path::new("/haus/out/r50.Loxone"));
    assert_eq!(p.serial.as_deref(), Some("504F94A26236"));
    assert_eq!(p.page.as_deref(), Some("lxir"));
}

#[test]
fn defaults_lock_and_out() {
    let p = Project::parse("base = \"a.Loxone\"\nmodule = \".\"\n", "d").unwrap();
    assert_eq!(Path::new(&p.lock), Path::new("d/lxir.lock.json"));
    assert_eq!(Path::new(&p.out), Path::new("d/out.Loxone"));
    assert_eq!(Path::new(&p.module), Path::new("d/."));
    assert_eq!(p.serial, None);
}

#[test]
fn refusals_are_pointed() {
    let bad = [
        ("module = \"m\"\n", "missing required key `base`"),
        ("base = \"b\"\n", "missing required key `module`"),
        ("[compile]\n", "tables are not part"),
        ("base b\n", "expected `key = \"value\"`"),
        ("bases = \"b\"\n", "unknown key `bases`"),
        ("base = \"b\"\nbase = \"c\"\n", "`base` is set twice"),
        ("base = b.Loxone\n", "a `\"` must open the value"),
        ("base = \"b\" trailing\n", "unexpected `trailing`"),
        ("base = \"b\nmodule = \"m\"\n", "unterminated string"),
        ("base = \"\\q\"\n", "unsupported escape `\\q`"),
        ("base = \"\"\n", "`base` is empty"),
        (
            "base = \"b\"\nmodule = \"m\"\nserial = \"xyz\"\n",
            "not a 12-hex-digit",
        ),
    ];
    for (src, want) in bad {
        let e = Project::parse(src, ".").unwrap_err().to_string();
        assert!(e.contains(want), "{src:?}: got {e:?}, want {want:?}");
    }
}

#[test]
fn escapes_and_comments_in_strings() {
    let src = "base = \"a b.Loxone\"\nmodule = \"with \\\"quotes\\\"\" # trailing\n";
    let p = Project::parse(src, ".").unwrap();
    assert_eq!(Path::new(&p.base), Path::new("a b.Loxone"));
    assert_eq!(Path::new(&p.module), Path::new("with \"quotes\""));
}

#[test]
fn errors_carry_the_line_number() {
    let e = Project::parse("# c\n\nbase = 1\n", ".").unwrap_err().to_string();
    assert!(e.contains("line 3: "), "{e}");
    let p = Project::parse("\u{feff}base = \"/abs/x\"\r\nmodule = \"m\"\r\n", "/r").unwrap();
    assert_eq!(p.base, "/abs/x");
    assert_eq!(p.module, "/r/m");
}
