use lxir::doc::LoxoneDoc;
use lxir::ir::adopt::{layout_of, parse_i64, verify_rebuildable};

fn doc(block: &str) -> LoxoneDoc {
    let s = format!(
        "<ControlList Version=\"1\">\r\n\t<C Type=\"Document\" U=\"DOC\">\r\n\t\t<C Type=\"Page\" U=\"PAGE\" Title=\"P\">\r\n\t\t\t{block}\r\n\t\t</C>\r\n\t</C>\r\n</ControlList>\r\n"
    );
    LoxoneDoc::parse(s.as_bytes()).unwrap()
}

fn check(block: &str) -> Result<(), String> {
    let d = doc(block);
    let objs = d.objects();
    let o = objs.iter().find(|o| o.uuid == "B").unwrap();
    let el = d.element_at(&o.path).unwrap();
    verify_rebuildable(el, o)
}

const GOOD: &str = "<C Type=\"And\" V=\"175\" U=\"B\" Title=\"t\" Px=\"1\" Py=\"-2\" Px2=\"3\" Py2=\"4\" Nio=\"3\">\r\n\t\t\t\t<Co K=\"I1\" U=\"B-I1\"/>\r\n\t\t\t\t<Co K=\"I2\" U=\"B-I2\" Nc=\"1\">\r\n\t\t\t\t\t<In Input=\"X\"/>\r\n\t\t\t\t</Co>\r\n\t\t\t\t<Co K=\"Q\" U=\"B-Q\"/>\r\n\t\t\t</C>";

#[test]
fn parse_i64_follows_str_parse() {
    assert_eq!(parse_i64("42"), Some(42));
    assert_eq!(parse_i64("-7"), Some(-7));
    assert_eq!(parse_i64("+7"), Some(7));
    assert_eq!(parse_i64("-9223372036854775808"), Some(i64::MIN));
    assert_eq!(parse_i64("9223372036854775808"), None);
    assert_eq!(parse_i64("-"), None);
    assert_eq!(parse_i64("+-1"), None);
    assert_eq!(parse_i64(""), None);
    assert_eq!(parse_i64("1.5"), None);
}

#[test]
fn faithful_block_is_rebuildable() {
    assert_eq!(check(GOOD), Ok(()));
    let d = doc(GOOD);
    let o = d.objects().into_iter().find(|o| o.uuid == "B").unwrap();
    let l = layout_of(d.element_at(&o.path).unwrap()).unwrap();
    assert_eq!((l.px, l.py, l.px2, l.py2), (1, -2, 3, 4));
}

#[test]
fn unknown_attribute_is_refused() {
    let b = GOOD.replace("Nio=\"3\"", "Nio=\"3\" Zz=\"q\"");
    assert_eq!(
        check(&b),
        Err("attribute `Zz=\"q\"` is not understood by the rebuild and would be lost".to_string())
    );
}

#[test]
fn version_and_position_are_checked() {
    assert_eq!(
        check(&GOOD.replace("V=\"175\"", "V=\"176\"")),
        Err("block version V=\"176\" differs from the verified \"175\"".to_string())
    );
    assert_eq!(
        check(&GOOD.replace("Py=\"-2\"", "Py=\"x\"")),
        Err("its position (Px/Py/Px2/Py2) is not numeric".to_string())
    );
}

#[test]
fn connector_problems_are_refused() {
    assert_eq!(
        check(&GOOD.replace("<Co K=\"I1\" U=\"B-I1\"/>", "<Co K=\"I1\" Inv=\"true\" U=\"B-I1\"/>")),
        Err("connector `I1`: attribute `Inv` is not understood (the GUI's input-inversion flag; invert via a Not block in Loxone Config first)".to_string())
    );
    assert_eq!(
        check(&GOOD.replace("Nc=\"1\"", "Nc=\"2\"")),
        Err("connector `I2`: Nc=\"2\" does not match its 1 wire(s)".to_string())
    );
    assert_eq!(
        check(&GOOD.replace("<In Input=\"X\"/>", "<In Input=\"X\" FLG=\"1\"/>")),
        Err("connector `I2`: wire attribute `FLG` is not understood".to_string())
    );
    assert_eq!(
        check(&GOOD.replace("<Co K=\"Q\" U=\"B-Q\"/>", "<Co K=\"Q\" U=\"B-Q\"/><IoData/>")),
        Err("child element <IoData> is not understood by the rebuild".to_string())
    );
}

#[test]
fn connector_set_and_count_must_match_table() {
    assert_eq!(
        check(&GOOD.replace("K=\"Q\"", "K=\"A\"")),
        Err("its connectors [A, I1, I2] differ from the verified [I1, I2, Q]".to_string())
    );
    assert_eq!(
        check(&GOOD.replace("Nio=\"3\"", "Nio=\"4\"")),
        Err("Nio=\"4\" does not match the 3 verified connectors".to_string())
    );
}
