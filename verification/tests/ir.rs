use lxir::connectors::builtin_types;
use lxir::ir::decompile::SlugTable;
use lxir::ir::rename::{sub_text, valid_slug};
use lxir::ir::slugify;
use lxir::ir::validate::{edit_distance, suggest};

#[test]
fn slugify_rules() {
    assert_eq!(slugify("Beschattung Süd"), "beschattung_sued");
    assert_eq!(slugify("Temp über 28"), "temp_ueber_28");
    assert_eq!(slugify("3. OG Licht"), "x3_og_licht");
    assert_eq!(slugify("Größe"), "groesse");
    assert_eq!(slugify("---"), "x");
}

#[test]
fn slug_table_dedupes() {
    let mut t = SlugTable::default();
    assert_eq!(t.assign("Or"), "or");
    assert_eq!(t.assign("Or"), "or_2");
    assert_eq!(t.assign("Or"), "or_3");
}

#[test]
fn sub_text_respects_boundaries() {
    let mut t = "alarm fires; voralarm and alarm_2 stay; see alarm.Q".to_string();
    sub_text(&mut t, "alarm", "sirene");
    assert_eq!(t, "sirene fires; voralarm and alarm_2 stay; see sirene.Q");
}

#[test]
fn edit_distance_basics() {
    assert_eq!(edit_distance("", ""), 0);
    assert_eq!(edit_distance("abc", "abc"), 0);
    assert_eq!(edit_distance("abc", "abd"), 1);
    assert_eq!(edit_distance("abc", ""), 3);
    assert_eq!(edit_distance("kitten", "sitting"), 3);
}

#[test]
fn suggest_finds_close_names_only() {
    let types = builtin_types();
    assert_eq!(suggest("GreaterEqal", &types), "; did you mean `GreaterEqual`?");
    assert_eq!(suggest("greaterequal", &types), "; did you mean `GreaterEqual`?");
    assert_eq!(suggest("AutoJalousie", &types), "");
    assert_eq!(suggest("Q1", &vec!["Q", "I1", "I2"]), "; did you mean `Q`?");
    assert_eq!(suggest("xyz", &vec!["Q", "I1", "I2"]), "");
}

#[test]
fn slug_rules_are_enforced() {
    assert!(valid_slug("temp_hoch2").is_ok());
    let e = valid_slug("extern").unwrap_err().to_string();
    assert!(e.contains("reserved word"), "{e}");
    let e = valid_slug("Temp").unwrap_err().to_string();
    assert!(e.contains("invalid slug `Temp`"), "{e}");
    assert!(valid_slug("").is_err());
    assert!(valid_slug("a-b").is_err());
}

#[test]
fn slugs_skip_taken_numbers() {
    let mut t = SlugTable::new();
    assert_eq!(t.assign("Licht 2"), "licht_2");
    assert_eq!(t.assign("Licht"), "licht");
    assert_eq!(t.assign("Licht"), "licht_3");
}
