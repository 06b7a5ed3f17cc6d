use lxir::uuid::{entity_for_slug, parse_serial, LoxUuid, Minter, TailKind, LOXONE_EPOCH_UNIX};

#[test]
fn parse_and_display_roundtrip() {
    for s in [
        "1d844a67-0333-5301-ffffed57184a04d2",
        "1d844a67-0333-52d5-03ff6c7a837b4406",
        "00000000-0000-0001-1500000000000000",
    ] {
        assert_eq!(LoxUuid::parse(s).unwrap().to_string(), s);
    }
}

#[test]
fn tail_classification_matches_live_observations() {
    let obj = LoxUuid::parse("1d844a67-0333-5301-ffffed57184a04d2").unwrap();
    assert_eq!(
        obj.tail_kind(),
        TailKind::Object {
            suffix: [0xed, 0x57, 0x18, 0x4a, 0x04, 0xd2]
        }
    );
    let ms = LoxUuid::parse("20975553-0369-262a-ffff504f94a26236").unwrap();
    assert_eq!(
        ms.tail_kind(),
        TailKind::Object {
            suffix: parse_serial("504F94A26236").unwrap()
        }
    );
    let port = LoxUuid::parse("1d844a67-0333-52d5-03ff6c7a837b4406").unwrap();
    assert_eq!(port.connector_index(), Some(3));
    let mode = LoxUuid::parse("00000000-0000-0001-1500000000000000").unwrap();
    assert!(matches!(mode.tail_kind(), TailKind::Other(_)));
}

#[test]
fn created_time_decodes() {
    let u = LoxUuid::parse("15ea0aa3-0372-39b9-ffffed57184a04d2").unwrap();
    let unix = u.created_unix();
    assert!((1_598_000_000..1_599_000_000).contains(&unix));
}

#[test]
fn minter_is_deterministic() {
    let machine = parse_serial("504F94112233").unwrap();
    let mut a = Minter::new(machine, LOXONE_EPOCH_UNIX + 1000);
    let mut b = Minter::new(machine, LOXONE_EPOCH_UNIX + 1000);
    let ua = a.mint_object();
    let ub = b.mint_object();
    assert_eq!(ua, ub);
    assert_ne!(a.mint_object(), ua, "counter must advance");
    let e = entity_for_slug("beschatten");
    assert_eq!(a.mint_port(2, e).connector_index(), Some(2));
    assert_eq!(entity_for_slug("beschatten"), e);
}

#[test]
fn malformed_uuids_are_refused_with_a_reason() {
    let e = LoxUuid::parse("1d844a67-0333-5301").unwrap_err().to_string();
    assert!(e.contains("expected 4 segments"), "{e}");
    let e = LoxUuid::parse("1d844a6-0333-5301-ffffed57184a04d2").unwrap_err().to_string();
    assert!(e.contains("8-4-4-16"), "{e}");
    let e = LoxUuid::parse("1d844a6g-0333-5301-ffffed57184a04d2").unwrap_err().to_string();
    assert!(e.contains("segment 1 is not hex"), "{e}");
    let e = LoxUuid::parse("1d844a67-0333-5301-ffffed57184a04dz").unwrap_err().to_string();
    assert!(e.contains("segment 4 is not hex"), "{e}");
    assert!(parse_serial("504F94").is_err());
}
