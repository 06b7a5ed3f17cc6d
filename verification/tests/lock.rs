use lxir::doc::Counters;
use lxir::lock::{sha256_hex, LockedObject, Lockfile};
use lxir::strmap::StrMap;

fn object(uuid: &str, ty: &str) -> LockedObject {
    LockedObject {
        uuid: uuid.into(),
        block_type: ty.into(),
        ports: StrMap::new(),
        layout: None,
        page_uuid: None,
        expr_owned: false,
    }
}

#[test]
fn rename_and_remove() {
    let mut lock = Lockfile::new();
    lock.objects.insert("a".into(), object("u", "And"));
    lock.rename_object("a", "b").unwrap();
    assert!(lock.objects.contains_key("b"));
    assert!(lock.rename_object("missing", "c").is_err());
    lock.remove_object("b").unwrap();
    assert!(lock.objects.is_empty());
}

#[test]
fn counters_never_decrease() {
    let mut lock = Lockfile::new();
    lock.counters.next_obj = 100;
    lock.absorb_counters(Counters {
        next_obj: 50,
        next_const: 2,
        next_note: 1,
        next_mem: 3,
    });
    assert_eq!(lock.counters.next_obj, 100);
    assert_eq!(lock.counters.next_mem, 3);
}

#[test]
fn rename_keeps_identity_and_refuses_taken_slugs() {
    let mut lock = Lockfile::new();
    lock.objects.insert("a".into(), object("ua", "And"));
    lock.objects.insert("b".into(), object("ub", "Or"));
    let e = lock.rename_object("a", "b").unwrap_err().to_string();
    assert_eq!(e, "lockfile error: slug `b` already exists in lock");
    lock.rename_object("a", "c").unwrap();
    assert_eq!(lock.objects.get("c").unwrap().uuid, "ua");
    assert!(!lock.objects.contains_key("a"));
    let e = lock.remove_object("zzz").unwrap_err().to_string();
    assert_eq!(e, "lockfile error: no managed object `zzz` in lock");
}

#[test]
fn sha256_is_lowercase_hex() {
    assert_eq!(
        sha256_hex(b"abc"),
        "ba7816bf8f01cfea414140de5dae2223b00361a396177a9cb410ff61f20015ad"
    );
    assert_eq!(sha256_hex(b"").len(), 64);
}
