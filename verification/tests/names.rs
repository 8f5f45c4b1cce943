use rmc::interner::Interner;
use rmc::name::nul_terminated;
use rmc::{EdgeKind, Name};

#[test]
fn name_keeps_its_bytes() {
    let name = Name::new(b"wflag").unwrap();
    assert_eq!(name.as_bytes(), b"wflag");
}

#[test]
fn name_with_a_nul_byte_is_refused() {
    assert!(Name::new(b"w\0flag").is_none());
    assert!(Name::new(b"\0").is_none());
    assert!(Name::new(b"wflag\0").is_none());
    assert!(Name::from_text("a\0").is_none());
}

#[test]
fn empty_name_is_a_name() {
    let name = Name::new(b"").unwrap();
    assert_eq!(name.as_bytes(), b"");
    assert_eq!(name.to_c_bytes(), vec![0u8]);
}

#[test]
fn name_of_text_holds_its_utf8_bytes() {
    let name = Name::from_text("é1").unwrap();
    assert_eq!(name.as_bytes(), &[0xc3u8, 0xa9, 0x31][..]);
}

#[test]
fn c_bytes_end_in_one_nul() {
    let name = Name::new(b"wdata").unwrap();
    assert_eq!(name.to_c_bytes(), vec![b'w', b'd', b'a', b't', b'a', 0]);
}

#[test]
fn same_compares_bytes() {
    let a = Name::new(b"abc").unwrap();
    assert!(a.same(&Name::new(b"abc").unwrap()));
    assert!(!a.same(&Name::new(b"abd").unwrap()));
    assert!(!a.same(&Name::new(b"ab").unwrap()));
    assert!(!a.same(&Name::new(b"abcd").unwrap()));
    assert!(!a.same(&Name::new(b"").unwrap()));
    assert!(Name::new(b"").unwrap().same(&Name::new(b"").unwrap()));
}

#[test]
fn clone_is_the_same_name() {
    let a = Name::new(b"abc").unwrap();
    let b = a.clone();
    assert!(a.same(&b));
    assert_eq!(b.as_bytes(), b"abc");
}

#[test]
fn edge_kinds_have_their_codes() {
    assert_eq!(EdgeKind::Execution.code(), 0);
    assert_eq!(EdgeKind::Visibility.code(), 1);
    assert_eq!(EdgeKind::Order.code(), 2);
}

#[test]
fn codes_give_their_edge_kinds() {
    assert_eq!(EdgeKind::from_code(0), Some(EdgeKind::Execution));
    assert_eq!(EdgeKind::from_code(1), Some(EdgeKind::Visibility));
    assert_eq!(EdgeKind::from_code(2), Some(EdgeKind::Order));
    assert_eq!(EdgeKind::from_code(3), None);
    assert_eq!(EdgeKind::from_code(-1), None);
    assert_eq!(EdgeKind::from_code(i32::MAX), None);
    assert_eq!(EdgeKind::from_code(i32::MIN), None);
}

#[test]
fn interner_gives_dense_keys_in_order_of_arrival() {
    let mut table = Interner::new();
    assert_eq!(table.len(), 0);
    assert_eq!(table.intern(&Name::new(b"a").unwrap()), 0);
    assert_eq!(table.intern(&Name::new(b"b").unwrap()), 1);
    assert_eq!(table.intern(&Name::new(b"a").unwrap()), 0);
    assert_eq!(table.intern(&Name::new(b"c").unwrap()), 2);
    assert_eq!(table.len(), 3);
    assert_eq!(table.name(1).as_bytes(), b"b");
}

#[test]
fn interner_looks_up_without_adding() {
    let mut table = Interner::new();
    assert_eq!(table.lookup(&Name::new(b"a").unwrap()), None);
    assert_eq!(table.len(), 0);
    table.intern(&Name::new(b"a").unwrap());
    table.intern(&Name::new(b"ab").unwrap());
    assert_eq!(table.lookup(&Name::new(b"ab").unwrap()), Some(1));
    assert_eq!(table.lookup(&Name::new(b"b").unwrap()), None);
    assert_eq!(table.len(), 2);
}

#[test]
fn nul_terminated_appends_one_nul() {
    assert_eq!(nul_terminated(b"/usr/lib/RMC.so\n"), Some(b"/usr/lib/RMC.so\n\0".to_vec()));
    assert_eq!(nul_terminated(b""), Some(vec![0u8]));
}

#[test]
fn nul_terminated_refuses_a_nul_inside() {
    assert_eq!(nul_terminated(b"/usr\0/lib"), None);
    assert_eq!(nul_terminated(b"/usr/lib\0"), None);
}
