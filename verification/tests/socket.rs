use kfs::arch::x86::vmm::process::VMA;
use kfs::binary::Permissions;
use kfs::socket::{
    add_refs, close_all, socket_close, socket_create, socket_read, socket_write, validate_user_range, Socket,
    SocketError, SocketTable,
};

#[test]
fn socket_returns_bytes_in_order() {
    let mut s = Socket::new();
    assert!(s.is_empty());
    assert_eq!(s.write(&[1, 2, 3]), 3);
    assert_eq!(s.write(&[4]), 1);
    assert_eq!(s.len(), 4);
    let mut out = [0u8; 2];
    assert_eq!(s.read(&mut out), 2);
    assert_eq!(out, [1, 2]);
    let mut out = [9u8; 5];
    assert_eq!(s.read(&mut out), 2);
    assert_eq!(out, [3, 4, 9, 9, 9]);
    assert!(s.is_empty());
}

#[test]
fn table_reuses_closed_ids() {
    let mut t = SocketTable::new();
    assert_eq!(t.create(), 0);
    assert_eq!(t.create(), 1);
    assert_eq!(t.close(0), Ok(()));
    assert_eq!(t.create(), 0);
    assert_eq!(t.close(7), Err(SocketError::BadSocket));
}

#[test]
fn references_keep_a_socket_open() {
    let mut t = SocketTable::new();
    let id = socket_create(&mut t);
    assert_eq!(t.add_ref(id), Ok(()));
    assert_eq!(socket_close(&mut t, id), Ok(()));
    assert_eq!(socket_write(&mut t, id, &[5]), Ok(1));
    assert_eq!(socket_close(&mut t, id), Ok(()));
    assert_eq!(socket_close(&mut t, id), Err(SocketError::BadSocket));
    assert_eq!(t.add_ref(id), Err(SocketError::BadSocket));
}

#[test]
fn table_write_then_read() {
    let mut t = SocketTable::new();
    let id = t.create();
    assert_eq!(socket_write(&mut t, id, b"hello"), Ok(5));
    let mut out = [0u8; 3];
    assert_eq!(socket_read(&mut t, id, &mut out), Ok(3));
    assert_eq!(&out, b"hel");
    let mut out = [0u8; 3];
    assert_eq!(socket_read(&mut t, id, &mut out), Ok(2));
    assert_eq!(&out[..2], b"lo");
    assert_eq!(socket_read(&mut t, 3, &mut out), Err(SocketError::BadSocket));
    assert_eq!(socket_write(&mut t, 3, &out), Err(SocketError::BadSocket));
}

#[test]
fn descriptors_add_and_drop_references() {
    let mut t = SocketTable::new();
    let a = t.create();
    let b = t.create();
    add_refs(&mut t, &[Some(a), None, Some(a), Some(b), Some(9)]);
    assert_eq!(t.get_mut(a).unwrap().references, 3);
    assert_eq!(t.get_mut(b).unwrap().references, 2);
    close_all(&mut t, &[Some(a), Some(b), Some(b), Some(b)]);
    assert_eq!(t.get_mut(a).unwrap().references, 2);
    assert!(t.get_mut(b).is_err());
}

#[test]
fn user_ranges_must_lie_in_one_vma() {
    let vmas = [
        VMA { start: 0x1000, offset: None, size: 0x1000, permissions: Permissions::Read },
        VMA { start: 0x2000, offset: None, size: 0x1000, permissions: Permissions::ReadWrite },
    ];
    assert!(validate_user_range(&vmas, 0x1000, 4, false));
    assert!(!validate_user_range(&vmas, 0x1000, 4, true));
    assert!(validate_user_range(&vmas, 0x2ffc, 4, true));
    assert!(!validate_user_range(&vmas, 0x1ffe, 4, false));
    assert!(!validate_user_range(&vmas, 0x5000, 1, false));
    assert!(validate_user_range(&vmas, 0x5000, 0, true));
    assert!(!validate_user_range(&vmas, usize::MAX, 2, false));
}

#[test]
fn created_ids_are_never_open_ones() {
    let mut t = SocketTable::new();
    let a = t.create();
    let b = t.create();
    assert_ne!(a, b);
    assert_eq!(t.close(a), Ok(()));
    let c = t.create();
    assert_eq!(c, a);
    assert_ne!(c, b);
    let d = t.create();
    assert!(d != b && d != c);
    assert!(t.get_mut(d).is_ok());
}
