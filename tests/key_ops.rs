use registry::error::{
    classify, status_error, Error, StatusClass, ERROR_ACCESS_DENIED, ERROR_FILE_NOT_FOUND,
    ERROR_NO_MORE_ITEMS, ERROR_PATH_NOT_FOUND,
};
use registry::key::{delete_primitive, unit_from_status, DeletePrimitive, RegKey};
use registry::path::encode_name;
use registry::sec::{Security, KEY_ALL_ACCESS, KEY_READ, KEY_WRITE};

fn wide(s: &str) -> Vec<u16> {
    let mut v: Vec<u16> = s.encode_utf16().collect();
    v.push(0);
    v
}

#[test]
fn classify_every_kind() {
    assert_eq!(classify(ERROR_FILE_NOT_FOUND), StatusClass::NotFound);
    assert_eq!(classify(ERROR_PATH_NOT_FOUND), StatusClass::NotFound);
    assert_eq!(classify(ERROR_ACCESS_DENIED), StatusClass::PermissionDenied);
    assert_eq!(classify(10013), StatusClass::PermissionDenied);
    assert_eq!(classify(ERROR_NO_MORE_ITEMS), StatusClass::Other);
    assert_eq!(classify(-1), StatusClass::Other);
    assert_eq!(classify(i32::MAX), StatusClass::Other);
}

#[test]
fn status_error_keeps_path_and_code() {
    match status_error("Software\\Missing".to_string(), 2) {
        Error::NotFound(p, c) => {
            assert_eq!(p, "Software\\Missing");
            assert_eq!(c, 2);
        }
        _ => panic!("expected NotFound"),
    }
    assert!(matches!(status_error("a".to_string(), 5), Error::PermissionDenied(p, 5) if p == "a"));
    assert!(matches!(status_error("b".to_string(), 87), Error::Unknown(p, 87) if p == "b"));
}

#[test]
fn encode_name_appends_terminator() {
    assert_eq!(encode_name("Software\\Test").ok().unwrap(), wide("Software\\Test"));
    assert_eq!(encode_name("").ok().unwrap(), vec![0u16]);
}

#[test]
fn encode_name_uses_surrogate_pairs() {
    assert_eq!(encode_name("a\u{1F600}").ok().unwrap(), vec![0x61, 0xD83D, 0xDE00, 0]);
    assert_eq!(encode_name("\u{e9}").ok().unwrap(), vec![0xE9, 0]);
}

#[test]
fn encode_name_refuses_embedded_nul() {
    match encode_name("My\u{0}Key") {
        Err(Error::InvalidNul(pos)) => assert_eq!(pos, 2),
        _ => panic!("expected InvalidNul"),
    }
    match encode_name("\u{1F600}\u{0}") {
        Err(Error::InvalidNul(pos)) => assert_eq!(pos, 2),
        _ => panic!("expected InvalidNul"),
    }
}

#[test]
fn open_success_renders_path() {
    let k = RegKey::from_status("Software\\Test", 0, 42u32).ok().unwrap();
    assert_eq!(k.to_string(), "Software\\Test");
    assert_eq!(*k.handle(), 42);
    let (h, p) = k.into_parts();
    assert_eq!(h, 42);
    assert_eq!(p, "Software\\Test");
}

#[test]
fn open_missing_path_is_not_found() {
    match RegKey::from_status("Software\\Nope", ERROR_FILE_NOT_FOUND, 0u32) {
        Err(Error::NotFound(p, c)) => {
            assert_eq!(p, "Software\\Nope");
            assert_eq!(c, ERROR_FILE_NOT_FOUND);
        }
        _ => panic!("expected NotFound"),
    }
}

#[test]
fn open_without_rights_is_permission_denied() {
    assert!(matches!(
        RegKey::from_status("SAM", ERROR_ACCESS_DENIED, 0u32),
        Err(Error::PermissionDenied(p, 5)) if p == "SAM"
    ));
}

#[test]
fn current_user_paths() {
    let k = RegKey::current_user_from_status(0, 7u64).ok().unwrap();
    assert_eq!(k.to_string(), "<Current User>");
    assert!(matches!(
        RegKey::current_user_from_status(5, 7u64),
        Err(Error::PermissionDenied(p, 5)) if p == "<current user>"
    ));
    assert!(matches!(
        RegKey::current_user_from_status(2, 7u64),
        Err(Error::NotFound(p, 2)) if p == "<current user>"
    ));
}

#[test]
fn delete_picks_primitive() {
    assert_eq!(delete_primitive(true), DeletePrimitive::Tree);
    assert_eq!(delete_primitive(false), DeletePrimitive::Key);
}

#[test]
fn delete_outcomes() {
    assert!(unit_from_status("a\\b", 0).is_ok());
    // A key that still has subkeys is refused by the store with an access error.
    match unit_from_status("a\\b", ERROR_ACCESS_DENIED) {
        Err(e) => assert_eq!(e.status_class(), Some(StatusClass::PermissionDenied)),
        Ok(()) => panic!("expected an error"),
    }
    assert!(matches!(unit_from_status("a\\b", 2), Err(Error::NotFound(p, 2)) if p == "a\\b"));
    assert!(matches!(unit_from_status("", 1018), Err(Error::Unknown(p, 1018)) if p.is_empty()));
}

#[test]
fn invalid_nul_has_no_status_class() {
    assert_eq!(Error::InvalidNul(3).status_class(), None);
}

#[test]
fn security_union() {
    let rw = Security::read().union(Security::write());
    assert_eq!(rw.bits(), KEY_READ | KEY_WRITE);
    assert_eq!(rw.bits(), 0x2001F);
    assert!(rw.contains(Security::read()));
    assert!(rw.contains(Security::write()));
    assert!(!Security::read().contains(Security::write()));
    assert!(Security::all_access().contains(rw));
    assert_eq!(Security::all_access().bits(), KEY_ALL_ACCESS);
    assert_eq!(Security::from_bits(0x8).bits(), 8);
}
