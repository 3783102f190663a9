use skeg_rigging::error::OpenError;
use skeg_rigging::readonly::open_readonly;

#[test]
fn open_readonly_placeholder_returns_not_found() {
    match open_readonly("/nonexistent") {
        Ok(_) => panic!("expected error from placeholder open_readonly"),
        Err(e) => assert!(matches!(e, OpenError::NotFound)),
    }
}

#[test]
fn open_error_messages() {
    assert_eq!(OpenError::NotFound.to_string(), "vault not found");
    assert_eq!(OpenError::PermissionDenied.to_string(), "permission denied");
    let f = OpenError::Format {
        message: "bad header".to_string(),
        source: None,
    };
    assert_eq!(f.to_string(), "format error: bad header");
}

#[test]
fn open_error_from_io_classifies_kind() {
    let nf = std::io::Error::new(std::io::ErrorKind::NotFound, "x");
    assert!(matches!(OpenError::from_io(nf), OpenError::NotFound));
    let pd = std::io::Error::new(std::io::ErrorKind::PermissionDenied, "x");
    assert!(matches!(OpenError::from_io(pd), OpenError::PermissionDenied));
    let other = std::io::Error::other("boom");
    match OpenError::from_io(other) {
        OpenError::Io(e) => assert_eq!(e.to_string(), "boom"),
        e => panic!("expected Io, got {e:?}"),
    }
}
