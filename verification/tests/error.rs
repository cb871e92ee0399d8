use vfs_mux::VFSError;

#[test]
fn each_error_has_its_message() {
    assert_eq!(VFSError::NotFound.message(), "Not Found");
    assert_eq!(VFSError::PermissionDenied.message(), "Permission Denied");
    assert_eq!(VFSError::InvalidOperation.message(), "Invalid Operation");
    assert_eq!(VFSError::AlreadyExists.message(), "Already Exists");
    assert_eq!(VFSError::Other("disk on fire".to_string()).message(), "Error: disk on fire");
    assert_eq!(VFSError::Other(String::new()).message(), "Error: ");
}

#[test]
fn errors_can_be_shown_for_debugging() {
    assert_eq!(format!("{:?}", VFSError::NotFound), "NotFound");
    assert_eq!(format!("{:?}", VFSError::Other("x".to_string())), "Other(\"x\")");
}
