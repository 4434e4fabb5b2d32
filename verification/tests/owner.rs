use msv_supervisor::owner::{
    component_verdict, directory_verdict, is_private_file, ComponentVerdict, DirectoryVerdict,
};

#[test]
fn path_components_must_be_owned_and_not_shared_writable() {
    assert_eq!(component_verdict(true, 501, 501, 0o700, false), ComponentVerdict::Symlink);
    assert_eq!(component_verdict(false, 502, 501, 0o700, false), ComponentVerdict::ForeignOwner);
    assert_eq!(component_verdict(false, 0, 501, 0o755, false), ComponentVerdict::Accepted);
    assert_eq!(component_verdict(false, 502, 501, 0o755, true), ComponentVerdict::Accepted);
    assert_eq!(component_verdict(false, 501, 501, 0o775, false), ComponentVerdict::WritableByOthers);
    assert_eq!(component_verdict(false, 0, 501, 0o1777, false), ComponentVerdict::Accepted);
    assert_eq!(component_verdict(false, 0, 501, 0o777, true), ComponentVerdict::Accepted);
}

#[test]
fn private_files_are_the_users_alone() {
    assert!(is_private_file(true, 501, 501, 0o600));
    assert!(!is_private_file(true, 501, 501, 0o640));
    assert!(!is_private_file(true, 0, 501, 0o600));
    assert!(!is_private_file(false, 501, 501, 0o600));
}

#[test]
fn the_state_directory_is_tightened_once() {
    assert_eq!(directory_verdict(true, 501, 501, 0o700, false), DirectoryVerdict::Private);
    assert_eq!(directory_verdict(true, 501, 501, 0o755, false), DirectoryVerdict::Tighten);
    assert_eq!(directory_verdict(true, 501, 501, 0o755, true), DirectoryVerdict::Refused);
    assert_eq!(directory_verdict(false, 501, 501, 0o700, false), DirectoryVerdict::Refused);
    assert_eq!(directory_verdict(true, 502, 501, 0o700, false), DirectoryVerdict::Refused);
}
