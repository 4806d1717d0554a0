use lunaris_portal::request::{response, RequestHandle};
use zbus::zvariant::{ObjectPath, OwnedObjectPath};

#[test]
fn response_codes_match_spec() {
    assert_eq!(response::SUCCESS, 0);
    assert_eq!(response::CANCELLED, 1);
    assert_eq!(response::OTHER, 2);
}

#[test]
fn handle_stores_path() {
    let path: OwnedObjectPath =
        ObjectPath::try_from("/org/freedesktop/portal/desktop/request/1234/abc")
            .unwrap()
            .into();
    let h = RequestHandle::from_object_path(path.clone());
    assert_eq!(h.path, path);
}

#[test]
fn handle_clone_keeps_path() {
    let path: OwnedObjectPath = ObjectPath::try_from("/org/freedesktop/portal/desktop/request/1/x")
        .unwrap()
        .into();
    let h = RequestHandle::from_object_path(path.clone());
    let copy = h.clone();
    assert_eq!(copy.path, h.path);
    assert_eq!(copy.path, path);
}
