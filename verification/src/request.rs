//! `org.freedesktop.portal.Request` helpers: response codes and the
//! request handle a portal call carries.

use vstd::prelude::*;

pub mod response;

verus! {

#[verifier::external_type_specification]
#[verifier::external_body]
pub struct ExOwnedObjectPath(zbus::zvariant::OwnedObjectPath);

/// `OwnedObjectPath::clone` (derived in zvariant): a copy of the same
/// object path.
pub assume_specification[ <zbus::zvariant::OwnedObjectPath as Clone>::clone ](
    path: &zbus::zvariant::OwnedObjectPath,
) -> (res: zbus::zvariant::OwnedObjectPath)
    ensures
        res == *path,
;

/// A request handle as supplied by the frontend daemon: the object path
/// at which the request lives.
#[derive(Debug, Clone)]
pub struct RequestHandle {
    pub path: zbus::zvariant::OwnedObjectPath,
}

impl RequestHandle {
    /// Wrap a frontend-supplied request path.
    pub fn from_object_path(path: zbus::zvariant::OwnedObjectPath) -> (h: RequestHandle)
        ensures
            h.path == path,
    {
        RequestHandle { path }
    }
}

} // verus!
