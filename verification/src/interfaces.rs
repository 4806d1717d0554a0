//! Replies of the portal interface methods that have no backend yet.
//!
//! `FileChooser.OpenFile`/`SaveFile`/`SaveFiles` and
//! `OpenURI.OpenURI`/`OpenFile` answer with the backend-failure code and
//! a sentinel entry in the results dictionary, so that observers can
//! tell them apart from a real user cancel.

use vstd::prelude::*;

use crate::options::{OptionValue, PortalOptions};
use crate::request::response::OTHER;

verus! {

/// Key of the sentinel entry in the results dictionary.
pub const STUB_ERROR_KEY: &'static str = "lunaris-stub-error";

/// The sentinel message for `method`.
pub open spec fn stub_message(method: Seq<char>) -> Seq<char> {
    "F1 stub for "@ + method + "; backend not yet implemented"@
}

/// Results dictionary flagging that `method` has no backend yet: one
/// entry, the sentinel key with the message as a string.
pub fn stub_results(method: &str) -> (r: PortalOptions)
    ensures
        r@.dom() == set![STUB_ERROR_KEY@],
        r@[STUB_ERROR_KEY@] matches OptionValue::Str(s) && s@ == stub_message(method@),
{
    let mut val = String::from_str("F1 stub for ");
    val.append(method);
    val.append("; backend not yet implemented");
    let mut map = PortalOptions::new();
    map.insert(String::from_str(STUB_ERROR_KEY), OptionValue::Str(val));
    assert(map@.dom() =~= set![STUB_ERROR_KEY@]);
    map
}

/// Reply of a method without backend: the backend-failure code (not
/// "cancelled", which would claim the user dismissed the dialog) and
/// the stub results.
pub fn stub_reply(method: &str) -> (r: (u32, PortalOptions))
    ensures
        r.0 == OTHER,
        r.1@.dom() == set![STUB_ERROR_KEY@],
        r.1@[STUB_ERROR_KEY@] matches OptionValue::Str(s) && s@ == stub_message(method@),
{
    (OTHER, stub_results(method))
}

} // verus!
