//! Picker-UI subprocess lifecycle decisions.
//!
//! The daemon keeps at most one picker process. Before each request it
//! checks the tracked child: a running child is reused; an exited one,
//! one whose status cannot be read, or no child at all means a fresh
//! process is spawned. Spawning and waiting happen in the daemon.

use vstd::prelude::*;
use vstd::utf8::encode_utf8;

verus! {

/// Installed location of the picker binary.
pub const PROD_PICKER_PATH: &'static str = "/usr/lib/lunaris/libexec/xdg-desktop-portal-lunaris-picker";

/// Environment variable that overrides the picker binary location.
pub const ENV_OVERRIDE: &'static str = "LUNARIS_PORTAL_PICKER_BIN";

/// The picker binary: the override if the variable is set (to whatever
/// value), else the installed location.
pub fn picker_binary_path(env_override: Option<Vec<u8>>) -> (p: Vec<u8>)
    ensures
        match env_override {
            Some(o) => p@ == o@,
            None => p@ == encode_utf8(PROD_PICKER_PATH@),
        },
{
    match env_override {
        Some(o) => o,
        None => {
            let b = PROD_PICKER_PATH.as_bytes();
            let mut out: Vec<u8> = Vec::new();
            let mut i: usize = 0;
            while i < b.len()
                invariant
                    i <= b@.len(),
                    out@ == b@.subrange(0, i as int),
                decreases b.len() - i,
            {
                out.push(b[i]);
                assert(b@.subrange(0, i + 1) == b@.subrange(0, i as int).push(b@[i as int]));
                i = i + 1;
            }
            assert(b@.subrange(0, b@.len() as int) =~= b@);
            out
        },
    }
}

/// What is known of the tracked picker process.
#[derive(Debug, Clone, Copy, PartialEq, Eq)]
pub enum ChildState {
    /// No process is tracked.
    NoChild,
    /// The process has not exited.
    Running,
    /// The process has exited.
    Exited,
    /// Its status could not be read.
    StatusUnknown,
}

/// Whether a fresh picker process must be spawned (the tracked one, if
/// any, is dropped first). Idempotent for a running child.
pub fn needs_spawn(state: ChildState) -> (r: bool)
    ensures
        r == (state != ChildState::Running),
{
    match state {
        ChildState::Running => false,
        _ => true,
    }
}

/// Whether a picker process is running.
pub fn is_running(state: ChildState) -> (r: bool)
    ensures
        r == (state == ChildState::Running),
{
    match state {
        ChildState::Running => true,
        _ => false,
    }
}

} // verus!
