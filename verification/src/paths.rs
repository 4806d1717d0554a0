//! Path composition on raw bytes (Unix paths), and the std path
//! queries the library relies on.

use vstd::prelude::*;
use vstd::utf8::encode_utf8;

verus! {

/// `base` with `comp` pushed onto it, as `PathBuf::push` does on Unix:
/// an absolute `comp` replaces `base`; otherwise a `/` separates the two
/// unless `base` is empty or already ends with one.
pub open spec fn path_push(base: Seq<u8>, comp: Seq<u8>) -> Seq<u8> {
    if comp.len() > 0 && comp[0] == 0x2f {
        comp
    } else if base.len() > 0 && base.last() != 0x2f {
        base.push(0x2f) + comp
    } else {
        base + comp
    }
}

/// Push `comp` onto the path `base`.
pub fn push_path(base: &Vec<u8>, comp: &[u8]) -> (r: Vec<u8>)
    ensures
        r@ == path_push(base@, comp@),
{
    let mut out: Vec<u8> = Vec::new();
    let absolute = comp.len() > 0 && comp[0] == 0x2f;
    if !absolute {
        let mut i: usize = 0;
        while i < base.len()
            invariant
                i <= base@.len(),
                out@ == base@.subrange(0, i as int),
            decreases base.len() - i,
        {
            out.push(base[i]);
            assert(base@.subrange(0, i + 1) == base@.subrange(0, i as int).push(base@[i as int]));
            i = i + 1;
        }
        assert(base@.subrange(0, base@.len() as int) =~= base@);
        if base.len() > 0 && base[base.len() - 1] != 0x2f {
            out.push(0x2f);
        }
    }
    let ghost head = out@;
    let mut j: usize = 0;
    while j < comp.len()
        invariant
            j <= comp@.len(),
            out@ == head + comp@.subrange(0, j as int),
        decreases comp.len() - j,
    {
        out.push(comp[j]);
        assert(comp@.subrange(0, j + 1) == comp@.subrange(0, j as int).push(comp@[j as int]));
        j = j + 1;
    }
    assert(comp@.subrange(0, comp@.len() as int) =~= comp@);
    proof {
        if !absolute {
            if base@.len() > 0 && base@.last() != 0x2f {
                assert(head == base@.push(0x2f));
            } else {
                assert(head == base@);
            }
        } else {
            assert(head =~= Seq::<u8>::empty());
        }
    }
    out
}

/// Directory of the picker IPC socket: `<runtime>/lunaris`.
pub open spec fn socket_dir(runtime: Seq<u8>) -> Seq<u8> {
    path_push(runtime, encode_utf8("lunaris"@))
}

/// The picker IPC socket: `<runtime>/lunaris/portal-picker.sock`. The
/// daemon binds it and the picker UI connects to it, both from
/// `$XDG_RUNTIME_DIR`.
pub open spec fn socket_path(runtime: Seq<u8>) -> Seq<u8> {
    path_push(socket_dir(runtime), encode_utf8("portal-picker.sock"@))
}

/// The directory holding the picker IPC socket.
pub fn picker_socket_dir(runtime: &Vec<u8>) -> (r: Vec<u8>)
    ensures
        r@ == socket_dir(runtime@),
{
    push_path(runtime, "lunaris".as_bytes())
}

/// The picker IPC socket path.
pub fn picker_socket_path(runtime: &Vec<u8>) -> (r: Vec<u8>)
    ensures
        r@ == socket_path(runtime@),
{
    let dir = picker_socket_dir(runtime);
    push_path(&dir, "portal-picker.sock".as_bytes())
}

/// The parent of path `p`, as `Path::parent` gives it.
pub uninterp spec fn path_parent(p: Seq<char>) -> Option<Seq<char>>;

/// The final component of path `p`, as `Path::file_name` gives it.
pub uninterp spec fn path_file_name(p: Seq<char>) -> Option<Seq<char>>;

/// Whether `p` is empty or only the root: nothing but `/` characters.
pub open spec fn is_root_or_empty(p: Seq<char>) -> bool {
    forall|i: int| 0 <= i < p.len() ==> p[i] == '/'
}

/// `Path::parent` on a UTF-8 path. As its documentation says, a path
/// that ends in the root (here: `/` only) or is empty has no parent.
#[verifier::external_body]
pub(crate) fn parent_of(p: &str) -> (r: Option<String>)
    ensures
        match r {
            Some(s) => path_parent(p@) == Some(s@),
            None => path_parent(p@) is None,
        },
        is_root_or_empty(p@) ==> r is None,
{
    std::path::Path::new(p).parent().map(|q| q.to_string_lossy().into_owned())
}

/// `Path::file_name` on a UTF-8 path.
#[verifier::external_body]
pub(crate) fn file_name_of(p: &str) -> (r: Option<String>)
    ensures
        match r {
            Some(s) => path_file_name(p@) == Some(s@),
            None => path_file_name(p@) is None,
        },
{
    std::path::Path::new(p).file_name().map(|q| q.to_string_lossy().into_owned())
}

/// What to do at the socket path before binding it.
#[derive(Debug, Clone, Copy, PartialEq, Eq)]
pub enum SocketPrep {
    /// Nothing is there: bind.
    Bind,
    /// A stale socket of an earlier run is there (it would make the bind
    /// fail with `EADDRINUSE`): remove it, then bind.
    RemoveStaleThenBind,
    /// Something other than a socket is there: refuse rather than
    /// delete a file the user made.
    Refuse,
}

/// The start-up decision for the socket path, from whether something
/// exists there and, if it does, whether it is a Unix socket.
pub fn socket_preparation(exists: bool, is_socket: bool) -> (p: SocketPrep)
    ensures
        !exists ==> p == SocketPrep::Bind,
        exists && is_socket ==> p == SocketPrep::RemoveStaleThenBind,
        exists && !is_socket ==> p == SocketPrep::Refuse,
{
    if !exists {
        SocketPrep::Bind
    } else if is_socket {
        SocketPrep::RemoveStaleThenBind
    } else {
        SocketPrep::Refuse
    }
}

} // verus!
