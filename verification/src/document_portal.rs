//! Document Portal URIs for sandboxed callers.
//!
//! Files picked for a sandboxed caller are exported through
//! `xdg-document-portal`, which exposes each under its FUSE mount as
//! `<mount>/<doc_id>/<filename>`. The daemon opens the files and talks
//! to the portal over D-Bus; this module decides what is asked for and
//! assembles the `file://` URIs returned to the caller.

use vstd::prelude::*;
use vstd::utf8::{decode_utf8, encode_utf8, valid_utf8};

use crate::options::{bytes_to_path, path_of_bytes};
use crate::paths::{file_name_of, parent_of, path_file_name, path_parent, path_push, push_path};

verus! {

/// Whether `b` is in the set of bytes percent-encoded in URI paths: the
/// C0 controls, DEL, and ` "#%<>?[\]^`{|}`.
pub open spec fn in_uri_path_set(b: u8) -> bool {
    b < 0x20 || b == 0x7f || b == 0x20 || b == 0x22 || b == 0x23 || b == 0x25 || b == 0x3c || b
        == 0x3e || b == 0x3f || b == 0x5b || b == 0x5c || b == 0x5d || b == 0x5e || b == 0x60 || b
        == 0x7b || b == 0x7c || b == 0x7d
}

/// Whether `b` is written percent-encoded: non-ASCII bytes always are,
/// ASCII bytes when they are in the set.
pub open spec fn encodes_byte(b: u8) -> bool {
    b >= 0x80 || in_uri_path_set(b)
}

/// Upper-case hex digit of `d < 16`.
pub open spec fn hex_digit(d: u8) -> char {
    if d < 10 {
        (0x30 + d) as char
    } else {
        (0x41 + d - 10) as char
    }
}

/// `%XX` for byte `b`, upper-case hex.
pub open spec fn percent_triple(b: u8) -> Seq<char> {
    seq!['%', hex_digit(b / 16), hex_digit(b % 16)]
}

/// `bytes` percent-encoded for a URI path.
pub open spec fn percent_encoded(bytes: Seq<u8>) -> Seq<char>
    decreases bytes.len(),
{
    if bytes.len() == 0 {
        seq![]
    } else {
        let b = bytes.last();
        percent_encoded(bytes.drop_last()) + if encodes_byte(b) {
            percent_triple(b)
        } else {
            seq![b as char]
        }
    }
}

/// RFC 3986 characters that may stand unescaped in a URI path: the
/// unreserved characters (letters, digits, `-._~`), the sub-delimiters
/// (`!$&'()*+,;=`), `:`, `@` and the separator `/`.
pub open spec fn rfc3986_path_char(c: char) -> bool {
    ('a' <= c && c <= 'z') || ('A' <= c && c <= 'Z') || ('0' <= c && c <= '9') || c == '-' || c
        == '.' || c == '_' || c == '~' || c == '!' || c == '$' || c == '&' || c == '\'' || c
        == '(' || c == ')' || c == '*' || c == '+' || c == ',' || c == ';' || c == '=' || c == ':'
        || c == '@' || c == '/'
}

/// A byte is written as a `%XX` escape exactly when it is not the
/// encoding of an RFC 3986 path character: every gen-delim other than
/// `:`, `@` and `/` (so `?`, `#`, `[` and `]`), every other ASCII
/// character outside the unreserved and sub-delimiter sets, and every
/// non-ASCII byte.
pub proof fn law_escaped_bytes_are_exactly_non_path_chars(b: u8)
    ensures
        encodes_byte(b) <==> !(b < 0x80 && rfc3986_path_char(b as char)),
{
}

/// A percent-encoded path holds only RFC 3986 path characters and the
/// `%` that starts an escape: no raw `[`, `]`, `?`, `#`, space or
/// non-ASCII character is left in it.
pub proof fn law_percent_encoded_is_uri_path(bytes: Seq<u8>)
    ensures
        forall|i: int|
            0 <= i < percent_encoded(bytes).len() ==> rfc3986_path_char(
                #[trigger] percent_encoded(bytes)[i],
            ) || percent_encoded(bytes)[i] == '%',
    decreases bytes.len(),
{
    if bytes.len() > 0 {
        let b = bytes.last();
        let prev = percent_encoded(bytes.drop_last());
        law_percent_encoded_is_uri_path(bytes.drop_last());
        law_escaped_bytes_are_exactly_non_path_chars(b);
        let tail = if encodes_byte(b) {
            percent_triple(b)
        } else {
            seq![b as char]
        };
        assert(percent_encoded(bytes) == prev + tail);
        assert forall|i: int| 0 <= i < tail.len() implies rfc3986_path_char(#[trigger] tail[i])
            || tail[i] == '%' by {
            if encodes_byte(b) {
                assert(b / 16 < 16 && b % 16 < 16);
            }
        }
        assert forall|i: int|
            0 <= i < percent_encoded(bytes).len() implies rfc3986_path_char(
            #[trigger] percent_encoded(bytes)[i],
        ) || percent_encoded(bytes)[i] == '%' by {
            if i < prev.len() {
                assert(percent_encoded(bytes)[i] == prev[i]);
            } else {
                assert(percent_encoded(bytes)[i] == tail[i - prev.len()]);
            }
        }
    }
}

/// An upper-case hex digit.
pub open spec fn upper_hex(c: char) -> bool {
    ('0' <= c && c <= '9') || ('A' <= c && c <= 'F')
}

/// Every `%` in a percent-encoded path starts a whole escape: two
/// upper-case hex digits follow it.
pub proof fn law_escapes_are_upper_hex(bytes: Seq<u8>)
    ensures
        forall|i: int|
            0 <= i < percent_encoded(bytes).len() && #[trigger] percent_encoded(bytes)[i] == '%'
                ==> i + 2 < percent_encoded(bytes).len() && upper_hex(percent_encoded(bytes)[i + 1])
                && upper_hex(percent_encoded(bytes)[i + 2]),
    decreases bytes.len(),
{
    if bytes.len() > 0 {
        let b = bytes.last();
        let prev = percent_encoded(bytes.drop_last());
        law_escapes_are_upper_hex(bytes.drop_last());
        let tail = if encodes_byte(b) {
            percent_triple(b)
        } else {
            seq![b as char]
        };
        let out = percent_encoded(bytes);
        assert(out == prev + tail);
        if encodes_byte(b) {
            assert(b / 16 < 16 && b % 16 < 16);
        } else {
            assert(b != 0x25);
        }
        assert forall|i: int|
            0 <= i < out.len() && #[trigger] out[i] == '%' implies i + 2 < out.len() && upper_hex(
            out[i + 1],
        ) && upper_hex(out[i + 2]) by {
            if i < prev.len() {
                assert(out[i] == prev[i]);
                assert(prev[i] == '%');
                assert(out[i + 1] == prev[i + 1] && out[i + 2] == prev[i + 2]);
            } else {
                assert(out[i] == tail[i - prev.len()]);
                assert(out[i + 1] == tail[i - prev.len() + 1]);
                assert(out[i + 2] == tail[i - prev.len() + 2]);
            }
        }
    }
}

/// Value of a hex digit (either case); 0 for any other character.
pub open spec fn hex_value(c: char) -> int {
    if '0' <= c && c <= '9' {
        c as int - 0x30
    } else if 'A' <= c && c <= 'F' {
        c as int - 0x41 + 10
    } else if 'a' <= c && c <= 'f' {
        c as int - 0x61 + 10
    } else {
        0
    }
}

/// Percent-decoding, read from the front: `%XX` gives the byte with hex
/// value `XX`, any other character its own code.
pub open spec fn percent_decoded(s: Seq<char>) -> Seq<u8>
    decreases s.len(),
{
    if s.len() == 0 {
        seq![]
    } else if s[0] == '%' && s.len() >= 3 {
        seq![(hex_value(s[1]) * 16 + hex_value(s[2])) as u8] + percent_decoded(
            s.subrange(3, s.len() as int),
        )
    } else {
        seq![s[0] as u8] + percent_decoded(s.subrange(1, s.len() as int))
    }
}

/// `s` splits, from the front, into whole `%XX` escapes and single
/// characters other than `%`.
spec fn escapes_whole(s: Seq<char>) -> bool
    decreases s.len(),
{
    if s.len() == 0 {
        true
    } else if s[0] == '%' {
        s.len() >= 3 && escapes_whole(s.subrange(3, s.len() as int))
    } else {
        escapes_whole(s.subrange(1, s.len() as int))
    }
}

proof fn lemma_decode_concat(x: Seq<char>, y: Seq<char>)
    requires
        escapes_whole(x),
        escapes_whole(y),
    ensures
        escapes_whole(x + y),
        percent_decoded(x + y) == percent_decoded(x) + percent_decoded(y),
    decreases x.len(),
{
    if x.len() == 0 {
        assert(x + y =~= y);
    } else {
        let n = if x[0] == '%' {
            3int
        } else {
            1int
        };
        lemma_decode_concat(x.subrange(n, x.len() as int), y);
        assert((x + y).subrange(n, (x + y).len() as int) =~= x.subrange(n, x.len() as int) + y);
        assert((x + y)[0] == x[0]);
        if n == 3 {
            assert((x + y)[1] == x[1] && (x + y)[2] == x[2]);
        }
    }
}

proof fn lemma_decode_piece(b: u8)
    ensures
        ({
            let piece = if encodes_byte(b) {
                percent_triple(b)
            } else {
                seq![b as char]
            };
            escapes_whole(piece) && percent_decoded(piece) == seq![b]
        }),
{
    if encodes_byte(b) {
        let t = percent_triple(b);
        assert(t.subrange(3, 3) =~= Seq::<char>::empty());
        assert(percent_decoded(Seq::<char>::empty()) =~= Seq::<u8>::empty());
        assert(escapes_whole(Seq::<char>::empty()));
        let (hi, lo) = (b / 16, b % 16);
        assert(hex_value(hex_digit(hi)) == hi);
        assert(hex_value(hex_digit(lo)) == lo);
        assert(hi * 16 + lo == b) by (nonlinear_arith)
            requires
                hi == b / 16,
                lo == b % 16,
        ;
        assert(percent_decoded(t) =~= seq![b]);
    } else {
        let t = seq![b as char];
        assert(t.subrange(1, 1) =~= Seq::<char>::empty());
        assert(percent_decoded(Seq::<char>::empty()) =~= Seq::<u8>::empty());
        assert(escapes_whole(Seq::<char>::empty()));
        assert((b as char) as u8 == b);
        assert(percent_decoded(t) =~= seq![b]);
    }
}

/// Percent-decoding a percent-encoded path gives back its bytes: the
/// encoding loses and invents nothing.
pub proof fn law_percent_decoding_inverts_encoding(bytes: Seq<u8>)
    ensures
        percent_decoded(percent_encoded(bytes)) == bytes,
{
    lemma_encoded_escapes_whole(bytes);
}

proof fn lemma_encoded_escapes_whole(bytes: Seq<u8>)
    ensures
        escapes_whole(percent_encoded(bytes)),
        percent_decoded(percent_encoded(bytes)) == bytes,
    decreases bytes.len(),
{
    if bytes.len() == 0 {
        assert(percent_decoded(Seq::<char>::empty()) =~= Seq::<u8>::empty());
    } else {
        let b = bytes.last();
        lemma_encoded_escapes_whole(bytes.drop_last());
        lemma_decode_piece(b);
        let piece = if encodes_byte(b) {
            percent_triple(b)
        } else {
            seq![b as char]
        };
        lemma_decode_concat(percent_encoded(bytes.drop_last()), piece);
        assert(bytes.drop_last() + seq![b] =~= bytes);
    }
}

/// `percent_encoding::percent_encode_byte`: `%XX`, upper-case hex.
#[verifier::external_body]
fn percent_encode_byte(b: u8) -> (r: &'static str)
    ensures
        r@ == percent_triple(b),
{
    percent_encoding::percent_encode_byte(b)
}

/// What `String::from_utf8_lossy` makes of `bytes`.
pub uninterp spec fn utf8_lossy(bytes: Seq<u8>) -> Seq<char>;

/// `String::from_utf8_lossy`: valid UTF-8 decodes as it is; invalid
/// sequences become U+FFFD (not stated).
#[verifier::external_body]
fn from_utf8_lossy(bytes: &[u8]) -> (s: String)
    ensures
        s@ == utf8_lossy(bytes@),
        valid_utf8(bytes@) ==> s@ == decode_utf8(bytes@),
{
    String::from_utf8_lossy(bytes).into_owned()
}

/// Percent-encode `bytes` for a URI path, appending to `out`.
fn push_percent_encoded(out: &mut String, bytes: &[u8])
    ensures
        final(out)@ == old(out)@ + percent_encoded(bytes@),
{
    let mut i: usize = 0;
    while i < bytes.len()
        invariant
            i <= bytes@.len(),
            out@ == old(out)@ + percent_encoded(bytes@.subrange(0, i as int)),
        decreases bytes.len() - i,
    {
        let b = bytes[i];
        assert(bytes@.subrange(0, i + 1).drop_last() =~= bytes@.subrange(0, i as int));
        let enc = b >= 0x80 || b < 0x20 || b == 0x7f || b == 0x20 || b == 0x22 || b == 0x23 || b
            == 0x25 || b == 0x3c || b == 0x3e || b == 0x3f || b == 0x5b || b == 0x5c || b == 0x5d
            || b == 0x5e || b == 0x60 || b == 0x7b || b == 0x7c || b == 0x7d;
        if enc {
            out.append(percent_encode_byte(b));
        } else {
            proof {
                assert(b < 0x80);
            }
            crate::text::push_char(out, b as char);
        }
        assert(out@ =~= old(out)@ + percent_encoded(bytes@.subrange(0, i + 1)));
        i = i + 1;
    }
    assert(bytes@.subrange(0, bytes@.len() as int) =~= bytes@);
}

/// The path of a document: `<mount>/<doc_id>/<filename>`.
pub open spec fn document_path(mount: Seq<u8>, doc_id: Seq<char>, filename: Seq<char>) -> Seq<u8> {
    path_push(path_push(mount, encode_utf8(doc_id)), encode_utf8(filename))
}

/// The `file://` URI of a document under the portal mount.
pub open spec fn document_uri(mount: Seq<u8>, doc_id: Seq<char>, filename: Seq<char>) -> Seq<char> {
    "file://"@ + percent_encoded(encode_utf8(utf8_lossy(document_path(mount, doc_id, filename))))
}

/// Build the URI of one Document Portal entry:
/// `file://<mount>/<doc_id>/<filename>`, percent-encoded. When the
/// document path is valid UTF-8 (always, unless the mount point is not),
/// the URI is `file://` followed by the path's bytes percent-encoded.
pub fn assemble_uri(mount: &Vec<u8>, doc_id: &str, filename: &str) -> (uri: String)
    ensures
        uri@ == document_uri(mount@, doc_id@, filename@),
        valid_utf8(document_path(mount@, doc_id@, filename@)) ==> uri@ == "file://"@
            + percent_encoded(document_path(mount@, doc_id@, filename@)),
{
    let with_id = push_path(mount, doc_id.as_bytes());
    let path = push_path(&with_id, filename.as_bytes());
    let text = from_utf8_lossy(path.as_slice());
    proof {
        if valid_utf8(path@) {
            vstd::utf8::decode_utf8_encode_utf8(path@);
        }
    }
    let mut uri = String::from_str("file://");
    push_percent_encoded(&mut uri, text.as_str().as_bytes());
    uri
}

/// Strip the trailing NUL of a portal byte string and keep it as a
/// path; `None` if nothing is left.
pub fn bytes_to_pathbuf(bytes: &[u8]) -> (r: Option<Vec<u8>>)
    ensures
        match r {
            Some(p) => path_of_bytes(bytes@) == Some(p@),
            None => path_of_bytes(bytes@) is None,
        },
{
    bytes_to_path(bytes)
}

/// Why an export could not be completed.
#[derive(Debug, Clone, PartialEq, Eq)]
pub enum ExportError {
    /// The portal reported an empty mount point.
    EmptyMountPoint,
    /// The path has no final component to export (e.g. `/` or `..`).
    NoFileName { path: String },
    /// The save target has no parent directory.
    NoParent { path: String },
    /// The portal returned a different number of document ids than files.
    DocIdCountMismatch { doc_ids: usize, files: usize },
}

/// Permissions requested for the caller: read, plus write when
/// `writable`.
pub fn export_permissions(writable: bool) -> (p: Vec<&'static str>)
    ensures
        p@.map_values(|s: &str| s@) == if writable {
            seq!["read"@, "write"@]
        } else {
            seq!["read"@]
        },
{
    let mut p: Vec<&'static str> = Vec::new();
    p.push("read");
    if writable {
        p.push("write");
    }
    assert(p@.map_values(|s: &str| s@) =~= if writable {
        seq!["read"@, "write"@]
    } else {
        seq!["read"@]
    });
    p
}

/// The portal's mount point, from the NUL-terminated bytes it returns.
pub fn mount_point(bytes: &[u8]) -> (r: Result<Vec<u8>, ExportError>)
    ensures
        match r {
            Ok(p) => path_of_bytes(bytes@) == Some(p@),
            Err(e) => path_of_bytes(bytes@) is None && e == ExportError::EmptyMountPoint,
        },
{
    match bytes_to_pathbuf(bytes) {
        Some(p) => Ok(p),
        None => Err(ExportError::EmptyMountPoint),
    }
}

/// Name under which a picked file is exported: its final component,
/// which must be non-empty.
pub fn export_file_name(path: &str) -> (r: Result<String, ExportError>)
    ensures
        match r {
            Ok(n) => path_file_name(path@) == Some(n@) && n@.len() > 0,
            Err(ExportError::NoFileName { path: p }) => p@ == path@ && match path_file_name(path@) {
                None => true,
                Some(n) => n.len() == 0,
            },
            Err(_) => false,
        },
{
    match file_name_of(path) {
        Some(n) => {
            if n.as_str().is_empty() {
                Err(ExportError::NoFileName { path: String::from_str(path) })
            } else {
                Ok(n)
            }
        },
        None => Err(ExportError::NoFileName { path: String::from_str(path) }),
    }
}

/// A save target split for `AddNamedFull`: the parent directory to open,
/// the file name, and the file name as NUL-terminated bytes.
pub struct SaveTarget {
    pub parent: String,
    pub file_name: String,
    pub file_name_bytes: Vec<u8>,
}

/// Split a save target path into what `AddNamedFull` needs. The parent
/// must exist as a path component and the file name must be non-empty.
pub fn save_target(path: &str) -> (r: Result<SaveTarget, ExportError>)
    ensures
        match r {
            Ok(t) => path_parent(path@) == Some(t.parent@) && path_file_name(path@) == Some(
                t.file_name@,
            ) && t.file_name@.len() > 0 && t.file_name_bytes@ == encode_utf8(t.file_name@).push(0),
            Err(ExportError::NoParent { path: p }) => path_parent(path@) is None && p@ == path@,
            Err(ExportError::NoFileName { path: p }) => path_parent(path@) is Some && p@ == path@
                && match path_file_name(path@) {
                None => true,
                Some(n) => n.len() == 0,
            },
            Err(_) => false,
        },
{
    let parent = match parent_of(path) {
        Some(p) => p,
        None => return Err(ExportError::NoParent { path: String::from_str(path) }),
    };
    let file_name = match export_file_name(path) {
        Ok(n) => n,
        Err(e) => return Err(e),
    };
    let raw = file_name.as_str().as_bytes();
    let mut bytes: Vec<u8> = Vec::new();
    let mut i: usize = 0;
    while i < raw.len()
        invariant
            i <= raw@.len(),
            bytes@ == raw@.subrange(0, i as int),
        decreases raw.len() - i,
    {
        bytes.push(raw[i]);
        assert(raw@.subrange(0, i + 1) == raw@.subrange(0, i as int).push(raw@[i as int]));
        i = i + 1;
    }
    assert(raw@.subrange(0, raw@.len() as int) =~= raw@);
    bytes.push(0);
    Ok(SaveTarget { parent, file_name, file_name_bytes: bytes })
}

/// The URIs of the exported documents, one per file and in order.
/// The portal must have returned one document id per file.
pub fn document_uris(mount: &Vec<u8>, doc_ids: &Vec<String>, file_names: &Vec<String>) -> (r:
    Result<Vec<String>, ExportError>)
    ensures
        doc_ids@.len() != file_names@.len() ==> r == Err::<Vec<String>, ExportError>(
            ExportError::DocIdCountMismatch { doc_ids: doc_ids@.len() as usize, files: file_names@.len() as usize },
        ),
        doc_ids@.len() == file_names@.len() ==> (r matches Ok(uris) && uris@.len() == doc_ids@.len()
            && forall|i: int|
            0 <= i < uris@.len() ==> #[trigger] uris@[i]@ == document_uri(
                mount@,
                doc_ids@[i]@,
                file_names@[i]@,
            ) && (valid_utf8(document_path(mount@, doc_ids@[i]@, file_names@[i]@)) ==> uris@[i]@
                == "file://"@ + percent_encoded(document_path(mount@, doc_ids@[i]@, file_names@[i]@)))),
{
    if doc_ids.len() != file_names.len() {
        return Err(ExportError::DocIdCountMismatch { doc_ids: doc_ids.len(), files: file_names.len() });
    }
    let mut uris: Vec<String> = Vec::new();
    let mut i: usize = 0;
    while i < doc_ids.len()
        invariant
            doc_ids@.len() == file_names@.len(),
            i <= doc_ids@.len(),
            uris@.len() == i,
            forall|j: int|
                0 <= j < i ==> #[trigger] uris@[j]@ == document_uri(
                    mount@,
                    doc_ids@[j]@,
                    file_names@[j]@,
                ) && (valid_utf8(document_path(mount@, doc_ids@[j]@, file_names@[j]@)) ==> uris@[j]@
                    == "file://"@ + percent_encoded(document_path(mount@, doc_ids@[j]@, file_names@[j]@))),
        decreases doc_ids.len() - i,
    {
        let uri = assemble_uri(mount, doc_ids[i].as_str(), file_names[i].as_str());
        uris.push(uri);
        i = i + 1;
    }
    Ok(uris)
}

} // verus!
