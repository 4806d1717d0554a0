//! Directory listing for the picker UI.
//!
//! Entries are listed folders first, then alphabetically ignoring case
//! (the conventional file-manager order); the dot entries are skipped
//! and names starting with `.` are tagged hidden (the UI decides whether
//! to show them). Reading the directory happens in the picker process.

use vstd::prelude::*;

use crate::paths::{is_root_or_empty, parent_of, path_parent};
use crate::text::chars_of;

verus! {

/// One directory entry as the picker UI receives it.
#[derive(Debug, Clone)]
pub struct DirEntry {
    pub name: String,
    pub path: String,
    pub is_directory: bool,
    pub is_hidden: bool,
}

/// What `str::to_lowercase` makes of `s`.
pub uninterp spec fn lowercase(s: Seq<char>) -> Seq<char>;

/// `str::to_lowercase`.
#[verifier::external_body]
fn to_lowercase(s: &str) -> (r: String)
    ensures
        r@ == lowercase(s@),
{
    s.to_lowercase()
}

/// Lexicographic order on strings (by code point, as `str` orders).
pub open spec fn text_lt(a: Seq<char>, b: Seq<char>) -> bool
    decreases a.len(),
{
    if b.len() == 0 {
        false
    } else if a.len() == 0 {
        true
    } else if a[0] != b[0] {
        a[0] < b[0]
    } else {
        text_lt(a.drop_first(), b.drop_first())
    }
}

/// Whether entry `a` is listed before entry `b`: folders before files,
/// then by lower-cased name.
pub open spec fn listed_before(a: DirEntry, b: DirEntry) -> bool {
    (a.is_directory && !b.is_directory) || (a.is_directory == b.is_directory && text_lt(
        lowercase(a.name@),
        lowercase(b.name@),
    ))
}

/// `order` is a stable arrangement of `input` in listing order: entry
/// `k` of `output` is entry `order[k]` of `input`, the entries are in
/// listing order, and entries neither of which is listed before the
/// other keep their input order.
pub open spec fn stable_listing(input: Seq<DirEntry>, output: Seq<DirEntry>, order: Seq<int>) -> bool {
    &&& output.len() == order.len()
    &&& forall|k: int| 0 <= k < order.len() ==> 0 <= #[trigger] order[k] < input.len()
    &&& forall|k: int| 0 <= k < order.len() ==> #[trigger] output[k] == input[order[k]]
    &&& forall|k: int, l: int|
        0 <= k < l < output.len() ==> !listed_before(#[trigger] output[l], #[trigger] output[k])
    &&& forall|k: int, l: int|
        0 <= k < l < output.len() && !listed_before(output[k], output[l]) ==> #[trigger] order[k]
            < #[trigger] order[l]
}

proof fn lemma_text_lt_irreflexive(a: Seq<char>)
    ensures
        !text_lt(a, a),
    decreases a.len(),
{
    if a.len() > 0 {
        lemma_text_lt_irreflexive(a.drop_first());
    }
}

proof fn lemma_text_lt_transitive(a: Seq<char>, b: Seq<char>, c: Seq<char>)
    requires
        text_lt(a, b),
        text_lt(b, c),
    ensures
        text_lt(a, c),
    decreases a.len(),
{
    if a.len() > 0 && b.len() > 0 && c.len() > 0 && a[0] == b[0] && b[0] == c[0] {
        lemma_text_lt_transitive(a.drop_first(), b.drop_first(), c.drop_first());
    }
}

proof fn lemma_listed_before_irreflexive(a: DirEntry)
    ensures
        !listed_before(a, a),
{
    lemma_text_lt_irreflexive(lowercase(a.name@));
}

proof fn lemma_listed_before_transitive(a: DirEntry, b: DirEntry, c: DirEntry)
    requires
        listed_before(a, b),
        listed_before(b, c),
    ensures
        listed_before(a, c),
{
    if a.is_directory == b.is_directory && b.is_directory == c.is_directory {
        lemma_text_lt_transitive(lowercase(a.name@), lowercase(b.name@), lowercase(c.name@));
    }
}

/// The standard lexicographic order: `a` is a proper prefix of `b`, or
/// at the first position where they differ `a` has the smaller
/// character.
pub open spec fn lex_before(a: Seq<char>, b: Seq<char>) -> bool {
    ||| (a.len() < b.len() && b.subrange(0, a.len() as int) == a)
    ||| exists|k: int|
        0 <= k < a.len() && k < b.len() && a.subrange(0, k) == b.subrange(0, k) && #[trigger] a[k]
            < #[trigger] b[k]
}

proof fn lemma_lex_before_text_lt(a: Seq<char>, b: Seq<char>)
    requires
        lex_before(a, b),
    ensures
        text_lt(a, b),
    decreases a.len(),
{
    if a.len() > 0 && b.len() > 0 && a[0] == b[0] {
        let (a2, b2) = (a.drop_first(), b.drop_first());
        if a.len() < b.len() && b.subrange(0, a.len() as int) == a {
            assert(b2.subrange(0, a2.len() as int) =~= a2) by {
                assert forall|j: int| 0 <= j < a2.len() implies b2[j] == a2[j] by {
                    assert(b.subrange(0, a.len() as int)[j + 1] == a[j + 1]);
                }
            }
        } else {
            let k = choose|k: int|
                0 <= k < a.len() && k < b.len() && a.subrange(0, k) == b.subrange(0, k) && #[trigger] a[k]
                    < #[trigger] b[k];
            if k == 0 {
                assert(false);
            }
            assert(a2.subrange(0, k - 1) =~= b2.subrange(0, k - 1)) by {
                assert forall|j: int| 0 <= j < k - 1 implies a2[j] == b2[j] by {
                    assert(a.subrange(0, k)[j + 1] == b.subrange(0, k)[j + 1]);
                }
            }
            assert(a2[k - 1] == a[k] && b2[k - 1] == b[k]);
        }
        lemma_lex_before_text_lt(a2, b2);
    } else if a.len() > 0 && b.len() > 0 {
        if !(a.len() < b.len() && b.subrange(0, a.len() as int) == a) {
            let k = choose|k: int|
                0 <= k < a.len() && k < b.len() && a.subrange(0, k) == b.subrange(0, k) && #[trigger] a[k]
                    < #[trigger] b[k];
            if k > 0 {
                assert(a.subrange(0, k)[0] == b.subrange(0, k)[0]);
            }
        } else {
            assert(b.subrange(0, a.len() as int)[0] == a[0]);
        }
    }
}

/// The listing order of `sort_entries`: in any stable listing, a folder
/// comes before every file, and among folders and among files an entry
/// comes before every entry whose lower-cased name follows its own in
/// the standard lexicographic order, where a name comes before every
/// longer name it is a prefix of ("chapter1" before "chapter10",
/// "notes" before "notes.txt").
pub proof fn law_listing_order(
    input: Seq<DirEntry>,
    output: Seq<DirEntry>,
    order: Seq<int>,
    k: int,
    l: int,
)
    requires
        stable_listing(input, output, order),
        0 <= k < output.len(),
        0 <= l < output.len(),
        (output[k].is_directory && !output[l].is_directory) || (output[k].is_directory
            == output[l].is_directory && lex_before(
            lowercase(output[k].name@),
            lowercase(output[l].name@),
        )),
    ensures
        k < l,
{
    let (a, b) = (output[k], output[l]);
    if a.is_directory == b.is_directory {
        lemma_lex_before_text_lt(lowercase(a.name@), lowercase(b.name@));
    }
    assert(listed_before(a, b));
    if l < k {
        assert(!listed_before(output[k], output[l]));
    } else if l == k {
        lemma_listed_before_irreflexive(a);
    }
}

/// Whether `a` comes before `b` in text order.
fn text_less(a: &Vec<char>, b: &Vec<char>) -> (r: bool)
    ensures
        r == text_lt(a@, b@),
{
    let mut i: usize = 0;
    assert(a@.subrange(0, a@.len() as int) =~= a@);
    assert(b@.subrange(0, b@.len() as int) =~= b@);
    while i < a.len() && i < b.len()
        invariant
            i <= a@.len(),
            i <= b@.len(),
            forall|j: int| 0 <= j < i ==> a@[j] == b@[j],
            text_lt(a@, b@) == text_lt(a@.subrange(i as int, a@.len() as int), b@.subrange(i as int, b@.len() as int)),
        decreases a.len() - i,
    {
        if a[i] != b[i] {
            let (x, y) = (a[i], b[i]);
            proof {
                assert(a@.subrange(i as int, a@.len() as int)[0] == x);
                assert(b@.subrange(i as int, b@.len() as int)[0] == y);
            }
            return x < y;
        }
        proof {
            assert(a@.subrange(i as int, a@.len() as int).drop_first() =~= a@.subrange(i + 1, a@.len() as int));
            assert(b@.subrange(i as int, b@.len() as int).drop_first() =~= b@.subrange(i + 1, b@.len() as int));
        }
        i = i + 1;
    }
    i < b.len()
}

/// The entry for a directory member called `name`, or `None` for the
/// `.` and `..` entries. Names starting with `.` are hidden.
pub fn dir_entry(name: String, path: String, is_directory: bool) -> (r: Option<DirEntry>)
    ensures
        name@ == "."@ || name@ == ".."@ ==> r is None,
        !(name@ == "."@ || name@ == ".."@) ==> r == Some(
            DirEntry {
                name,
                path,
                is_directory,
                is_hidden: name@.len() > 0 && name@[0] == '.',
            },
        ),
{
    if name == String::from_str(".") || name == String::from_str("..") {
        return None;
    }
    let chars = chars_of(name.as_str());
    let is_hidden = chars.len() > 0 && chars[0] == '.';
    Some(DirEntry { name, path, is_directory, is_hidden })
}

fn copy_entry(e: &DirEntry) -> (r: DirEntry)
    ensures
        r == *e,
{
    DirEntry {
        name: e.name.clone(),
        path: e.path.clone(),
        is_directory: e.is_directory,
        is_hidden: e.is_hidden,
    }
}

proof fn lemma_text_lt_total(a: Seq<char>, b: Seq<char>)
    ensures
        text_lt(a, b) || a == b || text_lt(b, a),
    decreases a.len(),
{
    if a.len() > 0 && b.len() > 0 && a[0] == b[0] {
        lemma_text_lt_total(a.drop_first(), b.drop_first());
        if a.drop_first() == b.drop_first() {
            assert(a =~= seq![a[0]] + a.drop_first());
            assert(b =~= seq![b[0]] + b.drop_first());
        }
    } else if a.len() == 0 && b.len() == 0 {
        assert(a =~= b);
    } else if a.len() > 0 && b.len() > 0 {
        assert(a[0] != b[0]);
    }
}

/// If `a` is listed before `b`, any `c` is listed after `a` or before
/// `b`.
proof fn lemma_listed_before_split(a: DirEntry, b: DirEntry, c: DirEntry)
    requires
        listed_before(a, b),
    ensures
        listed_before(a, c) || listed_before(c, b),
{
    let (la, lb, lc) = (lowercase(a.name@), lowercase(b.name@), lowercase(c.name@));
    lemma_text_lt_total(la, lc);
    lemma_text_lt_total(lc, lb);
    if text_lt(lc, la) && text_lt(la, lb) {
        lemma_text_lt_transitive(lc, la, lb);
    }
    if la == lc {
    }
}

/// Whether `x` (lower-cased name `kx`) is listed before `y` (lower-cased
/// name `ky`).
fn before_exec(x: &DirEntry, kx: &Vec<char>, y: &DirEntry, ky: &Vec<char>) -> (r: bool)
    requires
        kx@ == lowercase(x.name@),
        ky@ == lowercase(y.name@),
    ensures
        r == listed_before(*x, *y),
{
    (x.is_directory && !y.is_directory) || (x.is_directory == y.is_directory && text_less(kx, ky))
}

/// Sort entries folders first, then alphabetically ignoring case; the
/// sort is stable.
pub fn sort_entries(entries: &Vec<DirEntry>) -> (sorted: Vec<DirEntry>)
    ensures
        sorted@.to_multiset() == entries@.to_multiset(),
        exists|order: Seq<int>| stable_listing(entries@, sorted@, order),
{
    let mut out: Vec<DirEntry> = Vec::new();
    let mut keys: Vec<Vec<char>> = Vec::new();
    let ghost mut order: Seq<int> = Seq::empty();
    let mut i: usize = 0;
    assert(entries@.subrange(0, 0) =~= out@);
    while i < entries.len()
        invariant
            i <= entries@.len(),
            out@.len() == keys@.len(),
            forall|k: int| 0 <= k < keys@.len() ==> #[trigger] keys@[k]@ == lowercase(out@[k].name@),
            out@.to_multiset() == entries@.subrange(0, i as int).to_multiset(),
            stable_listing(entries@, out@, order),
            forall|k: int| 0 <= k < order.len() ==> #[trigger] order[k] < i,
        decreases entries.len() - i,
    {
        let x = copy_entry(&entries[i]);
        let kx = chars_of(to_lowercase(x.name.as_str()).as_str());
        // First position whose entry is listed after `x`.
        let mut p: usize = 0;
        while p < out.len() && !before_exec(&x, &kx, &out[p], &keys[p])
            invariant
                p <= out@.len(),
                out@.len() == keys@.len(),
                forall|k: int| 0 <= k < keys@.len() ==> #[trigger] keys@[k]@ == lowercase(out@[k].name@),
                kx@ == lowercase(x.name@),
                forall|k: int| 0 <= k < p ==> !listed_before(x, #[trigger] out@[k]),
            decreases out.len() - p,
        {
            p = p + 1;
        }
        let ghost old_out = out@;
        let ghost old_keys = keys@;
        let ghost old_order = order;
        proof {
            assert(entries@.subrange(0, i + 1) =~= entries@.subrange(0, i as int).push(x));
            order = old_order.insert(p as int, i as int);
        }
        out.insert(p, x);
        keys.insert(p, kx);
        proof {
            let n = out@;
            assert(n == old_out.insert(p as int, x));
            vstd::seq_lib::to_multiset_insert(old_out, p as int, x);
            vstd::seq_lib::to_multiset_build(entries@.subrange(0, i as int), x);
            assert(entries@.subrange(0, i as int).push(x).to_multiset() == entries@.subrange(0, i as int).to_multiset().insert(x));
            assert(keys@ == old_keys.insert(p as int, kx));
            assert forall|k: int| 0 <= k < keys@.len() implies #[trigger] keys@[k]@ == lowercase(
                n[k].name@,
            ) by {
                if k > p {
                    assert(keys@[k] == old_keys[k - 1] && n[k] == old_out[k - 1]);
                } else if k < p {
                    assert(keys@[k] == old_keys[k] && n[k] == old_out[k]);
                }
            }
            assert forall|k: int| 0 <= k < order.len() implies 0 <= #[trigger] order[k]
                < entries@.len() && n[k] == entries@[order[k]] && order[k] < i + 1 by {
                if k > p {
                    assert(order[k] == old_order[k - 1] && n[k] == old_out[k - 1]);
                } else if k < p {
                    assert(order[k] == old_order[k] && n[k] == old_out[k]);
                }
            }
            assert forall|k: int, l: int|
                0 <= k < l < n.len() implies !listed_before(#[trigger] n[l], #[trigger] n[k]) by {
                if k == p {
                    let y = old_out[l - 1];
                    assert(n[l] == y);
                    if listed_before(y, x) {
                        lemma_listed_before_transitive(y, x, old_out[p as int]);
                        if l - 1 == p {
                            lemma_listed_before_irreflexive(y);
                        } else {
                            assert(!listed_before(old_out[l - 1], old_out[p as int]));
                        }
                    }
                } else if l == p {
                    assert(n[k] == old_out[k]);
                } else {
                    let k2 = if k < p { k } else { k - 1 };
                    let l2 = if l < p { l } else { l - 1 };
                    assert(n[k] == old_out[k2] && n[l] == old_out[l2]);
                    assert(!listed_before(old_out[l2], old_out[k2]));
                }
            }
            assert forall|k: int, l: int|
                0 <= k < l < n.len() && !listed_before(n[k], n[l]) implies #[trigger] order[k]
                < #[trigger] order[l] by {
                if k == p {
                    let y = old_out[l - 1];
                    assert(n[l] == y);
                    let z = old_out[p as int];
                    assert(listed_before(x, z));
                    lemma_listed_before_split(x, z, y);
                    if l - 1 == p {
                        lemma_listed_before_irreflexive(y);
                    } else {
                        assert(!listed_before(old_out[l - 1], old_out[p as int]));
                    }
                } else if l == p {
                    assert(order[k] == old_order[k]);
                } else {
                    let k2 = if k < p { k } else { k - 1 };
                    let l2 = if l < p { l } else { l - 1 };
                    assert(n[k] == old_out[k2] && n[l] == old_out[l2]);
                    assert(order[k] == old_order[k2] && order[l] == old_order[l2]);
                }
            }
        }
        i = i + 1;
    }
    assert(entries@.subrange(0, entries@.len() as int) =~= entries@);
    out
}

/// The parent directory of `path`, or `None` for the root.
pub fn parent_dir(path: &str) -> (r: Option<String>)
    ensures
        match r {
            Some(p) => path_parent(path@) == Some(p@),
            None => path_parent(path@) is None,
        },
        is_root_or_empty(path@) ==> r is None,
{
    parent_of(path)
}

/// The directory the picker opens in: the requested one if it is a
/// directory, else `$HOME` if that is a directory, else `/`.
pub fn start_dir(
    provided: Option<String>,
    provided_is_dir: bool,
    home: Option<String>,
    home_is_dir: bool,
) -> (r: String)
    ensures
        r@ == if provided is Some && provided_is_dir {
            provided->0@
        } else if home is Some && home_is_dir {
            home->0@
        } else {
            "/"@
        },
{
    match provided {
        Some(p) => if provided_is_dir {
            return p;
        },
        None => {},
    }
    match home {
        Some(h) => if home_is_dir {
            return h;
        },
        None => {},
    }
    String::from_str("/")
}

} // verus!
