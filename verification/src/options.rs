//! FileChooser portal option dictionaries.
//!
//! The portal passes an `a{sv}` dictionary of well-known keys. The
//! daemon turns each D-Bus value into an [`OptionValue`] by its D-Bus
//! type and collects them in [`PortalOptions`]; the readers here build
//! the typed view the picker UI receives. A value of the wrong type
//! reads as if it were absent.

use vstd::prelude::*;

use crate::keyed::{
    entries_map, lemma_lookup_absent, lemma_lookup_found, lemma_lookup_push, lemma_lookup_update,
    lemma_map_after, lookup,
};
use crate::protocol::{patterns_view, FileFilter, FilterPattern, FilterView, PatternView};

verus! {

/// A `(name, [(kind, pattern)])` filter as it travels over D-Bus
/// (`(sa(us))`); kind 0 is a glob, kind 1 a MIME type.
pub type FilterTuple = (String, Vec<(u32, String)>);

/// One option value, by its D-Bus type.
#[derive(Debug)]
pub enum OptionValue {
    /// `b`
    Bool(bool),
    /// `s`
    Str(String),
    /// `ay`: a byte string, usually a NUL-terminated path.
    Bytes(Vec<u8>),
    /// `aay`: a list of byte strings.
    ByteArrays(Vec<Vec<u8>>),
    /// `a(sa(us))`: a list of filters.
    Filters(Vec<FilterTuple>),
    /// `(sa(us))`: one filter.
    Filter(FilterTuple),
    /// Any other D-Bus type.
    Other,
}

/// The options dictionary passed with a portal call.
pub struct PortalOptions {
    entries: Vec<(String, OptionValue)>,
}

impl View for PortalOptions {
    type V = Map<Seq<char>, OptionValue>;

    closed spec fn view(&self) -> Map<Seq<char>, OptionValue> {
        entries_map(self.entries@)
    }
}

impl PortalOptions {
    /// An empty dictionary.
    pub fn new() -> (m: PortalOptions)
        ensures
            m@ == Map::<Seq<char>, OptionValue>::empty(),
    {
        let m = PortalOptions { entries: Vec::new() };
        assert(m@ =~= Map::<Seq<char>, OptionValue>::empty());
        m
    }

    /// Set `key` to `value`, replacing any earlier value of `key`.
    pub fn insert(&mut self, key: String, value: OptionValue)
        ensures
            final(self)@ == old(self)@.insert(key@, value),
    {
        let ghost s = self.entries@;
        let n = self.entries.len();
        let mut i: usize = 0;
        while i < n
            invariant
                n == self.entries@.len(),
                self.entries@ == s,
                s == old(self).entries@,
                i <= n,
                forall|j: int| 0 <= j < i ==> s[j].0@ != key@,
            decreases n - i,
        {
            if self.entries[i].0 == key {
                let ghost e = (key, value);
                self.entries.set(i, (key, value));
                proof {
                    assert(self.entries@ == s.update(i as int, e));
                    assert forall|k: Seq<char>|
                        #![trigger lookup(self.entries@, k)]
                        lookup(self.entries@, k) == (if k == e.0@ {
                            Some(e.1)
                        } else {
                            lookup(s, k)
                        }) by {
                        lemma_lookup_update(s, i as int, e, k);
                    }
                    lemma_map_after(self.entries@, s, e.0@, Some(e.1));
                }
                return;
            }
            i = i + 1;
        }
        let ghost e = (key, value);
        self.entries.push((key, value));
        proof {
            assert(self.entries@ == s.push(e));
            assert forall|k: Seq<char>|
                #![trigger lookup(self.entries@, k)]
                lookup(self.entries@, k) == (if k == e.0@ {
                    Some(e.1)
                } else {
                    lookup(s, k)
                }) by {
                lemma_lookup_push(s, e, k);
            }
            lemma_map_after(self.entries@, s, e.0@, Some(e.1));
        }
    }

    /// The value of `key`, if present.
    pub fn get(&self, key: &str) -> (r: Option<&OptionValue>)
        ensures
            match r {
                Some(v) => self@.contains_key(key@) && self@[key@] == *v,
                None => !self@.contains_key(key@),
            },
    {
        let k = String::from_str(key);
        let n = self.entries.len();
        let mut i: usize = 0;
        while i < n
            invariant
                n == self.entries@.len(),
                k@ == key@,
                i <= n,
                forall|j: int| 0 <= j < i ==> self.entries@[j].0@ != key@,
            decreases n - i,
        {
            if self.entries[i].0 == k {
                proof {
                    lemma_lookup_found(self.entries@, i as int, key@);
                }
                return Some(&self.entries[i].1);
            }
            i = i + 1;
        }
        proof {
            lemma_lookup_absent(self.entries@, key@);
        }
        None
    }
}

impl PortalOptions {
    /// The entries, in insertion order (a key's value is that of its first
    /// entry).
    pub fn entries(&self) -> (r: &Vec<(String, OptionValue)>)
        ensures
            entries_map(r@) == self@,
    {
        &self.entries
    }

    /// Whether `key` is present.
    pub fn contains_key(&self, key: &str) -> (r: bool)
        ensures
            r == self@.contains_key(key@),
    {
        match self.get(key) {
            Some(_) => true,
            None => false,
        }
    }
}

/// Boolean option `key`, or `default` if missing or not a boolean.
pub open spec fn bool_option(m: Map<Seq<char>, OptionValue>, key: Seq<char>, default: bool) -> bool {
    if m.contains_key(key) {
        match m[key] {
            OptionValue::Bool(b) => b,
            _ => default,
        }
    } else {
        default
    }
}

/// String option `key`; absent if missing, not a string, or empty.
pub open spec fn string_option(m: Map<Seq<char>, OptionValue>, key: Seq<char>) -> Option<Seq<char>> {
    if m.contains_key(key) {
        match m[key] {
            OptionValue::Str(s) => if s@.len() > 0 {
                Some(s@)
            } else {
                None
            },
            _ => None,
        }
    } else {
        None
    }
}

/// A path byte string without its trailing NUL; absent if nothing is
/// left.
pub open spec fn path_of_bytes(b: Seq<u8>) -> Option<Seq<u8>> {
    let trimmed = if b.len() > 0 && b.last() == 0 {
        b.drop_last()
    } else {
        b
    };
    if trimmed.len() == 0 {
        None
    } else {
        Some(trimmed)
    }
}

/// Path option `key` (`ay`).
pub open spec fn path_option(m: Map<Seq<char>, OptionValue>, key: Seq<char>) -> Option<Seq<u8>> {
    if m.contains_key(key) {
        match m[key] {
            OptionValue::Bytes(b) => path_of_bytes(b@),
            _ => None,
        }
    } else {
        None
    }
}

/// The paths of a list of byte strings, in order, skipping those that
/// are empty.
pub open spec fn paths_of_byte_arrays(arrays: Seq<Vec<u8>>) -> Seq<Seq<u8>>
    decreases arrays.len(),
{
    if arrays.len() == 0 {
        seq![]
    } else {
        let prev = paths_of_byte_arrays(arrays.drop_last());
        match path_of_bytes(arrays.last()@) {
            Some(p) => prev.push(p),
            None => prev,
        }
    }
}

/// Path-list option `key` (`aay`).
pub open spec fn path_list_option(m: Map<Seq<char>, OptionValue>, key: Seq<char>) -> Seq<Seq<u8>> {
    if m.contains_key(key) {
        match m[key] {
            OptionValue::ByteArrays(a) => paths_of_byte_arrays(a@),
            _ => seq![],
        }
    } else {
        seq![]
    }
}

/// The pattern a `(kind, text)` entry stands for, if its kind is known.
pub open spec fn pattern_of(kind: u32, text: Seq<char>) -> Option<PatternView> {
    if kind == 0 {
        Some(PatternView::Glob(text))
    } else if kind == 1 {
        Some(PatternView::Mime(text))
    } else {
        None
    }
}

/// Patterns of a list of `(kind, text)` entries, in order, dropping
/// entries of unknown kind.
pub open spec fn decode_patterns(ts: Seq<(u32, Seq<char>)>) -> Seq<PatternView>
    decreases ts.len(),
{
    if ts.len() == 0 {
        seq![]
    } else {
        let prev = decode_patterns(ts.drop_last());
        match pattern_of(ts.last().0, ts.last().1) {
            Some(p) => prev.push(p),
            None => prev,
        }
    }
}

/// The `(kind, text)` entries of a list of patterns.
pub open spec fn encode_patterns(ps: Seq<PatternView>) -> Seq<(u32, Seq<char>)> {
    ps.map_values(
        |p: PatternView|
            match p {
                PatternView::Glob(s) => (0u32, s),
                PatternView::Mime(s) => (1u32, s),
            },
    )
}

/// View of D-Bus `(kind, text)` entries.
pub open spec fn tuples_view(ts: Seq<(u32, String)>) -> Seq<(u32, Seq<char>)> {
    ts.map_values(|t: (u32, String)| (t.0, t.1@))
}

/// The filter a D-Bus filter tuple stands for.
pub open spec fn filter_of_tuple(t: FilterTuple) -> FilterView {
    FilterView { name: t.0@, patterns: decode_patterns(tuples_view(t.1@)) }
}

/// Filters option (`a(sa(us))`).
pub open spec fn filters_option(m: Map<Seq<char>, OptionValue>) -> Seq<FilterView> {
    if m.contains_key(filters_key()) {
        match m[filters_key()] {
            OptionValue::Filters(fs) => fs@.map_values(|t: FilterTuple| filter_of_tuple(t)),
            _ => seq![],
        }
    } else {
        seq![]
    }
}

/// Current-filter option (`(sa(us))`).
pub open spec fn current_filter_option(m: Map<Seq<char>, OptionValue>) -> Option<FilterView> {
    if m.contains_key(current_filter_key()) {
        match m[current_filter_key()] {
            OptionValue::Filter(t) => Some(filter_of_tuple(t)),
            _ => None,
        }
    } else {
        None
    }
}

pub open spec fn filters_key() -> Seq<char> {
    seq!['f', 'i', 'l', 't', 'e', 'r', 's']
}

pub open spec fn current_filter_key() -> Seq<char> {
    seq!['c', 'u', 'r', 'r', 'e', 'n', 't', '_', 'f', 'i', 'l', 't', 'e', 'r']
}

/// An option read after it was set gives what was set: a boolean reads
/// back as itself and a non-empty string as itself; other keys keep
/// their values.
pub proof fn lemma_read_after_insert(
    m: Map<Seq<char>, OptionValue>,
    key: Seq<char>,
    other: Seq<char>,
    v: OptionValue,
    default: bool,
)
    requires
        other != key,
    ensures
        v matches OptionValue::Bool(b) ==> bool_option(m.insert(key, v), key, default) == b,
        v matches OptionValue::Str(s) ==> (s@.len() > 0 ==> string_option(m.insert(key, v), key)
            == Some(s@)),
        bool_option(m.insert(key, v), other, default) == bool_option(m, other, default),
        string_option(m.insert(key, v), other) == string_option(m, other),
        path_option(m.insert(key, v), other) == path_option(m, other),
{
}

/// Writing a filter out and reading it back gives the same filter.
pub proof fn lemma_patterns_round_trip(ps: Seq<PatternView>)
    ensures
        decode_patterns(encode_patterns(ps)) == ps,
    decreases ps.len(),
{
    if ps.len() > 0 {
        lemma_patterns_round_trip(ps.drop_last());
        assert(encode_patterns(ps).drop_last() =~= encode_patterns(ps.drop_last()));
        assert(ps.drop_last().push(ps.last()) =~= ps);
    }
}

/// Read a boolean option, defaulting to `default` if missing or of the
/// wrong type.
pub fn read_bool(options: &PortalOptions, key: &str, default: bool) -> (r: bool)
    ensures
        r == bool_option(options@, key@, default),
{
    match options.get(key) {
        Some(OptionValue::Bool(b)) => *b,
        _ => default,
    }
}

/// Read a string option; `None` if missing, of the wrong type, or
/// empty (the portal uses "absent" and "empty" interchangeably).
pub fn read_string(options: &PortalOptions, key: &str) -> (r: Option<String>)
    ensures
        match r {
            Some(s) => string_option(options@, key@) == Some(s@),
            None => string_option(options@, key@) is None,
        },
{
    match options.get(key) {
        Some(OptionValue::Str(s)) => {
            if s.as_str().is_empty() {
                None
            } else {
                Some(s.clone())
            }
        },
        _ => None,
    }
}

/// Strip one trailing NUL byte; `None` if nothing is left. The portal
/// sends paths NUL-terminated; a missing NUL is accepted too.
pub fn bytes_to_path(bytes: &[u8]) -> (r: Option<Vec<u8>>)
    ensures
        match r {
            Some(p) => path_of_bytes(bytes@) == Some(p@),
            None => path_of_bytes(bytes@) is None,
        },
{
    let n = bytes.len();
    let end = if n > 0 && bytes[n - 1] == 0 {
        n - 1
    } else {
        n
    };
    if end == 0 {
        return None;
    }
    let mut out: Vec<u8> = Vec::new();
    let mut i: usize = 0;
    while i < end
        invariant
            end <= n == bytes@.len(),
            i <= end,
            out@ == bytes@.subrange(0, i as int),
        decreases end - i,
    {
        out.push(bytes[i]);
        assert(bytes@.subrange(0, i + 1) == bytes@.subrange(0, i as int).push(bytes@[i as int]));
        i = i + 1;
    }
    proof {
        if n > 0 && bytes@[n - 1] == 0 {
            assert(bytes@.drop_last() =~= bytes@.subrange(0, end as int));
        } else {
            assert(bytes@ =~= bytes@.subrange(0, end as int));
        }
    }
    Some(out)
}

/// Read a NUL-terminated byte-array path option.
pub fn read_path_bytes(options: &PortalOptions, key: &str) -> (r: Option<Vec<u8>>)
    ensures
        match r {
            Some(p) => path_option(options@, key@) == Some(p@),
            None => path_option(options@, key@) is None,
        },
{
    match options.get(key) {
        Some(OptionValue::Bytes(b)) => bytes_to_path(b.as_slice()),
        _ => None,
    }
}

/// Read a list of byte-array paths (the `files` option of SaveFiles).
pub fn read_path_bytes_array(options: &PortalOptions, key: &str) -> (r: Vec<Vec<u8>>)
    ensures
        r@.map_values(|p: Vec<u8>| p@) == path_list_option(options@, key@),
{
    match options.get(key) {
        Some(OptionValue::ByteArrays(arrays)) => {
            let mut out: Vec<Vec<u8>> = Vec::new();
            let mut i: usize = 0;
            while i < arrays.len()
                invariant
                    i <= arrays@.len(),
                    out@.map_values(|p: Vec<u8>| p@) == paths_of_byte_arrays(
                        arrays@.subrange(0, i as int),
                    ),
                decreases arrays.len() - i,
            {
                let ghost before = out@;
                let ghost prefix = arrays@.subrange(0, i + 1);
                assert(prefix.drop_last() =~= arrays@.subrange(0, i as int));
                if let Some(p) = bytes_to_path(arrays[i].as_slice()) {
                    out.push(p);
                    assert(out@.map_values(|p: Vec<u8>| p@) =~= before.map_values(
                        |p: Vec<u8>| p@,
                    ).push(p@));
                }
                i = i + 1;
            }
            assert(arrays@.subrange(0, arrays@.len() as int) =~= arrays@);
            out
        },
        _ => {
            let out: Vec<Vec<u8>> = Vec::new();
            assert(out@.map_values(|p: Vec<u8>| p@) =~= Seq::<Seq<u8>>::empty());
            out
        },
    }
}

/// Convert a `(name, patterns)` D-Bus tuple to a [`FileFilter`],
/// dropping patterns whose kind is neither 0 (glob) nor 1 (MIME).
pub fn tuple_to_filter(name: String, patterns: Vec<(u32, String)>) -> (f: FileFilter)
    ensures
        f@ == filter_of_tuple((name, patterns)),
{
    filter_of_parts(&name, &patterns)
}

/// [`tuple_to_filter`] on a borrowed tuple.
fn filter_of_parts(name: &String, patterns: &Vec<(u32, String)>) -> (f: FileFilter)
    ensures
        f@ == filter_of_tuple((*name, *patterns)),
{
    let mut out: Vec<FilterPattern> = Vec::new();
    let mut i: usize = 0;
    while i < patterns.len()
        invariant
            i <= patterns@.len(),
            patterns_view(out@) == decode_patterns(tuples_view(patterns@.subrange(0, i as int))),
        decreases patterns.len() - i,
    {
        let ghost before = out@;
        assert(tuples_view(patterns@.subrange(0, i + 1)).drop_last() =~= tuples_view(
            patterns@.subrange(0, i as int),
        ));
        let kind = patterns[i].0;
        if kind == 0 {
            out.push(FilterPattern::Glob { pattern: patterns[i].1.clone() });
            assert(patterns_view(out@) =~= patterns_view(before).push(out@.last()@));
        } else if kind == 1 {
            out.push(FilterPattern::Mime { mime_type: patterns[i].1.clone() });
            assert(patterns_view(out@) =~= patterns_view(before).push(out@.last()@));
        }
        i = i + 1;
    }
    assert(patterns@.subrange(0, patterns@.len() as int) =~= patterns@);
    FileFilter { name: name.clone(), patterns: out }
}

/// Read the `filters` option: named filters, each a list of
/// `(type, pattern)` entries.
pub fn read_filters(options: &PortalOptions) -> (r: Vec<FileFilter>)
    ensures
        r@.map_values(|f: FileFilter| f@) == filters_option(options@),
{
    let key = "filters";
    proof {
        reveal_strlit("filters");
    }
    assert(key@ =~= filters_key());
    match options.get(key) {
        Some(OptionValue::Filters(fs)) => {
            let mut out: Vec<FileFilter> = Vec::new();
            let mut i: usize = 0;
            while i < fs.len()
                invariant
                    i <= fs@.len(),
                    out@.len() == i,
                    out@.map_values(|f: FileFilter| f@) == fs@.subrange(0, i as int).map_values(
                        |t: FilterTuple| filter_of_tuple(t),
                    ),
                decreases fs.len() - i,
            {
                let ghost before = out@;
                let f = filter_of_parts(&fs[i].0, &fs[i].1);
                assert(f@ == filter_of_tuple(fs@[i as int]));
                out.push(f);
                assert forall|j: int| 0 <= j < i implies #[trigger] out@[j]@ == filter_of_tuple(
                    fs@[j],
                ) by {
                    assert(out@[j] == before[j]);
                    assert(before.map_values(|f: FileFilter| f@)[j] == before[j]@);
                    assert(fs@.subrange(0, i as int).map_values(|t: FilterTuple| filter_of_tuple(t))[j]
                        == filter_of_tuple(fs@[j]));
                }
                assert(out@.map_values(|f: FileFilter| f@) =~= fs@.subrange(0, i + 1).map_values(
                    |t: FilterTuple| filter_of_tuple(t),
                ));
                i = i + 1;
            }
            assert(fs@.subrange(0, fs@.len() as int) =~= fs@);
            out
        },
        _ => {
            let out: Vec<FileFilter> = Vec::new();
            assert(out@.map_values(|f: FileFilter| f@) =~= Seq::<FilterView>::empty());
            out
        },
    }
}

/// Read the `current_filter` option: the filter the caller wants
/// pre-selected.
pub fn read_current_filter(options: &PortalOptions) -> (r: Option<FileFilter>)
    ensures
        match r {
            Some(f) => current_filter_option(options@) == Some(f@),
            None => current_filter_option(options@) is None,
        },
{
    let key = "current_filter";
    proof {
        reveal_strlit("current_filter");
    }
    assert(key@ =~= current_filter_key());
    match options.get(key) {
        Some(OptionValue::Filter(t)) => Some(filter_of_parts(&t.0, &t.1)),
        _ => None,
    }
}

/// Convert a [`FileFilter`] to its D-Bus tuple shape `(sa(us))` so it
/// can ride back to the caller in the result dictionary.
pub fn filter_to_value(filter: &FileFilter) -> (t: FilterTuple)
    ensures
        t.0@ == filter.name@,
        tuples_view(t.1@) == encode_patterns(filter@.patterns),
{
    let mut out: Vec<(u32, String)> = Vec::new();
    let mut i: usize = 0;
    while i < filter.patterns.len()
        invariant
            i <= filter.patterns@.len(),
            out@.len() == i,
            tuples_view(out@) == encode_patterns(patterns_view(filter.patterns@.subrange(0, i as int))),
        decreases filter.patterns.len() - i,
    {
        let ghost before = out@;
        let ghost sub = filter.patterns@.subrange(0, i + 1);
        match &filter.patterns[i] {
            FilterPattern::Glob { pattern } => out.push((0u32, pattern.clone())),
            FilterPattern::Mime { mime_type } => out.push((1u32, mime_type.clone())),
        }
        assert(tuples_view(out@).last() == encode_patterns(patterns_view(sub)).last());
        assert forall|j: int| 0 <= j < i implies #[trigger] tuples_view(out@)[j] == encode_patterns(
            patterns_view(sub),
        )[j] by {
            assert(out@[j] == before[j]);
            assert(tuples_view(before)[j] == encode_patterns(
                patterns_view(filter.patterns@.subrange(0, i as int)),
            )[j]);
            assert(sub[j] == filter.patterns@.subrange(0, i as int)[j]);
        }
        assert(tuples_view(out@) =~= encode_patterns(patterns_view(sub)));
        i = i + 1;
    }
    assert(filter.patterns@.subrange(0, filter.patterns@.len() as int) =~= filter.patterns@);
    (filter.name.clone(), out)
}

/// A filter written with [`filter_to_value`] reads back unchanged with
/// [`tuple_to_filter`] (and so through the `current_filter` option).
pub proof fn lemma_filter_round_trip(f: FileFilter, t: FilterTuple)
    requires
        t.0@ == f.name@,
        tuples_view(t.1@) == encode_patterns(f@.patterns),
    ensures
        filter_of_tuple(t) == f@,
{
    lemma_patterns_round_trip(f@.patterns);
}

} // verus!
