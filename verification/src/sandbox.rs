//! Caller sandbox / app-id detection.
//!
//! Portal callers pass an `app_id` argument, but that value is under the
//! caller's control. The real identity comes from the caller's cgroup,
//! which the kernel maintains:
//!
//! - Flatpak: `/user.slice/.../app-flatpak-<app_id>-<n>.scope`
//! - Snap: `snap.<name>.<launcher>.scope`
//! - anything else: `Unconfined`.
//!
//! Reading `/proc/<pid>/cgroup` is I/O and happens in the daemon; this
//! module parses its contents.

use vstd::prelude::*;

use crate::text::{
    chars_of, first_index_in, first_index_of, last_index_in, last_index_of, lemma_first_index_bounds,
    lemma_last_index_bounds, range_equals, string_from_range, strip_prefix, strip_suffix,
};

verus! {

/// Outcome of sandbox detection for a caller.
#[derive(Debug, Clone, PartialEq, Eq)]
pub enum CallerIdentity {
    /// Flatpak-confined caller; `app_id` is the Flatpak application id.
    Flatpak { app_id: String },
    /// Snap-confined caller; `name` is the Snap package name.
    Snap { name: String },
    /// Anything else: native binary, systemd service, unknown container.
    Unconfined,
}

/// Mathematical view of a [`CallerIdentity`].
pub enum Identity {
    Flatpak(Seq<char>),
    Snap(Seq<char>),
    Unconfined,
}

impl View for CallerIdentity {
    type V = Identity;

    open spec fn view(&self) -> Identity {
        match self {
            CallerIdentity::Flatpak { app_id } => Identity::Flatpak(app_id@),
            CallerIdentity::Snap { name } => Identity::Snap(name@),
            CallerIdentity::Unconfined => Identity::Unconfined,
        }
    }
}

pub open spec fn scope_suffix() -> Seq<char> {
    seq!['.', 's', 'c', 'o', 'p', 'e']
}

pub open spec fn flatpak_prefix() -> Seq<char> {
    seq!['a', 'p', 'p', '-', 'f', 'l', 'a', 't', 'p', 'a', 'k', '-']
}

pub open spec fn snap_prefix() -> Seq<char> {
    seq!['s', 'n', 'a', 'p', '.']
}

/// The last `/`-separated segment of a cgroup line (the whole line if
/// it has no `/`).
pub open spec fn scope_of(line: Seq<char>) -> Seq<char> {
    line.subrange(last_index_of(line, '/') + 1, line.len() as int)
}

/// App id of a Flatpak scope line: the segment after the last `/` must be
/// `app-flatpak-<app_id>-<suffix>.scope`; `<app_id>` is everything before
/// the last `-` and must be non-empty.
pub open spec fn flatpak_app_id(line: Seq<char>) -> Option<Seq<char>> {
    match strip_suffix(scope_of(line), scope_suffix()) {
        None => None,
        Some(stripped) => match strip_prefix(stripped, flatpak_prefix()) {
            None => None,
            Some(inner) => {
                let k = last_index_of(inner, '-');
                if k <= 0 {
                    None
                } else {
                    Some(inner.subrange(0, k))
                }
            },
        },
    }
}

/// Snap name of a scope line: the segment after the last `/` must be
/// `snap.<name>.<rest>.scope`; `<name>` is everything before the first
/// `.` after the prefix and must be non-empty.
pub open spec fn snap_name(line: Seq<char>) -> Option<Seq<char>> {
    match strip_suffix(scope_of(line), scope_suffix()) {
        None => None,
        Some(stripped) => match strip_prefix(stripped, snap_prefix()) {
            None => None,
            Some(inner) => {
                let k = first_index_of(inner, '.');
                if k <= 0 {
                    None
                } else {
                    Some(inner.subrange(0, k))
                }
            },
        },
    }
}

/// A line that was ended by `\n` loses one trailing `\r` as well.
pub open spec fn trim_cr(line: Seq<char>) -> Seq<char> {
    if line.len() > 0 && line.last() == '\r' {
        line.drop_last()
    } else {
        line
    }
}

/// The lines of `s`, as `str::lines` yields them: split at `\n`, a `\r`
/// before a `\n` dropped, no empty line after a final `\n`.
pub open spec fn lines_of(s: Seq<char>) -> Seq<Seq<char>>
    decreases s.len(),
{
    if s.len() == 0 {
        seq![]
    } else {
        let k = first_index_of(s, '\n');
        if k < 0 {
            seq![s]
        } else {
            proof {
                lemma_first_index_bounds(s, '\n');
            }
            seq![trim_cr(s.subrange(0, k))] + lines_of(s.subrange(k + 1, s.len() as int))
        }
    }
}

/// Identity given by the first line that names a Flatpak or Snap scope
/// (Flatpak checked first on each line); `Unconfined` if none does.
pub open spec fn identity_of_lines(lines: Seq<Seq<char>>) -> Identity
    decreases lines.len(),
{
    if lines.len() == 0 {
        Identity::Unconfined
    } else {
        match flatpak_app_id(lines[0]) {
            Some(id) => Identity::Flatpak(id),
            None => match snap_name(lines[0]) {
                Some(n) => Identity::Snap(n),
                None => identity_of_lines(lines.drop_first()),
            },
        }
    }
}

/// Identity described by a whole `/proc/<pid>/cgroup` payload.
pub open spec fn cgroup_identity(content: Seq<char>) -> Identity {
    identity_of_lines(lines_of(content))
}

/// The app id of a confined identity; none for an unconfined one.
pub open spec fn identity_app_id(id: Identity) -> Option<Seq<char>> {
    match id {
        Identity::Flatpak(a) => Some(a),
        Identity::Snap(n) => Some(n),
        Identity::Unconfined => None,
    }
}

/// The cgroup line `pre` + `snap.` + `name` + `.` + `launcher` + `.scope`.
pub open spec fn snap_scope_line(pre: Seq<char>, name: Seq<char>, launcher: Seq<char>) -> Seq<char> {
    pre + seq!['s', 'n', 'a', 'p', '.'] + name + seq!['.'] + launcher + seq![
        '.',
        's',
        'c',
        'o',
        'p',
        'e',
    ]
}

/// A Snap scope names the Snap package, not its launcher: for a line
/// whose last segment is `snap.<name>.<launcher>.scope`, with `<name>`
/// non-empty and free of `.`, the caller is the Snap `<name>`, both for
/// the line alone and for a cgroup payload of that one line.
pub proof fn law_snap_scope_names_package(pre: Seq<char>, name: Seq<char>, launcher: Seq<char>)
    requires
        pre.len() == 0 || pre.last() == '/',
        name.len() > 0,
        forall|i: int| 0 <= i < name.len() ==> name[i] != '.' && name[i] != '/' && name[i] != '\n',
        forall|i: int| 0 <= i < launcher.len() ==> launcher[i] != '/' && launcher[i] != '\n',
        forall|i: int| 0 <= i < pre.len() ==> pre[i] != '\n',
    ensures
        snap_name(snap_scope_line(pre, name, launcher)) == Some(name),
        cgroup_identity(snap_scope_line(pre, name, launcher)) == Identity::Snap(name),
        cgroup_identity(snap_scope_line(pre, name, launcher) + seq!['\n']) == Identity::Snap(name),
{
    let line = snap_scope_line(pre, name, launcher);
    lemma_snap_line_scope(pre, name, launcher);
    lemma_snap_scope_fields(name, launcher);
    lemma_snap_line_lines(pre, name, launcher);
    assert(seq![line].drop_first() =~= Seq::<Seq<char>>::empty());
    assert(identity_of_lines(Seq::<Seq<char>>::empty()) == Identity::Unconfined);
}

/// The last segment of a Snap scope line.
proof fn lemma_snap_line_scope(pre: Seq<char>, name: Seq<char>, launcher: Seq<char>)
    requires
        pre.len() == 0 || pre.last() == '/',
        forall|i: int| 0 <= i < name.len() ==> name[i] != '/',
        forall|i: int| 0 <= i < launcher.len() ==> launcher[i] != '/',
    ensures
        scope_of(snap_scope_line(pre, name, launcher)) == seq!['s', 'n', 'a', 'p', '.'] + name
            + seq!['.'] + launcher + scope_suffix(),
{
    let line = snap_scope_line(pre, name, launcher);
    let seg = seq!['s', 'n', 'a', 'p', '.'] + name + seq!['.'] + launcher + scope_suffix();
    assert(line =~= pre + seg);
    assert forall|j: int| pre.len() - 1 < j < line.len() implies line[j] != '/' by {
        let o = j - pre.len();
        assert(line[j] == seg[o]);
        if 5 <= o < 5 + name.len() {
            assert(seg[o] == name[o - 5]);
        } else if 6 + name.len() <= o < 6 + name.len() + launcher.len() {
            assert(seg[o] == launcher[o - 6 - name.len()]);
        }
    }
    crate::text::lemma_last_index_is(line, '/', pre.len() - 1);
    assert(scope_of(line) =~= seg);
}

/// What the Flatpak and Snap rules read from a Snap scope segment.
proof fn lemma_snap_scope_fields(name: Seq<char>, launcher: Seq<char>)
    requires
        name.len() > 0,
        forall|i: int| 0 <= i < name.len() ==> name[i] != '.',
    ensures
        forall|pre: Seq<char>|
            #[trigger] scope_of(pre) == seq!['s', 'n', 'a', 'p', '.'] + name + seq!['.'] + launcher
                + scope_suffix() ==> snap_name(pre) == Some(name) && flatpak_app_id(pre) is None,
{
    let seg = seq!['s', 'n', 'a', 'p', '.'] + name + seq!['.'] + launcher + scope_suffix();
    let stripped = seq!['s', 'n', 'a', 'p', '.'] + name + seq!['.'] + launcher;
    assert(seg.subrange(seg.len() - 6, seg.len() as int) =~= scope_suffix());
    assert(seg.subrange(0, seg.len() - 6) =~= stripped);
    assert(strip_suffix(seg, scope_suffix()) == Some(stripped));
    let inner = name + seq!['.'] + launcher;
    assert(stripped.subrange(0, 5) =~= snap_prefix());
    assert(stripped.subrange(5, stripped.len() as int) =~= inner);
    assert forall|j: int| 0 <= j < inner.len() && j < name.len() implies inner[j] != '.' by {
        assert(inner[j] == name[j]);
    }
    crate::text::lemma_first_index_is(inner, '.', name.len() as int);
    assert(inner.subrange(0, name.len() as int) =~= name);
    if stripped.len() >= 12 {
        assert(stripped.subrange(0, 12)[0] == stripped[0]);
        assert(stripped.subrange(0, 12) != flatpak_prefix());
    }
    assert(strip_prefix(stripped, flatpak_prefix()) is None);
}

/// A Snap scope line holds no line break, alone or ended by one.
proof fn lemma_snap_line_lines(pre: Seq<char>, name: Seq<char>, launcher: Seq<char>)
    requires
        forall|i: int| 0 <= i < name.len() ==> name[i] != '\n',
        forall|i: int| 0 <= i < launcher.len() ==> launcher[i] != '\n',
        forall|i: int| 0 <= i < pre.len() ==> pre[i] != '\n',
    ensures
        lines_of(snap_scope_line(pre, name, launcher)) == seq![snap_scope_line(pre, name, launcher)],
        lines_of(snap_scope_line(pre, name, launcher) + seq!['\n']) == seq![
            snap_scope_line(pre, name, launcher),
        ],
{
    let line = snap_scope_line(pre, name, launcher);
    let seg = seq!['s', 'n', 'a', 'p', '.'] + name + seq!['.'] + launcher + scope_suffix();
    assert(line =~= pre + seg);
    assert forall|j: int| 0 <= j < line.len() implies line[j] != '\n' by {
        if j >= pre.len() {
            let o = j - pre.len();
            assert(line[j] == seg[o]);
            if 5 <= o < 5 + name.len() {
                assert(seg[o] == name[o - 5]);
            } else if 6 + name.len() <= o < 6 + name.len() + launcher.len() {
                assert(seg[o] == launcher[o - 6 - name.len()]);
            }
        }
    }
    crate::text::lemma_first_index_is(line, '\n', -1);
    assert(lines_of(line) =~= seq![line]);
    let content = line + seq!['\n'];
    assert forall|j: int| 0 <= j < content.len() && j < line.len() implies content[j] != '\n' by {
        assert(content[j] == line[j]);
    }
    crate::text::lemma_first_index_is(content, '\n', line.len() as int);
    assert(content.subrange(0, line.len() as int) =~= line);
    assert(line.last() == 'e');
    assert(trim_cr(line) == line);
    assert(content.subrange(line.len() as int + 1, content.len() as int) =~= Seq::<char>::empty());
    assert(lines_of(Seq::<char>::empty()) =~= Seq::<Seq<char>>::empty());
    assert(lines_of(content) =~= seq![line]);
}

/// The cgroup line `pre` + `app-flatpak-` + `app_id` + `-` + `instance` + `.scope`.
pub open spec fn flatpak_scope_line(pre: Seq<char>, app_id: Seq<char>, instance: Seq<char>) -> Seq<
    char,
> {
    pre + seq!['a', 'p', 'p', '-', 'f', 'l', 'a', 't', 'p', 'a', 'k', '-'] + app_id + seq!['-'] + instance + seq![
        '.',
        's',
        'c',
        'o',
        'p',
        'e',
    ]
}

/// A Flatpak scope names the application: for a line whose last
/// segment is `app-flatpak-<app_id>-<instance>.scope`, with `<app_id>`
/// non-empty (it may hold `-`) and `<instance>` free of `-`, the caller
/// is the Flatpak `<app_id>`, for the line alone and for a cgroup payload
/// of that one line.
pub proof fn law_flatpak_scope_names_app(pre: Seq<char>, app_id: Seq<char>, instance: Seq<char>)
    requires
        pre.len() == 0 || pre.last() == '/',
        app_id.len() > 0,
        forall|i: int| 0 <= i < app_id.len() ==> app_id[i] != '/' && app_id[i] != '\n',
        forall|i: int|
            0 <= i < instance.len() ==> instance[i] != '-' && instance[i] != '/' && instance[i] != '\n',
        forall|i: int| 0 <= i < pre.len() ==> pre[i] != '\n',
    ensures
        flatpak_app_id(flatpak_scope_line(pre, app_id, instance)) == Some(app_id),
        cgroup_identity(flatpak_scope_line(pre, app_id, instance)) == Identity::Flatpak(app_id),
        cgroup_identity(flatpak_scope_line(pre, app_id, instance) + seq!['\n'])
            == Identity::Flatpak(app_id),
{
    let line = flatpak_scope_line(pre, app_id, instance);
    lemma_flatpak_line_scope(pre, app_id, instance);
    lemma_flatpak_scope_fields(app_id, instance);
    lemma_single_line(line);
    assert(seq![line].drop_first() =~= Seq::<Seq<char>>::empty());
    assert(identity_of_lines(Seq::<Seq<char>>::empty()) == Identity::Unconfined);
}

/// The last segment of a Flatpak scope line, which holds no line break.
proof fn lemma_flatpak_line_scope(pre: Seq<char>, app_id: Seq<char>, instance: Seq<char>)
    requires
        pre.len() == 0 || pre.last() == '/',
        forall|i: int| 0 <= i < app_id.len() ==> app_id[i] != '/' && app_id[i] != '\n',
        forall|i: int| 0 <= i < instance.len() ==> instance[i] != '/' && instance[i] != '\n',
        forall|i: int| 0 <= i < pre.len() ==> pre[i] != '\n',
    ensures
        scope_of(flatpak_scope_line(pre, app_id, instance)) == seq!['a', 'p', 'p', '-', 'f', 'l', 'a', 't', 'p', 'a', 'k', '-'] + app_id + seq!['-']
            + instance + scope_suffix(),
        forall|j: int|
            0 <= j < flatpak_scope_line(pre, app_id, instance).len() ==> #[trigger] flatpak_scope_line(
                pre,
                app_id,
                instance,
            )[j] != '\n',
        flatpak_scope_line(pre, app_id, instance).last() == 'e',
{
    let line = flatpak_scope_line(pre, app_id, instance);
    let seg = seq!['a', 'p', 'p', '-', 'f', 'l', 'a', 't', 'p', 'a', 'k', '-'] + app_id + seq!['-'] + instance + scope_suffix();
    assert(line =~= pre + seg);
    assert forall|j: int| pre.len() - 1 < j < line.len() implies line[j] != '/' && line[j] != '\n' by {
        let o = j - pre.len();
        assert(line[j] == seg[o]);
        if 12 <= o < 12 + app_id.len() {
            assert(seg[o] == app_id[o - 12]);
        } else if 13 + app_id.len() <= o < 13 + app_id.len() + instance.len() {
            assert(seg[o] == instance[o - 13 - app_id.len()]);
        }
    }
    crate::text::lemma_last_index_is(line, '/', pre.len() - 1);
    assert(scope_of(line) =~= seg);
    assert forall|j: int| 0 <= j < line.len() implies #[trigger] line[j] != '\n' by {
        if j >= pre.len() {
            assert(pre.len() - 1 < j);
        }
    }
}

/// What the Flatpak rule reads from a Flatpak scope segment.
proof fn lemma_flatpak_scope_fields(app_id: Seq<char>, instance: Seq<char>)
    requires
        app_id.len() > 0,
        forall|i: int| 0 <= i < instance.len() ==> instance[i] != '-',
    ensures
        forall|line: Seq<char>|
            #[trigger] scope_of(line) == seq!['a', 'p', 'p', '-', 'f', 'l', 'a', 't', 'p', 'a', 'k', '-'] + app_id + seq!['-'] + instance
                + scope_suffix() ==> flatpak_app_id(line) == Some(app_id),
{
    let seg = seq!['a', 'p', 'p', '-', 'f', 'l', 'a', 't', 'p', 'a', 'k', '-'] + app_id + seq!['-'] + instance + scope_suffix();
    let stripped = seq!['a', 'p', 'p', '-', 'f', 'l', 'a', 't', 'p', 'a', 'k', '-'] + app_id + seq!['-'] + instance;
    assert(seg.subrange(seg.len() - 6, seg.len() as int) =~= scope_suffix());
    assert(seg.subrange(0, seg.len() - 6) =~= stripped);
    let inner = app_id + seq!['-'] + instance;
    assert(stripped.subrange(0, 12) =~= flatpak_prefix());
    assert(stripped.subrange(12, stripped.len() as int) =~= inner);
    assert forall|j: int| app_id.len() < j < inner.len() implies inner[j] != '-' by {
        assert(inner[j] == instance[j - app_id.len() - 1]);
    }
    crate::text::lemma_last_index_is(inner, '-', app_id.len() as int);
    assert(inner.subrange(0, app_id.len() as int) =~= app_id);
}

/// A non-empty line without line breaks that does not end in `\r` is
/// the one line of itself, and of itself followed by `\n`.
proof fn lemma_single_line(line: Seq<char>)
    requires
        line.len() > 0,
        line.last() != '\r',
        forall|j: int| 0 <= j < line.len() ==> #[trigger] line[j] != '\n',
    ensures
        lines_of(line) == seq![line],
        lines_of(line + seq!['\n']) == seq![line],
{
    crate::text::lemma_first_index_is(line, '\n', -1);
    assert(lines_of(line) =~= seq![line]);
    let content = line + seq!['\n'];
    assert forall|j: int| 0 <= j < content.len() && j < line.len() implies content[j] != '\n' by {
        assert(content[j] == line[j]);
    }
    crate::text::lemma_first_index_is(content, '\n', line.len() as int);
    assert(content.subrange(0, line.len() as int) =~= line);
    assert(trim_cr(line) == line);
    assert(content.subrange(line.len() as int + 1, content.len() as int) =~= Seq::<char>::empty());
    assert(lines_of(Seq::<char>::empty()) =~= Seq::<Seq<char>>::empty());
    assert(lines_of(content) =~= seq![line]);
}

impl CallerIdentity {
    /// Best-effort app-id string for logs and Document Portal calls.
    /// `None` for unconfined callers.
    pub fn app_id(&self) -> (r: Option<&str>)
        ensures
            match r {
                Some(s) => identity_app_id(self@) == Some(s@),
                None => identity_app_id(self@) is None,
            },
    {
        match self {
            CallerIdentity::Flatpak { app_id } => Some(app_id.as_str()),
            CallerIdentity::Snap { name } => Some(name.as_str()),
            CallerIdentity::Unconfined => None,
        }
    }
}

/// Start of the last `/`-segment of `v[start..end]`.
fn scope_start(v: &Vec<char>, start: usize, end: usize) -> (s: usize)
    requires
        start <= end <= v.len(),
    ensures
        start <= s <= end,
        v@.subrange(s as int, end as int) == scope_of(v@.subrange(start as int, end as int)),
{
    let ghost line = v@.subrange(start as int, end as int);
    proof {
        lemma_last_index_bounds(line, '/');
    }
    let s = match last_index_in(v, start, end, '/') {
        Some(i) => i + 1,
        None => start,
    };
    assert(v@.subrange(s as int, end as int) =~= scope_of(line));
    s
}

/// Bounds `[a, b)` of `v[start..end]` stripped of the `.scope` suffix and
/// of `prefix`, if both are present.
fn strip_scope(v: &Vec<char>, start: usize, end: usize, prefix: &[char]) -> (r: Option<(usize, usize)>)
    requires
        start <= end <= v.len(),
    ensures
        match r {
            Some((a, b)) => {
                &&& start <= a <= b <= end
                &&& strip_suffix(scope_of(v@.subrange(start as int, end as int)), scope_suffix())
                    matches Some(st)
                &&& strip_prefix(st, prefix@) == Some(v@.subrange(a as int, b as int))
            },
            None => match strip_suffix(
                scope_of(v@.subrange(start as int, end as int)),
                scope_suffix(),
            ) {
                None => true,
                Some(st) => strip_prefix(st, prefix@) is None,
            },
        },
{
    let s = scope_start(v, start, end);
    let ghost scope = v@.subrange(s as int, end as int);
    let suffix: [char; 6] = ['.', 's', 'c', 'o', 'p', 'e'];
    assert(suffix@ =~= scope_suffix());
    if end - s < 6 {
        return None;
    }
    let stripped_end = end - 6;
    assert(scope.subrange(scope.len() - 6, scope.len() as int) =~= v@.subrange(
        stripped_end as int,
        end as int,
    ));
    if !range_equals(v, stripped_end, end, suffix.as_slice()) {
        return None;
    }
    let ghost st = v@.subrange(s as int, stripped_end as int);
    assert(scope.subrange(0, scope.len() - 6) =~= st);
    if stripped_end - s < prefix.len() {
        return None;
    }
    let inner_start = s + prefix.len();
    assert(st.subrange(0, prefix@.len() as int) =~= v@.subrange(s as int, inner_start as int));
    if !range_equals(v, s, inner_start, prefix) {
        return None;
    }
    assert(st.subrange(prefix@.len() as int, st.len() as int) =~= v@.subrange(
        inner_start as int,
        stripped_end as int,
    ));
    Some((inner_start, stripped_end))
}

/// Flatpak app id of the line `v[start..end]`.
fn flatpak_in(v: &Vec<char>, start: usize, end: usize) -> (r: Option<String>)
    requires
        start <= end <= v.len(),
    ensures
        match r {
            Some(s) => flatpak_app_id(v@.subrange(start as int, end as int)) == Some(s@),
            None => flatpak_app_id(v@.subrange(start as int, end as int)) is None,
        },
{
    let prefix: [char; 12] = ['a', 'p', 'p', '-', 'f', 'l', 'a', 't', 'p', 'a', 'k', '-'];
    assert(prefix@ =~= flatpak_prefix());
    match strip_scope(v, start, end, prefix.as_slice()) {
        None => None,
        Some((a, b)) => {
            let ghost inner = v@.subrange(a as int, b as int);
            match last_index_in(v, a, b, '-') {
                None => None,
                Some(k) => {
                    if k == a {
                        None
                    } else {
                        assert(inner.subrange(0, k - a) =~= v@.subrange(a as int, k as int));
                        Some(string_from_range(v, a, k))
                    }
                },
            }
        },
    }
}

/// Snap name of the line `v[start..end]`.
fn snap_in(v: &Vec<char>, start: usize, end: usize) -> (r: Option<String>)
    requires
        start <= end <= v.len(),
    ensures
        match r {
            Some(s) => snap_name(v@.subrange(start as int, end as int)) == Some(s@),
            None => snap_name(v@.subrange(start as int, end as int)) is None,
        },
{
    let prefix: [char; 5] = ['s', 'n', 'a', 'p', '.'];
    assert(prefix@ =~= snap_prefix());
    match strip_scope(v, start, end, prefix.as_slice()) {
        None => None,
        Some((a, b)) => {
            let ghost inner = v@.subrange(a as int, b as int);
            match first_index_in(v, a, b, '.') {
                None => None,
                Some(k) => {
                    if k == a {
                        None
                    } else {
                        assert(inner.subrange(0, k - a) =~= v@.subrange(a as int, k as int));
                        Some(string_from_range(v, a, k))
                    }
                },
            }
        },
    }
}

/// Pull the Flatpak app id out of a cgroup line
/// (`app-flatpak-<app_id>-<n>.scope`).
pub fn match_flatpak(line: &str) -> (r: Option<String>)
    ensures
        match r {
            Some(s) => flatpak_app_id(line@) == Some(s@),
            None => flatpak_app_id(line@) is None,
        },
{
    let v = chars_of(line);
    assert(v@.subrange(0, v@.len() as int) =~= line@);
    flatpak_in(&v, 0, v.len())
}

/// Pull the Snap package name out of a cgroup line
/// (`snap.<name>.<launcher>.scope`).
pub fn match_snap(line: &str) -> (r: Option<String>)
    ensures
        match r {
            Some(s) => snap_name(line@) == Some(s@),
            None => snap_name(line@) is None,
        },
{
    let v = chars_of(line);
    assert(v@.subrange(0, v@.len() as int) =~= line@);
    snap_in(&v, 0, v.len())
}

/// Parse a `/proc/<pid>/cgroup` payload into the caller's identity.
pub fn parse_cgroup(content: &str) -> (r: CallerIdentity)
    ensures
        r@ == cgroup_identity(content@),
{
    let v = chars_of(content);
    let n = v.len();
    let mut p: usize = 0;
    assert(v@.subrange(0, n as int) =~= v@);
    while p < n
        invariant
            n == v@.len(),
            v@ == content@,
            p <= n,
            cgroup_identity(content@) == identity_of_lines(
                lines_of(v@.subrange(p as int, n as int)),
            ),
        decreases n - p,
    {
        let ghost rest = v@.subrange(p as int, n as int);
        proof {
            lemma_first_index_bounds(rest, '\n');
        }
        let (line_end, next) = match first_index_in(&v, p, n, '\n') {
            Some(e) => {
                let le = if e > p && v[e - 1] == '\r' {
                    e - 1
                } else {
                    e
                };
                assert(rest.subrange(0, e - p) =~= v@.subrange(p as int, e as int));
                assert(v@.subrange(p as int, le as int) =~= trim_cr(rest.subrange(0, e - p)));
                assert(rest.subrange(e - p + 1, rest.len() as int) =~= v@.subrange(
                    e + 1,
                    n as int,
                ));
                (le, e + 1)
            },
            None => {
                assert(rest =~= v@.subrange(p as int, n as int));
                (n, n)
            },
        };
        let ghost line = v@.subrange(p as int, line_end as int);
        assert(lines_of(rest)[0] == line);
        assert(lines_of(rest).drop_first() =~= lines_of(v@.subrange(next as int, n as int)));
        if let Some(id) = flatpak_in(&v, p, line_end) {
            return CallerIdentity::Flatpak { app_id: id };
        }
        if let Some(name) = snap_in(&v, p, line_end) {
            return CallerIdentity::Snap { name };
        }
        p = next;
    }
    assert(v@.subrange(p as int, n as int) =~= Seq::<char>::empty());
    CallerIdentity::Unconfined
}

} // verus!
