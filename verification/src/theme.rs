//! Picker UI theme: dark or light defaults with user overrides.
//!
//! The user's `appearance.toml` names a mode (`light` or, by default,
//! `dark`) and an `[overrides]` table of colors. An override value may
//! be a plain color or a `$token` referring to a color of the base
//! theme. Tokens always resolve against the base theme, never against
//! another override, so the result does not depend on the order in
//! which overrides of different colors are applied.
//!
//! Reading and parsing the file happens in the picker process; this
//! module computes the theme from what the file says.

use vstd::prelude::*;

use crate::text::{chars_of, string_from_range};

verus! {

/// Color tokens the picker UI uses, mapped 1:1 to CSS custom properties.
#[derive(Clone, Debug)]
pub struct Theme {
    pub bg_app: String,
    pub bg_card: String,
    pub fg_app: String,
    pub fg_muted: String,
    pub border: String,
    pub accent: String,
    pub danger: String,
}

/// Mathematical view of a [`Theme`].
pub struct ThemeView {
    pub bg_app: Seq<char>,
    pub bg_card: Seq<char>,
    pub fg_app: Seq<char>,
    pub fg_muted: Seq<char>,
    pub border: Seq<char>,
    pub accent: Seq<char>,
    pub danger: Seq<char>,
}

impl View for Theme {
    type V = ThemeView;

    open spec fn view(&self) -> ThemeView {
        ThemeView {
            bg_app: self.bg_app@,
            bg_card: self.bg_card@,
            fg_app: self.fg_app@,
            fg_muted: self.fg_muted@,
            border: self.border@,
            accent: self.accent@,
            danger: self.danger@,
        }
    }
}

pub open spec fn dark_theme() -> ThemeView {
    ThemeView {
        bg_app: "#0f0f0f"@,
        bg_card: "#171717"@,
        fg_app: "#fafafa"@,
        fg_muted: "#a1a1aa"@,
        border: "#27272a"@,
        accent: "#6366f1"@,
        danger: "#ef4444"@,
    }
}

pub open spec fn light_theme() -> ThemeView {
    ThemeView {
        bg_app: "#ffffff"@,
        bg_card: "#fafafa"@,
        fg_app: "#0f0f0f"@,
        fg_muted: "#71717a"@,
        border: "#e4e4e7"@,
        accent: "#6366f1"@,
        danger: "#ef4444"@,
    }
}

/// The color a `$token` reference names in `base`; a value that is not
/// a known token reference stands for itself.
pub open spec fn resolve_token_spec(val: Seq<char>, base: ThemeView) -> Seq<char> {
    if val.len() > 0 && val[0] == '$' {
        let t = val.drop_first();
        if t == "foreground"@ || t == "fg"@ || t == "fg_app"@ || t == "primary"@ {
            base.fg_app
        } else if t == "muted"@ || t == "fg_muted"@ || t == "secondary"@ {
            base.fg_muted
        } else if t == "background"@ || t == "bg"@ || t == "bg_app"@ {
            base.bg_app
        } else if t == "card"@ || t == "bg_card"@ {
            base.bg_card
        } else if t == "border"@ {
            base.border
        } else if t == "accent"@ {
            base.accent
        } else {
            val
        }
    } else {
        val
    }
}

/// Which color an override key sets: 0 bg_app, 1 bg_card, 2 fg_app,
/// 3 fg_muted, 4 border, 5 accent, 6 danger; -1 for an unknown key.
pub open spec fn override_target(key: Seq<char>) -> int {
    if key == "accent"@ {
        5
    } else if key == "background"@ || key == "bg_app"@ {
        0
    } else if key == "card"@ || key == "bg_card"@ {
        1
    } else if key == "foreground"@ || key == "fg_app"@ {
        2
    } else if key == "muted"@ || key == "fg_muted"@ {
        3
    } else if key == "border"@ {
        4
    } else if key == "danger"@ || key == "error"@ {
        6
    } else {
        -1
    }
}

/// `t` with color number `target` set to `val` (unchanged for -1).
pub open spec fn set_color(t: ThemeView, target: int, val: Seq<char>) -> ThemeView {
    if target == 0 {
        ThemeView { bg_app: val, ..t }
    } else if target == 1 {
        ThemeView { bg_card: val, ..t }
    } else if target == 2 {
        ThemeView { fg_app: val, ..t }
    } else if target == 3 {
        ThemeView { fg_muted: val, ..t }
    } else if target == 4 {
        ThemeView { border: val, ..t }
    } else if target == 5 {
        ThemeView { accent: val, ..t }
    } else if target == 6 {
        ThemeView { danger: val, ..t }
    } else {
        t
    }
}

/// One override entry: the key and its value if it is a string (other
/// values are ignored).
pub type ThemeOverride = (String, Option<String>);

/// View of override entries.
pub open spec fn overrides_view(es: Seq<ThemeOverride>) -> Seq<(Seq<char>, Option<Seq<char>>)> {
    es.map_values(
        |e: ThemeOverride|
            (
                e.0@,
                match e.1 {
                    Some(s) => Some(s@),
                    None => None,
                },
            ),
    )
}

/// `start` after applying `entries` in order, each value resolved
/// against `base`.
pub open spec fn apply_entries(
    base: ThemeView,
    start: ThemeView,
    entries: Seq<(Seq<char>, Option<Seq<char>>)>,
) -> ThemeView
    decreases entries.len(),
{
    if entries.len() == 0 {
        start
    } else {
        let prev = apply_entries(base, start, entries.drop_last());
        match entries.last().1 {
            Some(raw) => set_color(prev, override_target(entries.last().0), resolve_token_spec(raw, base)),
            None => prev,
        }
    }
}

/// Color number an entry sets, -1 if it sets none.
pub open spec fn entry_target(e: (Seq<char>, Option<Seq<char>>)) -> int {
    match e.1 {
        Some(_) => override_target(e.0),
        None => -1,
    }
}

impl Theme {
    /// The dark default theme.
    pub fn dark_defaults() -> (t: Theme)
        ensures
            t@ == dark_theme(),
    {
        Theme {
            bg_app: String::from_str("#0f0f0f"),
            bg_card: String::from_str("#171717"),
            fg_app: String::from_str("#fafafa"),
            fg_muted: String::from_str("#a1a1aa"),
            border: String::from_str("#27272a"),
            accent: String::from_str("#6366f1"),
            danger: String::from_str("#ef4444"),
        }
    }

    /// The light default theme.
    pub fn light_defaults() -> (t: Theme)
        ensures
            t@ == light_theme(),
    {
        Theme {
            bg_app: String::from_str("#ffffff"),
            bg_card: String::from_str("#fafafa"),
            fg_app: String::from_str("#0f0f0f"),
            fg_muted: String::from_str("#71717a"),
            border: String::from_str("#e4e4e7"),
            accent: String::from_str("#6366f1"),
            danger: String::from_str("#ef4444"),
        }
    }
}

/// Whether `s` holds exactly the text `lit`.
fn is_text(s: &String, lit: &str) -> (r: bool)
    ensures
        r == (s@ == lit@),
{
    *s == String::from_str(lit)
}

/// Resolve a `$token` reference against the base theme. Plain colors
/// and unknown tokens pass through unchanged.
pub fn resolve_token(val: &str, base: &Theme) -> (r: String)
    ensures
        r@ == resolve_token_spec(val@, base@),
{
    let v = chars_of(val);
    let n = v.len();
    if n == 0 || v[0] != '$' {
        return String::from_str(val);
    }
    let t = string_from_range(&v, 1, n);
    assert(t@ =~= val@.drop_first());
    if is_text(&t, "foreground") || is_text(&t, "fg") || is_text(&t, "fg_app") || is_text(&t, "primary") {
        base.fg_app.clone()
    } else if is_text(&t, "muted") || is_text(&t, "fg_muted") || is_text(&t, "secondary") {
        base.fg_muted.clone()
    } else if is_text(&t, "background") || is_text(&t, "bg") || is_text(&t, "bg_app") {
        base.bg_app.clone()
    } else if is_text(&t, "card") || is_text(&t, "bg_card") {
        base.bg_card.clone()
    } else if is_text(&t, "border") {
        base.border.clone()
    } else if is_text(&t, "accent") {
        base.accent.clone()
    } else {
        String::from_str(val)
    }
}

/// Color number that an override key sets, -1 for unknown keys.
fn target_of(key: &str) -> (r: i8)
    ensures
        r == override_target(key@),
{
    let k = String::from_str(key);
    if is_text(&k, "accent") {
        5
    } else if is_text(&k, "background") || is_text(&k, "bg_app") {
        0
    } else if is_text(&k, "card") || is_text(&k, "bg_card") {
        1
    } else if is_text(&k, "foreground") || is_text(&k, "fg_app") {
        2
    } else if is_text(&k, "muted") || is_text(&k, "fg_muted") {
        3
    } else if is_text(&k, "border") {
        4
    } else if is_text(&k, "danger") || is_text(&k, "error") {
        6
    } else {
        -1
    }
}

/// Set the color that `key` names to `val`; unknown keys are ignored.
pub fn apply_override(theme: &mut Theme, key: &str, val: &str)
    ensures
        final(theme)@ == set_color(old(theme)@, override_target(key@), val@),
{
    let target = target_of(key);
    let v = String::from_str(val);
    if target == 0 {
        theme.bg_app = v;
    } else if target == 1 {
        theme.bg_card = v;
    } else if target == 2 {
        theme.fg_app = v;
    } else if target == 3 {
        theme.fg_muted = v;
    } else if target == 4 {
        theme.border = v;
    } else if target == 5 {
        theme.accent = v;
    } else if target == 6 {
        theme.danger = v;
    }
}

/// Apply the user's overrides, in order, to a base theme. Token
/// references resolve against the theme as it was before any override.
pub fn apply_overrides(theme: &mut Theme, overrides: &Vec<ThemeOverride>)
    ensures
        final(theme)@ == apply_entries(old(theme)@, old(theme)@, overrides_view(overrides@)),
{
    let base = Theme {
        bg_app: theme.bg_app.clone(),
        bg_card: theme.bg_card.clone(),
        fg_app: theme.fg_app.clone(),
        fg_muted: theme.fg_muted.clone(),
        border: theme.border.clone(),
        accent: theme.accent.clone(),
        danger: theme.danger.clone(),
    };
    let mut i: usize = 0;
    while i < overrides.len()
        invariant
            i <= overrides@.len(),
            base@ == old(theme)@,
            theme@ == apply_entries(base@, base@, overrides_view(overrides@.subrange(0, i as int))),
        decreases overrides.len() - i,
    {
        assert(overrides_view(overrides@.subrange(0, i + 1)).drop_last() =~= overrides_view(
            overrides@.subrange(0, i as int),
        ));
        match &overrides[i].1 {
            Some(raw) => {
                let resolved = resolve_token(raw.as_str(), &base);
                apply_override(theme, overrides[i].0.as_str(), resolved.as_str());
            },
            None => {},
        }
        i = i + 1;
    }
    assert(overrides@.subrange(0, overrides@.len() as int) =~= overrides@);
}

/// The theme an appearance file describes: light defaults for mode
/// `light`, dark defaults otherwise (also when no mode is given), then
/// the overrides, if any.
pub fn theme_for(mode: Option<&str>, overrides: Option<&Vec<ThemeOverride>>) -> (t: Theme)
    ensures
        ({
            let base = if mode matches Some(m) && m@ == "light"@ {
                light_theme()
            } else {
                dark_theme()
            };
            t@ == match overrides {
                Some(o) => apply_entries(base, base, overrides_view(o@)),
                None => base,
            }
        }),
{
    let light = match mode {
        Some(m) => is_text(&String::from_str(m), "light"),
        None => false,
    };
    let mut theme = if light {
        Theme::light_defaults()
    } else {
        Theme::dark_defaults()
    };
    if let Some(o) = overrides {
        apply_overrides(&mut theme, o);
    }
    theme
}

/// Applying entries one after the other is applying their concatenation.
pub proof fn lemma_apply_concat(
    base: ThemeView,
    start: ThemeView,
    a: Seq<(Seq<char>, Option<Seq<char>>)>,
    b: Seq<(Seq<char>, Option<Seq<char>>)>,
)
    ensures
        apply_entries(base, start, a + b) == apply_entries(base, apply_entries(base, start, a), b),
    decreases b.len(),
{
    if b.len() == 0 {
        assert(a + b =~= a);
    } else {
        assert((a + b).drop_last() =~= a + b.drop_last());
        lemma_apply_concat(base, start, a, b.drop_last());
    }
}

/// Overrides of different colors commute: swapping two adjacent entries
/// that set different colors (or none) anywhere in the list gives the
/// same theme.
pub proof fn lemma_overrides_commute(
    base: ThemeView,
    pre: Seq<(Seq<char>, Option<Seq<char>>)>,
    e1: (Seq<char>, Option<Seq<char>>),
    e2: (Seq<char>, Option<Seq<char>>),
    post: Seq<(Seq<char>, Option<Seq<char>>)>,
)
    requires
        entry_target(e1) == -1 || entry_target(e2) == -1 || entry_target(e1) != entry_target(e2),
    ensures
        apply_entries(base, base, pre + seq![e1, e2] + post) == apply_entries(
            base,
            base,
            pre + seq![e2, e1] + post,
        ),
{
    let mid = apply_entries(base, base, pre);
    lemma_apply_concat(base, base, pre + seq![e1, e2], post);
    lemma_apply_concat(base, base, pre + seq![e2, e1], post);
    lemma_apply_concat(base, base, pre, seq![e1, e2]);
    lemma_apply_concat(base, base, pre, seq![e2, e1]);
    assert(seq![e1, e2].drop_last() =~= seq![e1]);
    assert(seq![e2, e1].drop_last() =~= seq![e2]);
    assert(seq![e1].drop_last() =~= Seq::<(Seq<char>, Option<Seq<char>>)>::empty());
    assert(seq![e2].drop_last() =~= Seq::<(Seq<char>, Option<Seq<char>>)>::empty());
    let one1 = apply_entries(base, mid, seq![e1]);
    let one2 = apply_entries(base, mid, seq![e2]);
    assert(apply_entries(base, mid, Seq::<(Seq<char>, Option<Seq<char>>)>::empty()) == mid);
    assert(apply_entries(base, mid, seq![e1, e2]) == match e2.1 {
        Some(raw) => set_color(one1, override_target(e2.0), resolve_token_spec(raw, base)),
        None => one1,
    });
    assert(apply_entries(base, mid, seq![e2, e1]) == match e1.1 {
        Some(raw) => set_color(one2, override_target(e1.0), resolve_token_spec(raw, base)),
        None => one2,
    });
}


/// Each `$token` names one color of the base theme, whatever that theme
/// is: `$foreground`, `$fg`, `$fg_app` and `$primary` its text color;
/// `$muted`, `$fg_muted` and `$secondary` its muted text; `$background`,
/// `$bg` and `$bg_app` its background; `$card` and `$bg_card` its card
/// background; `$border` and `$accent` those colors. A value that does
/// not start with `$` is a plain color and stands for itself.
pub proof fn law_tokens_name_base_colors(base: ThemeView, plain: Seq<char>)
    ensures
        resolve_token_spec("$foreground"@, base) == base.fg_app,
        resolve_token_spec("$fg"@, base) == base.fg_app,
        resolve_token_spec("$fg_app"@, base) == base.fg_app,
        resolve_token_spec("$primary"@, base) == base.fg_app,
        resolve_token_spec("$muted"@, base) == base.fg_muted,
        resolve_token_spec("$fg_muted"@, base) == base.fg_muted,
        resolve_token_spec("$secondary"@, base) == base.fg_muted,
        resolve_token_spec("$background"@, base) == base.bg_app,
        resolve_token_spec("$bg"@, base) == base.bg_app,
        resolve_token_spec("$bg_app"@, base) == base.bg_app,
        resolve_token_spec("$card"@, base) == base.bg_card,
        resolve_token_spec("$bg_card"@, base) == base.bg_card,
        resolve_token_spec("$border"@, base) == base.border,
        resolve_token_spec("$accent"@, base) == base.accent,
        plain.len() == 0 || plain[0] != '$' ==> resolve_token_spec(plain, base) == plain,
{
    reveal_strlit("foreground");
    reveal_strlit("fg");
    reveal_strlit("fg_app");
    reveal_strlit("primary");
    reveal_strlit("muted");
    reveal_strlit("fg_muted");
    reveal_strlit("secondary");
    reveal_strlit("background");
    reveal_strlit("bg");
    reveal_strlit("bg_app");
    reveal_strlit("card");
    reveal_strlit("bg_card");
    reveal_strlit("border");
    reveal_strlit("accent");
    reveal_strlit("$foreground");
    reveal_strlit("$fg");
    reveal_strlit("$fg_app");
    reveal_strlit("$primary");
    reveal_strlit("$muted");
    reveal_strlit("$fg_muted");
    reveal_strlit("$secondary");
    reveal_strlit("$background");
    reveal_strlit("$bg");
    reveal_strlit("$bg_app");
    reveal_strlit("$card");
    reveal_strlit("$bg_card");
    reveal_strlit("$border");
    reveal_strlit("$accent");
    assert("$foreground"@.drop_first() =~= "foreground"@);
    assert("$fg"@.drop_first() =~= "fg"@);
    assert("$fg_app"@.drop_first() =~= "fg_app"@);
    assert("$primary"@.drop_first() =~= "primary"@);
    assert("$muted"@.drop_first() =~= "muted"@);
    assert("$fg_muted"@.drop_first() =~= "fg_muted"@);
    assert("$secondary"@.drop_first() =~= "secondary"@);
    assert("$background"@.drop_first() =~= "background"@);
    assert("$bg"@.drop_first() =~= "bg"@);
    assert("$bg_app"@.drop_first() =~= "bg_app"@);
    assert("$card"@.drop_first() =~= "card"@);
    assert("$bg_card"@.drop_first() =~= "bg_card"@);
    assert("$border"@.drop_first() =~= "border"@);
    assert("$accent"@.drop_first() =~= "accent"@);
    assert("foreground"@[0] == 'f' && "foreground"@[1] == 'o');
    assert("fg"@[0] == 'f' && "fg"@[1] == 'g');
    assert("fg_app"@[0] == 'f' && "fg_app"@[1] == 'g');
    assert("primary"@[0] == 'p' && "primary"@[1] == 'r');
    assert("muted"@[0] == 'm' && "muted"@[1] == 'u');
    assert("fg_muted"@[0] == 'f' && "fg_muted"@[1] == 'g');
    assert("secondary"@[0] == 's' && "secondary"@[1] == 'e');
    assert("background"@[0] == 'b' && "background"@[1] == 'a');
    assert("bg"@[0] == 'b' && "bg"@[1] == 'g');
    assert("bg_app"@[0] == 'b' && "bg_app"@[1] == 'g');
    assert("card"@[0] == 'c' && "card"@[1] == 'a');
    assert("bg_card"@[0] == 'b' && "bg_card"@[1] == 'g');
    assert("border"@[0] == 'b' && "border"@[1] == 'o');
    assert("accent"@[0] == 'a' && "accent"@[1] == 'c');
}

/// An override sets the one color its key names, to its value resolved
/// against the base theme, and leaves every other color as it was:
/// `background`/`bg_app` the background, `card`/`bg_card` the card,
/// `foreground`/`fg_app` the text, `muted`/`fg_muted` the muted text,
/// `border`, `accent`, and `danger`/`error`. An entry without a string
/// value, or with any other key, changes nothing.
pub proof fn law_override_key_sets_named_color(
    base: ThemeView,
    start: ThemeView,
    key: Seq<char>,
    raw: Seq<char>,
)
    ensures
        ({
            let r = resolve_token_spec(raw, base);
            &&& apply_entries(base, start, seq![("background"@, Some(raw))]) == (ThemeView { bg_app: r, ..start })
            &&& apply_entries(base, start, seq![("bg_app"@, Some(raw))]) == (ThemeView { bg_app: r, ..start })
            &&& apply_entries(base, start, seq![("card"@, Some(raw))]) == (ThemeView { bg_card: r, ..start })
            &&& apply_entries(base, start, seq![("bg_card"@, Some(raw))]) == (ThemeView { bg_card: r, ..start })
            &&& apply_entries(base, start, seq![("foreground"@, Some(raw))]) == (ThemeView { fg_app: r, ..start })
            &&& apply_entries(base, start, seq![("fg_app"@, Some(raw))]) == (ThemeView { fg_app: r, ..start })
            &&& apply_entries(base, start, seq![("muted"@, Some(raw))]) == (ThemeView { fg_muted: r, ..start })
            &&& apply_entries(base, start, seq![("fg_muted"@, Some(raw))]) == (ThemeView { fg_muted: r, ..start })
            &&& apply_entries(base, start, seq![("border"@, Some(raw))]) == (ThemeView { border: r, ..start })
            &&& apply_entries(base, start, seq![("accent"@, Some(raw))]) == (ThemeView { accent: r, ..start })
            &&& apply_entries(base, start, seq![("danger"@, Some(raw))]) == (ThemeView { danger: r, ..start })
            &&& apply_entries(base, start, seq![("error"@, Some(raw))]) == (ThemeView { danger: r, ..start })
        }),
        apply_entries(base, start, seq![(key, None::<Seq<char>>)]) == start,
        ({
            let known = key == "accent"@
                || key == "background"@
                || key == "bg_app"@
                || key == "card"@
                || key == "bg_card"@
                || key == "foreground"@
                || key == "fg_app"@
                || key == "muted"@
                || key == "fg_muted"@
                || key == "border"@
                || key == "danger"@
                || key == "error"@;
            !known ==> apply_entries(base, start, seq![(key, Some(raw))]) == start
        }),
{
    reveal_strlit("accent");
    reveal_strlit("background");
    reveal_strlit("bg_app");
    reveal_strlit("card");
    reveal_strlit("bg_card");
    reveal_strlit("foreground");
    reveal_strlit("fg_app");
    reveal_strlit("muted");
    reveal_strlit("fg_muted");
    reveal_strlit("border");
    reveal_strlit("danger");
    reveal_strlit("error");
    assert("accent"@[0] == 'a' && "accent"@[1] == 'c');
    assert("background"@[0] == 'b' && "background"@[1] == 'a');
    assert("bg_app"@[0] == 'b' && "bg_app"@[1] == 'g');
    assert("card"@[0] == 'c' && "card"@[1] == 'a');
    assert("bg_card"@[0] == 'b' && "bg_card"@[1] == 'g');
    assert("foreground"@[0] == 'f' && "foreground"@[1] == 'o');
    assert("fg_app"@[0] == 'f' && "fg_app"@[1] == 'g');
    assert("muted"@[0] == 'm' && "muted"@[1] == 'u');
    assert("fg_muted"@[0] == 'f' && "fg_muted"@[1] == 'g');
    assert("border"@[0] == 'b' && "border"@[1] == 'o');
    assert("danger"@[0] == 'd' && "danger"@[1] == 'a');
    assert("error"@[0] == 'e' && "error"@[1] == 'r');
    assert("accent"@.len() == 6);
    assert("background"@.len() == 10);
    assert("bg_app"@.len() == 6);
    assert("card"@.len() == 4);
    assert("bg_card"@.len() == 7);
    assert("foreground"@.len() == 10);
    assert("fg_app"@.len() == 6);
    assert("muted"@.len() == 5);
    assert("fg_muted"@.len() == 8);
    assert("border"@.len() == 6);
    assert("danger"@.len() == 6);
    assert("error"@.len() == 5);
    assert(override_target("accent"@) == 5);
    assert(override_target("background"@) == 0);
    assert(override_target("bg_app"@) == 0);
    assert(override_target("card"@) == 1);
    assert(override_target("bg_card"@) == 1);
    assert(override_target("foreground"@) == 2);
    assert(override_target("fg_app"@) == 2);
    assert(override_target("muted"@) == 3);
    assert(override_target("fg_muted"@) == 3);
    assert(override_target("border"@) == 4);
    assert(override_target("danger"@) == 6);
    assert(override_target("error"@) == 6);
    lemma_apply_single(base, start, "accent"@, Some(raw));
    lemma_apply_single(base, start, "background"@, Some(raw));
    lemma_apply_single(base, start, "bg_app"@, Some(raw));
    lemma_apply_single(base, start, "card"@, Some(raw));
    lemma_apply_single(base, start, "bg_card"@, Some(raw));
    lemma_apply_single(base, start, "foreground"@, Some(raw));
    lemma_apply_single(base, start, "fg_app"@, Some(raw));
    lemma_apply_single(base, start, "muted"@, Some(raw));
    lemma_apply_single(base, start, "fg_muted"@, Some(raw));
    lemma_apply_single(base, start, "border"@, Some(raw));
    lemma_apply_single(base, start, "danger"@, Some(raw));
    lemma_apply_single(base, start, "error"@, Some(raw));
    lemma_apply_single(base, start, key, Some(raw));
    lemma_apply_single(base, start, key, None);
}

/// A `$` reference to a name that is not a color token stands for
/// itself (`$nonexistent` stays `$nonexistent`).
pub proof fn law_unknown_token_is_literal(base: ThemeView, name: Seq<char>)
    ensures
        ({
            let known = name == "foreground"@
                || name == "fg"@
                || name == "fg_app"@
                || name == "primary"@
                || name == "muted"@
                || name == "fg_muted"@
                || name == "secondary"@
                || name == "background"@
                || name == "bg"@
                || name == "bg_app"@
                || name == "card"@
                || name == "bg_card"@
                || name == "border"@
                || name == "accent"@;
            !known ==> resolve_token_spec(seq!['$'] + name, base) == seq!['$'] + name
        }),
{
    assert((seq!['$'] + name).drop_first() =~= name);
}

/// Token references resolve against the base theme, never against an
/// earlier override: after `foreground = x`, `accent = "$foreground"`
/// still takes the base text color, whatever `x` is.
pub proof fn law_tokens_ignore_earlier_overrides(base: ThemeView, x: Seq<char>)
    ensures
        apply_entries(
            base,
            base,
            seq![("foreground"@, Some(x)), ("accent"@, Some("$foreground"@))],
        ).accent == base.fg_app,
{
    law_tokens_name_base_colors(base, x);
    reveal_strlit("foreground");
    reveal_strlit("accent");
    assert("foreground"@.len() == 10 && "accent"@.len() == 6);
    let es = seq![("foreground"@, Some(x)), ("accent"@, Some("$foreground"@))];
    assert(es.drop_last() =~= seq![("foreground"@, Some(x))]);
    lemma_apply_single(base, base, "foreground"@, Some(x));
    assert(override_target("accent"@) == 5);
}

/// Applying one entry sets the color its key names.
proof fn lemma_apply_single(base: ThemeView, start: ThemeView, key: Seq<char>, val: Option<Seq<char>>)
    ensures
        apply_entries(base, start, seq![(key, val)]) == match val {
            Some(raw) => set_color(start, override_target(key), resolve_token_spec(raw, base)),
            None => start,
        },
{
    let es = seq![(key, val)];
    assert(es.drop_last() =~= Seq::<(Seq<char>, Option<Seq<char>>)>::empty());
    assert(es.last() == (key, val));
    assert(apply_entries(base, start, es.drop_last()) == start);
}
} // verus!
