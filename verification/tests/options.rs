use lunaris_portal::options::{
    bytes_to_path, filter_to_value, read_bool, read_current_filter, read_filters, read_path_bytes,
    read_path_bytes_array, read_string, tuple_to_filter, OptionValue, PortalOptions,
};
use lunaris_portal::protocol::{FileFilter, FilterPattern};

fn opts(items: Vec<(&'static str, OptionValue)>) -> PortalOptions {
    let mut m = PortalOptions::new();
    for (k, v) in items {
        m.insert(k.to_string(), v);
    }
    m
}

#[test]
fn bool_options() {
    let m = opts(vec![("multiple", OptionValue::Bool(true))]);
    assert!(read_bool(&m, "multiple", false));
    assert!(!read_bool(&m, "directory", false));
    assert!(read_bool(&m, "modal", true));
}

#[test]
fn string_options() {
    let m = opts(vec![
        ("current_name", OptionValue::Str("draft.txt".to_string())),
        ("accept_label", OptionValue::Str(String::new())),
    ]);
    assert_eq!(read_string(&m, "current_name"), Some("draft.txt".into()));
    assert_eq!(read_string(&m, "accept_label"), None);
    assert_eq!(read_string(&m, "missing"), None);
}

#[test]
fn path_bytes_options() {
    let m = opts(vec![
        ("current_folder", OptionValue::Bytes(b"/home/user/Documents\0".to_vec())),
        ("no_nul", OptionValue::Bytes(b"/tmp/x".to_vec())),
    ]);
    assert_eq!(
        read_path_bytes(&m, "current_folder"),
        Some(b"/home/user/Documents".to_vec())
    );
    assert_eq!(read_path_bytes(&m, "no_nul"), Some(b"/tmp/x".to_vec()));
    assert_eq!(read_path_bytes(&m, "missing"), None);
}

fn filter_tuple(name: &str, patterns: Vec<(u32, &str)>) -> (String, Vec<(u32, String)>) {
    (
        name.to_string(),
        patterns.into_iter().map(|(k, p)| (k, p.to_string())).collect(),
    )
}

#[test]
fn filters_round_trip() {
    let m = opts(vec![(
        "filters",
        OptionValue::Filters(vec![
            filter_tuple("Images", vec![(0, "*.png"), (1, "image/jpeg")]),
            filter_tuple("All files", vec![(0, "*")]),
        ]),
    )]);
    let parsed = read_filters(&m);
    assert_eq!(parsed.len(), 2);
    assert_eq!(parsed[0].name, "Images");
    assert_eq!(parsed[0].patterns.len(), 2);
    assert_eq!(
        parsed[0].patterns[0],
        FilterPattern::Glob {
            pattern: "*.png".into()
        }
    );
    assert_eq!(
        parsed[0].patterns[1],
        FilterPattern::Mime {
            mime_type: "image/jpeg".into()
        }
    );
}

#[test]
fn filters_drops_unknown_kinds() {
    let m = opts(vec![(
        "filters",
        OptionValue::Filters(vec![filter_tuple("Mixed", vec![(0, "*.txt"), (99, "weird")])]),
    )]);
    let parsed = read_filters(&m);
    assert_eq!(parsed.len(), 1);
    assert_eq!(parsed[0].patterns.len(), 1);
}

#[test]
fn current_filter_round_trip() {
    let m = opts(vec![(
        "current_filter",
        OptionValue::Filter(filter_tuple("Documents", vec![(0, "*.pdf")])),
    )]);
    let parsed = read_current_filter(&m).unwrap();
    assert_eq!(parsed.name, "Documents");
    assert_eq!(
        parsed.patterns,
        vec![FilterPattern::Glob {
            pattern: "*.pdf".into()
        }]
    );
}

#[test]
fn filter_round_trip_through_value() {
    let filter = FileFilter {
        name: "Images".into(),
        patterns: vec![
            FilterPattern::Glob {
                pattern: "*.png".into(),
            },
            FilterPattern::Mime {
                mime_type: "image/png".into(),
            },
        ],
    };
    let value = filter_to_value(&filter);
    let m = opts(vec![("current_filter", OptionValue::Filter(value))]);
    let parsed = read_current_filter(&m).unwrap();
    assert_eq!(parsed, filter);
}

#[test]
fn wrong_types_read_as_absent() {
    let m = opts(vec![
        ("multiple", OptionValue::Str("yes".into())),
        ("current_name", OptionValue::Bool(true)),
        ("current_folder", OptionValue::Other),
        ("filters", OptionValue::Filter(filter_tuple("One", vec![]))),
        ("current_filter", OptionValue::Filters(vec![])),
    ]);
    assert!(!read_bool(&m, "multiple", false));
    assert_eq!(read_string(&m, "current_name"), None);
    assert_eq!(read_path_bytes(&m, "current_folder"), None);
    assert!(read_filters(&m).is_empty());
    assert!(read_current_filter(&m).is_none());
}

#[test]
fn later_insert_replaces_value() {
    let mut m = PortalOptions::new();
    m.insert("modal".into(), OptionValue::Bool(true));
    m.insert("modal".into(), OptionValue::Bool(false));
    assert!(!read_bool(&m, "modal", true));
    assert!(m.contains_key("modal"));
    assert!(!m.contains_key("multiple"));
}

#[test]
fn path_list_skips_empty_entries() {
    let m = opts(vec![(
        "files",
        OptionValue::ByteArrays(vec![b"/a\0".to_vec(), b"\0".to_vec(), b"/b".to_vec()]),
    )]);
    assert_eq!(read_path_bytes_array(&m, "files"), vec![b"/a".to_vec(), b"/b".to_vec()]);
    assert!(read_path_bytes_array(&m, "missing").is_empty());
}

#[test]
fn nul_stripping_is_single() {
    assert_eq!(bytes_to_path(b"/x\0\0"), Some(b"/x\0".to_vec()));
    assert_eq!(bytes_to_path(b""), None);
    assert_eq!(bytes_to_path(b"\0"), None);
}

#[test]
fn tuple_to_filter_keeps_order() {
    let (name, pats) = filter_tuple("F", vec![(1, "a/b"), (2, "x"), (0, "*.c")]);
    let f = tuple_to_filter(name, pats);
    assert_eq!(
        f.patterns,
        vec![
            FilterPattern::Mime { mime_type: "a/b".into() },
            FilterPattern::Glob { pattern: "*.c".into() }
        ]
    );
}
