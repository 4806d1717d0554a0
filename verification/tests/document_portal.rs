use lunaris_portal::document_portal::{
    assemble_uri, bytes_to_pathbuf, document_uris, export_file_name, export_permissions,
    mount_point, save_target, ExportError,
};

#[test]
fn assemble_uri_basic() {
    let mount = b"/run/user/1000/doc".to_vec();
    let uri = assemble_uri(&mount, "abc123", "report.pdf");
    assert_eq!(uri, "file:///run/user/1000/doc/abc123/report.pdf");
}

#[test]
fn assemble_uri_reserved_chars_in_filename() {
    let mount = b"/run/user/1000/doc".to_vec();
    let uri = assemble_uri(&mount, "x1", "weird#file?.txt");
    assert_eq!(uri, "file:///run/user/1000/doc/x1/weird%23file%3F.txt");
}

#[test]
fn assemble_uri_space_in_mount() {
    let mount = b"/tmp/with space/doc".to_vec();
    let uri = assemble_uri(&mount, "id", "f.txt");
    assert_eq!(uri, "file:///tmp/with%20space/doc/id/f.txt");
}

#[test]
fn bytes_to_pathbuf_rejects_empty() {
    assert!(bytes_to_pathbuf(b"").is_none());
    assert!(bytes_to_pathbuf(b"\0").is_none());
}

#[test]
fn bytes_to_pathbuf_strips_trailing_nul() {
    assert_eq!(
        bytes_to_pathbuf(b"/run/user/1000/doc\0"),
        Some(b"/run/user/1000/doc".to_vec())
    );
    assert_eq!(
        bytes_to_pathbuf(b"/run/user/1000/doc"),
        Some(b"/run/user/1000/doc".to_vec())
    );
}

#[test]
fn assemble_uri_encodes_non_ascii_and_controls() {
    let mount = b"/doc/".to_vec();
    let uri = assemble_uri(&mount, "id", "caf\u{e9} 100%\t{x}.txt");
    assert_eq!(uri, "file:///doc/id/caf%C3%A9%20100%25%09%7Bx%7D.txt");
}

#[test]
fn assemble_uri_replaces_invalid_utf8_in_mount() {
    let mount = vec![b'/', 0xff, b'd'];
    let uri = assemble_uri(&mount, "i", "f");
    assert_eq!(uri, "file:///%EF%BF%BDd/i/f");
}

#[test]
fn permissions_follow_writable() {
    assert_eq!(export_permissions(false), vec!["read"]);
    assert_eq!(export_permissions(true), vec!["read", "write"]);
}

#[test]
fn mount_point_must_not_be_empty() {
    assert_eq!(mount_point(b"\0"), Err(ExportError::EmptyMountPoint));
    assert_eq!(mount_point(b"/run/user/1/doc\0"), Ok(b"/run/user/1/doc".to_vec()));
}

#[test]
fn export_names_and_targets() {
    assert_eq!(export_file_name("/home/u/a.txt"), Ok("a.txt".to_string()));
    assert_eq!(
        export_file_name("/"),
        Err(ExportError::NoFileName { path: "/".into() })
    );
    assert_eq!(
        export_file_name("/home/.."),
        Err(ExportError::NoFileName { path: "/home/..".into() })
    );
    let t = save_target("/home/u/new.txt").unwrap();
    assert_eq!(t.parent, "/home/u");
    assert_eq!(t.file_name, "new.txt");
    assert_eq!(t.file_name_bytes, b"new.txt\0".to_vec());
    assert!(matches!(save_target("/"), Err(ExportError::NoParent { .. })));
}

#[test]
fn document_uris_pair_ids_with_names() {
    let mount = b"/run/user/1000/doc".to_vec();
    let uris = document_uris(
        &mount,
        &vec!["a1".into(), "b2".into()],
        &vec!["x.png".into(), "y z.png".into()],
    )
    .unwrap();
    assert_eq!(
        uris,
        vec![
            "file:///run/user/1000/doc/a1/x.png".to_string(),
            "file:///run/user/1000/doc/b2/y%20z.png".to_string()
        ]
    );
    assert_eq!(
        document_uris(&mount, &vec!["a1".into()], &vec![]),
        Err(ExportError::DocIdCountMismatch { doc_ids: 1, files: 0 })
    );
}
