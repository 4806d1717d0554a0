use lunaris_portal::paths::{picker_socket_dir, picker_socket_path, socket_preparation, SocketPrep};
use lunaris_portal::pending::{PendingRequests, ReserveError};
use lunaris_portal::protocol::{request_handle, response_handle, ui_action, PickerRequest, PickerResponse, UiAction};

#[test]
fn request_handle_covers_all_variants() {
    let h1 = PickerRequest::OpenFile {
        handle: "h1".into(),
        app_id: "".into(),
        title: "".into(),
        filters: vec![],
        current_filter: None,
        multiple: false,
        modal: false,
        directory: false,
        current_folder: None,
        parent_window: None,
    };
    assert_eq!(request_handle(&h1), "h1");

    let h2 = PickerRequest::SaveFile {
        handle: "h2".into(),
        app_id: "".into(),
        title: "".into(),
        filters: vec![],
        current_filter: None,
        current_name: None,
        current_folder: None,
        current_file: None,
        parent_window: None,
    };
    assert_eq!(request_handle(&h2), "h2");

    let h3 = PickerRequest::SaveFiles {
        handle: "h3".into(),
        app_id: "".into(),
        title: "".into(),
        files: vec![],
        current_folder: None,
        parent_window: None,
    };
    assert_eq!(request_handle(&h3), "h3");

    let h4 = PickerRequest::Cancel { handle: "h4".into() };
    assert_eq!(request_handle(&h4), "h4");
}

#[test]
fn response_handle_covers_all_variants() {
    let r1 = PickerResponse::Picked { handle: "a".into(), paths: vec!["/x".into()], current_filter: None };
    let r2 = PickerResponse::Cancelled { handle: "b".into() };
    let r3 = PickerResponse::Error { handle: "c".into(), message: "boom".into() };
    assert_eq!(response_handle(&r1), "a");
    assert_eq!(response_handle(&r2), "b");
    assert_eq!(response_handle(&r3), "c");
}

#[test]
fn reserve_rejects_duplicate_handle() {
    let mut p: PendingRequests<u32> = PendingRequests::new();
    assert!(p.is_empty());
    assert_eq!(p.reserve("h".into(), 1), Ok(()));
    assert_eq!(p.reserve("h".into(), 2), Err(ReserveError::DuplicateHandle));
    assert_eq!(p.take("h"), Some(1));
    assert!(p.is_empty());
}

#[test]
fn response_goes_to_the_slot_of_its_handle() {
    let mut p: PendingRequests<&str> = PendingRequests::new();
    p.reserve("one".into(), "first waiter").unwrap();
    p.reserve("two".into(), "second waiter").unwrap();
    let resp = PickerResponse::Cancelled { handle: "two".into() };
    match p.deliver(resp) {
        Some((w, PickerResponse::Cancelled { handle })) => {
            assert_eq!(w, "second waiter");
            assert_eq!(handle, "two");
        }
        other => panic!("unexpected {other:?}"),
    }
    let stale = PickerResponse::Error { handle: "two".into(), message: "late".into() };
    assert!(p.deliver(stale).is_none());
    assert!(!p.is_empty());
}

#[test]
fn drain_returns_every_open_slot_once() {
    let mut p: PendingRequests<u8> = PendingRequests::new();
    p.reserve("a".into(), 1).unwrap();
    p.reserve("b".into(), 2).unwrap();
    p.reserve("c".into(), 3).unwrap();
    assert_eq!(p.take("b"), Some(2));
    let mut all = p.drain();
    all.sort();
    assert_eq!(all, vec![("a".to_string(), 1), ("c".to_string(), 3)]);
    assert!(p.is_empty());
    assert_eq!(p.take("a"), None);
}

#[test]
fn socket_path_under_runtime_dir() {
    assert_eq!(picker_socket_dir(&b"/run/user/1000".to_vec()), b"/run/user/1000/lunaris".to_vec());
    assert_eq!(
        picker_socket_path(&b"/run/user/1000".to_vec()),
        b"/run/user/1000/lunaris/portal-picker.sock".to_vec()
    );
    assert_eq!(
        picker_socket_path(&b"/run/user/1000/".to_vec()),
        b"/run/user/1000/lunaris/portal-picker.sock".to_vec()
    );
}

#[test]
fn cancel_hides_other_requests_show() {
    let cancel = PickerRequest::Cancel { handle: "h9".into() };
    assert_eq!(ui_action(&cancel), UiAction::Hide { handle: "h9".into() });
    let save = PickerRequest::SaveFiles {
        handle: "h".into(),
        app_id: "".into(),
        title: "".into(),
        files: vec!["a.txt".into()],
        current_folder: None,
        parent_window: None,
    };
    assert_eq!(ui_action(&save), UiAction::Show);
}

#[test]
fn disconnect_cancels_every_pending_request() {
    let mut p: PendingRequests<u8> = PendingRequests::new();
    p.reserve("x".into(), 1).unwrap();
    p.reserve("y".into(), 2).unwrap();
    let mut answers: Vec<(u8, String)> = p
        .cancel_all()
        .into_iter()
        .map(|(w, r)| match r {
            PickerResponse::Cancelled { handle } => (w, handle),
            other => panic!("unexpected {other:?}"),
        })
        .collect();
    answers.sort();
    assert_eq!(answers, vec![(1, "x".to_string()), (2, "y".to_string())]);
    assert!(p.is_empty());
    assert!(p.cancel_all().is_empty());
}

#[test]
fn socket_start_binds_when_nothing_is_there() {
    assert_eq!(socket_preparation(false, false), SocketPrep::Bind);
}

#[test]
fn socket_start_removes_a_stale_socket() {
    assert_eq!(socket_preparation(true, true), SocketPrep::RemoveStaleThenBind);
}

#[test]
fn socket_start_refuses_a_regular_file() {
    assert_eq!(socket_preparation(true, false), SocketPrep::Refuse);
}
