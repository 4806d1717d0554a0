use lunaris_portal::interfaces::{stub_reply, stub_results, STUB_ERROR_KEY};
use lunaris_portal::options::{read_string, OptionValue};
use lunaris_portal::request::response;

#[test]
fn file_chooser_stub_results_carries_sentinel() {
    let r = stub_results("OpenFile");
    assert!(r.contains_key(STUB_ERROR_KEY));
}

#[test]
fn open_uri_stub_results_carries_sentinel() {
    let r = stub_results("OpenURI");
    assert!(r.contains_key(STUB_ERROR_KEY));
}

#[test]
fn stub_reply_is_backend_failure_with_message() {
    let (code, results) = stub_reply("SaveFiles");
    assert_eq!(code, response::OTHER);
    assert_eq!(
        read_string(&results, STUB_ERROR_KEY),
        Some("F1 stub for SaveFiles; backend not yet implemented".to_string())
    );
    assert!(matches!(results.get(STUB_ERROR_KEY), Some(OptionValue::Str(_))));
}
