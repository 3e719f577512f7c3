use blitz_py::fetch::{decode_data_url, fetch_action, FetchAction};

#[test]
fn fetch_policy() {
    assert_eq!(fetch_action("data", false), FetchAction::DecodeData);
    assert_eq!(fetch_action("data", true), FetchAction::DecodeData);
    assert_eq!(fetch_action("file", true), FetchAction::ReadFile);
    assert_eq!(fetch_action("file", false), FetchAction::Ignore);
    assert_eq!(fetch_action("https", true), FetchAction::Ignore);
    assert_eq!(fetch_action("DATA", true), FetchAction::Ignore);
}

#[test]
fn data_url_percent_encoded_body() {
    assert_eq!(decode_data_url("data:,Hello%20World!"), Some(b"Hello World!".to_vec()));
}

#[test]
fn data_url_base64_body() {
    assert_eq!(decode_data_url("data:text/plain;base64,aGVsbG8="), Some(b"hello".to_vec()));
}

#[test]
fn data_url_refused() {
    assert_eq!(decode_data_url("http://example.com/a.png"), None);
    assert_eq!(decode_data_url("data:text/plain"), None);
    assert_eq!(decode_data_url("data:;base64,%%%"), None);
}

#[test]
fn data_url_scheme_case_and_leading_space() {
    assert_eq!(decode_data_url("  DaTa:,hi"), Some(b"hi".to_vec()));
    assert_eq!(decode_data_url("da\tta:text/plain,hi"), Some(b"hi".to_vec()));
}

#[test]
fn data_url_comma_after_fragment_is_refused() {
    assert_eq!(decode_data_url("data:text/plain#,hi"), None);
}
