use base64::engine::general_purpose;
use base64::Engine;
use imagepreview::error::GridError;
use imagepreview::fetch::collect_downloads;
use imagepreview::source_list::{decode_source_list, split_sources, trim_chars};

fn transport_error() -> reqwest::Error {
    reqwest::Client::new().get("not a url").build().unwrap_err()
}

#[test]
fn standard_payload_lists_urls() {
    let payload = general_purpose::STANDARD.encode("http://a.test/1.png,http://b.test/2.jpg");
    let urls = decode_source_list(&payload).unwrap();
    assert_eq!(urls, vec!["http://a.test/1.png".to_string(), "http://b.test/2.jpg".to_string()]);
}

#[test]
fn url_safe_unpadded_payload_falls_back() {
    let text = "http://a.test/x?q=>>>,http://b.test/y";
    let unpadded = general_purpose::URL_SAFE_NO_PAD.encode(text);
    let standard = general_purpose::STANDARD.encode(text);
    assert!(general_purpose::STANDARD.decode(&unpadded).is_err());
    let from_fallback = decode_source_list(&unpadded).unwrap();
    let from_standard = decode_source_list(&standard).unwrap();
    assert_eq!(from_fallback, from_standard);
    assert_eq!(from_fallback, vec!["http://a.test/x?q=>>>".to_string(), "http://b.test/y".to_string()]);
}

#[test]
fn url_safe_padded_payload_falls_back() {
    let text = "http://c.test/?a=>>";
    let padded = general_purpose::URL_SAFE.encode(text);
    assert!(general_purpose::STANDARD.decode(&padded).is_err());
    assert_eq!(decode_source_list(&padded).unwrap(), vec![text.to_string()]);
}

#[test]
fn bad_base64_is_refused() {
    let result = decode_source_list("@@@@");
    assert!(matches!(result, Err(GridError::Base64DecodeError(_))));
}

#[test]
fn bad_utf8_is_refused() {
    let payload = general_purpose::STANDARD.encode([0xffu8, 0xfe, 0x41]);
    let result = decode_source_list(&payload);
    assert!(matches!(result, Err(GridError::Utf8Error(_))));
}

#[test]
fn pieces_are_trimmed_and_empty_ones_dropped() {
    let urls = split_sources(&" a ,\t, b\u{3000}c ,,\n".to_string());
    assert_eq!(urls, vec!["a".to_string(), "b\u{3000}c".to_string()]);
}

#[test]
fn commas_only_list_nothing() {
    let payload = general_purpose::STANDARD.encode(" , ,, ");
    let urls = decode_source_list(&payload).unwrap();
    assert!(urls.is_empty());
    assert!(matches!(collect_downloads(Vec::new()), Err(GridError::EmptyInput)));
}

#[test]
fn trimming_strips_both_ends() {
    let s: Vec<char> = "\u{a0} x y \r\n".chars().collect();
    assert_eq!(trim_chars(&s), vec!['x', ' ', 'y']);
    let blank: Vec<char> = "  \t ".chars().collect();
    assert!(trim_chars(&blank).is_empty());
}

#[test]
fn downloads_keep_their_order() {
    let results = vec![Ok(vec![1u8]), Ok(vec![2u8, 3]), Ok(Vec::new())];
    let bytes = collect_downloads(results).unwrap();
    assert_eq!(bytes, vec![vec![1u8], vec![2u8, 3], Vec::new()]);
}

#[test]
fn one_failed_fetch_fails_all() {
    let results = vec![Ok(vec![1u8]), Err(transport_error()), Ok(vec![2u8])];
    let result = collect_downloads(results);
    assert!(matches!(result, Err(GridError::DownloadError(_))));
}

#[test]
fn no_downloads_is_empty_input() {
    let result = collect_downloads(Vec::new());
    assert!(matches!(result, Err(GridError::EmptyInput)));
}
