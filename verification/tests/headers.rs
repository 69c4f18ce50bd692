use pr0dl::headers::header_str;
use reqwest::header::{HeaderMap, HeaderValue, REFERER, RETRY_AFTER};

#[test]
fn text_of_a_header() {
    let mut headers = HeaderMap::new();
    headers.insert(RETRY_AFTER, HeaderValue::from_static("120"));
    headers.insert(REFERER, HeaderValue::from_bytes(b"a\xe4").unwrap());
    assert_eq!(header_str(&headers, "retry-after"), Some("120"));
    assert_eq!(header_str(&headers, "referer"), None);
    assert_eq!(header_str(&headers, "cookie"), None);
}
