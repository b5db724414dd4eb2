use nitro::headers::{default_headers, ReplyHeaders};
use reqwest::header::{HeaderMap, HeaderValue};

#[test]
fn every_request_passes_for_one_of_a_browser() {
    let headers = default_headers();
    let expected = [
        ("user-agent", "Mozilla/5.0 (Windows NT 10.0; Win64; x64) AppleWebKit/537.36 (KHTML, like Gecko) Chrome/121.0.0.0 Safari/537.36"),
        ("sec-ch-ua", "\"Not A(Machine;Brand\";v=\"99\", \"Google Chrome\";v=\"121\", \"Chromium\";v=\"121\""),
        ("sec-ch-ua-mobile", "?0"),
        ("sec-ch-ua-platform", "\"Windows\""),
        ("accept", "text/html,application/xhtml+xml,application/xml;q=0.9,image/webp,*/*;q=0.8"),
        ("accept-language", "en-US,en;q=0.9"),
        ("accept-encoding", "gzip, deflate, br"),
        ("dnt", "1"),
        ("connection", "keep-alive"),
        ("upgrade-insecure-requests", "1"),
    ];
    assert_eq!(headers.len(), expected.len());
    for (name, value) in expected {
        assert_eq!(headers.get(name).unwrap(), value);
        assert_eq!(headers.get_all(name).iter().count(), 1);
    }
}

#[test]
fn the_headers_that_matter_are_taken_out_of_an_answer() {
    let mut map = HeaderMap::new();
    map.insert("Content-Range", HeaderValue::from_static("bytes 0-0/1234567"));
    map.insert("ETag", HeaderValue::from_static("\"abc123\""));
    map.append("Accept-Ranges", HeaderValue::from_static("bytes"));
    map.append("Accept-Ranges", HeaderValue::from_static("none"));
    map.insert("Server", HeaderValue::from_static("nginx"));
    let reply = ReplyHeaders::from_map(&map);
    assert_eq!(reply.content_range.as_deref(), Some(&b"bytes 0-0/1234567"[..]));
    assert_eq!(reply.content_length, None);
    assert_eq!(reply.accept_ranges.as_deref(), Some(&b"bytes"[..]));
    assert_eq!(reply.etag.as_deref(), Some(&b"\"abc123\""[..]));
    assert_eq!(reply.size_of_range(), Some(1234567));
    assert_eq!(reply.length(), None);
    assert_eq!(reply.entity_tag().as_deref(), Some("\"abc123\""));
    assert!(reply.accepts_ranges(false));
}

fn with(range: Option<&str>, length: Option<&str>) -> ReplyHeaders {
    ReplyHeaders {
        content_range: range.map(|s| s.as_bytes().to_vec()),
        content_length: length.map(|s| s.as_bytes().to_vec()),
        accept_ranges: None,
        etag: None,
    }
}

#[test]
fn sizes_are_read_as_stated() {
    assert_eq!(with(Some("bytes 0-0/1234567"), None).size_of_range(), Some(1234567));
    assert_eq!(with(Some("bytes 0-0/*"), None).size_of_range(), None);
    assert_eq!(with(Some("bytes 0-0"), None).size_of_range(), None);
    assert_eq!(with(Some("bytes 0-0/5/6"), None).size_of_range(), Some(5));
    assert_eq!(with(Some("bytes 0-0/ 5"), None).size_of_range(), None);
    assert_eq!(with(None, None).size_of_range(), None);
    assert_eq!(with(None, Some("1073741824")).length(), Some(1073741824));
    assert_eq!(with(None, Some("12a")).length(), None);
    assert_eq!(with(None, Some("")).length(), None);
    assert_eq!(with(None, None).length(), None);
}

#[test]
fn values_that_are_not_text_are_left_out() {
    let mut reply = with(None, None);
    reply.etag = Some(vec![b'"', 0xe9, b'"']);
    assert_eq!(reply.entity_tag(), None);
    reply.etag = Some(vec![b'a', 127]);
    assert_eq!(reply.entity_tag(), None);
    reply.etag = Some(vec![b'a', 0]);
    assert_eq!(reply.entity_tag(), None);
    reply.etag = Some(vec![b'a', 9, b' ', b'~']);
    assert_eq!(reply.entity_tag().as_deref(), Some("a\t ~"));
    reply.content_length = Some(vec![b'1', 0x80]);
    assert_eq!(reply.length(), None);
}

#[test]
fn ranges_are_accepted_only_in_bytes() {
    let mut reply = with(None, None);
    assert!(reply.accepts_ranges(true));
    assert!(!reply.accepts_ranges(false));
    reply.accept_ranges = Some(b"none".to_vec());
    assert!(!reply.accepts_ranges(true));
    reply.accept_ranges = Some(b"bytes ".to_vec());
    assert!(!reply.accepts_ranges(true));
    reply.accept_ranges = Some(b"Bytes".to_vec());
    assert!(!reply.accepts_ranges(true));
    reply.accept_ranges = Some(b"bytes".to_vec());
    assert!(reply.accepts_ranges(false));
}
