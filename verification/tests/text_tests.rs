use hike::encoding::chars_of;
use hike::encoding::encode_string;
use hike::encoding::lossy_string;
use hike::encoding::string_of;
use hike::request::parse_request_url;
use hike::text::contains_chars;
use hike::text::replace_chars;

fn cv(s: &str) -> Vec<char> {
    s.chars().collect()
}

#[test]
fn contains_finds_marker() {
    assert!(contains_chars(&cv("Time: {{TIME}}"), &cv("{{TIME}}")));
    assert!(contains_chars(&cv("abc"), &cv("abc")));
    assert!(contains_chars(&cv("abc"), &cv("b")));
}

#[test]
fn contains_misses_absent_marker() {
    assert!(!contains_chars(&cv("Time: now"), &cv("{{TIME}}")));
    assert!(!contains_chars(&cv("ab"), &cv("abc")));
    assert!(!contains_chars(&cv(""), &cv("a")));
}

#[test]
fn contains_empty_marker_everywhere() {
    assert!(contains_chars(&cv(""), &cv("")));
    assert!(contains_chars(&cv("xyz"), &cv("")));
}

#[test]
fn replace_all_occurrences_once_each() {
    let out = replace_chars(&cv("Time: {{TIME}} {{TIME}}"), &cv("{{TIME}}"), &cv("12:00"));
    assert_eq!(string_of(&out), "Time: 12:00 12:00");
}

#[test]
fn replace_scans_left_to_right_without_overlap() {
    assert_eq!(string_of(&replace_chars(&cv("aaa"), &cv("aa"), &cv("b"))), "ba");
    assert_eq!(string_of(&replace_chars(&cv("aaaa"), &cv("aa"), &cv("b"))), "bb");
}

#[test]
fn replace_with_empty_value_deletes() {
    assert_eq!(string_of(&replace_chars(&cv("a-b-c"), &cv("-"), &cv(""))), "abc");
}

#[test]
fn replace_absent_marker_keeps_content() {
    assert_eq!(string_of(&replace_chars(&cv("abc"), &cv("zz"), &cv("y"))), "abc");
}

#[test]
fn replace_empty_marker_keeps_content() {
    assert_eq!(string_of(&replace_chars(&cv("abc"), &cv(""), &cv("y"))), "abc");
}

#[test]
fn parse_takes_second_token() {
    assert_eq!(parse_request_url(&cv("GET /index.html HTTP/1.1\r\n")), Some(
        "/index.html".to_string(),
    ));
    assert_eq!(parse_request_url(&cv("GET / HTTP/1.1\r\nHost: x\r\n\r\n")), Some(
        "/".to_string(),
    ));
}

#[test]
fn parse_handles_padded_buffer() {
    let mut buffer = String::from("GET /a HTTP/1.1");
    buffer.push_str(&"\u{0}".repeat(16));
    assert_eq!(parse_request_url(&cv(&buffer)), Some("/a".to_string()));
}

#[test]
fn parse_rejects_short_requests() {
    assert_eq!(parse_request_url(&cv("")), None);
    assert_eq!(parse_request_url(&cv("GET")), None);
    assert_eq!(parse_request_url(&cv("GET   \r\n")), None);
    assert_eq!(parse_request_url(&cv("   ")), None);
}

#[test]
fn chars_and_string_round_trip() {
    assert_eq!(chars_of("hi"), vec!['h', 'i']);
    assert_eq!(string_of(&vec!['h', 'i']), "hi");
    assert_eq!(string_of(&Vec::new()), "");
}

#[test]
fn lossy_decoding_replaces_invalid_bytes() {
    assert_eq!(lossy_string(&vec![0x61, 0xFF, 0x62]), "a\u{FFFD}b");
    assert_eq!(lossy_string(&b"plain".to_vec()), "plain");
    assert_eq!(lossy_string(&Vec::new()), "");
}

#[test]
fn encoding_yields_utf8_bytes() {
    assert_eq!(encode_string("ab"), b"ab".to_vec());
    assert_eq!(encode_string("\u{20AC}"), vec![0xE2, 0x82, 0xAC]);
}
