use std::cell::Cell;
use std::rc::Rc;

use hike::request::parse_request_url;
use hike::resolve::get_path;
use hike::server::frame_response;
use hike::server::Anchor;
use hike::server::DynamicPage;
use hike::server::HttpStatus;
use hike::server::PageCallback;
use hike::server::Server;

/// Returns fixed text and counts how often it was invoked.
struct Counting {
    calls: Rc<Cell<usize>>,
    text: String,
}

impl PageCallback for Counting {
    fn produce(&self) -> String {
        self.calls.set(self.calls.get() + 1);
        self.text.clone()
    }
}

fn counting_server(url: &str, marker: &str, text: &str) -> (Server<Counting>, Rc<Cell<usize>>) {
    let calls = Rc::new(Cell::new(0));
    let mut server: Server<Counting> = Server::new("127.0.0.1".to_string(), 8080);
    server.insert_dynamic_page(DynamicPage {
        url: url.to_string(),
        anchors: vec![Anchor {
            marker: marker.to_string(),
            function: Counting { calls: Rc::clone(&calls), text: text.to_string() },
        }],
    });
    (server, calls)
}

#[test]
fn static_file_passes_through_untouched() {
    let server: Server<Counting> = Server::new("127.0.0.1".to_string(), 8080);
    let content = b"<html>{{TIME}}</html>".to_vec();
    let (status, body) = server.respond(&"/page.html".to_string(), Some(content.clone()));
    assert_eq!(status, HttpStatus::Okay);
    assert_eq!(body, content);
}

#[test]
fn unmatched_url_passes_through_untouched() {
    let (server, calls) = counting_server("/status", "{{TIME}}", "12:00");
    let content = b"Time: {{TIME}}".to_vec();
    let (status, body) = server.respond(&"/other".to_string(), Some(content.clone()));
    assert_eq!(status, HttpStatus::Okay);
    assert_eq!(body, content);
    assert_eq!(calls.get(), 0);
}

#[test]
fn missing_file_gets_404_and_empty_body() {
    let server: Server<Counting> = Server::new("127.0.0.1".to_string(), 8080);
    let (status, body) = server.respond(&"/missing.txt".to_string(), None);
    assert_eq!(status, HttpStatus::NotFound);
    assert!(body.is_empty());
}

#[test]
fn missing_file_stays_empty_with_dynamic_page() {
    let (server, calls) = counting_server("/status", "{{TIME}}", "12:00");
    let (status, body) = server.respond(&"/status".to_string(), None);
    assert_eq!(status, HttpStatus::NotFound);
    assert!(body.is_empty());
    assert_eq!(calls.get(), 0);
}

#[test]
fn marker_substituted_at_every_occurrence_one_call() {
    let (server, calls) = counting_server("/status", "{{TIME}}", "12:00");
    let content = b"Time: {{TIME}}, again {{TIME}}.".to_vec();
    let (status, body) = server.respond(&"/status".to_string(), Some(content));
    assert_eq!(status, HttpStatus::Okay);
    assert_eq!(body, b"Time: 12:00, again 12:00.".to_vec());
    assert_eq!(calls.get(), 1);
}

#[test]
fn absent_marker_never_invokes_callback() {
    let (server, calls) = counting_server("/status", "{{TIME}}", "12:00");
    let content = b"no markers here".to_vec();
    let (status, body) = server.respond(&"/status".to_string(), Some(content.clone()));
    assert_eq!(status, HttpStatus::Okay);
    assert_eq!(body, content);
    assert_eq!(calls.get(), 0);
}

#[test]
fn dynamic_page_content_is_decoded_lossily() {
    let (server, calls) = counting_server("/status", "{{TIME}}", "12:00");
    let content = vec![0x61, 0xFF, 0x62];
    let (status, body) = server.respond(&"/status".to_string(), Some(content));
    assert_eq!(status, HttpStatus::Okay);
    assert_eq!(body, "a\u{FFFD}b".as_bytes().to_vec());
    assert_eq!(calls.get(), 0);
}

#[test]
fn anchors_apply_in_registration_order() {
    let calls = Rc::new(Cell::new(0));
    let mut server: Server<Counting> = Server::new("127.0.0.1".to_string(), 8080);
    server.insert_dynamic_page(DynamicPage {
        url: "/".to_string(),
        anchors: vec![
            Anchor {
                marker: "<!-- [a] -->".to_string(),
                function: Counting { calls: Rc::clone(&calls), text: "first".to_string() },
            },
            Anchor {
                marker: "<!-- [b] -->".to_string(),
                function: Counting { calls: Rc::clone(&calls), text: "second".to_string() },
            },
        ],
    });
    let content = b"<!-- [a] --> <!-- [b] -->".to_vec();
    let (_, body) = server.respond(&"/".to_string(), Some(content));
    assert_eq!(body, b"first second".to_vec());
    assert_eq!(calls.get(), 2);
}

#[test]
fn first_registered_page_wins() {
    let calls = Rc::new(Cell::new(0));
    let mut server: Server<Counting> = Server::new("127.0.0.1".to_string(), 8080);
    server.insert_dynamic_page(DynamicPage {
        url: "/".to_string(),
        anchors: vec![Anchor {
            marker: "X".to_string(),
            function: Counting { calls: Rc::clone(&calls), text: "one".to_string() },
        }],
    });
    server.insert_dynamic_page(DynamicPage {
        url: "/".to_string(),
        anchors: vec![Anchor {
            marker: "X".to_string(),
            function: Counting { calls: Rc::clone(&calls), text: "two".to_string() },
        }],
    });
    let (_, body) = server.respond(&"/".to_string(), Some(b"X".to_vec()));
    assert_eq!(body, b"one".to_vec());
    assert_eq!(calls.get(), 1);
}

#[test]
fn frame_prepends_status_line_and_blank_line() {
    let ok = frame_response(HttpStatus::Okay, &b"hi".to_vec());
    assert_eq!(ok, b"HTTP/1.1 200 OK\r\n\r\nhi".to_vec());
    let missing = frame_response(HttpStatus::NotFound, &Vec::new());
    assert_eq!(missing, b"HTTP/1.1 404 Not Found\r\n\r\n".to_vec());
}

#[test]
fn plain_index_request_served_end_to_end() {
    let server: Server<Counting> = Server::new("127.0.0.1".to_string(), 8080);
    let request: Vec<char> = "GET / HTTP/1.1\r\n\r\n".chars().collect();
    let url = parse_request_url(&request).unwrap();
    assert_eq!(url, "/");
    let path = get_path(&url, server.current_std_page(), &"root".to_string(), false);
    assert_eq!(path, "root/index.html");
    let content = b"<html>hello</html>".to_vec();
    let (status, body) = server.respond(&url, Some(content.clone()));
    assert_eq!(status, HttpStatus::Okay);
    assert_eq!(body, content);
    let wire = frame_response(status, &body);
    assert_eq!(wire, b"HTTP/1.1 200 OK\r\n\r\n<html>hello</html>".to_vec());
}

#[test]
fn dynamic_status_page_served_end_to_end() {
    let (server, calls) = counting_server("/status", "{{TIME}}", "12:00");
    let request: Vec<char> = "GET /status HTTP/1.1\r\n\r\n".chars().collect();
    let url = parse_request_url(&request).unwrap();
    let content = b"Time: {{TIME}}\nTime: {{TIME}}\n".to_vec();
    let (status, body) = server.respond(&url, Some(content));
    assert_eq!(status, HttpStatus::Okay);
    let text = String::from_utf8(body).unwrap();
    assert_eq!(text, "Time: 12:00\nTime: 12:00\n");
    assert!(!text.contains("{{TIME}}"));
    assert_eq!(calls.get(), 1);
}

#[test]
fn missing_file_request_end_to_end() {
    let server: Server<Counting> = Server::new("127.0.0.1".to_string(), 8080);
    let request: Vec<char> = "GET /missing.txt HTTP/1.1\r\n\r\n".chars().collect();
    let url = parse_request_url(&request).unwrap();
    let (status, body) = server.respond(&url, None);
    assert_eq!(status, HttpStatus::NotFound);
    assert!(body.is_empty());
    let wire = frame_response(status, &body);
    assert_eq!(wire, b"HTTP/1.1 404 Not Found\r\n\r\n".to_vec());
}
