use rustlab::http::{decimal, http_response, request_target};

#[test]
fn request_targets() {
    assert_eq!(request_target("GET /hello.txt HTTP/1.1\r\n"), "/hello.txt");
    assert_eq!(request_target("  GET\t/a/b.txt  HTTP/1.1"), "/a/b.txt");
    assert_eq!(request_target("GET"), "/");
    assert_eq!(request_target(""), "/");
    assert_eq!(request_target("GET \u{3000}/x HTTP/1.1"), "/x");
}

#[test]
fn responses() {
    assert_eq!(
        http_response(Some("hi")),
        "HTTP/1.1 200 OK\r\nContent-Type: text/plain\r\nContent-Length: 2\r\n\r\nhi"
    );
    assert_eq!(
        http_response(Some("é")),
        "HTTP/1.1 200 OK\r\nContent-Type: text/plain\r\nContent-Length: 2\r\n\r\né"
    );
    assert_eq!(
        http_response(None),
        "HTTP/1.1 404 Not Found\r\nContent-Type: text/plain\r\nContent-Length: 14\r\n\r\nFile not found"
    );
}

#[test]
fn decimal_texts() {
    assert_eq!(decimal(0), vec!['0']);
    assert_eq!(decimal(7), vec!['7']);
    assert_eq!(decimal(1234), vec!['1', '2', '3', '4']);
    assert_eq!(decimal(usize::MAX).len(), usize::MAX.to_string().len());
}
