use hppt::response::{ContentType, Response, Status};
use std::str;

fn check_response_write(response: Response, expected: &[u8]) {
    let mut recv_buf = Vec::new();

    response.send(&mut recv_buf).unwrap();

    if recv_buf != expected {
        let received = str::from_utf8(&recv_buf);
        let expected = str::from_utf8(expected);

        assert_eq!(received, expected);
    }
}

#[test]
fn empty() {
    let response = Response::new(Status::Okay, None, Some(ContentType::Text), false);
    let expected = b"HTTP/1.1 200 OK\r
Content-Length: 0\r
Content-Type: text/plain\r
\r
";

    check_response_write(response, expected);
}

#[test]
fn with_text() {
    let response = Response::new(
        Status::Okay,
        Some("ABCDEFGHIJK1234567890".as_bytes().to_vec()),
        Some(ContentType::Text),
        false,
    );
    let expected = b"HTTP/1.1 200 OK\r
Content-Length: 21\r
Content-Type: text/plain\r
\r
ABCDEFGHIJK1234567890";

    check_response_write(response, expected);
}

#[test]
fn response_not_found() {
    let response = Response::new(Status::NotFound, None, None, false);
    let expected = b"HTTP/1.1 404 Not Found\r
Content-Length: 0\r
\r
";

    check_response_write(response, expected);
}

#[test]
fn status_lines() {
    assert_eq!(Status::Okay.status_line(), b"HTTP/1.1 200 OK\r\n");
    assert_eq!(Status::BadRequest.status_line(), b"HTTP/1.1 400 Bad Request\r\n");
    assert_eq!(Status::NotFound.status_line(), b"HTTP/1.1 404 Not Found\r\n");
    assert_eq!(
        Status::RequestEntityTooLarge.status_line(),
        b"HTTP/1.1 413 Request Entity Too Large\r\n"
    );
    assert_eq!(
        Status::InternalServerError.status_line(),
        b"HTTP/1.1 500 Internal Server Error\r\n"
    );
    assert_eq!(Status::NotImplemented.status_line(), b"HTTP/1.1 501 Not Implemented\r\n");
    assert_eq!(
        Status::HttpVersionNotSupported.status_line(),
        b"HTTP/1.1 505 HTTP Version not supported\r\n"
    );
}

#[test]
fn content_types_by_extension() {
    assert_eq!(ContentType::from_path("index.htm"), ContentType::Html);
    assert_eq!(ContentType::from_path("test/foo.html"), ContentType::Html);
    assert_eq!(ContentType::from_path("Cargo.toml"), ContentType::Text);
    assert_eq!(ContentType::from_path("notes.txt"), ContentType::Text);
    assert_eq!(ContentType::from_path("README.md"), ContentType::Markdown);
    assert_eq!(ContentType::from_path("paper.pdf"), ContentType::Pdf);
    assert_eq!(ContentType::from_path("test/1k.bin"), ContentType::Binary);
    assert_eq!(ContentType::from_path("archive.tar.txt"), ContentType::Text);
    assert_eq!(ContentType::from_path(".md"), ContentType::Markdown);
}

#[test]
fn content_type_edge_cases() {
    assert_eq!(ContentType::from_path(""), ContentType::Binary);
    assert_eq!(ContentType::from_path("Makefile"), ContentType::Binary);
    assert_eq!(ContentType::from_path("html"), ContentType::Binary);
    assert_eq!(ContentType::from_path("page.HTML"), ContentType::Binary);
    assert_eq!(ContentType::from_path("page.html."), ContentType::Binary);
    assert_eq!(ContentType::from_path("dir.txt/file"), ContentType::Binary);
    assert_eq!(ContentType::from_path("caf\u{e9}.txt"), ContentType::Text);
    assert_eq!(ContentType::from_path("page.htmlx"), ContentType::Binary);
}

#[test]
fn media_types() {
    assert_eq!(ContentType::Html.as_bytes(), b"text/html");
    assert_eq!(ContentType::Text.as_bytes(), b"text/plain");
    assert_eq!(ContentType::Markdown.as_bytes(), b"text/markdown");
    assert_eq!(ContentType::Pdf.as_bytes(), b"application/pdf");
    assert_eq!(ContentType::Binary.as_bytes(), b"application/octet-stream");
}

#[test]
fn data_with_headers_is_forwarded_as_it_is() {
    let output = b"Content-Type: text/plain\r\n\r\nnum=5".to_vec();
    let response = Response::new(Status::Okay, Some(output), Some(ContentType::Html), true);
    check_response_write(
        response,
        b"HTTP/1.1 200 OK\r\nContent-Type: text/plain\r\n\r\nnum=5",
    );

    let response = Response::new(Status::BadRequest, None, None, true);
    check_response_write(response, b"HTTP/1.1 400 Bad Request\r\n");
}

#[test]
fn content_length_is_the_length_of_the_body() {
    for len in [0usize, 1, 9, 10, 11, 99, 100, 101, 1024, 65536, 1234567] {
        let body = vec![b'x'; len];
        let mut wire = Vec::new();
        Response::new(Status::Okay, Some(body.clone()), None, false).send(&mut wire).unwrap();
        let mut expected = format!("HTTP/1.1 200 OK\r\nContent-Length: {}\r\n\r\n", len).into_bytes();
        expected.extend_from_slice(&body);
        assert_eq!(wire, expected);
    }
}

#[test]
fn send_appends_to_the_target() {
    let mut target = b"already here|".to_vec();
    Response::new(Status::NotImplemented, None, None, false).send(&mut target).unwrap();
    assert_eq!(
        target,
        b"already here|HTTP/1.1 501 Not Implemented\r\nContent-Length: 0\r\n\r\n".to_vec()
    );
    assert_eq!(Response::new(Status::NotFound, None, None, false).status(), Status::NotFound);
}
