use hppt::error::HpptError;
use hppt::request::{Method, Query, Request, Uri, Version};
use hppt::response::{ContentType, Response, Status};
use hppt::server::{
    after_read, build_cgi_response, build_command, dispatch, error_response, file_response,
    listener_step, route, CgiOutcome, Dispatch, ListenerStep, ReadStep, Route, BUF_SIZE,
};

/// What stands for the file system and the CGI programs in these tests.
fn lookup(uri: &str) -> Option<Vec<u8>> {
    match uri {
        "Cargo.toml" => Some(b"[package]\nname = \"hppt\"\n".to_vec()),
        "test/foo.html" => Some(b"<html><body>foo</body></html>".to_vec()),
        "test/1k.bin" => Some(vec![0xa5; 1024]),
        "cgi-bin/echo.sh" => Some(Vec::new()),
        "cgi-bin/fail.sh" => Some(Vec::new()),
        _ => None,
    }
}

fn run_cgi(uri: &str, vars: &[(String, String)]) -> CgiOutcome {
    let query = vars.iter().find(|(name, _)| name == "QUERY_STRING").map(|(_, value)| value.clone());
    let mut stdout = b"Content-Type: text/plain\r\n\r\n".to_vec();
    stdout.extend_from_slice(query.unwrap_or_default().as_bytes());
    CgiOutcome::Exited { success: uri == "cgi-bin/echo.sh", stdout }
}

fn bytes_of(response: Response) -> Vec<u8> {
    let mut wire = Vec::new();
    response.send(&mut wire).unwrap();
    wire
}

/// Serves one connection the way a caller of the library does. The peer
/// sends `request` in pieces of at most `piece` bytes and then stops.
fn serve_in_pieces(request: &[u8], piece: usize) -> Vec<u8> {
    let mut buf = [0u8; BUF_SIZE];
    let mut offset = 0;
    let mut sent = 0;
    loop {
        let room = buf.len() - offset;
        let n = piece.min(room).min(request.len() - sent);
        buf[offset..offset + n].copy_from_slice(&request[sent..sent + n]);
        sent += n;
        offset += n;
        match after_read(&buf[..offset], BUF_SIZE, n) {
            ReadStep::Again => continue,
            ReadStep::Failed(e) => return bytes_of(error_response(&e)),
            ReadStep::Complete(req) => {
                let response = match route(&req) {
                    Route::Respond(response) => response,
                    Route::Lookup => {
                        match dispatch(&req, lookup(req.uri())) {
                            Dispatch::Respond(response) => response,
                            Dispatch::RunCgi(_) => {
                                build_cgi_response(run_cgi(req.uri(), &build_command(&req, "hppt/0.1.0")))
                            }
                            Dispatch::SendFile(content_type, contents) => {
                                file_response(content_type, contents)
                            }
                        }
                    }
                };
                return bytes_of(response);
            }
        }
    }
}

fn make_request(request: &[u8]) -> Vec<u8> {
    serve_in_pieces(request, BUF_SIZE)
}

fn check_bytes_utf8(expected: &[u8], response: &[u8]) {
    let expected = Vec::from(expected);
    let response = Vec::from(response);

    if expected != response {
        let expected = String::from_utf8_lossy(&expected);
        let response = String::from_utf8_lossy(&response);

        assert_eq!(response, expected);
    }
}

#[test]
fn server_not_found() {
    let response = make_request(b"GET /DOES_NOT_EXIST HTTP/1.1\r\n");

    check_bytes_utf8(b"HTTP/1.1 404 Not Found\r\nContent-Length: 0\r\n\r\n", &response);
}

#[test]
fn unimplemented() {
    let unsupported_requests = [
        "PUT / HTTP/1.1\r\n",
        "OPTIONS / HTTP/1.1\r\n",
        "HEAD / HTTP/1.1\r\n",
        "POST / HTTP/1.1\r\n",
        "PUT / HTTP/1.1\r\n",
        "DELETE / HTTP/1.1\r\n",
        "TRACE / HTTP/1.1\r\n",
        "CONNECT / HTTP/1.1\r\n",
    ];

    for request in unsupported_requests.iter() {
        let response = make_request(&request.as_bytes());
        check_bytes_utf8(b"HTTP/1.1 501 Not Implemented\r\nContent-Length: 0\r\n\r\n", &response);
    }
}

#[test]
fn wrong_http_version() {
    let response = make_request(b"GET / HTTP/1.0\r\n");

    check_bytes_utf8(
        b"HTTP/1.1 505 HTTP Version not supported\r\nContent-Length: 0\r\n\r\n",
        &response,
    );
}

#[test]
fn other_methods_are_not_implemented_even_for_files() {
    for method in ["OPTIONS", "HEAD", "POST", "PUT", "DELETE", "TRACE", "CONNECT"] {
        for path in ["/Cargo.toml", "/cgi-bin/echo.sh?num=5", "/nothing", "/"] {
            let request = format!("{} {} HTTP/1.1\r\n\r\n", method, path);
            check_bytes_utf8(
                b"HTTP/1.1 501 Not Implemented\r\nContent-Length: 0\r\n\r\n",
                &make_request(request.as_bytes()),
            );
        }
    }
}

#[test]
fn empty_path_goes_to_the_lookup() {
    let request = Request::from_bytes(b"GET / HTTP/1.1\r\n\r\n").unwrap();
    assert_eq!(&**request.uri(), "");
    assert!(matches!(route(&request), Route::Lookup));
    check_bytes_utf8(
        b"HTTP/1.1 404 Not Found\r\nContent-Length: 0\r\n\r\n",
        &make_request(b"GET / HTTP/1.1\r\n\r\n"),
    );
}

#[test]
fn serves_a_text_file() {
    let contents = lookup("Cargo.toml").unwrap();
    let mut expected =
        format!("HTTP/1.1 200 OK\r\nContent-Length: {}\r\nContent-Type: text/plain\r\n\r\n", contents.len())
            .into_bytes();
    expected.extend_from_slice(&contents);
    check_bytes_utf8(&expected, &make_request(b"GET /Cargo.toml HTTP/1.1\r\n"));
}

#[test]
fn serves_html_and_binary_files() {
    let mut expected =
        b"HTTP/1.1 200 OK\r\nContent-Length: 29\r\nContent-Type: text/html\r\n\r\n".to_vec();
    expected.extend_from_slice(&lookup("test/foo.html").unwrap());
    check_bytes_utf8(&expected, &make_request(b"GET /test/foo.html HTTP/1.1\r\n"));

    let mut expected =
        b"HTTP/1.1 200 OK\r\nContent-Length: 1024\r\nContent-Type: application/octet-stream\r\n\r\n"
            .to_vec();
    expected.extend_from_slice(&lookup("test/1k.bin").unwrap());
    assert_eq!(make_request(b"GET /test/1k.bin HTTP/1.1\r\n"), expected);
}

#[test]
fn repeated_requests_get_the_same_answer() {
    let first = make_request(b"GET /Cargo.toml HTTP/1.1\r\n");
    assert!(first.starts_with(b"HTTP/1.1 200 OK\r\n"));
    for _ in 0..100 {
        assert_eq!(make_request(b"GET /Cargo.toml HTTP/1.1\r\n"), first);
    }
}

#[test]
fn cgi_output_is_forwarded_unmodified() {
    check_bytes_utf8(
        b"HTTP/1.1 200 OK\r\nContent-Type: text/plain\r\n\r\nnum=5",
        &make_request(b"GET /cgi-bin/echo.sh?num=5 HTTP/1.1\r\n"),
    );
    check_bytes_utf8(
        b"HTTP/1.1 400 Bad Request\r\nContent-Type: text/plain\r\n\r\nnum=banana",
        &make_request(b"GET /cgi-bin/fail.sh?num=banana HTTP/1.1\r\n"),
    );
    check_bytes_utf8(
        b"HTTP/1.1 404 Not Found\r\nContent-Length: 0\r\n\r\n",
        &make_request(b"GET /cgi-bin/missing.sh HTTP/1.1\r\n"),
    );
}

#[test]
fn cgi_outcomes() {
    assert_eq!(
        bytes_of(build_cgi_response(CgiOutcome::SpawnFailed)),
        b"HTTP/1.1 400 Bad Request\r\nContent-Length: 0\r\n\r\n".to_vec()
    );
    assert_eq!(
        bytes_of(build_cgi_response(CgiOutcome::Exited { success: true, stdout: Vec::new() })),
        b"HTTP/1.1 200 OK\r\n".to_vec()
    );
    assert_eq!(
        bytes_of(build_cgi_response(CgiOutcome::Exited {
            success: false,
            stdout: b"Content-Type:text/html\r\n\r\n<h1>no</h1>".to_vec()
        })),
        b"HTTP/1.1 400 Bad Request\r\nContent-Type:text/html\r\n\r\n<h1>no</h1>".to_vec()
    );
    let ok = build_cgi_response(CgiOutcome::Exited { success: true, stdout: b"x".to_vec() });
    assert_eq!(ok.status(), Status::Okay);
}

fn pair(name: &str, value: &str) -> (String, String) {
    (name.to_string(), value.to_string())
}

#[test]
fn cgi_environment_without_a_query() {
    let request = Request::new(
        Method::Get,
        Uri("cgi-bin/hello_world.py".to_string()),
        None,
        Version::OneDotOne,
        Vec::new(),
        b"",
    );
    assert_eq!(
        build_command(&request, "hppt/0.1.0"),
        vec![
            pair("SERVER_SOFTWARE", "hppt/0.1.0"),
            pair("SERVER_NAME", ""),
            pair("GATEWAY_INTERFACE", "CGI/1.1"),
            pair("SERVER_PROTOCOL", "HTTP/1.1"),
            pair("SERVER_PORT", ""),
            pair("REQUEST_METHOD", "GET"),
            pair("REMOTE_ADDR", ""),
        ]
    );
}

#[test]
fn cgi_environment_with_a_query() {
    let request = Request::new(
        Method::Post,
        Uri("cgi-bin/addition.py".to_string()),
        Some(Query("num1=1&num2=10".to_string())),
        Version::OneDotOne,
        vec!["Host: x".to_string()],
        b"ignored",
    );
    assert_eq!(
        build_command(&request, "other/2"),
        vec![
            pair("SERVER_SOFTWARE", "other/2"),
            pair("SERVER_NAME", ""),
            pair("GATEWAY_INTERFACE", "CGI/1.1"),
            pair("SERVER_PROTOCOL", "HTTP/1.1"),
            pair("SERVER_PORT", ""),
            pair("REQUEST_METHOD", "POST"),
            pair("REMOTE_ADDR", ""),
            pair("QUERY_STRING", "num1=1&num2=10"),
        ]
    );
}

#[test]
fn dispatch_by_path() {
    let cgi = Request::from_bytes(b"GET /cgi-bin/x HTTP/1.1\r\n").unwrap();
    assert!(matches!(dispatch(&cgi, Some(7)), Dispatch::RunCgi(7)));
    assert!(
        matches!(dispatch(&cgi, None::<u8>), Dispatch::Respond(r) if r.status() == Status::NotFound)
    );

    let prefix_only = Request::from_bytes(b"GET /cgi-binary.txt HTTP/1.1\r\n").unwrap();
    assert!(matches!(dispatch(&prefix_only, Some(())), Dispatch::RunCgi(())));

    let nested = Request::from_bytes(b"GET /a/cgi-bin/x.md HTTP/1.1\r\n").unwrap();
    assert!(matches!(
        dispatch(&nested, Some("handle")),
        Dispatch::SendFile(ContentType::Markdown, "handle")
    ));

    let short = Request::from_bytes(b"GET /cgi HTTP/1.1\r\n").unwrap();
    assert!(matches!(dispatch(&short, Some(())), Dispatch::SendFile(ContentType::Binary, ())));

    let post = Request::from_bytes(b"POST /Cargo.toml HTTP/1.1\r\n").unwrap();
    assert!(matches!(
        dispatch(&post, Some(())),
        Dispatch::Respond(r) if r.status() == Status::NotImplemented
    ));
    assert!(matches!(route(&post), Route::Respond(r) if r.status() == Status::NotImplemented));
}

#[test]
fn traversal_is_left_to_the_lookup_and_ends_in_not_found() {
    let request = Request::from_bytes(b"GET /../../../etc/passwd HTTP/1.1\r\n").unwrap();
    assert_eq!(&**request.uri(), "../../../etc/passwd");
    assert!(matches!(route(&request), Route::Lookup));
    let response = match dispatch(&request, None::<()>) {
        Dispatch::Respond(response) => response,
        _ => panic!("a path that names no file must be answered at once"),
    };
    assert_eq!(
        bytes_of(response),
        b"HTTP/1.1 404 Not Found\r\nContent-Length: 0\r\n\r\n".to_vec()
    );
}

#[test]
fn full_buffer_is_too_large() {
    let mut request = Vec::new();
    request.extend_from_slice(b"GET /");
    request.extend_from_slice(&[b'a'; 1024]);
    request.extend_from_slice(b" HTTP/1.1\r\n");
    let expected = b"HTTP/1.1 413 Request Entity Too Large\r\nContent-Length: 0\r\n\r\n";
    check_bytes_utf8(expected, &make_request(&request));
    for piece in [1, 2, 3, 4, 5, 7, 100, 1023] {
        check_bytes_utf8(expected, &serve_in_pieces(&request, piece));
    }

    let garbage = [b'a'; 2 * BUF_SIZE];
    for piece in [1, 2, 3, 500, 1024] {
        check_bytes_utf8(expected, &serve_in_pieces(&garbage, piece));
    }

    let mut unterminated = b"GET / HTTP/1.1".to_vec();
    unterminated.resize(BUF_SIZE + 100, b'a');
    for piece in [1, 14, 15, 1024] {
        check_bytes_utf8(expected, &serve_in_pieces(&unterminated, piece));
    }

    let exact = [b'a'; BUF_SIZE];
    check_bytes_utf8(expected, &make_request(&exact));

    let mut valid_but_full = b"GET / HTTP/1.1\r\n\r\n".to_vec();
    valid_but_full.resize(BUF_SIZE, b'x');
    check_bytes_utf8(expected, &make_request(&valid_but_full));
}

#[test]
fn request_line_that_ends_before_the_buffer_is_full() {
    let mut request = b"GET /nothing HTTP/1.1\r\n".to_vec();
    let first = request.len();
    request.resize(2 * BUF_SIZE, b'a');
    for piece in [1, 5, first, first + 1, 1000] {
        check_bytes_utf8(
            b"HTTP/1.1 404 Not Found\r\nContent-Length: 0\r\n\r\n",
            &serve_in_pieces(&request, piece),
        );
    }
    check_bytes_utf8(
        b"HTTP/1.1 413 Request Entity Too Large\r\nContent-Length: 0\r\n\r\n",
        &serve_in_pieces(&request, BUF_SIZE),
    );
}

#[test]
fn peer_that_stops_early_gets_a_bad_request() {
    let expected = b"HTTP/1.1 400 Bad Request\r\nContent-Length: 0\r\n\r\n";
    check_bytes_utf8(expected, &make_request(b""));
    check_bytes_utf8(expected, &make_request(b"GET"));
    check_bytes_utf8(expected, &make_request(b"GET /index.html"));
    check_bytes_utf8(expected, &make_request(b"\r\n\r\n"));
    check_bytes_utf8(expected, &make_request(b"GET  HTTP/1.1\r\n\r\n"));
    check_bytes_utf8(expected, &make_request(b"HRY / HTTP/1.1\r\n\r\n"));
    check_bytes_utf8(expected, &make_request(b"GET / HTTP/1.1"));
    check_bytes_utf8(expected, &serve_in_pieces(b"aaaa", 2));
    check_bytes_utf8(expected, &serve_in_pieces(b"HRY / HTTP/1.1\r\n\r\n", 2));
}

#[test]
fn request_split_over_reads() {
    let request = b"GET /test/foo.html HTTP/1.1\r\n";
    let expected = make_request(request);
    assert!(expected.starts_with(b"HTTP/1.1 200 OK\r\n"));
    for piece in 1..=request.len() {
        assert_eq!(serve_in_pieces(request, piece), expected);
    }
}

#[test]
fn every_split_of_a_request_gets_the_same_answer() {
    let requests: [&[u8]; 8] = [
        b"DELETE / HTTP/1.1\r\n\r\n",
        b"POST /Cargo.toml HTTP/1.1\r\n\r\n",
        b"CONNECT /cgi-bin/echo.sh?num=5 HTTP/1.1\r\n",
        b"GET / HTTP/1.0\r\n\r\n",
        b"GET //etc/passwd HTTP/1.1\r\n",
        b"GET / HTTP/1.1\r\n\r\n",
        b"GET /Cargo.toml HTTP/1.1\r\n",
        b"GET /cgi-bin/echo.sh?num=5 HTTP/1.1\r\n",
    ];
    let statuses: [&[u8]; 8] = [
        b"HTTP/1.1 501 Not Implemented\r\nContent-Length: 0\r\n\r\n",
        b"HTTP/1.1 501 Not Implemented\r\nContent-Length: 0\r\n\r\n",
        b"HTTP/1.1 501 Not Implemented\r\nContent-Length: 0\r\n\r\n",
        b"HTTP/1.1 505 HTTP Version not supported\r\nContent-Length: 0\r\n\r\n",
        b"HTTP/1.1 404 Not Found\r\nContent-Length: 0\r\n\r\n",
        b"HTTP/1.1 404 Not Found\r\nContent-Length: 0\r\n\r\n",
        b"HTTP/1.1 200 OK\r\nContent-Length: 24\r\nContent-Type: text/plain\r\n\r\n[package]\nname = \"hppt\"\n",
        b"HTTP/1.1 200 OK\r\nContent-Type: text/plain\r\n\r\nnum=5",
    ];
    for (request, expected) in requests.iter().zip(statuses.iter()) {
        for piece in 1..=request.len() {
            check_bytes_utf8(expected, &serve_in_pieces(request, piece));
        }
    }
}

#[test]
fn after_read_steps() {
    assert!(matches!(after_read(b"GET", 1024, 3), ReadStep::Again));
    assert!(matches!(after_read(b"GET", 1024, 0), ReadStep::Failed(HpptError::BadRequest)));
    assert!(matches!(after_read(b"GET", 3, 3), ReadStep::Failed(HpptError::RequestTooLarge)));
    assert!(matches!(after_read(b"", 0, 0), ReadStep::Failed(HpptError::RequestTooLarge)));
    assert!(matches!(after_read(b"aa", 1024, 2), ReadStep::Again));
    assert!(matches!(after_read(b"GET  ", 1024, 5), ReadStep::Again));
    assert!(matches!(after_read(b"GET / HTTP/2", 1024, 1), ReadStep::Again));
    assert!(matches!(after_read(b"GET / HTTP/1.1", 1024, 14), ReadStep::Again));
    assert!(matches!(after_read(b"GET  \n", 1024, 1), ReadStep::Failed(HpptError::Parsing)));
    assert!(matches!(
        after_read(b"GET / HTTP/2\r\n", 1024, 2),
        ReadStep::Failed(HpptError::UnsupportedHttpVersion)
    ));
    match after_read(b"GET /a?b HTTP/1.1\r\n", 1024, 19) {
        ReadStep::Complete(request) => {
            assert_eq!(request.method(), Method::Get);
            assert_eq!(request.query(), Some(&Query("b".to_string())));
        }
        _ => panic!("a whole request line must parse"),
    }
}

#[test]
fn every_error_has_a_status() {
    let io = HpptError::from(std::io::Error::new(std::io::ErrorKind::Other, "secret detail"));
    assert!(matches!(io, HpptError::IoError(_)));
    assert_eq!(
        bytes_of(error_response(&io)),
        b"HTTP/1.1 500 Internal Server Error\r\nContent-Length: 0\r\n\r\n".to_vec()
    );
    assert_eq!(error_response(&HpptError::Parsing).status(), Status::BadRequest);
    assert_eq!(error_response(&HpptError::IncompleteRequest).status(), Status::BadRequest);
    assert_eq!(error_response(&HpptError::BadRequest).status(), Status::BadRequest);
    assert_eq!(
        error_response(&HpptError::UnsupportedHttpVersion).status(),
        Status::HttpVersionNotSupported
    );
    assert_eq!(
        error_response(&HpptError::RequestTooLarge).status(),
        Status::RequestEntityTooLarge
    );
}

#[test]
fn listener_stops_on_a_shutdown_signal() {
    assert_eq!(listener_step(false), ListenerStep::Accept);
    assert_eq!(listener_step(true), ListenerStep::Stop);
}
