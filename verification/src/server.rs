//! The decisions of the connection scheduler: what to do after each read,
//! where a request goes, and what answers it. The caller owns the socket,
//! the files and the subprocess; it performs what these functions decide
//! and hands back what came of it.

use crate::bytes::{decimal, starts_with, LF, SPACE};
use crate::error::HpptError;
use crate::request::{
    is_blank_tail, lemma_parse_request_line_alone, lemma_request_line_ends_with_line_feed,
    lemma_unterminated_is_incomplete, lemma_version_token, parse_request, request_line,
    request_line_result, target_path, target_is_well_formed, Method, Request, RequestView,
    Version,
};
use crate::response::{
    lemma_content_length_round_trip, ContentType, Response, ResponseView, Status,
};
use vstd::prelude::*;
use vstd::string::*;
use vstd::utf8::*;

verus! {

/// The size of the buffer that a request is read into.
pub const BUF_SIZE: usize = 1024;

/// A number of worker threads.
pub type NThreads = usize;

/// A response of a status alone: no body, no content type.
pub open spec fn plain(status: Status) -> ResponseView {
    ResponseView { status: status, data: None, content_type: None, data_includes_headers: false }
}

/// The status that answers each error.
pub open spec fn status_of(e: HpptError) -> Status {
    match e {
        HpptError::Parsing => Status::BadRequest,
        HpptError::IncompleteRequest => Status::BadRequest,
        HpptError::UnsupportedHttpVersion => Status::HttpVersionNotSupported,
        HpptError::RequestTooLarge => Status::RequestEntityTooLarge,
        HpptError::BadRequest => Status::BadRequest,
        HpptError::IoError(_) => Status::InternalServerError,
    }
}

/// The response that answers an error: its status, and nothing of the
/// error's detail.
pub fn error_response(e: &HpptError) -> (r: Response)
    ensures
        r@ == plain(status_of(*e)),
{
    let status = match e {
        HpptError::Parsing => Status::BadRequest,
        HpptError::IncompleteRequest => Status::BadRequest,
        HpptError::UnsupportedHttpVersion => Status::HttpVersionNotSupported,
        HpptError::RequestTooLarge => Status::RequestEntityTooLarge,
        HpptError::BadRequest => Status::BadRequest,
        HpptError::IoError(_) => Status::InternalServerError,
    };
    Response::new(status, None, None, false)
}

/// What a listener does next.
#[derive(Clone, Copy, Debug, PartialEq, Eq, Structural)]
pub enum ListenerStep {
    /// Wait for the next connection and hand it to a task of its own.
    Accept,
    /// Leave the accept loop.
    Stop,
}

/// What a listener does before each accept: it stops once a shutdown
/// signal has reached it, and accepts otherwise.
pub fn listener_step(shutdown_signalled: bool) -> (step: ListenerStep)
    ensures
        step == if shutdown_signalled {
            ListenerStep::Stop
        } else {
            ListenerStep::Accept
        },
{
    if shutdown_signalled {
        ListenerStep::Stop
    } else {
        ListenerStep::Accept
    }
}

/// What a connection does after a read.
#[derive(Debug)]
pub enum ReadStep<'a> {
    /// No request yet: read again, behind the bytes that are there.
    Again,
    /// The bytes hold this request.
    Complete(Request<'a>),
    /// There will be no request, for this reason.
    Failed(HpptError),
}

/// What reading has come to after a read that brought `bytes_read` bytes
/// and left `window` as the filled part of a buffer of `capacity` bytes.
/// `None` stands for reading again.
///
/// A full buffer is too large a request, whatever it holds. A read of no
/// bytes is a bad request: the peer has stopped sending. Otherwise the
/// parser decides, and only an incomplete request is read on.
pub open spec fn read_verdict(window: Seq<u8>, capacity: int, bytes_read: int) -> Option<
    Result<RequestView, HpptError>,
> {
    if window.len() == capacity {
        Some(Err(HpptError::RequestTooLarge))
    } else if bytes_read == 0 {
        Some(Err(HpptError::BadRequest))
    } else {
        match parse_request(window) {
            Err(HpptError::IncompleteRequest) => None,
            parsed => Some(parsed),
        }
    }
}

/// Decides what follows a read. `window` is the filled part of the
/// buffer, the bytes of this read included.
pub fn after_read<'a>(window: &'a [u8], capacity: usize, bytes_read: usize) -> (step: ReadStep<'a>)
    ensures
        match step {
            ReadStep::Again => read_verdict(window@, capacity as int, bytes_read as int) is None,
            ReadStep::Complete(request) => read_verdict(
                window@,
                capacity as int,
                bytes_read as int,
            ) == Some(Ok::<RequestView, HpptError>(request@)),
            ReadStep::Failed(e) => read_verdict(window@, capacity as int, bytes_read as int)
                == Some(Err::<RequestView, HpptError>(e)),
        },
{
    if window.len() == capacity {
        ReadStep::Failed(HpptError::RequestTooLarge)
    } else if bytes_read == 0 {
        ReadStep::Failed(HpptError::BadRequest)
    } else {
        match Request::from_bytes(window) {
            Ok(request) => ReadStep::Complete(request),
            Err(HpptError::IncompleteRequest) => ReadStep::Again,
            Err(e) => ReadStep::Failed(e),
        }
    }
}

/// Where a request goes once it is known whether its path names a file
/// under the server root.
pub enum Plan {
    /// Answer with this response.
    Respond(ResponseView),
    /// Run the file as a CGI program.
    RunCgi,
    /// Send the file, as this content type.
    SendFile(ContentType),
}

/// Whether a path lies under `cgi-bin`.
pub open spec fn is_cgi_path(uri: Seq<char>) -> bool {
    "cgi-bin".spec_bytes().is_prefix_of(encode_utf8(uri))
}

/// The routing rule. Only `GET` is served: any other method is not
/// implemented. A path that names no file is not found. A file under
/// `cgi-bin` is run; any other file is sent, with the content type of
/// its extension.
pub open spec fn plan(request: RequestView, found: bool) -> Plan {
    if request.method != Method::Get {
        Plan::Respond(plain(Status::NotImplemented))
    } else if !found {
        Plan::Respond(plain(Status::NotFound))
    } else if is_cgi_path(request.uri) {
        Plan::RunCgi
    } else {
        Plan::SendFile(ContentType::of_path(encode_utf8(request.uri)))
    }
}

/// Where a request goes before any file is looked up.
#[derive(Debug)]
pub enum Route {
    /// Answer with this response.
    Respond(Response),
    /// Look the path up under the server root, then call [`dispatch`].
    Lookup,
}

/// Decides whether a request needs a file lookup: a `GET` does, and any
/// other method is answered at once as not implemented.
pub fn route(request: &Request) -> (r: Route)
    ensures
        match r {
            Route::Respond(response) => request@.method != Method::Get && forall|found: bool|
                plan(request@, found) == Plan::Respond(response@),
            Route::Lookup => request@.method == Method::Get,
        },
{
    if request.method() == Method::Get {
        Route::Lookup
    } else {
        Route::Respond(Response::new(Status::NotImplemented, None, None, false))
    }
}

/// Where a request goes after the file lookup. `T` is what the lookup
/// hands over of a file that it found.
#[derive(Debug)]
pub enum Dispatch<T> {
    /// Answer with this response.
    Respond(Response),
    /// Run the file as a CGI program, then call [`build_cgi_response`].
    RunCgi(T),
    /// Read the file, then call [`file_response`] with this content type.
    SendFile(ContentType, T),
}

/// Decides where a request goes. `found` is what the lookup found: a
/// regular file under the server root, or nothing. A file that was found
/// is handed on to whoever runs or reads it.
pub fn dispatch<T>(request: &Request, found: Option<T>) -> (d: Dispatch<T>)
    ensures
        match d {
            Dispatch::Respond(response) => plan(request@, found is Some) == Plan::Respond(
                response@,
            ),
            Dispatch::RunCgi(file) => found == Some(file) && plan(request@, true) == Plan::RunCgi,
            Dispatch::SendFile(content_type, file) => found == Some(file) && plan(request@, true)
                == Plan::SendFile(content_type),
        },
{
    if request.method() != Method::Get {
        return Dispatch::Respond(Response::new(Status::NotImplemented, None, None, false));
    }
    match found {
        None => Dispatch::Respond(Response::new(Status::NotFound, None, None, false)),
        Some(file) => {
            let uri: &str = request.uri().0.as_str();
            if starts_with(uri.as_bytes(), "cgi-bin".as_bytes()) {
                Dispatch::RunCgi(file)
            } else {
                Dispatch::SendFile(ContentType::from_path(uri), file)
            }
        },
    }
}

/// The response that sends a file: status 200, the file's bytes as the
/// body, and its content type.
pub fn file_response(content_type: ContentType, contents: Vec<u8>) -> (r: Response)
    ensures
        r@ == (ResponseView {
            status: Status::Okay,
            data: Some(contents@),
            content_type: Some(content_type),
            data_includes_headers: false,
        }),
{
    Response::new(Status::Okay, Some(contents), Some(content_type), false)
}

/// How the run of a CGI program ended.
#[derive(Clone, Debug, PartialEq, Eq)]
pub enum CgiOutcome {
    /// The program could not be started.
    SpawnFailed,
    /// The program ran and exited; `stdout` is all it wrote to its
    /// standard output.
    Exited { success: bool, stdout: Vec<u8> },
}

/// The response to a CGI request.
pub open spec fn cgi_response(outcome: CgiOutcome) -> ResponseView {
    match outcome {
        CgiOutcome::SpawnFailed => plain(Status::BadRequest),
        CgiOutcome::Exited { success, stdout } => ResponseView {
            status: if success {
                Status::Okay
            } else {
                Status::BadRequest
            },
            data: Some(stdout@),
            content_type: None,
            data_includes_headers: true,
        },
    }
}

/// Builds the response to a CGI request from the outcome of the run. The
/// program's output is forwarded as it is, headers included: status 200
/// where the program succeeded, 400 where it failed. A program that could
/// not be started is a bad request without a body.
pub fn build_cgi_response(outcome: CgiOutcome) -> (r: Response)
    ensures
        r@ == cgi_response(outcome),
{
    match outcome {
        CgiOutcome::SpawnFailed => Response::new(Status::BadRequest, None, None, false),
        CgiOutcome::Exited { success, stdout } => {
            if success {
                Response::new(Status::Okay, Some(stdout), None, true)
            } else {
                Response::new(Status::BadRequest, Some(stdout), None, true)
            }
        },
    }
}

/// The names and values of a list of string pairs, as texts.
pub open spec fn pairs(vars: Seq<(String, String)>) -> Seq<(Seq<char>, Seq<char>)> {
    Seq::new(vars.len(), |i: int| (vars[i].0@, vars[i].1@))
}

/// The environment of a CGI program, in the order in which it is set.
/// `QUERY_STRING` is set only where the request has a query.
pub open spec fn cgi_environment(request: RequestView, server_software: Seq<char>) -> Seq<
    (Seq<char>, Seq<char>),
> {
    let fixed = seq![
        ("SERVER_SOFTWARE"@, server_software),
        ("SERVER_NAME"@, ""@),
        ("GATEWAY_INTERFACE"@, "CGI/1.1"@),
        ("SERVER_PROTOCOL"@, "HTTP/1.1"@),
        ("SERVER_PORT"@, ""@),
        ("REQUEST_METHOD"@, request.method.name()),
        ("REMOTE_ADDR"@, ""@),
    ];
    match request.query {
        Some(query) => fixed.push(("QUERY_STRING"@, query)),
        None => fixed,
    }
}

/// Builds the environment that a CGI program is run with.
pub fn build_command(request: &Request, server_software: &str) -> (vars: Vec<(String, String)>)
    ensures
        pairs(vars@) == cgi_environment(request@, server_software@),
{
    let mut vars: Vec<(String, String)> = Vec::new();
    vars.push(("SERVER_SOFTWARE".to_owned(), server_software.to_owned()));
    vars.push(("SERVER_NAME".to_owned(), "".to_owned()));
    vars.push(("GATEWAY_INTERFACE".to_owned(), "CGI/1.1".to_owned()));
    vars.push(("SERVER_PROTOCOL".to_owned(), "HTTP/1.1".to_owned()));
    vars.push(("SERVER_PORT".to_owned(), "".to_owned()));
    vars.push(("REQUEST_METHOD".to_owned(), request.method().as_bytes().to_owned()));
    vars.push(("REMOTE_ADDR".to_owned(), "".to_owned()));
    if let Some(query) = request.query() {
        vars.push(("QUERY_STRING".to_owned(), query.0.as_str().to_owned()));
    }
    assert(pairs(vars@) =~= cgi_environment(request@, server_software@));
    vars
}


/// The sum of the lengths of a sequence of reads.
pub open spec fn total(sizes: Seq<int>) -> int
    decreases sizes.len(),
{
    if sizes.len() == 0 {
        0
    } else {
        sizes[0] + total(sizes.drop_first())
    }
}

/// What reading comes to when the peer sends `stream`, the buffer has
/// `capacity` bytes of which `offset` are filled, and the reads that
/// follow bring the bytes of the stream in pieces of the lengths `sizes`.
/// `None` where the reads end before reading has come to anything.
pub open spec fn reading(stream: Seq<u8>, capacity: int, sizes: Seq<int>, offset: int) -> Option<
    Result<RequestView, HpptError>,
>
    decreases sizes.len(),
{
    if sizes.len() == 0 {
        None
    } else {
        let filled = offset + sizes[0];
        match read_verdict(stream.take(filled), capacity, sizes[0]) {
            Some(verdict) => Some(verdict),
            None => reading(stream, capacity, sizes.drop_first(), filled),
        }
    }
}

/// Whether `sizes` are the lengths of reads that each bring something.
pub open spec fn all_positive(sizes: Seq<int>) -> bool {
    forall|i: int| 0 <= i < sizes.len() ==> sizes[i] > 0
}

/// What a connection does once reading has ended. An error is answered
/// with its status; a request goes where the routing rule sends it.
pub open spec fn answer(verdict: Result<RequestView, HpptError>, found: bool) -> Plan {
    match verdict {
        Ok(request) => plan(request, found),
        Err(e) => Plan::Respond(plain(status_of(e))),
    }
}

proof fn lemma_total_is_positive(sizes: Seq<int>)
    requires
        all_positive(sizes),
    ensures
        total(sizes) >= 0,
        sizes.len() > 0 ==> total(sizes) > 0,
    decreases sizes.len(),
{
    if sizes.len() > 0 {
        lemma_total_is_positive(sizes.drop_first());
    }
}

proof fn lemma_reads_fill_the_buffer(stream: Seq<u8>, capacity: int, sizes: Seq<int>, offset: int)
    requires
        stream.len() >= capacity,
        forall|i: int| 0 <= i < capacity ==> stream[i] != LF,
        0 <= offset,
        sizes.len() > 0,
        all_positive(sizes),
        offset + total(sizes) == capacity,
    ensures
        reading(stream, capacity, sizes, offset) == Some(
            Err::<RequestView, HpptError>(HpptError::RequestTooLarge),
        ),
    decreases sizes.len(),
{
    let rest = sizes.drop_first();
    let filled = offset + sizes[0];
    lemma_total_is_positive(rest);
    if filled < capacity {
        lemma_unterminated_is_incomplete(stream.take(filled));
        lemma_reads_fill_the_buffer(stream, capacity, rest, filled);
    }
}

/// A stream that fills the buffer without a line feed is answered as too
/// large a request, whatever else it holds and in whatever pieces it
/// arrives.
///
/// The stream has at least as many bytes as the buffer, none of the
/// first `capacity` a line feed; the reads each bring something and
/// together fill the buffer.
pub proof fn lemma_full_buffer_is_too_large(stream: Seq<u8>, capacity: int, sizes: Seq<int>)
    requires
        stream.len() >= capacity > 0,
        forall|i: int| 0 <= i < capacity ==> stream[i] != LF,
        all_positive(sizes),
        total(sizes) == capacity,
    ensures
        reading(stream, capacity, sizes, 0) == Some(
            Err::<RequestView, HpptError>(HpptError::RequestTooLarge),
        ),
        forall|found: bool|
            answer(#[trigger] reading(stream, capacity, sizes, 0)->0, found) == Plan::Respond(
                plain(Status::RequestEntityTooLarge),
            ),
{
    lemma_reads_fill_the_buffer(stream, capacity, sizes, 0);
}

proof fn lemma_request_line_read_on(
    method: Method,
    target: Seq<u8>,
    version: Seq<u8>,
    rest: Seq<u8>,
    capacity: int,
    sizes: Seq<int>,
    offset: int,
)
    requires
        target_is_well_formed(target),
        forall|i: int| 0 <= i < version.len() ==> #[trigger] version[i] != SPACE && version[i] != LF,
        is_blank_tail(rest),
        (request_line(method, target, version) + rest).len() < capacity,
        0 <= offset < request_line(method, target, version).len(),
        all_positive(sizes),
        offset + total(sizes) == (request_line(method, target, version) + rest).len(),
    ensures
        reading(request_line(method, target, version) + rest, capacity, sizes, offset) == Some(
            request_line_result(method, target, version),
        ),
    decreases sizes.len(),
{
    let line = request_line(method, target, version);
    let stream = line + rest;
    lemma_request_line_ends_with_line_feed(method, target, version);
    if sizes.len() == 0 {
        assert(total(sizes) == 0);
    } else {
        let later = sizes.drop_first();
        let filled = offset + sizes[0];
        lemma_total_is_positive(later);
        let window = stream.take(filled);
        if filled < line.len() {
            assert forall|i: int| 0 <= i < window.len() implies window[i] != LF by {
                assert(window[i] == line[i]);
            }
            lemma_unterminated_is_incomplete(window);
            lemma_request_line_read_on(method, target, version, rest, capacity, later, filled);
        } else {
            let seen = rest.take(filled - line.len());
            assert(window =~= line + seen);
            assert(is_blank_tail(seen)) by {
                if seen.len() == 0 {
                    assert(seen =~= Seq::<u8>::empty());
                } else if seen.len() == 1 {
                    assert(seen =~= seq![rest[0]]);
                } else {
                    assert(seen =~= rest);
                }
            }
            lemma_parse_request_line_alone(method, target, version, seen);
        }
    }
}

/// A request line with nothing but an empty line behind it is read to
/// the same request in whatever pieces it arrives: reading goes on until
/// the line feed of the request line has come, and what it then makes of
/// the line does not depend on how much of the empty line is there.
///
/// The request is shorter than the buffer; the reads each bring
/// something and together bring all of it.
pub proof fn lemma_request_line_in_pieces(
    method: Method,
    target: Seq<u8>,
    version: Seq<u8>,
    rest: Seq<u8>,
    capacity: int,
    sizes: Seq<int>,
)
    requires
        target_is_well_formed(target),
        forall|i: int| 0 <= i < version.len() ==> #[trigger] version[i] != SPACE && version[i] != LF,
        is_blank_tail(rest),
        (request_line(method, target, version) + rest).len() < capacity,
        all_positive(sizes),
        total(sizes) == (request_line(method, target, version) + rest).len(),
    ensures
        reading(request_line(method, target, version) + rest, capacity, sizes, 0) == Some(
            request_line_result(method, target, version),
        ),
{
    lemma_request_line_ends_with_line_feed(method, target, version);
    lemma_request_line_read_on(method, target, version, rest, capacity, sizes, 0);
}

/// A response of a status alone is its status line and a content length
/// of zero.
pub proof fn lemma_plain_wire(status: Status)
    ensures
        plain(status).body().len() == 0,
        plain(status).wire() == status.line() + "Content-Length: ".spec_bytes() + seq![48u8]
            + "\r\n\r\n".spec_bytes(),
{
    assert(decimal(0) =~= seq![48u8]);
    assert(plain(status).wire() =~= status.line() + "Content-Length: ".spec_bytes() + seq![48u8]
        + "\r\n\r\n".spec_bytes());
}

/// A request that names no file under the server root is never answered
/// with a file's contents: a `GET` is answered as not found, any other
/// method as not implemented, and neither response has a body.
pub proof fn lemma_unresolved_is_not_found(request: RequestView)
    ensures
        request.method == Method::Get ==> plan(request, false) == Plan::Respond(
            plain(Status::NotFound),
        ),
        plan(request, false) matches Plan::Respond(response) && response.data is None,
{
}

/// A well-formed request of any method but `GET`, with no header lines,
/// is answered as not implemented, without a body, in whatever pieces it
/// arrives and whether or not its path names a file.
pub proof fn lemma_only_get_is_served(
    method: Method,
    target: Seq<u8>,
    rest: Seq<u8>,
    capacity: int,
    sizes: Seq<int>,
)
    requires
        method != Method::Get,
        target_is_well_formed(target),
        is_blank_tail(rest),
        (request_line(method, target, Version::OneDotOne.token()) + rest).len() < capacity,
        all_positive(sizes),
        total(sizes) == (request_line(method, target, Version::OneDotOne.token()) + rest).len(),
    ensures
        ({
            let stream = request_line(method, target, Version::OneDotOne.token()) + rest;
            let response = plain(Status::NotImplemented);
            &&& reading(stream, capacity, sizes, 0) matches Some(Ok(request)) && request.method
                == method
            &&& forall|found: bool|
                answer(#[trigger] reading(stream, capacity, sizes, 0)->0, found) == Plan::Respond(
                    response,
                )
            &&& response.body().len() == 0
            &&& response.wire() == Status::NotImplemented.line() + "Content-Length: ".spec_bytes()
                + seq![48u8] + "\r\n\r\n".spec_bytes()
        }),
{
    lemma_version_token();
    lemma_request_line_in_pieces(method, target, Version::OneDotOne.token(), rest, capacity, sizes);
    lemma_plain_wire(Status::NotImplemented);
}

/// A well-formed `GET` with no header lines goes, in whatever pieces it
/// arrives, where its path sends it: it is answered as not found where
/// the lookup finds no file; a file under `cgi-bin` is run; any other
/// file is sent with the content type of the path's extension.
pub proof fn lemma_get_goes_by_its_path(
    target: Seq<u8>,
    rest: Seq<u8>,
    capacity: int,
    sizes: Seq<int>,
)
    requires
        target_is_well_formed(target),
        is_blank_tail(rest),
        (request_line(Method::Get, target, Version::OneDotOne.token()) + rest).len() < capacity,
        all_positive(sizes),
        total(sizes) == (request_line(Method::Get, target, Version::OneDotOne.token())
            + rest).len(),
    ensures
        ({
            let stream = request_line(Method::Get, target, Version::OneDotOne.token()) + rest;
            let verdict = reading(stream, capacity, sizes, 0);
            let path = target_path(target);
            &&& verdict == Some(
                request_line_result(Method::Get, target, Version::OneDotOne.token()),
            )
            &&& answer(verdict->0, false) == Plan::Respond(plain(Status::NotFound))
            &&& answer(verdict->0, true) == if "cgi-bin".spec_bytes().is_prefix_of(path) {
                Plan::RunCgi
            } else {
                Plan::SendFile(ContentType::of_path(path))
            }
        }),
{
    lemma_version_token();
    lemma_request_line_in_pieces(
        Method::Get,
        target,
        Version::OneDotOne.token(),
        rest,
        capacity,
        sizes,
    );
    decode_utf8_encode_utf8(target_path(target));
}

/// A request line that is well-formed but for its version is answered
/// as an unsupported version, whatever its method and its target, in
/// whatever pieces it arrives.
pub proof fn lemma_other_versions_are_unsupported(
    method: Method,
    target: Seq<u8>,
    version: Seq<u8>,
    rest: Seq<u8>,
    capacity: int,
    sizes: Seq<int>,
)
    requires
        target_is_well_formed(target),
        forall|i: int| 0 <= i < version.len() ==> #[trigger] version[i] != SPACE && version[i] != LF,
        version != Version::OneDotOne.token(),
        is_blank_tail(rest),
        (request_line(method, target, version) + rest).len() < capacity,
        all_positive(sizes),
        total(sizes) == (request_line(method, target, version) + rest).len(),
    ensures
        ({
            let stream = request_line(method, target, version) + rest;
            &&& reading(stream, capacity, sizes, 0) == Some(
                Err::<RequestView, HpptError>(HpptError::UnsupportedHttpVersion),
            )
            &&& forall|found: bool|
                answer(#[trigger] reading(stream, capacity, sizes, 0)->0, found) == Plan::Respond(
                    plain(Status::HttpVersionNotSupported),
                )
        }),
{
    lemma_request_line_in_pieces(method, target, version, rest, capacity, sizes);
}

/// A file is sent whole: behind status 200 come the exact length of the
/// contents, the content type, the blank line, and the contents.
pub proof fn lemma_file_is_sent_whole(content_type: ContentType, contents: Seq<u8>)
    ensures
        ({
            let response = ResponseView {
                status: Status::Okay,
                data: Some(contents),
                content_type: Some(content_type),
                data_includes_headers: false,
            };
            &&& response.wire() == Status::Okay.line() + "Content-Length: ".spec_bytes() + decimal(
                contents.len(),
            ) + "\r\nContent-Type: ".spec_bytes() + content_type.mime() + "\r\n\r\n".spec_bytes()
                + contents
            &&& response.stated_length(response.wire()) == contents.len()
        }),
{
    let response = ResponseView {
        status: Status::Okay,
        data: Some(contents),
        content_type: Some(content_type),
        data_includes_headers: false,
    };
    lemma_content_length_round_trip(response);
    assert(response.wire() =~= Status::Okay.line() + "Content-Length: ".spec_bytes() + decimal(
        contents.len(),
    ) + "\r\nContent-Type: ".spec_bytes() + content_type.mime() + "\r\n\r\n".spec_bytes()
        + contents);
}

/// The output of a CGI program that ran follows the status line as it
/// is, with no header added: behind status 200 where the program
/// succeeded, behind 400 where it failed.
pub proof fn lemma_cgi_output_is_forwarded(outcome: CgiOutcome)
    requires
        outcome is Exited,
    ensures
        cgi_response(outcome).wire() == (if outcome->success {
            Status::Okay
        } else {
            Status::BadRequest
        }).line() + outcome->stdout@,
{
    let response = cgi_response(outcome);
    assert(response.wire() =~= response.status.line() + outcome->stdout@);
}

} // verus!
