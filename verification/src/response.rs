//! The response serializer: from a status, a body and a content type to
//! the bytes of an HTTP/1.1 response.

use crate::bytes::{
    after_last, bytes_eq, decimal, decimal_value, find_after_last, find_from,
    lemma_after_last_found, lemma_after_last_none, lemma_decimal_round_trip,
    lemma_find_from_unique, push_bytes, push_decimal, CR, DOT,
};
use crate::error::HpptResult;
use vstd::prelude::*;
use vstd::slice::*;
use vstd::string::*;

verus! {

/// The statuses that the server answers with.
#[derive(Clone, Copy, Debug, PartialEq, Eq, Structural)]
pub enum Status {
    Okay,
    BadRequest,
    NotFound,
    RequestEntityTooLarge,
    InternalServerError,
    NotImplemented,
    HttpVersionNotSupported,
}

impl Status {
    /// The status line on the wire, with the line terminator.
    pub open spec fn line(self) -> Seq<u8> {
        match self {
            Status::Okay => "HTTP/1.1 200 OK\r\n".spec_bytes(),
            Status::BadRequest => "HTTP/1.1 400 Bad Request\r\n".spec_bytes(),
            Status::NotFound => "HTTP/1.1 404 Not Found\r\n".spec_bytes(),
            Status::RequestEntityTooLarge => "HTTP/1.1 413 Request Entity Too Large\r\n".spec_bytes(),
            Status::InternalServerError => "HTTP/1.1 500 Internal Server Error\r\n".spec_bytes(),
            Status::NotImplemented => "HTTP/1.1 501 Not Implemented\r\n".spec_bytes(),
            Status::HttpVersionNotSupported => "HTTP/1.1 505 HTTP Version not supported\r\n".spec_bytes(),
        }
    }

    /// The status line on the wire, with the line terminator.
    pub fn status_line(&self) -> (line: &'static [u8])
        ensures
            line@ == self.line(),
    {
        match *self {
            Status::Okay => "HTTP/1.1 200 OK\r\n".as_bytes(),
            Status::BadRequest => "HTTP/1.1 400 Bad Request\r\n".as_bytes(),
            Status::NotFound => "HTTP/1.1 404 Not Found\r\n".as_bytes(),
            Status::RequestEntityTooLarge => "HTTP/1.1 413 Request Entity Too Large\r\n".as_bytes(),
            Status::InternalServerError => "HTTP/1.1 500 Internal Server Error\r\n".as_bytes(),
            Status::NotImplemented => "HTTP/1.1 501 Not Implemented\r\n".as_bytes(),
            Status::HttpVersionNotSupported => "HTTP/1.1 505 HTTP Version not supported\r\n".as_bytes(),
        }
    }
}

/// The content types that the server knows.
#[derive(Clone, Copy, Debug, PartialEq, Eq, Structural)]
pub enum ContentType {
    Html,
    Text,
    Markdown,
    Pdf,
    Binary,
}

impl ContentType {
    /// The content type of a file extension. The match is exact and
    /// case-sensitive; an unknown extension is binary.
    pub open spec fn of_extension(extension: Seq<u8>) -> ContentType {
        if extension == "htm".spec_bytes() || extension == "html".spec_bytes() {
            ContentType::Html
        } else if extension == "toml".spec_bytes() || extension == "txt".spec_bytes() {
            ContentType::Text
        } else if extension == "md".spec_bytes() {
            ContentType::Markdown
        } else if extension == "pdf".spec_bytes() {
            ContentType::Pdf
        } else {
            ContentType::Binary
        }
    }

    /// The content type of a path: that of what follows its last `.`, and
    /// binary where it has no `.`.
    pub open spec fn of_path(path: Seq<u8>) -> ContentType {
        let dot = after_last(path, DOT);
        if dot == 0 {
            ContentType::Binary
        } else {
            ContentType::of_extension(path.subrange(dot, path.len() as int))
        }
    }

    /// The content type of a path, going by its extension alone.
    pub fn from_path(path: &str) -> (content_type: ContentType)
        ensures
            content_type == ContentType::of_path(path.spec_bytes()),
    {
        let bytes = path.as_bytes();
        let dot = find_after_last(bytes, DOT);
        if dot == 0 {
            return ContentType::Binary;
        }
        let extension = slice_subrange(bytes, dot, bytes.len());
        if bytes_eq(extension, "htm".as_bytes()) || bytes_eq(extension, "html".as_bytes()) {
            ContentType::Html
        } else if bytes_eq(extension, "toml".as_bytes()) || bytes_eq(extension, "txt".as_bytes()) {
            ContentType::Text
        } else if bytes_eq(extension, "md".as_bytes()) {
            ContentType::Markdown
        } else if bytes_eq(extension, "pdf".as_bytes()) {
            ContentType::Pdf
        } else {
            ContentType::Binary
        }
    }

    /// The media type, as it is written in a `Content-Type` header.
    pub open spec fn mime(self) -> Seq<u8> {
        match self {
            ContentType::Html => "text/html".spec_bytes(),
            ContentType::Text => "text/plain".spec_bytes(),
            ContentType::Pdf => "application/pdf".spec_bytes(),
            ContentType::Markdown => "text/markdown".spec_bytes(),
            ContentType::Binary => "application/octet-stream".spec_bytes(),
        }
    }

    /// The media type, as it is written in a `Content-Type` header.
    pub fn as_bytes(&self) -> (mime: &'static [u8])
        ensures
            mime@ == self.mime(),
    {
        match *self {
            ContentType::Html => "text/html".as_bytes(),
            ContentType::Text => "text/plain".as_bytes(),
            ContentType::Pdf => "application/pdf".as_bytes(),
            ContentType::Markdown => "text/markdown".as_bytes(),
            ContentType::Binary => "application/octet-stream".as_bytes(),
        }
    }
}

/// What a response holds, as mathematical values.
pub struct ResponseView {
    pub status: Status,
    pub data: Option<Seq<u8>>,
    pub content_type: Option<ContentType>,
    pub data_includes_headers: bool,
}

impl ResponseView {
    /// The body: the data, or nothing where there is none.
    pub open spec fn body(self) -> Seq<u8> {
        match self.data {
            Some(data) => data,
            None => seq![],
        }
    }

    /// The `Content-Type` header with the line terminator in front of it,
    /// or nothing where no content type is set.
    pub open spec fn content_type_header(self) -> Seq<u8> {
        match self.content_type {
            Some(content_type) => "\r\nContent-Type: ".spec_bytes() + content_type.mime(),
            None => seq![],
        }
    }

    /// The headers with the blank line that ends them. Nothing where the
    /// data brings its own headers.
    pub open spec fn headers(self) -> Seq<u8> {
        if self.data_includes_headers {
            seq![]
        } else {
            "Content-Length: ".spec_bytes() + decimal(self.body().len())
                + self.content_type_header() + "\r\n\r\n".spec_bytes()
        }
    }

    /// The response on the wire: status line, headers, body.
    pub open spec fn wire(self) -> Seq<u8> {
        self.status.line() + self.headers() + self.body()
    }

    /// The number that a message states as its content length, read as
    /// a recipient would: the digits between the header's name, which
    /// follows the status line, and the next carriage return.
    pub open spec fn stated_length(self, message: Seq<u8>) -> nat {
        let start = self.status.line().len() + "Content-Length: ".spec_bytes().len();
        decimal_value(message.subrange(start as int, find_from(message, CR, start as int)))
    }
}

/// A response: a status, the bytes of the body if there is one, a content
/// type if one is known, and whether the data starts with headers of its
/// own, as the output of a CGI program does.
#[derive(Debug)]
pub struct Response {
    status: Status,
    data: Option<Vec<u8>>,
    content_type: Option<ContentType>,
    data_includes_headers: bool,
}

impl View for Response {
    type V = ResponseView;

    closed spec fn view(&self) -> ResponseView {
        ResponseView {
            status: self.status,
            data: match self.data {
                Some(data) => Some(data@),
                None => None,
            },
            content_type: self.content_type,
            data_includes_headers: self.data_includes_headers,
        }
    }
}

impl Response {
    /// A response of the given parts.
    pub fn new(
        status: Status,
        data: Option<Vec<u8>>,
        content_type: Option<ContentType>,
        data_includes_headers: bool,
    ) -> (r: Response)
        ensures
            r@ == (ResponseView {
                status: status,
                data: match data {
                    Some(data) => Some(data@),
                    None => None,
                },
                content_type: content_type,
                data_includes_headers: data_includes_headers,
            }),
    {
        Response { status, data, content_type, data_includes_headers }
    }

    /// The status of the response.
    pub fn status(&self) -> (status: Status)
        ensures
            status == self@.status,
    {
        self.status
    }

    /// Writes the response to `target`: the status line; then, unless the
    /// data brings its own headers, `Content-Length` with the exact length
    /// of the body, `Content-Type` if one is set, and the blank line; then
    /// the body. Appending to a vector cannot fail.
    pub fn send(self, target: &mut Vec<u8>) -> (r: HpptResult<()>)
        ensures
            r is Ok,
            final(target)@ == old(target)@ + self@.wire(),
    {
        let mut buf: Vec<u8> = Vec::with_capacity(1024);
        push_bytes(&mut buf, self.status.status_line());
        let empty: Vec<u8> = Vec::new();
        let body: &Vec<u8> = match &self.data {
            Some(data) => data,
            None => &empty,
        };
        if !self.data_includes_headers {
            push_bytes(&mut buf, "Content-Length: ".as_bytes());
            push_decimal(&mut buf, body.len());
            if let Some(content_type) = self.content_type {
                push_bytes(&mut buf, "\r\nContent-Type: ".as_bytes());
                push_bytes(&mut buf, content_type.as_bytes());
            }
            push_bytes(&mut buf, "\r\n\r\n".as_bytes());
        }
        assert(buf@ =~= self@.status.line() + self@.headers());
        push_bytes(&mut buf, body.as_slice());
        assert(buf@ =~= self@.wire());
        push_bytes(target, buf.as_slice());
        Ok(())
    }
}


/// The two byte strings that can follow the digits of `Content-Length`
/// both begin with a carriage return.
proof fn lemma_after_digits(v: ResponseView)
    ensures
        (v.content_type_header() + "\r\n\r\n".spec_bytes()).len() > 0,
        (v.content_type_header() + "\r\n\r\n".spec_bytes())[0] == CR,
{
    reveal_strlit("\r\n\r\n");
    reveal_strlit("\r\nContent-Type: ");
    assert(is_ascii("\r\n\r\n"));
    assert(is_ascii("\r\nContent-Type: "));
    is_ascii_spec_bytes("\r\n\r\n");
    is_ascii_spec_bytes("\r\nContent-Type: ");
}

/// The content length that a serialized response states is the exact
/// length of its body, whenever the serializer writes the headers.
pub proof fn lemma_content_length_round_trip(v: ResponseView)
    requires
        !v.data_includes_headers,
    ensures
        v.stated_length(v.wire()) == v.body().len(),
{
    let message = v.wire();
    let digits = decimal(v.body().len());
    let start = (v.status.line().len() + "Content-Length: ".spec_bytes().len()) as int;
    let tail = v.content_type_header() + "\r\n\r\n".spec_bytes();
    lemma_decimal_round_trip(v.body().len());
    lemma_after_digits(v);
    assert(message =~= v.status.line() + "Content-Length: ".spec_bytes() + digits + tail
        + v.body());
    assert(message[start + digits.len()] == tail[0]);
    assert forall|j: int| start <= j < start + digits.len() implies message[j] != CR by {
        assert(message[j] == digits[j - start]);
    }
    lemma_find_from_unique(message, CR, start, start + digits.len());
    assert(message.subrange(start, start + digits.len()) =~= digits);
}


/// The content type of a path goes by its extension alone: whatever
/// stands in front of the last `.` does not matter, and a path without a
/// `.` is binary.
pub proof fn lemma_content_type_by_extension(stem: Seq<u8>, extension: Seq<u8>)
    requires
        forall|i: int| 0 <= i < extension.len() ==> extension[i] != DOT,
    ensures
        ContentType::of_path(stem.push(DOT) + extension) == ContentType::of_extension(extension),
        ContentType::of_path(extension) == ContentType::Binary,
{
    let path = stem.push(DOT) + extension;
    lemma_after_last_found(stem, DOT, extension);
    lemma_after_last_none(extension, DOT);
    assert(path.subrange(stem.len() as int + 1, path.len() as int) =~= extension);
}

/// The table of extensions: `htm` and `html` are HTML, `toml` and `txt`
/// are plain text, `md` is Markdown, `pdf` is PDF. None of them holds a
/// `.`, so each is the extension of any path that ends with a `.` and it.
pub proof fn lemma_extension_table(stem: Seq<u8>)
    ensures
        ContentType::of_path(stem.push(DOT) + "htm".spec_bytes()) == ContentType::Html,
        ContentType::of_path(stem.push(DOT) + "html".spec_bytes()) == ContentType::Html,
        ContentType::of_path(stem.push(DOT) + "toml".spec_bytes()) == ContentType::Text,
        ContentType::of_path(stem.push(DOT) + "txt".spec_bytes()) == ContentType::Text,
        ContentType::of_path(stem.push(DOT) + "md".spec_bytes()) == ContentType::Markdown,
        ContentType::of_path(stem.push(DOT) + "pdf".spec_bytes()) == ContentType::Pdf,
{
    reveal_strlit("htm");
    reveal_strlit("html");
    reveal_strlit("toml");
    reveal_strlit("txt");
    reveal_strlit("md");
    reveal_strlit("pdf");
    assert(is_ascii("htm"));
    assert(is_ascii("html"));
    assert(is_ascii("toml"));
    assert(is_ascii("txt"));
    assert(is_ascii("md"));
    assert(is_ascii("pdf"));
    is_ascii_spec_bytes("htm");
    is_ascii_spec_bytes("html");
    is_ascii_spec_bytes("toml");
    is_ascii_spec_bytes("txt");
    is_ascii_spec_bytes("md");
    is_ascii_spec_bytes("pdf");
    assert("htm".spec_bytes()[0] == 104);
    assert("html".spec_bytes()[0] == 104);
    assert("toml".spec_bytes()[1] == 111);
    assert("txt".spec_bytes()[1] == 120);
    assert("md".spec_bytes()[0] == 109);
    assert("pdf".spec_bytes()[0] == 112);
    lemma_content_type_by_extension(stem, "htm".spec_bytes());
    lemma_content_type_by_extension(stem, "html".spec_bytes());
    lemma_content_type_by_extension(stem, "toml".spec_bytes());
    lemma_content_type_by_extension(stem, "txt".spec_bytes());
    lemma_content_type_by_extension(stem, "md".spec_bytes());
    lemma_content_type_by_extension(stem, "pdf".spec_bytes());
}

/// Each status has a status line of its own.
pub proof fn lemma_status_lines_differ(a: Status, b: Status)
    requires
        a != b,
    ensures
        a.line() != b.line(),
{
    reveal_strlit("HTTP/1.1 200 OK\r\n");
    reveal_strlit("HTTP/1.1 400 Bad Request\r\n");
    reveal_strlit("HTTP/1.1 404 Not Found\r\n");
    reveal_strlit("HTTP/1.1 413 Request Entity Too Large\r\n");
    reveal_strlit("HTTP/1.1 500 Internal Server Error\r\n");
    reveal_strlit("HTTP/1.1 501 Not Implemented\r\n");
    reveal_strlit("HTTP/1.1 505 HTTP Version not supported\r\n");
    assert(is_ascii("HTTP/1.1 200 OK\r\n"));
    assert(is_ascii("HTTP/1.1 400 Bad Request\r\n"));
    assert(is_ascii("HTTP/1.1 404 Not Found\r\n"));
    assert(is_ascii("HTTP/1.1 413 Request Entity Too Large\r\n"));
    assert(is_ascii("HTTP/1.1 500 Internal Server Error\r\n"));
    assert(is_ascii("HTTP/1.1 501 Not Implemented\r\n"));
    assert(is_ascii("HTTP/1.1 505 HTTP Version not supported\r\n"));
    is_ascii_spec_bytes("HTTP/1.1 200 OK\r\n");
    is_ascii_spec_bytes("HTTP/1.1 400 Bad Request\r\n");
    is_ascii_spec_bytes("HTTP/1.1 404 Not Found\r\n");
    is_ascii_spec_bytes("HTTP/1.1 413 Request Entity Too Large\r\n");
    is_ascii_spec_bytes("HTTP/1.1 500 Internal Server Error\r\n");
    is_ascii_spec_bytes("HTTP/1.1 501 Not Implemented\r\n");
    is_ascii_spec_bytes("HTTP/1.1 505 HTTP Version not supported\r\n");
    assert(Status::Okay.line()[9] == 50);
    assert(Status::BadRequest.line()[9] == 52 && Status::BadRequest.line()[11] == 48);
    assert(Status::NotFound.line()[9] == 52 && Status::NotFound.line()[11] == 52);
    assert(Status::RequestEntityTooLarge.line()[9] == 52 && Status::RequestEntityTooLarge.line()[11]
        == 51);
    assert(Status::InternalServerError.line()[9] == 53 && Status::InternalServerError.line()[11]
        == 48);
    assert(Status::NotImplemented.line()[9] == 53 && Status::NotImplemented.line()[11] == 49);
    assert(Status::HttpVersionNotSupported.line()[9] == 53
        && Status::HttpVersionNotSupported.line()[11] == 53);
}

} // verus!
