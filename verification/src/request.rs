//! The wire parser: from the bytes read so far to a request, or to the
//! reason why there is none.

use crate::bytes::{
    bytes_eq, find_byte, find_from, lemma_find_from, lemma_find_from_unique, lossy_text,
    utf8_lossy, utf8_text, CR, LF, QUESTION, SLASH, SPACE,
};
use crate::error::{HpptError, HpptResult};
use vstd::prelude::*;
use vstd::slice::*;
use vstd::string::*;
use vstd::utf8::*;

verus! {

/// The request methods of HTTP/1.1.
#[derive(Clone, Copy, Debug, PartialEq, Eq, Structural)]
pub enum Method {
    Options,
    Get,
    Head,
    Post,
    Put,
    Delete,
    Trace,
    Connect,
}

impl Method {
    /// The token that names the method in a request line.
    pub open spec fn token(self) -> Seq<u8> {
        match self {
            Method::Options => "OPTIONS".spec_bytes(),
            Method::Get => "GET".spec_bytes(),
            Method::Head => "HEAD".spec_bytes(),
            Method::Post => "POST".spec_bytes(),
            Method::Put => "PUT".spec_bytes(),
            Method::Delete => "DELETE".spec_bytes(),
            Method::Trace => "TRACE".spec_bytes(),
            Method::Connect => "CONNECT".spec_bytes(),
        }
    }

    /// The method that a token names, if it names one. The match is exact
    /// and case-sensitive.
    pub open spec fn of_token(token: Seq<u8>) -> Option<Method> {
        if token == Method::Options.token() {
            Some(Method::Options)
        } else if token == Method::Get.token() {
            Some(Method::Get)
        } else if token == Method::Head.token() {
            Some(Method::Head)
        } else if token == Method::Post.token() {
            Some(Method::Post)
        } else if token == Method::Put.token() {
            Some(Method::Put)
        } else if token == Method::Delete.token() {
            Some(Method::Delete)
        } else if token == Method::Trace.token() {
            Some(Method::Trace)
        } else if token == Method::Connect.token() {
            Some(Method::Connect)
        } else {
            None
        }
    }

    /// Reads a method token. Anything but one of the eight names is a
    /// parsing error.
    pub fn from_bytes(method: &[u8]) -> (r: HpptResult<Method>)
        ensures
            match r {
                Ok(m) => Method::of_token(method@) == Some(m),
                Err(e) => e is Parsing && Method::of_token(method@) is None,
            },
    {
        if bytes_eq(method, "OPTIONS".as_bytes()) {
            Ok(Method::Options)
        } else if bytes_eq(method, "GET".as_bytes()) {
            Ok(Method::Get)
        } else if bytes_eq(method, "HEAD".as_bytes()) {
            Ok(Method::Head)
        } else if bytes_eq(method, "POST".as_bytes()) {
            Ok(Method::Post)
        } else if bytes_eq(method, "PUT".as_bytes()) {
            Ok(Method::Put)
        } else if bytes_eq(method, "DELETE".as_bytes()) {
            Ok(Method::Delete)
        } else if bytes_eq(method, "TRACE".as_bytes()) {
            Ok(Method::Trace)
        } else if bytes_eq(method, "CONNECT".as_bytes()) {
            Ok(Method::Connect)
        } else {
            Err(HpptError::Parsing)
        }
    }

    /// The name of the method as text.
    pub open spec fn name(self) -> Seq<char> {
        match self {
            Method::Options => "OPTIONS"@,
            Method::Get => "GET"@,
            Method::Head => "HEAD"@,
            Method::Post => "POST"@,
            Method::Put => "PUT"@,
            Method::Delete => "DELETE"@,
            Method::Trace => "TRACE"@,
            Method::Connect => "CONNECT"@,
        }
    }

    /// The name of the method, as it is written in a request line.
    pub fn as_bytes(&self) -> (name: &'static str)
        ensures
            name@ == self.name(),
            name.spec_bytes() == self.token(),
    {
        match *self {
            Method::Options => "OPTIONS",
            Method::Get => "GET",
            Method::Head => "HEAD",
            Method::Post => "POST",
            Method::Put => "PUT",
            Method::Delete => "DELETE",
            Method::Trace => "TRACE",
            Method::Connect => "CONNECT",
        }
    }
}

/// The protocol versions that the server speaks: HTTP/1.1 and no other.
#[derive(Clone, Copy, Debug, PartialEq, Eq, Structural)]
pub enum Version {
    OneDotOne,
}

impl Version {
    /// The token that names the version in a request line.
    pub open spec fn token(self) -> Seq<u8> {
        "HTTP/1.1".spec_bytes()
    }

    /// Reads a version token. Anything but `HTTP/1.1` is an unsupported
    /// version.
    pub fn from_bytes(version: &[u8]) -> (r: HpptResult<Version>)
        ensures
            match r {
                Ok(v) => version@ == v.token(),
                Err(e) => e is UnsupportedHttpVersion && version@ != Version::OneDotOne.token(),
            },
    {
        if bytes_eq(version, "HTTP/1.1".as_bytes()) {
            Ok(Version::OneDotOne)
        } else {
            Err(HpptError::UnsupportedHttpVersion)
        }
    }
}

/// The path of a request, relative to the server root: the request
/// target up to its first `?`, without one leading `/`.
#[derive(Clone, Debug, PartialEq, Eq)]
pub struct Uri(pub String);

impl View for Uri {
    type V = Seq<char>;

    open spec fn view(&self) -> Seq<char> {
        self.0@
    }
}

impl std::ops::Deref for Uri {
    type Target = str;

    fn deref(&self) -> (text: &str)
        ensures
            text@ == self@,
    {
        self.0.as_str()
    }
}

/// The query of a request: what follows the first `?` of the request
/// target.
#[derive(Clone, Debug, PartialEq, Eq)]
pub struct Query(pub String);

impl View for Query {
    type V = Seq<char>;

    open spec fn view(&self) -> Seq<char> {
        self.0@
    }
}

impl std::ops::Deref for Query {
    type Target = str;

    fn deref(&self) -> (text: &str)
        ensures
            text@ == self@,
    {
        self.0.as_str()
    }
}

/// What a request holds, as mathematical values.
pub struct RequestView {
    pub method: Method,
    pub uri: Seq<char>,
    pub query: Option<Seq<char>>,
    pub version: Version,
    pub header_lines: Seq<Seq<char>>,
    pub body: Seq<u8>,
}

/// A parsed request. The header lines are kept as they came, one string
/// a line; the body is the part of the read buffer behind the headers.
#[derive(Clone, Debug, PartialEq, Eq)]
pub struct Request<'a> {
    method: Method,
    uri: Uri,
    query: Option<Query>,
    version: Version,
    header_lines: Vec<String>,
    body: &'a [u8],
}

/// The texts of a list of strings.
pub open spec fn texts(lines: Seq<String>) -> Seq<Seq<char>> {
    Seq::new(lines.len(), |i: int| lines[i]@)
}

impl<'a> View for Request<'a> {
    type V = RequestView;

    closed spec fn view(&self) -> RequestView {
        RequestView {
            method: self.method,
            uri: self.uri@,
            query: match self.query {
                Some(q) => Some(q@),
                None => None,
            },
            version: self.version,
            header_lines: texts(self.header_lines@),
            body: self.body@,
        }
    }
}

/// A line without the carriage return that may end it.
pub open spec fn trim_cr(line: Seq<u8>) -> Seq<u8> {
    if line.len() > 0 && line.last() == CR {
        line.drop_last()
    } else {
        line
    }
}

/// The line that starts at `from`: the bytes up to the next line feed, or
/// to the end where there is none, without a final carriage return.
pub open spec fn line_at(bytes: Seq<u8>, from: int) -> Seq<u8> {
    trim_cr(bytes.subrange(from, find_from(bytes, LF, from)))
}

/// The text of a header line: the text that the line encodes where it is
/// UTF-8, and otherwise that text with a replacement character for each
/// malformed part.
pub open spec fn header_text(line: Seq<u8>) -> Seq<char> {
    if valid_utf8(line) {
        decode_utf8(line)
    } else {
        lossy_text(line)
    }
}

/// The header lines that start at `from`: the lines up to the first
/// empty one, or to the end of the bytes.
pub open spec fn header_lines_at(bytes: Seq<u8>, from: int) -> Seq<Seq<char>>
    decreases bytes.len() - from,
{
    let end = find_from(bytes, LF, from);
    let line = line_at(bytes, from);
    if from < 0 || from > bytes.len() || line.len() == 0 {
        seq![]
    } else if end >= bytes.len() {
        seq![header_text(line)]
    } else {
        proof {
            lemma_find_from(bytes, LF, from);
        }
        seq![header_text(line)] + header_lines_at(bytes, end + 1)
    }
}

/// Where the body starts when the header lines start at `from`: behind
/// the line feed of the first empty line, or at the end of the bytes
/// where no empty line follows.
pub open spec fn body_start_at(bytes: Seq<u8>, from: int) -> int
    decreases bytes.len() - from,
{
    let end = find_from(bytes, LF, from);
    let line = line_at(bytes, from);
    if from < 0 || from > bytes.len() || end >= bytes.len() {
        bytes.len() as int
    } else if line.len() == 0 {
        end + 1
    } else {
        proof {
            lemma_find_from(bytes, LF, from);
        }
        body_start_at(bytes, end + 1)
    }
}

/// A request target without the one `/` that may lead it.
pub open spec fn strip_slash(target: Seq<u8>) -> Seq<u8> {
    if target.len() > 0 && target[0] == SLASH {
        target.subrange(1, target.len() as int)
    } else {
        target
    }
}

/// The path bytes of a request target: up to its first `?`, without one
/// leading `/`.
pub open spec fn target_path(target: Seq<u8>) -> Seq<u8> {
    let rest = strip_slash(target);
    rest.subrange(0, find_from(rest, QUESTION, 0))
}

/// The query bytes of a request target: all that follows its first `?`.
/// Empty where there is no `?`.
pub open spec fn target_query(target: Seq<u8>) -> Seq<u8> {
    let rest = strip_slash(target);
    let mark = find_from(rest, QUESTION, 0);
    if mark < rest.len() {
        rest.subrange(mark + 1, rest.len() as int)
    } else {
        seq![]
    }
}

/// What the parser makes of the bytes read so far.
///
/// The request line is the first line, and it is all there once the line
/// feed that ends it is: bytes without a line feed are incomplete,
/// whatever they hold. The tokens of the line are separated by single
/// spaces: method, target, version; what follows a third space is not
/// looked at. The checks on a line that has its line feed come in this
/// order:
/// an empty request line is incomplete; a method token that is not one of
/// the eight names is a parsing error; a missing target is incomplete; an
/// empty target is a parsing error; a target whose path or query is not
/// UTF-8 is incomplete; a missing version is incomplete; a version other
/// than `HTTP/1.1` is unsupported.
pub open spec fn parse_request(bytes: Seq<u8>) -> Result<RequestView, HpptError> {
    let end = find_from(bytes, LF, 0);
    let line = line_at(bytes, 0);
    let sp1 = find_from(line, SPACE, 0);
    let sp2 = find_from(line, SPACE, sp1 + 1);
    let sp3 = find_from(line, SPACE, sp2 + 1);
    let target = line.subrange(sp1 + 1, sp2);
    let query = target_query(target);
    if end >= bytes.len() {
        Err(HpptError::IncompleteRequest)
    } else if line.len() == 0 {
        Err(HpptError::IncompleteRequest)
    } else if Method::of_token(line.subrange(0, sp1)) is None {
        Err(HpptError::Parsing)
    } else if sp1 >= line.len() {
        Err(HpptError::IncompleteRequest)
    } else if target.len() == 0 {
        Err(HpptError::Parsing)
    } else if !valid_utf8(target_path(target)) || !valid_utf8(query) {
        Err(HpptError::IncompleteRequest)
    } else if sp2 >= line.len() {
        Err(HpptError::IncompleteRequest)
    } else if line.subrange(sp2 + 1, sp3) != Version::OneDotOne.token() {
        Err(HpptError::UnsupportedHttpVersion)
    } else {
        Ok(
            RequestView {
                method: Method::of_token(line.subrange(0, sp1))->0,
                uri: decode_utf8(target_path(target)),
                query: if query.len() > 0 {
                    Some(decode_utf8(query))
                } else {
                    None
                },
                version: Version::OneDotOne,
                header_lines: header_lines_at(bytes, end + 1),
                body: bytes.subrange(body_start_at(bytes, end + 1), bytes.len() as int),
            },
        )
    }
}

/// Cuts one final carriage return off a line.
fn trim_line<'b>(raw: &'b [u8]) -> (line: &'b [u8])
    ensures
        line@ == trim_cr(raw@),
{
    let n = raw.len();
    if n > 0 && raw[n - 1] == CR {
        let line = slice_subrange(raw, 0, n - 1);
        assert(line@ =~= raw@.drop_last());
        line
    } else {
        raw
    }
}

/// Reads the line that starts at `from`. Returns the line and the
/// position of the line feed that ends it, or the length of `bytes`
/// where none does.
fn read_line<'b>(bytes: &'b [u8], from: usize) -> (r: (&'b [u8], usize))
    requires
        from <= bytes.len(),
    ensures
        r.0@ == line_at(bytes@, from as int),
        r.1 == find_from(bytes@, LF, from as int),
        from <= r.1 <= bytes.len(),
{
    let end = find_byte(bytes, LF, from);
    (trim_line(slice_subrange(bytes, from, end)), end)
}

/// Splits a request target into path and query. `None` where one of the
/// two is not UTF-8.
pub fn split_target(target: &[u8]) -> (r: Option<(Uri, Option<Query>)>)
    ensures
        r is Some <==> valid_utf8(target_path(target@)) && valid_utf8(target_query(target@)),
        r matches Some((uri, query)) ==> {
            &&& uri@ == decode_utf8(target_path(target@))
            &&& match query {
                Some(q) => target_query(target@).len() > 0 && q@ == decode_utf8(
                    target_query(target@),
                ),
                None => target_query(target@).len() == 0,
            }
        },
{
    let rest = if target.len() > 0 && target[0] == SLASH {
        slice_subrange(target, 1, target.len())
    } else {
        target
    };
    let mark = find_byte(rest, QUESTION, 0);
    let path = slice_subrange(rest, 0, mark);
    let query = if mark < rest.len() {
        slice_subrange(rest, mark + 1, rest.len())
    } else {
        slice_subrange(rest, mark, mark)
    };
    assert(query@ =~= target_query(target@));
    match utf8_text(path) {
        None => None,
        Some(path_text) => match utf8_text(query) {
            None => None,
            Some(query_text) => {
                let uri = Uri(path_text.to_owned());
                if query.len() > 0 {
                    Some((uri, Some(Query(query_text.to_owned()))))
                } else {
                    Some((uri, None))
                }
            },
        },
    }
}

/// Reads the header lines that start at `from`. Returns them and the
/// position at which the body starts.
fn read_headers(bytes: &[u8], from: usize) -> (r: (Vec<String>, usize))
    requires
        from <= bytes.len(),
    ensures
        texts(r.0@) == header_lines_at(bytes@, from as int),
        r.1 == body_start_at(bytes@, from as int),
        from <= r.1 <= bytes.len(),
{
    let mut lines: Vec<String> = Vec::new();
    let mut pos: usize = from;
    assert(texts(lines@) + header_lines_at(bytes@, pos as int) =~= header_lines_at(
        bytes@,
        from as int,
    ));
    loop
        invariant
            from <= pos <= bytes.len(),
            header_lines_at(bytes@, from as int) == texts(lines@) + header_lines_at(
                bytes@,
                pos as int,
            ),
            body_start_at(bytes@, from as int) == body_start_at(bytes@, pos as int),
        decreases bytes.len() - pos,
    {
        let (line, end) = read_line(bytes, pos);
        if line.len() == 0 {
            assert(texts(lines@) + Seq::<Seq<char>>::empty() =~= texts(lines@));
            if end >= bytes.len() {
                return (lines, bytes.len());
            }
            return (lines, end + 1);
        }
        let ghost before = lines@;
        lines.push(utf8_lossy(line));
        assert(texts(lines@) =~= texts(before) + seq![header_text(line@)]);
        if end >= bytes.len() {
            assert(texts(before) + seq![header_text(line@)] =~= texts(lines@));
            return (lines, bytes.len());
        }
        assert(texts(before) + (seq![header_text(line@)] + header_lines_at(bytes@, end + 1))
            =~= texts(lines@) + header_lines_at(bytes@, end + 1));
        pos = end + 1;
    }
}

impl<'a> Request<'a> {
    /// A request of the given parts.
    pub fn new(
        method: Method,
        uri: Uri,
        query: Option<Query>,
        version: Version,
        header_lines: Vec<String>,
        body: &'a [u8],
    ) -> (r: Request<'a>)
        ensures
            r@ == (RequestView {
                method: method,
                uri: uri@,
                query: match query {
                    Some(q) => Some(q@),
                    None => None,
                },
                version: version,
                header_lines: texts(header_lines@),
                body: body@,
            }),
    {
        Request { method, uri, query, version, header_lines, body }
    }

    /// Parses the bytes read so far: the request line, then the header
    /// lines up to the first empty line, then the body. Nothing is made of
    /// a request line before its line feed has come.
    ///
    /// `IncompleteRequest` says that more bytes may make a request of
    /// these; the other two errors are final.
    pub fn from_bytes(bytes: &'a [u8]) -> (r: HpptResult<Request<'a>>)
        ensures
            match r {
                Ok(request) => parse_request(bytes@) == Ok::<RequestView, HpptError>(request@),
                Err(e) => parse_request(bytes@) == Err::<RequestView, HpptError>(e),
            },
    {
        let (line, end) = read_line(bytes, 0);
        if end >= bytes.len() || line.len() == 0 {
            return Err(HpptError::IncompleteRequest);
        }
        let sp1 = find_byte(line, SPACE, 0);
        let method = match Method::from_bytes(slice_subrange(line, 0, sp1)) {
            Ok(m) => m,
            Err(_) => {
                return Err(HpptError::Parsing);
            },
        };
        if sp1 >= line.len() {
            return Err(HpptError::IncompleteRequest);
        }
        let sp2 = find_byte(line, SPACE, sp1 + 1);
        let target = slice_subrange(line, sp1 + 1, sp2);
        if target.len() == 0 {
            return Err(HpptError::Parsing);
        }
        let (uri, query) = match split_target(target) {
            Some(parts) => parts,
            None => {
                return Err(HpptError::IncompleteRequest);
            },
        };
        if sp2 >= line.len() {
            return Err(HpptError::IncompleteRequest);
        }
        let sp3 = find_byte(line, SPACE, sp2 + 1);
        let version = match Version::from_bytes(slice_subrange(line, sp2 + 1, sp3)) {
            Ok(v) => v,
            Err(_) => {
                return Err(HpptError::UnsupportedHttpVersion);
            },
        };
        let (header_lines, body_start) = read_headers(bytes, end + 1);
        let body = slice_subrange(bytes, body_start, bytes.len());
        Ok(Request { method, uri, query, version, header_lines, body })
    }

    /// The method of the request.
    pub fn method(&self) -> (method: Method)
        ensures
            method == self@.method,
    {
        self.method
    }

    /// The path of the request, relative to the server root.
    pub fn uri(&self) -> (uri: &Uri)
        ensures
            uri@ == self@.uri,
    {
        &self.uri
    }

    /// The query of the request, if it has one.
    pub fn query(&self) -> (query: Option<&Query>)
        ensures
            match query {
                Some(q) => self@.query == Some(q@),
                None => self@.query is None,
            },
    {
        self.query.as_ref()
    }

    /// The protocol version of the request.
    pub fn version(&self) -> (version: Version)
        ensures
            version == self@.version,
    {
        self.version
    }

    /// The header lines of the request, in the order they came in.
    pub fn header_lines(&self) -> (lines: &Vec<String>)
        ensures
            texts(lines@) == self@.header_lines,
    {
        &self.header_lines
    }

    /// The body of the request.
    pub fn body(&self) -> (body: &'a [u8])
        ensures
            body@ == self@.body,
    {
        self.body
    }
}


/// A target of a `/`, a path without a `?`, a `?` and a query splits
/// into that path and that query; without the `?` and the query, it is
/// all path.
pub proof fn lemma_target_parts(path: Seq<u8>, query: Seq<u8>)
    requires
        forall|i: int| 0 <= i < path.len() ==> path[i] != QUESTION,
    ensures
        target_path(seq![SLASH] + path + seq![QUESTION] + query) == path,
        target_query(seq![SLASH] + path + seq![QUESTION] + query) == query,
        target_path(seq![SLASH] + path) == path,
        target_query(seq![SLASH] + path) == Seq::<u8>::empty(),
{
    let with_query = seq![SLASH] + path + seq![QUESTION] + query;
    let rest = path + seq![QUESTION] + query;
    assert(strip_slash(with_query) =~= rest);
    lemma_find_from_unique(rest, QUESTION, 0, path.len() as int);
    assert(rest.subrange(0, path.len() as int) =~= path);
    assert(rest.subrange(path.len() as int + 1, rest.len() as int) =~= query);
    let without = seq![SLASH] + path;
    assert(strip_slash(without) =~= path);
    lemma_find_from_unique(path, QUESTION, 0, path.len() as int);
    assert(path.subrange(0, path.len() as int) =~= path);
}

/// A parsed request never has an empty query: a target that ends with
/// its first `?` has no query at all.
pub proof fn lemma_query_is_never_empty(bytes: Seq<u8>)
    ensures
        parse_request(bytes) matches Ok(request) ==> (request.query matches Some(query)
            ==> query.len() > 0),
{
}

/// The bytes of each method name. The names are distinct, so each one
/// names its own method; none holds a space or a line feed.
pub proof fn lemma_method_tokens(method: Method)
    ensures
        method.token().len() > 0,
        forall|i: int|
            0 <= i < method.token().len() ==> #[trigger] method.token()[i] != SPACE
                && method.token()[i] != LF,
        Method::of_token(method.token()) == Some(method),
{
    reveal_strlit("OPTIONS");
    reveal_strlit("GET");
    reveal_strlit("HEAD");
    reveal_strlit("POST");
    reveal_strlit("PUT");
    reveal_strlit("DELETE");
    reveal_strlit("TRACE");
    reveal_strlit("CONNECT");
    assert(is_ascii("OPTIONS"));
    assert(is_ascii("GET"));
    assert(is_ascii("HEAD"));
    assert(is_ascii("POST"));
    assert(is_ascii("PUT"));
    assert(is_ascii("DELETE"));
    assert(is_ascii("TRACE"));
    assert(is_ascii("CONNECT"));
    is_ascii_spec_bytes("OPTIONS");
    is_ascii_spec_bytes("GET");
    is_ascii_spec_bytes("HEAD");
    is_ascii_spec_bytes("POST");
    is_ascii_spec_bytes("PUT");
    is_ascii_spec_bytes("DELETE");
    is_ascii_spec_bytes("TRACE");
    is_ascii_spec_bytes("CONNECT");
    assert(Method::Options.token()[0] == 79);
    assert(Method::Get.token()[0] == 71);
    assert(Method::Head.token()[0] == 72);
    assert(Method::Post.token()[1] == 79);
    assert(Method::Put.token()[1] == 85);
    assert(Method::Delete.token()[0] == 68);
    assert(Method::Trace.token()[0] == 84);
    assert(Method::Connect.token()[0] == 67);
}

/// The bytes of the version name: eight of them, none a space or a line
/// feed.
pub proof fn lemma_version_token()
    ensures
        Version::OneDotOne.token().len() == 8,
        forall|i: int|
            0 <= i < 8 ==> #[trigger] Version::OneDotOne.token()[i] != SPACE
                && Version::OneDotOne.token()[i] != LF,
{
    reveal_strlit("HTTP/1.1");
    assert(is_ascii("HTTP/1.1"));
    is_ascii_spec_bytes("HTTP/1.1");
}

/// Whether a request target is one that the parser takes: not empty,
/// without a space or a line feed, its path and its query UTF-8.
pub open spec fn target_is_well_formed(target: Seq<u8>) -> bool {
    &&& target.len() > 0
    &&& forall|i: int| 0 <= i < target.len() ==> #[trigger] target[i] != SPACE && target[i] != LF
    &&& valid_utf8(target_path(target))
    &&& valid_utf8(target_query(target))
}

/// A request line with its terminator: a method, a target and a version
/// token, a space between them.
pub open spec fn request_line(method: Method, target: Seq<u8>, version: Seq<u8>) -> Seq<u8> {
    method.token() + seq![SPACE] + target + seq![SPACE] + version + seq![CR, LF]
}

/// A request line of a method name, a well-formed target and a version
/// token parses the same way whatever follows it. With the token
/// `HTTP/1.1` it parses to that method and to the path and the query of
/// that target, and the header lines and the body are read from what
/// follows the line. With any other token the version is unsupported.
pub proof fn lemma_parse_request_line(
    method: Method,
    target: Seq<u8>,
    version: Seq<u8>,
    rest: Seq<u8>,
)
    requires
        target_is_well_formed(target),
        forall|i: int| 0 <= i < version.len() ==> #[trigger] version[i] != SPACE && version[i] != LF,
    ensures
        ({
            let line = request_line(method, target, version);
            let bytes = line + rest;
            parse_request(bytes) == if version == Version::OneDotOne.token() {
                Ok::<RequestView, HpptError>(
                    RequestView {
                        method: method,
                        uri: decode_utf8(target_path(target)),
                        query: if target_query(target).len() > 0 {
                            Some(decode_utf8(target_query(target)))
                        } else {
                            None
                        },
                        version: Version::OneDotOne,
                        header_lines: header_lines_at(bytes, line.len() as int),
                        body: bytes.subrange(
                            body_start_at(bytes, line.len() as int),
                            bytes.len() as int,
                        ),
                    },
                )
            } else {
                Err::<RequestView, HpptError>(HpptError::UnsupportedHttpVersion)
            }
        }),
{
    lemma_method_tokens(method);
    let token = method.token();
    let text = token + seq![SPACE] + target + seq![SPACE] + version;
    let bytes = request_line(method, target, version) + rest;
    let n = text.len() as int;
    let a = token.len() as int;
    let b = a + 1 + target.len();
    assert(bytes =~= text + seq![CR, LF] + rest);
    assert forall|j: int| 0 <= j < n + 1 implies bytes[j] != LF by {
        if j < a {
            assert(bytes[j] == token[j]);
        } else if j == a {
        } else if j < b {
            assert(bytes[j] == target[j - a - 1]);
        } else if j == b {
        } else if j < n {
            assert(bytes[j] == version[j - b - 1]);
        } else {
        }
    }
    lemma_find_from_unique(bytes, LF, 0, n + 1);
    assert(bytes.subrange(0, n + 1) =~= text + seq![CR]);
    assert((text + seq![CR]).drop_last() =~= text);
    assert(line_at(bytes, 0) == text);
    assert forall|j: int| 0 <= j < a implies text[j] != SPACE by {
        assert(text[j] == token[j]);
    }
    lemma_find_from_unique(text, SPACE, 0, a);
    assert forall|j: int| a + 1 <= j < b implies text[j] != SPACE by {
        assert(text[j] == target[j - a - 1]);
    }
    lemma_find_from_unique(text, SPACE, a + 1, b);
    assert forall|j: int| b + 1 <= j < n implies text[j] != SPACE by {
        assert(text[j] == version[j - b - 1]);
    }
    lemma_find_from_unique(text, SPACE, b + 1, n);
    assert(text.subrange(0, a) =~= token);
    assert(text.subrange(a + 1, b) =~= target);
    assert(text.subrange(b + 1, n) =~= version);
}


/// Bytes without a line feed are incomplete, whatever they hold: nothing
/// is made of a request line before it is all there.
pub proof fn lemma_unterminated_is_incomplete(bytes: Seq<u8>)
    requires
        forall|i: int| 0 <= i < bytes.len() ==> bytes[i] != LF,
    ensures
        parse_request(bytes) == Err::<RequestView, HpptError>(HpptError::IncompleteRequest),
{
    lemma_find_from_unique(bytes, LF, 0, bytes.len() as int);
}

/// What may follow a request line without adding a header line or a
/// body: nothing, or an empty line, whole or in part.
pub open spec fn is_blank_tail(rest: Seq<u8>) -> bool {
    rest == Seq::<u8>::empty() || rest == seq![CR] || rest == seq![LF] || rest == seq![CR, LF]
}

/// What a request line parses to when no header line and no body follow
/// it.
pub open spec fn request_line_result(method: Method, target: Seq<u8>, version: Seq<u8>) -> Result<
    RequestView,
    HpptError,
> {
    if version == Version::OneDotOne.token() {
        Ok(
            RequestView {
                method: method,
                uri: decode_utf8(target_path(target)),
                query: if target_query(target).len() > 0 {
                    Some(decode_utf8(target_query(target)))
                } else {
                    None
                },
                version: Version::OneDotOne,
                header_lines: seq![],
                body: seq![],
            },
        )
    } else {
        Err(HpptError::UnsupportedHttpVersion)
    }
}

/// The only line feed of a request line is its last byte.
pub proof fn lemma_request_line_ends_with_line_feed(
    method: Method,
    target: Seq<u8>,
    version: Seq<u8>,
)
    requires
        target_is_well_formed(target),
        forall|i: int| 0 <= i < version.len() ==> #[trigger] version[i] != SPACE && version[i] != LF,
    ensures
        ({
            let line = request_line(method, target, version);
            &&& line.len() >= 2
            &&& line.last() == LF
            &&& forall|j: int| 0 <= j < line.len() - 1 ==> line[j] != LF
        }),
{
    lemma_method_tokens(method);
    let token = method.token();
    let line = request_line(method, target, version);
    let a = token.len() as int;
    let b = a + 1 + target.len();
    let n = b + 1 + version.len();
    assert forall|j: int| 0 <= j < line.len() - 1 implies line[j] != LF by {
        if j < a {
            assert(line[j] == token[j]);
        } else if j == a {
        } else if j < b {
            assert(line[j] == target[j - a - 1]);
        } else if j == b {
        } else if j < n {
            assert(line[j] == version[j - b - 1]);
        } else {
        }
    }
}

/// A request line with nothing but an empty line behind it, whole or in
/// part, parses to the request of its tokens, without header lines and
/// without a body.
pub proof fn lemma_parse_request_line_alone(
    method: Method,
    target: Seq<u8>,
    version: Seq<u8>,
    rest: Seq<u8>,
)
    requires
        target_is_well_formed(target),
        forall|i: int| 0 <= i < version.len() ==> #[trigger] version[i] != SPACE && version[i] != LF,
        is_blank_tail(rest),
    ensures
        parse_request(request_line(method, target, version) + rest) == request_line_result(
            method,
            target,
            version,
        ),
{
    let line = request_line(method, target, version);
    let bytes = line + rest;
    let from = line.len() as int;
    lemma_parse_request_line(method, target, version, rest);
    let tail = bytes.subrange(from, find_from(bytes, LF, from));
    if rest == Seq::<u8>::empty() {
        assert(bytes.len() == from);
    } else if rest == seq![CR] {
        lemma_find_from_unique(bytes, LF, from, from + 1);
        assert(tail =~= seq![CR]);
        assert(tail.drop_last() =~= Seq::<u8>::empty());
    } else if rest == seq![LF] {
        lemma_find_from_unique(bytes, LF, from, from);
        assert(tail =~= Seq::<u8>::empty());
    } else {
        lemma_find_from_unique(bytes, LF, from, from + 1);
        assert(tail =~= seq![CR]);
        assert(tail.drop_last() =~= Seq::<u8>::empty());
    }
    assert(line_at(bytes, from).len() == 0);
    assert(header_lines_at(bytes, from) =~= Seq::<Seq<char>>::empty());
    assert(body_start_at(bytes, from) == bytes.len());
    assert(bytes.subrange(body_start_at(bytes, from), bytes.len() as int) =~= Seq::<u8>::empty());
}

} // verus!
