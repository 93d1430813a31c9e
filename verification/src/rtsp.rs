//! Minimal RTSP/1.0 message parsing and serialization, covering the Apple
//! dialect used by AirPlay 1 senders. Requests arrive on a long-lived TCP
//! connection, one after another; responses echo the request's CSeq.

use vstd::prelude::*;
use vstd::utf8::*;

use crate::number;
use crate::number::{parse_unsigned, push_decimal};
use crate::text;
use crate::text::{chars_of, eq_ignoring_case, split_once, string_of, strip_prefix, trim};
use crate::utf8::from_utf8;

verus! {

/// A request with more headers than this is refused.
pub const MAX_HEADERS: usize = 128;

/// Bodies above this are refused (which drops the connection). Cover art
/// arrives as a `SET_PARAMETER` body of tens to hundreds of KB, so the cap
/// sits well above that: it only catches a sender that has gone wrong.
pub const MAX_BODY: usize = 8_388_608;

/// One RTSP request.
#[derive(Debug)]
pub struct Request {
    pub method: String,
    pub uri: String,
    pub headers: Headers,
    pub body: Vec<u8>,
}

/// The headers of a request, in the order in which they came.
#[derive(Debug)]
pub struct Headers {
    entries: Vec<(String, String)>,
}

/// The names and values of some headers.
pub open spec fn entries_view(entries: Seq<(String, String)>) -> Seq<(Seq<char>, Seq<char>)> {
    entries.map_values(|e: (String, String)| (e.0@, e.1@))
}

impl View for Headers {
    type V = Seq<(Seq<char>, Seq<char>)>;

    closed spec fn view(&self) -> Seq<(Seq<char>, Seq<char>)> {
        entries_view(self.entries@)
    }
}

/// The value of the first header of that name; the case of a name does not
/// matter.
pub open spec fn header_value(headers: Seq<(Seq<char>, Seq<char>)>, name: Seq<char>) -> Option<
    Seq<char>,
>
    decreases headers.len(),
{
    if headers.len() == 0 {
        None
    } else if text::same_ignoring_case(headers[0].0, name) {
        Some(headers[0].1)
    } else {
        header_value(headers.skip(1), name)
    }
}

impl Default for Headers {
    fn default() -> (headers: Headers)
        ensures
            headers@ == Seq::<(Seq<char>, Seq<char>)>::empty(),
    {
        let headers = Headers { entries: Vec::new() };
        assert(headers@ =~= Seq::<(Seq<char>, Seq<char>)>::empty());
        headers
    }
}

impl Headers {
    /// The value of the first header called `name`, in whatever case.
    pub fn get(&self, name: &str) -> (value: Option<&str>)
        ensures
            value is Some <==> header_value(self@, name@) is Some,
            value is Some ==> value->0@ == header_value(self@, name@)->0,
    {
        let wanted = chars_of(name);
        let mut i: usize = 0;
        assert(self@.skip(0) =~= self@);
        while i < self.entries.len()
            invariant
                i <= self.entries@.len(),
                self@ == entries_view(self.entries@),
                wanted@ == name@,
                header_value(self@, name@) == header_value(self@.skip(i as int), name@),
            decreases self.entries@.len() - i,
        {
            assert(self@.skip(i as int).skip(1) =~= self@.skip(i + 1));
            let entry = &self.entries[i];
            if eq_ignoring_case(chars_of(entry.0.as_str()).as_slice(), wanted.as_slice()) {
                return Some(entry.1.as_str());
            }
            i += 1;
        }
        None
    }

    /// The headers, in order.
    pub fn iter(&self) -> (all: Vec<(&str, &str)>)
        ensures
            all@.len() == self@.len(),
            forall|i: int|
                0 <= i < self@.len() ==> (#[trigger] all@[i]).0@ == self@[i].0 && all@[i].1@
                    == self@[i].1,
    {
        let mut all: Vec<(&str, &str)> = Vec::new();
        let mut i: usize = 0;
        while i < self.entries.len()
            invariant
                i <= self.entries@.len(),
                self@ == entries_view(self.entries@),
                all@.len() == i,
                forall|j: int|
                    0 <= j < i ==> (#[trigger] all@[j]).0@ == self@[j].0 && all@[j].1@
                        == self@[j].1,
            decreases self.entries@.len() - i,
        {
            let entry = &self.entries[i];
            all.push((entry.0.as_str(), entry.1.as_str()));
            i += 1;
        }
        all
    }

    /// Add a header.
    pub fn push(&mut self, name: String, value: String)
        ensures
            final(self)@ == old(self)@.push((name@, value@)),
    {
        self.entries.push((name, value));
        assert(self@ =~= old(self)@.push((name@, value@)));
    }

    /// How many headers there are.
    pub fn len(&self) -> (n: usize)
        ensures
            n == self@.len(),
    {
        self.entries.len()
    }
}

/// Why a request was refused.
#[derive(Debug, Clone, Copy, PartialEq, Eq)]
pub enum RequestError {
    /// The request line is not `METHOD URI VERSION`.
    MalformedRequestLine,
    /// The version is not RTSP.
    NotRtsp,
    /// The connection ended inside the headers.
    EofInHeaders,
    /// More than [`MAX_HEADERS`] headers.
    TooManyHeaders,
    /// A header line without a colon.
    MalformedHeader,
    /// A `Content-Length` that is no number.
    BadContentLength,
    /// A body of more than [`MAX_BODY`] bytes.
    BodyTooLarge,
    /// The connection ended inside the body.
    TruncatedBody,
    /// A line that is not UTF-8.
    InvalidUtf8,
}

/// Where the first line feed at or after `from` is; the end if there is none.
pub open spec fn newline_at(bytes: Seq<u8>, from: int) -> int
    decreases bytes.len() - from,
{
    if from >= bytes.len() || bytes[from] == 0x0a {
        from
    } else {
        newline_at(bytes, from + 1)
    }
}

/// `s` without the carriage returns and line feeds at its end.
pub open spec fn without_line_end(s: Seq<char>) -> Seq<char>
    decreases s.len(),
{
    if s.len() > 0 && (s.last() == '\n' || s.last() == '\r') {
        without_line_end(s.drop_last())
    } else {
        s
    }
}

/// What there is to read at a place: a line, and where the next one begins; or
/// nothing yet, nothing ever, or bytes that are no text.
pub enum LineRead {
    Pending,
    End,
    NotText,
    Text(Seq<char>, int),
}

/// The line that `raw` is, with the next one at `next`.
pub open spec fn text_line(raw: Seq<u8>, next: int) -> LineRead {
    if valid_utf8(raw) {
        LineRead::Text(without_line_end(decode_utf8(raw)), next)
    } else {
        LineRead::NotText
    }
}

/// The line that begins at `from`, of what has arrived so far; `eof` says that
/// no more will. The last line of all may do without a line feed.
pub open spec fn line_at(bytes: Seq<u8>, from: int, eof: bool) -> LineRead {
    let newline = newline_at(bytes, from);
    if newline < bytes.len() {
        text_line(bytes.subrange(from, newline + 1), newline + 1)
    } else if !eof {
        LineRead::Pending
    } else if from >= bytes.len() {
        LineRead::End
    } else {
        text_line(bytes.subrange(from, bytes.len() as int), bytes.len() as int)
    }
}

/// The method and the URI of a request line: two spaces make three parts, of
/// which the first is not empty and the last begins with `RTSP/`.
pub open spec fn request_line(line: Seq<char>) -> Result<(Seq<char>, Seq<char>), RequestError> {
    match text::split_once_of(line, ' ') {
        None => Err(RequestError::MalformedRequestLine),
        Some((method, rest)) => match text::split_once_of(rest, ' ') {
            None => Err(RequestError::MalformedRequestLine),
            Some((uri, version)) => if method.len() == 0 {
                Err(RequestError::MalformedRequestLine)
            } else if !text::has_prefix(version, "RTSP/"@) {
                Err(RequestError::NotRtsp)
            } else {
                Ok((method, uri))
            },
        },
    }
}

/// What there is to read of a header block.
pub enum HeadersRead {
    Pending,
    Bad(RequestError),
    Done(Seq<(Seq<char>, Seq<char>)>, int),
}

/// The headers from `from` on, after those in `seen`: one line each, up to an
/// empty line.
pub open spec fn headers_at(
    bytes: Seq<u8>,
    from: int,
    eof: bool,
    seen: Seq<(Seq<char>, Seq<char>)>,
) -> HeadersRead
    decreases bytes.len() - from,
{
    match line_at(bytes, from, eof) {
        LineRead::Pending => HeadersRead::Pending,
        LineRead::End => HeadersRead::Bad(RequestError::EofInHeaders),
        LineRead::NotText => HeadersRead::Bad(RequestError::InvalidUtf8),
        LineRead::Text(line, next) => if line.len() == 0 {
            HeadersRead::Done(seen, next)
        } else if seen.len() >= MAX_HEADERS {
            HeadersRead::Bad(RequestError::TooManyHeaders)
        } else {
            match text::split_once_of(line, ':') {
                None => HeadersRead::Bad(RequestError::MalformedHeader),
                Some((name, value)) => if from < next <= bytes.len() {
                    headers_at(bytes, next, eof, seen.push((text::trimmed(name), text::trimmed(value))))
                } else {
                    HeadersRead::Pending
                },
            }
        },
    }
}

/// What there is to read of a request.
pub enum RequestRead {
    /// Not all of it has arrived.
    Pending,
    /// The client closed the connection between requests.
    Closed,
    /// It is refused.
    Bad(RequestError),
    /// It is complete, and takes so many bytes.
    Complete(RequestContent, int),
}

/// What a request says.
pub struct RequestContent {
    pub method: Seq<char>,
    pub uri: Seq<char>,
    pub headers: Seq<(Seq<char>, Seq<char>)>,
    pub body: Seq<u8>,
}

impl View for Request {
    type V = RequestContent;

    open spec fn view(&self) -> RequestContent {
        RequestContent {
            method: self.method@,
            uri: self.uri@,
            headers: self.headers@,
            body: self.body@,
        }
    }
}

/// How long the body of a request is, by its `Content-Length`; without one it
/// has none.
pub open spec fn body_len(headers: Seq<(Seq<char>, Seq<char>)>) -> Result<int, RequestError> {
    match header_value(headers, "Content-Length"@) {
        None => Ok(0),
        Some(value) => match number::parsed_unsigned(value, 10, usize::MAX as int) {
            None => Err(RequestError::BadContentLength),
            Some(len) => if len > MAX_BODY {
                Err(RequestError::BodyTooLarge)
            } else {
                Ok(len)
            },
        },
    }
}

/// The request that begins what has arrived so far: a request line, headers,
/// and as much of a body as they say. An empty request line ends a connection.
pub open spec fn request_at(bytes: Seq<u8>, eof: bool) -> RequestRead {
    match line_at(bytes, 0, eof) {
        LineRead::Pending => RequestRead::Pending,
        LineRead::End => RequestRead::Closed,
        LineRead::NotText => RequestRead::Bad(RequestError::InvalidUtf8),
        LineRead::Text(line, next) => if line.len() == 0 {
            RequestRead::Closed
        } else {
            match request_line(line) {
                Err(e) => RequestRead::Bad(e),
                Ok((method, uri)) => match headers_at(bytes, next, eof, Seq::empty()) {
                    HeadersRead::Pending => RequestRead::Pending,
                    HeadersRead::Bad(e) => RequestRead::Bad(e),
                    HeadersRead::Done(headers, at) => match body_len(headers) {
                        Err(e) => RequestRead::Bad(e),
                        Ok(len) => if at + len <= bytes.len() {
                            RequestRead::Complete(
                                RequestContent {
                                    method,
                                    uri,
                                    headers,
                                    body: bytes.subrange(at, at + len),
                                },
                                at + len,
                            )
                        } else if eof {
                            RequestRead::Bad(RequestError::TruncatedBody)
                        } else {
                            RequestRead::Pending
                        },
                    },
                },
            }
        },
    }
}

/// What [`read_request`] found.
#[derive(Debug)]
pub enum ReadOutcome {
    /// The request is not complete yet: read more and ask again.
    Incomplete,
    /// The client closed the connection at a message boundary.
    Closed,
    /// The connection is to be dropped.
    Invalid(RequestError),
    /// A request, and how many bytes it takes.
    Request { request: Request, consumed: usize },
}

impl View for ReadOutcome {
    type V = RequestRead;

    open spec fn view(&self) -> RequestRead {
        match self {
            ReadOutcome::Incomplete => RequestRead::Pending,
            ReadOutcome::Closed => RequestRead::Closed,
            ReadOutcome::Invalid(e) => RequestRead::Bad(*e),
            ReadOutcome::Request { request, consumed } => RequestRead::Complete(
                request@,
                *consumed as int,
            ),
        }
    }
}

enum Line {
    Pending,
    End,
    NotText,
    Text(Vec<char>, usize),
}

impl Line {
    spec fn read(self) -> LineRead {
        match self {
            Line::Pending => LineRead::Pending,
            Line::End => LineRead::End,
            Line::NotText => LineRead::NotText,
            Line::Text(text, next) => LineRead::Text(text@, next as int),
        }
    }
}

fn text_of(raw: &[u8], next: usize) -> (line: Line)
    ensures
        line.read() == text_line(raw@, next as int),
{
    let text = match from_utf8(raw) {
        Some(text) => text,
        None => {
            return Line::NotText;
        },
    };
    let mut chars = chars_of(text.as_str());
    let ghost all = chars@;
    while chars.len() > 0 && (chars[chars.len() - 1] == '\n' || chars[chars.len() - 1] == '\r')
        invariant
            without_line_end(all) == without_line_end(chars@),
        decreases chars@.len(),
    {
        let ghost was = chars@;
        let last = chars.pop();
        assert(chars@ =~= was.drop_last());
    }
    Line::Text(chars, next)
}

/// Read the line at `from`.
fn read_line(bytes: &[u8], from: usize, eof: bool) -> (line: Line)
    requires
        from <= bytes@.len(),
    ensures
        line.read() == line_at(bytes@, from as int, eof),
        line.read() matches LineRead::Text(text, next) ==> from < next <= bytes@.len(),
{
    let mut i: usize = from;
    while i < bytes.len() && bytes[i] != 0x0a
        invariant
            from <= i <= bytes@.len(),
            newline_at(bytes@, from as int) == newline_at(bytes@, i as int),
        decreases bytes@.len() - i,
    {
        i += 1;
    }
    if i < bytes.len() {
        text_of(vstd::slice::slice_subrange(bytes, from, i + 1), i + 1)
    } else if !eof {
        Line::Pending
    } else if from >= bytes.len() {
        Line::End
    } else {
        text_of(vstd::slice::slice_subrange(bytes, from, bytes.len()), bytes.len())
    }
}

fn read_request_line(line: &[char]) -> (parts: Result<(String, String), RequestError>)
    ensures
        match parts {
            Ok((method, uri)) => request_line(line@) == Ok::<_, RequestError>((method@, uri@)),
            Err(e) => request_line(line@) == Err::<(Seq<char>, Seq<char>), _>(e),
        },
{
    let (method, rest) = match split_once(line, ' ') {
        Some(parts) => parts,
        None => {
            return Err(RequestError::MalformedRequestLine);
        },
    };
    let (uri, version) = match split_once(rest, ' ') {
        Some(parts) => parts,
        None => {
            return Err(RequestError::MalformedRequestLine);
        },
    };
    if method.len() == 0 {
        return Err(RequestError::MalformedRequestLine);
    }
    if strip_prefix(version, chars_of("RTSP/").as_slice()).is_none() {
        return Err(RequestError::NotRtsp);
    }
    Ok((string_of(method), string_of(uri)))
}

enum HeaderBlock {
    Pending,
    Bad(RequestError),
    Done(Headers, usize),
}

impl HeaderBlock {
    spec fn read(self) -> HeadersRead {
        match self {
            HeaderBlock::Pending => HeadersRead::Pending,
            HeaderBlock::Bad(e) => HeadersRead::Bad(e),
            HeaderBlock::Done(headers, at) => HeadersRead::Done(headers@, at as int),
        }
    }
}

fn read_headers(bytes: &[u8], from: usize, eof: bool) -> (block: HeaderBlock)
    requires
        from <= bytes@.len(),
    ensures
        block.read() == headers_at(bytes@, from as int, eof, Seq::empty()),
        block.read() matches HeadersRead::Done(headers, at) ==> from <= at <= bytes@.len(),
{
    let mut headers = Headers::default();
    let mut at: usize = from;
    loop
        invariant
            from <= at <= bytes@.len(),
            headers_at(bytes@, from as int, eof, Seq::empty()) == headers_at(
                bytes@,
                at as int,
                eof,
                headers@,
            ),
        decreases bytes@.len() - at,
    {
        match read_line(bytes, at, eof) {
            Line::Pending => {
                return HeaderBlock::Pending;
            },
            Line::End => {
                return HeaderBlock::Bad(RequestError::EofInHeaders);
            },
            Line::NotText => {
                return HeaderBlock::Bad(RequestError::InvalidUtf8);
            },
            Line::Text(line, next) => {
                if line.len() == 0 {
                    return HeaderBlock::Done(headers, next);
                }
                if headers.len() >= MAX_HEADERS {
                    return HeaderBlock::Bad(RequestError::TooManyHeaders);
                }
                match split_once(line.as_slice(), ':') {
                    None => {
                        return HeaderBlock::Bad(RequestError::MalformedHeader);
                    },
                    Some((name, value)) => {
                        headers.push(string_of(trim(name)), string_of(trim(value)));
                        at = next;
                    },
                }
            },
        }
    }
}

fn read_body_len(headers: &Headers) -> (len: Result<usize, RequestError>)
    ensures
        match len {
            Ok(n) => body_len(headers@) == Ok::<int, RequestError>(n as int) && n <= MAX_BODY,
            Err(e) => body_len(headers@) == Err::<int, RequestError>(e),
        },
{
    match headers.get("Content-Length") {
        None => Ok(0),
        Some(value) => {
            match parse_unsigned(chars_of(value).as_slice(), 10, usize::MAX as u64) {
                None => Err(RequestError::BadContentLength),
                Some(len) => if len > MAX_BODY as u64 {
                    Err(RequestError::BodyTooLarge)
                } else {
                    Ok(len as usize)
                },
            }
        },
    }
}

/// Read one RTSP request from what has arrived so far; `eof` says that no more
/// will.
pub fn read_request(bytes: &[u8], eof: bool) -> (outcome: ReadOutcome)
    ensures
        outcome@ == request_at(bytes@, eof),
        outcome@ matches RequestRead::Complete(request, consumed) ==> 0 < consumed <= bytes@.len(),
{
    let (line, next) = match read_line(bytes, 0, eof) {
        Line::Pending => {
            return ReadOutcome::Incomplete;
        },
        Line::End => {
            return ReadOutcome::Closed;
        },
        Line::NotText => {
            return ReadOutcome::Invalid(RequestError::InvalidUtf8);
        },
        Line::Text(line, next) => (line, next),
    };
    if line.len() == 0 {
        return ReadOutcome::Closed;
    }
    let (method, uri) = match read_request_line(line.as_slice()) {
        Ok(parts) => parts,
        Err(e) => {
            return ReadOutcome::Invalid(e);
        },
    };
    let (headers, at) = match read_headers(bytes, next, eof) {
        HeaderBlock::Pending => {
            return ReadOutcome::Incomplete;
        },
        HeaderBlock::Bad(e) => {
            return ReadOutcome::Invalid(e);
        },
        HeaderBlock::Done(headers, at) => (headers, at),
    };
    let len: usize = match read_body_len(&headers) {
        Ok(len) => len,
        Err(e) => {
            return ReadOutcome::Invalid(e);
        },
    };
    if len > bytes.len() - at {
        return if eof {
            ReadOutcome::Invalid(RequestError::TruncatedBody)
        } else {
            ReadOutcome::Incomplete
        };
    }
    let body = vstd::slice::slice_to_vec(vstd::slice::slice_subrange(bytes, at, at + len));
    ReadOutcome::Request { request: Request { method, uri, headers, body }, consumed: at + len }
}

/// A line that has arrived stays what it is, whatever follows it.
proof fn lemma_line_is_stable(bytes: Seq<u8>, more: Seq<u8>, from: int, eof: bool)
    requires
        0 <= from <= bytes.len(),
        line_at(bytes, from, false) !is Pending,
    ensures
        line_at(bytes + more, from, eof) == line_at(bytes, from, false),
        line_at(bytes, from, false) matches LineRead::Text(text, next) ==> from < next
            <= bytes.len(),
{
    lemma_newline_is_stable(bytes, more, from);
    let newline = newline_at(bytes, from);
    assert((bytes + more).subrange(from, newline + 1) =~= bytes.subrange(from, newline + 1));
}

proof fn lemma_newline_is_stable(bytes: Seq<u8>, more: Seq<u8>, from: int)
    requires
        0 <= from <= bytes.len(),
    ensures
        from <= newline_at(bytes, from) <= bytes.len(),
        newline_at(bytes, from) < bytes.len() ==> newline_at(bytes + more, from) == newline_at(
            bytes,
            from,
        ),
    decreases bytes.len() - from,
{
    if from < bytes.len() && bytes[from] != 0x0a {
        lemma_newline_is_stable(bytes, more, from + 1);
        assert((bytes + more)[from] == bytes[from]);
    } else if from < bytes.len() {
        assert((bytes + more)[from] == bytes[from]);
    }
}

proof fn lemma_headers_are_stable(
    bytes: Seq<u8>,
    more: Seq<u8>,
    from: int,
    eof: bool,
    seen: Seq<(Seq<char>, Seq<char>)>,
)
    requires
        0 <= from <= bytes.len(),
        headers_at(bytes, from, false, seen) !is Pending,
    ensures
        headers_at(bytes + more, from, eof, seen) == headers_at(bytes, from, false, seen),
        headers_at(bytes, from, false, seen) matches HeadersRead::Done(headers, at) ==> from <= at
            <= bytes.len(),
    decreases bytes.len() - from,
{
    lemma_line_is_stable(bytes, more, from, eof);
    if let LineRead::Text(line, next) = line_at(bytes, from, false) {
        if line.len() > 0 && seen.len() < MAX_HEADERS {
            if let Some((name, value)) = text::split_once_of(line, ':') {
                lemma_headers_are_stable(
                    bytes,
                    more,
                    next,
                    eof,
                    seen.push((text::trimmed(name), text::trimmed(value))),
                );
            }
        }
    }
}

/// What a connection has said does not change with what it says later: once a
/// request is complete, refused, or the connection over, more bytes (or the end
/// of the connection) make no difference to it. So requests can follow one
/// another on a connection, however the bytes are cut up on the way.
pub proof fn law_a_request_does_not_depend_on_what_follows(
    bytes: Seq<u8>,
    more: Seq<u8>,
    eof: bool,
)
    requires
        request_at(bytes, false) !is Pending,
    ensures
        request_at(bytes + more, eof) == request_at(bytes, false),
{
    lemma_line_is_stable(bytes, more, 0, eof);
    if let LineRead::Text(line, next) = line_at(bytes, 0, false) {
        if line.len() > 0 {
            if let Ok((method, uri)) = request_line(line) {
                lemma_headers_are_stable(bytes, more, next, eof, Seq::empty());
                if let HeadersRead::Done(headers, at) = headers_at(
                    bytes,
                    next,
                    false,
                    Seq::empty(),
                ) {
                    if let Ok(len) = body_len(headers) {
                        if let Some(value) = header_value(headers, "Content-Length"@) {
                            number::lemma_parsed_is_in_bounds(value, 10, usize::MAX as int);
                        }
                        if at + len <= bytes.len() {
                            assert((bytes + more).subrange(at, at + len) =~= bytes.subrange(
                                at,
                                at + len,
                            ));
                        }
                    }
                }
            }
        }
    }
}

/// An RTSP response.
#[derive(Debug)]
pub struct Response {
    status: u16,
    reason: &'static str,
    headers: Vec<(String, String)>,
    body: Vec<u8>,
}

/// What a response says.
pub struct ResponseContent {
    pub status: u16,
    pub reason: Seq<char>,
    pub headers: Seq<(Seq<char>, Seq<char>)>,
    pub body: Seq<u8>,
}

impl ResponseContent {
    /// A response with this status alone.
    pub open spec fn status_only(status: u16, reason: Seq<char>) -> ResponseContent {
        ResponseContent { status, reason, headers: Seq::empty(), body: Seq::empty() }
    }

    /// The same response with one more header.
    pub open spec fn with(self, name: Seq<char>, value: Seq<char>) -> ResponseContent {
        ResponseContent { headers: self.headers.push((name, value)), ..self }
    }
}

impl View for Response {
    type V = ResponseContent;

    closed spec fn view(&self) -> ResponseContent {
        ResponseContent {
            status: self.status,
            reason: self.reason@,
            headers: entries_view(self.headers@),
            body: self.body@,
        }
    }
}

/// Some headers as they go on the wire: `Name: value`, a line each.
pub open spec fn header_lines(headers: Seq<(Seq<char>, Seq<char>)>) -> Seq<char>
    decreases headers.len(),
{
    if headers.len() == 0 {
        Seq::empty()
    } else {
        header_lines(headers.drop_last()) + headers.last().0 + ": "@ + headers.last().1 + "\r\n"@
    }
}

/// A response up to its body, as it goes on the wire.
pub open spec fn response_head(r: ResponseContent) -> Seq<char> {
    "RTSP/1.0 "@ + number::decimal(r.status as nat) + " "@ + r.reason + "\r\n"@ + header_lines(r.headers)
        + (if r.body.len() > 0 {
        "Content-Length: "@ + number::decimal(r.body.len()) + "\r\n"@
    } else {
        Seq::empty()
    }) + "\r\n"@
}

impl Response {
    /// A response with this status and nothing else.
    pub fn new(status: u16, reason: &'static str) -> (response: Response)
        ensures
            response@ == ResponseContent::status_only(status, reason@),
    {
        let response = Response { status, reason, headers: Vec::new(), body: Vec::new() };
        assert(response@.headers =~= Seq::<(Seq<char>, Seq<char>)>::empty());
        assert(response@.body =~= Seq::<u8>::empty());
        response
    }

    /// `200 OK`.
    pub fn ok() -> (response: Response)
        ensures
            response@ == ResponseContent::status_only(200, "OK"@),
    {
        Response::new(200, "OK")
    }

    /// The same response with one more header.
    pub fn header(self, name: &str, value: &str) -> (response: Response)
        ensures
            response@ == self@.with(name@, value@),
    {
        let mut headers = self.headers;
        let ghost was = headers@;
        headers.push((name.to_owned(), value.to_owned()));
        assert(entries_view(headers@) =~= entries_view(was).push((name@, value@)));
        Response { status: self.status, reason: self.reason, headers, body: self.body }
    }

    /// The status code.
    pub fn status(&self) -> (status: u16)
        ensures
            status == self@.status,
    {
        self.status
    }

    /// The value of the first header called `name`, in whatever case.
    pub fn get(&self, name: &str) -> (value: Option<String>)
        ensures
            value is Some <==> header_value(self@.headers, name@) is Some,
            value is Some ==> value->0@ == header_value(self@.headers, name@)->0,
    {
        let wanted = chars_of(name);
        let ghost all = self@.headers;
        let mut i: usize = 0;
        assert(all.skip(0) =~= all);
        while i < self.headers.len()
            invariant
                i <= self.headers@.len(),
                all == entries_view(self.headers@),
                wanted@ == name@,
                header_value(all, name@) == header_value(all.skip(i as int), name@),
            decreases self.headers@.len() - i,
        {
            assert(all.skip(i as int).skip(1) =~= all.skip(i + 1));
            let entry = &self.headers[i];
            if eq_ignoring_case(chars_of(entry.0.as_str()).as_slice(), wanted.as_slice()) {
                return Some(entry.1.clone());
            }
            i += 1;
        }
        None
    }

    /// The response as it goes on the wire.
    pub fn to_bytes(&self) -> (bytes: Vec<u8>)
        ensures
            bytes@ == encode_utf8(response_head(self@)) + self@.body,
    {
        let mut head = String::new();
        head.append("RTSP/1.0 ");
        push_decimal(&mut head, self.status as u64);
        head.append(" ");
        head.append(self.reason);
        head.append("\r\n");
        let ghost status_line = "RTSP/1.0 "@ + number::decimal(self.status as nat) + " "@ + self.reason@
            + "\r\n"@;
        assert(head@ =~= status_line);
        let ghost all = self@.headers;
        let mut i: usize = 0;
        assert(all.take(0) =~= Seq::<(Seq<char>, Seq<char>)>::empty());
        assert(head@ =~= status_line + header_lines(all.take(0)));
        while i < self.headers.len()
            invariant
                i <= self.headers@.len(),
                all == entries_view(self.headers@),
                head@ == status_line + header_lines(all.take(i as int)),
            decreases self.headers@.len() - i,
        {
            let entry = &self.headers[i];
            head.append(entry.0.as_str());
            head.append(": ");
            head.append(entry.1.as_str());
            head.append("\r\n");
            proof {
                let upto = all.take(i + 1);
                assert(upto.drop_last() =~= all.take(i as int));
                assert(upto.last() == (entry.0@, entry.1@));
                assert(head@ =~= status_line + header_lines(upto));
            }
            i += 1;
        }
        assert(all.take(i as int) =~= all);
        if self.body.len() > 0 {
            head.append("Content-Length: ");
            push_decimal(&mut head, self.body.len() as u64);
            head.append("\r\n");
        }
        head.append("\r\n");
        assert(head@ =~= response_head(self@));
        let mut bytes = vstd::slice::slice_to_vec(head.as_str().as_bytes());
        bytes.extend_from_slice(self.body.as_slice());
        assert(bytes@ =~= encode_utf8(response_head(self@)) + self@.body);
        bytes
    }
}

/// The first header of a name counts, in whatever case its name is written,
/// whatever headers of other names stand before it and whatever follows.
pub proof fn law_the_first_header_of_a_name_counts(
    before: Seq<(Seq<char>, Seq<char>)>,
    name: Seq<char>,
    value: Seq<char>,
    after: Seq<(Seq<char>, Seq<char>)>,
    asked: Seq<char>,
)
    requires
        forall|i: int|
            0 <= i < before.len() ==> !text::same_ignoring_case((#[trigger] before[i]).0, asked),
        text::same_ignoring_case(name, asked),
    ensures
        header_value(before + seq![(name, value)] + after, asked) == Some(value),
        header_value(before, asked) is None,
    decreases before.len(),
{
    let all = before + seq![(name, value)] + after;
    if before.len() == 0 {
        assert(all[0] == (name, value));
    } else {
        assert(all[0] == before[0]);
        assert(all.skip(1) =~= before.skip(1) + seq![(name, value)] + after);
        let rest = before.skip(1);
        assert(forall|i: int| 0 <= i < rest.len() ==> #[trigger] rest[i] == before[i + 1]);
        law_the_first_header_of_a_name_counts(rest, name, value, after, asked);
    }
}

/// Texts put behind one another are written behind one another.
proof fn lemma_encoded_apart(a: Seq<char>, b: Seq<char>)
    ensures
        encode_utf8(a + b) == encode_utf8(a) + encode_utf8(b),
    decreases a.len(),
{
    if a.len() == 0 {
        assert(a + b =~= b);
        assert(encode_utf8(a) + encode_utf8(b) =~= encode_utf8(b));
    } else {
        assert((a + b).drop_first() =~= a.drop_first() + b);
        assert((a + b)[0] == a[0]);
        lemma_encoded_apart(a.drop_first(), b);
        assert(encode_utf8(a + b) =~= encode_utf8(a) + encode_utf8(b));
    }
}

/// A character other than a line feed is written without the byte of one.
proof fn lemma_no_line_feed_byte(v: u32)
    requires
        v != 0x0a,
    ensures
        forall|i: int| 0 <= i < encode_scalar(v).len() ==> #[trigger] encode_scalar(v)[i] != 0x0a,
{
    assert(v <= 0x7f && v != 0x0a ==> (v & 0x7f) as u8 != 0x0a) by (bit_vector);
    assert(0xc0u8 | ((v >> 6) & 0x1f) as u8 != 0x0a) by (bit_vector);
    assert(0xe0u8 | ((v >> 12) & 0x0f) as u8 != 0x0a) by (bit_vector);
    assert(0xf0u8 | ((v >> 18) & 0x7) as u8 != 0x0a) by (bit_vector);
    assert(0x80u8 | (v & 0x3f) as u8 != 0x0a) by (bit_vector);
    assert(0x80u8 | ((v >> 6) & 0x3f) as u8 != 0x0a) by (bit_vector);
    assert(0x80u8 | ((v >> 12) & 0x3f) as u8 != 0x0a) by (bit_vector);
}

proof fn lemma_no_line_feed_bytes(s: Seq<char>)
    requires
        forall|i: int| 0 <= i < s.len() ==> #[trigger] s[i] != '\n',
    ensures
        forall|i: int| 0 <= i < encode_utf8(s).len() ==> #[trigger] encode_utf8(s)[i] != 0x0a,
    decreases s.len(),
{
    if s.len() > 0 {
        let rest = s.drop_first();
        assert(forall|i: int| 0 <= i < rest.len() ==> #[trigger] rest[i] == s[i + 1]);
        lemma_no_line_feed_bytes(rest);
        let v = s[0] as u32;
        char_u32_cast(s[0], v);
        assert(s[0] != '\n');
        assert('\n' as u32 == 0x0a);
        lemma_no_line_feed_byte(v);
        let first = encode_scalar(v);
        let all = encode_utf8(s);
        assert(all == first + encode_utf8(rest));
        assert forall|i: int| 0 <= i < all.len() implies #[trigger] all[i] != 0x0a by {
            if i < first.len() {
                assert(all[i] == first[i]);
            } else {
                assert(all[i] == encode_utf8(rest)[i - first.len()]);
            }
        }
    }
}

/// The first line feed is found where it stands.
proof fn lemma_newline_found(bytes: Seq<u8>, from: int, at: int)
    requires
        0 <= from <= at < bytes.len(),
        bytes[at] == 0x0a,
        forall|i: int| from <= i < at ==> #[trigger] bytes[i] != 0x0a,
    ensures
        newline_at(bytes, from) == at,
    decreases at - from,
{
    if from < at {
        lemma_newline_found(bytes, from + 1, at);
    }
}

/// A line that was written is read as it was, whatever stands before and behind
/// it, and the next begins behind its end: a line feed, or the two characters of
/// an Internet line end.
pub proof fn law_a_line_is_read_as_written(
    before: Seq<u8>,
    line: Seq<char>,
    after: Seq<u8>,
    eof: bool,
)
    requires
        forall|i: int| 0 <= i < line.len() ==> #[trigger] line[i] != '\n',
        line.len() > 0 ==> line.last() != '\r',
    ensures
        line_at(before + encode_utf8(line + "\r\n"@) + after, before.len() as int, eof)
            == LineRead::Text(line, (before + encode_utf8(line + "\r\n"@)).len() as int),
        line_at(before + encode_utf8(line + "\n"@) + after, before.len() as int, eof)
            == LineRead::Text(line, (before + encode_utf8(line + "\n"@)).len() as int),
{
    reveal_strlit("\r\n");
    reveal_strlit("\n");
    assert("\r\n"@ =~= seq!['\r', '\n']);
    assert("\n"@ =~= seq!['\n']);
    lemma_ended_line(before, line, seq!['\r'], after, eof);
    lemma_ended_line(before, line, Seq::empty(), after, eof);
    assert(line + seq!['\r'] + seq!['\n'] =~= line + "\r\n"@);
    assert(line + Seq::<char>::empty() + seq!['\n'] =~= line + "\n"@);
    assert((line + "\r\n"@).drop_last() =~= line + seq!['\r']);
    assert((line + seq!['\r']).drop_last() =~= line);
    assert((line + "\n"@).drop_last() =~= line);
    reveal_with_fuel(without_line_end, 3);
    assert(without_line_end(line + "\r\n"@) == line);
    assert(without_line_end(line + "\n"@) == line);
}

proof fn lemma_ended_line(
    before: Seq<u8>,
    line: Seq<char>,
    end: Seq<char>,
    after: Seq<u8>,
    eof: bool,
)
    requires
        forall|i: int| 0 <= i < line.len() ==> #[trigger] line[i] != '\n',
        forall|i: int| 0 <= i < end.len() ==> #[trigger] end[i] != '\n',
    ensures
        ({
            let all = line + end + seq!['\n'];
            line_at(before + encode_utf8(all) + after, before.len() as int, eof) == LineRead::Text(
                without_line_end(all),
                (before + encode_utf8(all)).len() as int,
            )
        }),
{
    let shown = line + end;
    let all = shown + seq!['\n'];
    let raw = encode_utf8(all);
    let bytes = before + raw + after;
    let at = before.len() + encode_utf8(shown).len();
    lemma_encoded_apart(shown, seq!['\n']);
    assert(seq!['\n'].drop_first() =~= Seq::<char>::empty());
    assert(encode_utf8(seq!['\n'].drop_first()) =~= Seq::<u8>::empty());
    assert((0x0au32 & 0x7f) as u8 == 0x0a) by (bit_vector);
    assert('\n' as u32 == 0x0a);
    assert(encode_utf8(seq!['\n']) =~= seq![0x0au8]);
    lemma_no_line_feed_bytes(shown);
    assert(bytes[at as int] == 0x0a);
    assert forall|i: int| before.len() <= i < at implies #[trigger] bytes[i] != 0x0a by {
        assert(bytes[i] == encode_utf8(shown)[i - before.len()]);
    }
    lemma_newline_found(bytes, before.len() as int, at as int);
    assert(bytes.subrange(before.len() as int, at as int + 1) =~= raw);
    encode_utf8_valid_utf8(all);
    encode_utf8_decode_utf8(all);
}

/// While no line feed has come, there is no line yet; at the end of the connection
/// there is none at all, where nothing has come since the last.
pub proof fn law_a_line_is_awaited(bytes: Seq<u8>, from: int)
    requires
        0 <= from <= bytes.len(),
        forall|i: int| from <= i < bytes.len() ==> #[trigger] bytes[i] != 0x0a,
    ensures
        line_at(bytes, from, false) is Pending,
        line_at(bytes, bytes.len() as int, true) is End,
    decreases bytes.len() - from,
{
    if from < bytes.len() {
        law_a_line_is_awaited(bytes, from + 1);
    }
}

/// A request line is a method, a URI and a version, a space between each; the
/// version is an RTSP one.
pub proof fn law_a_request_line_names_method_and_uri(
    method: Seq<char>,
    uri: Seq<char>,
    version: Seq<char>,
)
    requires
        forall|i: int| 0 <= i < method.len() ==> #[trigger] method[i] != ' ',
        forall|i: int| 0 <= i < uri.len() ==> #[trigger] uri[i] != ' ',
    ensures
        method.len() > 0 ==> request_line(method + " "@ + uri + " "@ + "RTSP/"@ + version) == Ok::<
            (Seq<char>, Seq<char>),
            RequestError,
        >((method, uri)),
        request_line(" "@ + uri + " "@ + version) == Err::<(Seq<char>, Seq<char>), _>(
            RequestError::MalformedRequestLine,
        ),
        method.len() > 0 && !text::has_prefix(version, "RTSP/"@) ==> request_line(
            method + " "@ + uri + " "@ + version,
        ) == Err::<(Seq<char>, Seq<char>), _>(RequestError::NotRtsp),
        request_line(method) == Err::<(Seq<char>, Seq<char>), _>(
            RequestError::MalformedRequestLine,
        ),
        request_line(method + " "@ + uri) == Err::<(Seq<char>, Seq<char>), _>(
            RequestError::MalformedRequestLine,
        ),
{
    reveal_strlit(" ");
    assert(" "@ =~= seq![' ']);
    let rtsp = "RTSP/"@ + version;
    text::law_a_prefix_is_a_beginning("RTSP/"@, version, rtsp);
    let rest = uri + seq![' '] + rtsp;
    text::law_a_character_is_found_where_it_stands_first(uri, ' ', rtsp);
    text::law_a_character_is_found_where_it_stands_first(method, ' ', rest);
    assert(method + " "@ + uri + " "@ + "RTSP/"@ + version =~= method + seq![' '] + rest);
    let plain = uri + seq![' '] + version;
    text::law_a_character_is_found_where_it_stands_first(uri, ' ', version);
    text::law_a_character_is_found_where_it_stands_first(method, ' ', plain);
    assert(method + " "@ + uri + " "@ + version =~= method + seq![' '] + plain);
    text::law_a_character_is_found_where_it_stands_first(Seq::empty(), ' ', plain);
    assert(" "@ + uri + " "@ + version =~= Seq::<char>::empty() + seq![' '] + plain);
    text::law_a_character_is_found_where_it_stands_first(method, ' ', uri);
}

/// A header is written on a line of its own, its name and its value with a colon
/// and a space between them, behind those before it.
pub proof fn law_a_header_is_a_line(
    headers: Seq<(Seq<char>, Seq<char>)>,
    name: Seq<char>,
    value: Seq<char>,
)
    ensures
        header_lines(Seq::empty()) == Seq::<char>::empty(),
        header_lines(headers.push((name, value))) == header_lines(headers) + name + ": "@ + value
            + "\r\n"@,
{
    assert(headers.push((name, value)).drop_last() =~= headers);
}

/// The first header's line stands first.
proof fn lemma_header_lines_first(headers: Seq<(Seq<char>, Seq<char>)>)
    requires
        headers.len() > 0,
    ensures
        header_lines(headers) == headers[0].0 + ": "@ + headers[0].1 + "\r\n"@ + header_lines(
            headers.skip(1),
        ),
    decreases headers.len(),
{
    let first = headers[0].0 + ": "@ + headers[0].1 + "\r\n"@;
    if headers.len() == 1 {
        assert(headers.drop_last() =~= Seq::empty());
        assert(headers.skip(1) =~= Seq::empty());
        assert(header_lines(headers) =~= first + header_lines(headers.skip(1)));
    } else {
        let front = headers.drop_last();
        lemma_header_lines_first(front);
        assert(headers.skip(1).drop_last() =~= front.skip(1));
        assert(headers.skip(1).last() == headers.last());
        assert(header_lines(headers) =~= first + header_lines(headers.skip(1)));
    }
}

/// Whether a header can be written on a line and read back: no colon in its name,
/// no line feed in either, no blanks around either.
pub open spec fn writable(header: (Seq<char>, Seq<char>)) -> bool {
    &&& forall|i: int|
        0 <= i < header.0.len() ==> (#[trigger] header.0[i]) != ':' && header.0[i] != '\n'
    &&& forall|i: int| 0 <= i < header.1.len() ==> #[trigger] header.1[i] != '\n'
    &&& header.0.len() > 0 ==> !text::is_space(header.0[0]) && !text::is_space(header.0.last())
    &&& header.1.len() > 0 ==> !text::is_space(header.1[0]) && !text::is_space(header.1.last())
}

/// A header line gives its name and its value, whatever the blanks around them.
pub proof fn law_a_header_line_names_and_values(
    name: Seq<char>,
    lead: Seq<char>,
    value: Seq<char>,
    tail: Seq<char>,
)
    requires
        writable((name, value)),
        forall|i: int| 0 <= i < lead.len() ==> #[trigger] lead[i] == ' ',
        forall|i: int| 0 <= i < tail.len() ==> #[trigger] tail[i] == ' ',
    ensures
        ({
            let cut = text::split_once_of(name + ":"@ + lead + value + tail, ':');
            &&& cut is Some
            &&& text::trimmed((cut->0).0) == name
            &&& text::trimmed((cut->0).1) == value
        }),
{
    reveal_strlit(":");
    assert(":"@ =~= seq![':']);
    let rest = lead + value + tail;
    text::law_a_character_is_found_where_it_stands_first(name, ':', rest);
    assert(name + ":"@ + lead + value + tail =~= name + seq![':'] + rest);
    text::law_trimming_takes_the_blanks_off_the_ends(lead, value, tail);
    text::law_trimming_takes_the_blanks_off_the_ends(Seq::empty(), name, Seq::empty());
}

/// Headers that were written are read as they were, up to the empty line behind
/// them, up to a hundred and twenty-eight.
#[verifier::rlimit(40)]
proof fn lemma_headers_read_back(
    before: Seq<u8>,
    headers: Seq<(Seq<char>, Seq<char>)>,
    after: Seq<u8>,
    eof: bool,
    seen: Seq<(Seq<char>, Seq<char>)>,
)
    requires
        forall|i: int| 0 <= i < headers.len() ==> writable(#[trigger] headers[i]),
        seen.len() + headers.len() <= 128,
    ensures
        ({
            let block = encode_utf8(header_lines(headers) + "\r\n"@);
            headers_at(before + block + after, before.len() as int, eof, seen)
                == HeadersRead::Done(seen + headers, (before + block).len() as int)
        }),
    decreases headers.len(),
{
    reveal_strlit("\r\n");
    if headers.len() == 0 {
        let none = Seq::<char>::empty();
        assert(header_lines(headers) + "\r\n"@ =~= none + "\r\n"@);
        law_a_line_is_read_as_written(before, none, after, eof);
        assert(seen + headers =~= seen);
    } else {
        let (name, value) = headers[0];
        assert(writable(headers[0]));
        let line = name + ": "@ + value;
        let rest = headers.skip(1);
        let others = header_lines(rest) + "\r\n"@;
        lemma_header_lines_first(headers);
        assert(header_lines(headers) + "\r\n"@ =~= (line + "\r\n"@) + others);
        lemma_encoded_apart(line + "\r\n"@, others);
        let bytes = before + encode_utf8(header_lines(headers) + "\r\n"@) + after;
        let behind = encode_utf8(others) + after;
        let passed = before + encode_utf8(line + "\r\n"@);
        assert(bytes =~= before + encode_utf8(line + "\r\n"@) + behind);
        assert(bytes =~= passed + encode_utf8(others) + after);
        reveal_strlit(": ");
        reveal_strlit(":");
        assert(": "@ =~= ":"@ + seq![' ']);
        assert(line =~= name + ":"@ + seq![' '] + value + Seq::<char>::empty());
        law_a_header_line_names_and_values(name, seq![' '], value, Seq::empty());
        assert forall|i: int| 0 <= i < line.len() implies #[trigger] line[i] != '\n' by {
            if i < name.len() {
                assert(line[i] == name[i]);
            } else if i >= name.len() + 2 {
                assert(line[i] == value[i - name.len() - 2]);
            }
        }
        assert(line.len() > 0);
        if value.len() > 0 {
            assert(line.last() == value.last());
            assert(text::is_space('\r'));
        } else {
            assert(line.last() == ' ');
        }
        law_a_line_is_read_as_written(before, line, behind, eof);
        assert(forall|i: int| 0 <= i < rest.len() ==> #[trigger] rest[i] == headers[i + 1]);
        lemma_headers_read_back(passed, rest, after, eof, seen.push((name, value)));
        assert(seen.push((name, value)) + rest =~= seen + headers);
        assert((passed + encode_utf8(others)).len() == (before + encode_utf8(
            header_lines(headers) + "\r\n"@,
        )).len());
        lemma_encoded_apart(line, "\r\n"@);
        lemma_line_end_is_written();
    }
}

proof fn lemma_line_end_is_written()
    ensures
        encode_utf8("\r\n"@).len() > 0,
{
    reveal_strlit("\r\n");
    assert("\r\n"@.len() == 2);
}

/// The head of a request, as it goes on the wire.
pub open spec fn request_head(
    method: Seq<char>,
    uri: Seq<char>,
    headers: Seq<(Seq<char>, Seq<char>)>,
) -> Seq<char> {
    method + " "@ + uri + " RTSP/1.0\r\n"@ + header_lines(headers) + "\r\n"@
}

/// How far a head reads: the request line, and the headers behind it.
#[verifier::rlimit(40)]
proof fn lemma_head_reads_back(
    method: Seq<char>,
    uri: Seq<char>,
    headers: Seq<(Seq<char>, Seq<char>)>,
    after: Seq<u8>,
    eof: bool,
)
    requires
        method.len() > 0,
        forall|i: int|
            0 <= i < method.len() ==> (#[trigger] method[i]) != ' ' && method[i] != '\n',
        forall|i: int| 0 <= i < uri.len() ==> (#[trigger] uri[i]) != ' ' && uri[i] != '\n',
        forall|i: int| 0 <= i < headers.len() ==> writable(#[trigger] headers[i]),
        headers.len() <= 128,
    ensures
        ({
            let head = encode_utf8(request_head(method, uri, headers));
            let read = line_at(head + after, 0, eof);
            &&& read is Text
            &&& read->Text_0.len() > 0
            &&& request_line(read->Text_0) == Ok::<(Seq<char>, Seq<char>), RequestError>(
                (method, uri),
            )
            &&& headers_at(head + after, read->Text_1, eof, Seq::empty()) == HeadersRead::Done(
                headers,
                head.len() as int,
            )
        }),
{
    reveal_strlit(" ");
    reveal_strlit("\r\n");
    reveal_strlit(" RTSP/1.0\r\n");
    reveal_strlit("RTSP/");
    reveal_strlit("1.0");
    let line = method + " "@ + uri + " "@ + "RTSP/"@ + "1.0"@;
    let block = header_lines(headers) + "\r\n"@;
    let nothing = Seq::<u8>::empty();
    assert(" RTSP/1.0\r\n"@ =~= " "@ + "RTSP/"@ + "1.0"@ + "\r\n"@);
    assert(request_head(method, uri, headers) =~= (line + "\r\n"@) + block);
    lemma_encoded_apart(line + "\r\n"@, block);
    let first = encode_utf8(line + "\r\n"@);
    let head = encode_utf8(request_head(method, uri, headers));
    let bytes = head + after;
    assert(bytes =~= nothing + first + (encode_utf8(block) + after));
    assert(bytes =~= first + encode_utf8(block) + after);
    assert(nothing + first =~= first);
    assert forall|i: int| 0 <= i < line.len() implies #[trigger] line[i] != '\n' by {
        if i < method.len() {
            assert(line[i] == method[i]);
        } else if method.len() < i < method.len() + 1 + uri.len() {
            assert(line[i] == uri[i - method.len() - 1]);
        }
    }
    assert(line.last() == '0');
    law_a_line_is_read_as_written(nothing, line, encode_utf8(block) + after, eof);
    law_a_request_line_names_method_and_uri(method, uri, "1.0"@);
    lemma_headers_read_back(first, headers, after, eof, Seq::empty());
    assert(Seq::<(Seq<char>, Seq<char>)>::empty() + headers =~= headers);
}

/// A request that was written is read as it was: method, URI, headers and body,
/// and exactly its own bytes are taken, whatever follows. Its `Content-Length`
/// says how long its body is; without one it has none.
pub proof fn law_a_request_reads_back(
    method: Seq<char>,
    uri: Seq<char>,
    headers: Seq<(Seq<char>, Seq<char>)>,
    body: Seq<u8>,
    more: Seq<u8>,
    eof: bool,
)
    requires
        method.len() > 0,
        forall|i: int|
            0 <= i < method.len() ==> (#[trigger] method[i]) != ' ' && method[i] != '\n',
        forall|i: int| 0 <= i < uri.len() ==> (#[trigger] uri[i]) != ' ' && uri[i] != '\n',
        forall|i: int| 0 <= i < headers.len() ==> writable(#[trigger] headers[i]),
        headers.len() <= 128,
        body.len() <= 8_388_608,
        ({
            ||| header_value(headers, "Content-Length"@) == Some(number::decimal(body.len()))
            ||| header_value(headers, "Content-Length"@) is None && body.len() == 0
        }),
    ensures
        ({
            let head = encode_utf8(request_head(method, uri, headers));
            request_at(head + body + more, eof) == RequestRead::Complete(
                RequestContent { method, uri, headers, body },
                (head + body).len() as int,
            )
        }),
{
    let head = encode_utf8(request_head(method, uri, headers));
    let bytes = head + body + more;
    assert(bytes =~= head + (body + more));
    lemma_head_reads_back(method, uri, headers, body + more, eof);
    number::law_decimal_reads_back(body.len(), usize::MAX as int);
    assert(body_len(headers) == Ok::<int, RequestError>(body.len() as int));
    assert(bytes.subrange(head.len() as int, (head.len() + body.len()) as int) =~= body);
}

/// A body that has not come in full is waited for, and where the connection ends
/// inside it the request is refused.
pub proof fn law_a_body_is_awaited(
    method: Seq<char>,
    uri: Seq<char>,
    headers: Seq<(Seq<char>, Seq<char>)>,
    len: nat,
    part: Seq<u8>,
)
    requires
        method.len() > 0,
        forall|i: int|
            0 <= i < method.len() ==> (#[trigger] method[i]) != ' ' && method[i] != '\n',
        forall|i: int| 0 <= i < uri.len() ==> (#[trigger] uri[i]) != ' ' && uri[i] != '\n',
        forall|i: int| 0 <= i < headers.len() ==> writable(#[trigger] headers[i]),
        headers.len() <= 128,
        header_value(headers, "Content-Length"@) == Some(number::decimal(len)),
        part.len() < len,
        len <= usize::MAX,
    ensures
        ({
            let head = encode_utf8(request_head(method, uri, headers));
            &&& len <= 8_388_608 ==> request_at(head + part, false) is Pending
            &&& len <= 8_388_608 ==> request_at(head + part, true) == RequestRead::Bad(
                RequestError::TruncatedBody,
            )
            &&& len > 8_388_608 ==> request_at(head + part, false) == RequestRead::Bad(
                RequestError::BodyTooLarge,
            )
        }),
{
    lemma_head_reads_back(method, uri, headers, part, false);
    lemma_head_reads_back(method, uri, headers, part, true);
    number::law_decimal_reads_back(len, usize::MAX as int);
}

/// A hundred and twenty-eight headers are taken, and one more is refused.
pub proof fn law_too_many_headers_are_refused(
    before: Seq<u8>,
    line: Seq<char>,
    after: Seq<u8>,
    eof: bool,
    seen: Seq<(Seq<char>, Seq<char>)>,
)
    requires
        seen.len() == 128,
        line.len() > 0,
        line.last() != '\r',
        forall|i: int| 0 <= i < line.len() ==> #[trigger] line[i] != '\n',
    ensures
        headers_at(before + encode_utf8(line + "\r\n"@) + after, before.len() as int, eof, seen)
            == HeadersRead::Bad(RequestError::TooManyHeaders),
{
    law_a_line_is_read_as_written(before, line, after, eof);
}

/// A header line without a colon is refused.
pub proof fn law_a_header_needs_a_colon(
    before: Seq<u8>,
    line: Seq<char>,
    after: Seq<u8>,
    eof: bool,
    seen: Seq<(Seq<char>, Seq<char>)>,
)
    requires
        seen.len() < 128,
        line.len() > 0,
        line.last() != '\r',
        forall|i: int| 0 <= i < line.len() ==> (#[trigger] line[i]) != '\n' && line[i] != ':',
    ensures
        headers_at(before + encode_utf8(line + "\r\n"@) + after, before.len() as int, eof, seen)
            == HeadersRead::Bad(RequestError::MalformedHeader),
{
    law_a_line_is_read_as_written(before, line, after, eof);
    text::law_a_character_is_found_where_it_stands_first(line, ':', Seq::empty());
}

/// Nothing at the end of a connection, or an empty line, is its end.
pub proof fn law_an_empty_line_ends_a_connection(after: Seq<u8>, eof: bool)
    ensures
        request_at(Seq::empty(), true) is Closed,
        request_at(Seq::empty(), false) is Pending,
        request_at(encode_utf8("\r\n"@) + after, eof) is Closed,
{
    let nothing = Seq::<u8>::empty();
    let none = Seq::<char>::empty();
    law_a_line_is_awaited(nothing, 0);
    law_a_line_is_read_as_written(nothing, none, after, eof);
    assert(none + "\r\n"@ =~= "\r\n"@);
    assert(nothing + encode_utf8("\r\n"@) + after =~= encode_utf8("\r\n"@) + after);
}

/// A response says its status, its reason and its headers, then how long its body
/// is if it has one, and then an empty line.
pub proof fn law_a_response_head_says_it_all(r: ResponseContent)
    ensures
        r.body.len() == 0 ==> response_head(r) == "RTSP/1.0 "@ + number::decimal(r.status as nat)
            + " "@ + r.reason + "\r\n"@ + header_lines(r.headers) + "\r\n"@,
        r.body.len() > 0 ==> response_head(r) == "RTSP/1.0 "@ + number::decimal(r.status as nat)
            + " "@ + r.reason + "\r\n"@ + header_lines(r.headers) + "Content-Length: "@
            + number::decimal(r.body.len()) + "\r\n"@ + "\r\n"@,
{
    if r.body.len() == 0 {
        assert(response_head(r) =~= "RTSP/1.0 "@ + number::decimal(r.status as nat) + " "@
            + r.reason + "\r\n"@ + header_lines(r.headers) + "\r\n"@);
    } else {
        assert(response_head(r) =~= "RTSP/1.0 "@ + number::decimal(r.status as nat) + " "@
            + r.reason + "\r\n"@ + header_lines(r.headers) + "Content-Length: "@
            + number::decimal(r.body.len()) + "\r\n"@ + "\r\n"@);
    }
}

/// A response is built header by header, each behind those before it, and
/// nothing else of it changes.
pub proof fn law_headers_are_added_behind(
    r: ResponseContent,
    status: u16,
    reason: Seq<char>,
    name: Seq<char>,
    value: Seq<char>,
)
    ensures
        r.with(name, value).headers == r.headers.push((name, value)),
        r.with(name, value).status == r.status,
        r.with(name, value).reason == r.reason,
        r.with(name, value).body == r.body,
        ResponseContent::status_only(status, reason).status == status,
        ResponseContent::status_only(status, reason).reason == reason,
        ResponseContent::status_only(status, reason).headers.len() == 0,
        ResponseContent::status_only(status, reason).body.len() == 0,
{
}

} // verus!
