//! A proxy service over HTTP: its errors, the headers and the session of a
//! request, and the course of a request from the filters to the answer.
use vstd::prelude::*;
#[allow(unused_imports)]
use vstd::string::*;

use std::sync::Arc;

#[allow(unused_imports)]
use crate::headers;
#[allow(unused_imports)]
use crate::headers::{held, HeadersView};
#[allow(unused_imports)]
use crate::text;

verus! {

// ---- errors --------------------------------------------------------------

/// An error of the proxy; an outside error is kept as its words.
pub enum Error {
    HttpError(String),
    HyperError(String),
    IoError(String),
    InternalError(String),
    ConnectionError(String),
    TimeoutError,
    BadRequest(String),
    ServiceUnavailable(String),
    InvalidHeader,
}

/// The kinds of errors.
#[derive(Clone, Copy, Debug, PartialEq, Eq, Structural)]
pub enum ErrorType {
    InternalError,
    ConnectError,
    ReadError,
    WriteError,
    TimeoutError,
    BadRequest,
    ServiceUnavailable,
    HTTPStatus(u16),
}

impl ErrorType {
    /// The kind's name.
    pub open spec fn words(self) -> Seq<char> {
        match self {
            ErrorType::InternalError => "InternalError"@,
            ErrorType::ConnectError => "ConnectError"@,
            ErrorType::ReadError => "ReadError"@,
            ErrorType::WriteError => "WriteError"@,
            ErrorType::TimeoutError => "TimeoutError"@,
            ErrorType::BadRequest => "BadRequest"@,
            ErrorType::ServiceUnavailable => "ServiceUnavailable"@,
            ErrorType::HTTPStatus(code) => "HTTPStatus("@ + text::decimal(code as nat) + ")"@,
        }
    }

    /// The kind's name.
    pub fn name(self) -> (r: String)
        ensures
            r@ == self.words(),
    {
        match self {
            ErrorType::InternalError => String::from_str("InternalError"),
            ErrorType::ConnectError => String::from_str("ConnectError"),
            ErrorType::ReadError => String::from_str("ReadError"),
            ErrorType::WriteError => String::from_str("WriteError"),
            ErrorType::TimeoutError => String::from_str("TimeoutError"),
            ErrorType::BadRequest => String::from_str("BadRequest"),
            ErrorType::ServiceUnavailable => String::from_str("ServiceUnavailable"),
            ErrorType::HTTPStatus(code) => text::join3(
                "HTTPStatus(",
                text::decimal_text(code as u64).as_str(),
                ")",
            ),
        }
    }
}

impl Error {
    /// Whether an error is what a kind and a message make.
    pub open spec fn explains(self, error_type: ErrorType, message: Seq<char>) -> bool {
        match error_type {
            ErrorType::InternalError => self matches Error::InternalError(words) && words@
                == message,
            ErrorType::ConnectError => self matches Error::ConnectionError(words) && words@
                == message,
            ErrorType::BadRequest => self matches Error::BadRequest(words) && words@ == message,
            ErrorType::ServiceUnavailable => self matches Error::ServiceUnavailable(words)
                && words@ == message,
            ErrorType::TimeoutError => self is TimeoutError,
            ErrorType::HTTPStatus(_) => self matches Error::InternalError(words) && words@
                == message,
            _ => self matches Error::InternalError(words) && words@ == error_type.words() + ": "@
                + message,
        }
    }

    /// The error of a kind with a message.
    pub fn explain(error_type: ErrorType, message: &str) -> (r: Box<Self>)
        ensures
            r.explains(error_type, message@),
    {
        let error = match error_type {
            ErrorType::InternalError => Error::InternalError(String::from_str(message)),
            ErrorType::ConnectError => Error::ConnectionError(String::from_str(message)),
            ErrorType::BadRequest => Error::BadRequest(String::from_str(message)),
            ErrorType::ServiceUnavailable => Error::ServiceUnavailable(String::from_str(message)),
            ErrorType::TimeoutError => Error::TimeoutError,
            ErrorType::HTTPStatus(_) => Error::InternalError(String::from_str(message)),
            _ => Error::InternalError(text::join3(error_type.name().as_str(), ": ", message)),
        };
        Box::new(error)
    }

    /// The error of a kind with a message; the cause is not kept.
    pub fn because<E>(error_type: ErrorType, message: &str, _cause: E) -> (r: Box<Self>)
        ensures
            r.explains(error_type, message@),
    {
        Self::explain(error_type, message)
    }

    /// The kind an error is.
    pub open spec fn kind(self) -> ErrorType {
        match self {
            Error::HttpError(_) => ErrorType::InternalError,
            Error::InternalError(_) => ErrorType::InternalError,
            Error::HyperError(_) => ErrorType::ConnectError,
            Error::ConnectionError(_) => ErrorType::ConnectError,
            Error::IoError(_) => ErrorType::ReadError,
            Error::TimeoutError => ErrorType::TimeoutError,
            Error::BadRequest(_) => ErrorType::BadRequest,
            Error::ServiceUnavailable(_) => ErrorType::ServiceUnavailable,
            Error::InvalidHeader => ErrorType::BadRequest,
        }
    }

    /// The kind an error is.
    pub fn error_type(&self) -> (r: ErrorType)
        ensures
            r == self.kind(),
    {
        match self {
            Error::HttpError(_) => ErrorType::InternalError,
            Error::InternalError(_) => ErrorType::InternalError,
            Error::HyperError(_) => ErrorType::ConnectError,
            Error::ConnectionError(_) => ErrorType::ConnectError,
            Error::IoError(_) => ErrorType::ReadError,
            Error::TimeoutError => ErrorType::TimeoutError,
            Error::BadRequest(_) => ErrorType::BadRequest,
            Error::ServiceUnavailable(_) => ErrorType::ServiceUnavailable,
            Error::InvalidHeader => ErrorType::BadRequest,
        }
    }

    /// The status an error is answered with.
    pub fn to_status_code(&self) -> (r: u16)
        ensures
            r == (match *self {
                Error::BadRequest(_) => 400u16,
                Error::ServiceUnavailable(_) => 503u16,
                Error::TimeoutError => 504u16,
                _ => 500u16,
            }),
    {
        match self {
            Error::BadRequest(_) => 400,
            Error::ServiceUnavailable(_) => 503,
            Error::TimeoutError => 504,
            _ => 500,
        }
    }

    /// An error's words.
    pub open spec fn words(self) -> Seq<char> {
        match self {
            Error::HttpError(why) => "HTTP error: "@ + why@,
            Error::HyperError(why) => "Hyper error: "@ + why@,
            Error::IoError(why) => "IO error: "@ + why@,
            Error::InternalError(why) => "Internal error: "@ + why@,
            Error::ConnectionError(why) => "Connection error: "@ + why@,
            Error::TimeoutError => "Timeout error"@,
            Error::BadRequest(why) => "Bad request: "@ + why@,
            Error::ServiceUnavailable(why) => "Service unavailable: "@ + why@,
            Error::InvalidHeader => "Invalid header"@,
        }
    }

    /// An error's words.
    pub fn message(&self) -> (r: String)
        ensures
            r@ == self.words(),
    {
        match self {
            Error::HttpError(why) => text::join("HTTP error: ", why.as_str()),
            Error::HyperError(why) => text::join("Hyper error: ", why.as_str()),
            Error::IoError(why) => text::join("IO error: ", why.as_str()),
            Error::InternalError(why) => text::join("Internal error: ", why.as_str()),
            Error::ConnectionError(why) => text::join("Connection error: ", why.as_str()),
            Error::TimeoutError => String::from_str("Timeout error"),
            Error::BadRequest(why) => text::join("Bad request: ", why.as_str()),
            Error::ServiceUnavailable(why) => text::join("Service unavailable: ", why.as_str()),
            Error::InvalidHeader => String::from_str("Invalid header"),
        }
    }
}

/// An error that was explained as one of the kinds a client is told of has
/// that kind.
pub proof fn explained_error_has_its_kind(error: Error, error_type: ErrorType, message: Seq<char>)
    requires
        error.explains(error_type, message),
        error_type != ErrorType::ReadError,
        error_type != ErrorType::WriteError,
        error_type !is HTTPStatus,
    ensures
        error.kind() == error_type,
{
}

// ---- peers ---------------------------------------------------------------

/// Where a request goes: an address, or the path of a Unix socket.
pub struct HttpPeer {
    pub address: String,
    pub is_uds: bool,
}

impl HttpPeer {
    pub fn new(address: String, _tls: bool, _sni: String) -> (r: Self)
        ensures
            r.address == address,
            !r.is_uds,
    {
        HttpPeer { address, is_uds: false }
    }

    pub fn new_uds(path: &str, _tls: bool, _sni: String) -> (r: Result<Self, Box<Error>>)
        ensures
            r matches Ok(peer) && peer.address@ == path@ && peer.is_uds,
    {
        Ok(HttpPeer { address: String::from_str(path), is_uds: true })
    }
}

// ---- headers -------------------------------------------------------------

/// The head of a request; its target and its version stay as they were read
/// (`V`).
pub struct RequestHeader<V> {
    pub method: String,
    pub uri: String,
    pub version: V,
    pub headers: http::HeaderMap<http::HeaderValue>,
}

impl<V> RequestHeader<V> {
    pub fn set_uri(&mut self, uri: String)
        ensures
            final(self).uri == uri,
            final(self).method == old(self).method,
            final(self).version == old(self).version,
            final(self).headers == old(self).headers,
    {
        self.uri = uri;
    }
}

/// A version of HTTP.
#[derive(Clone, Copy, Debug, PartialEq, Eq, Structural)]
pub enum Version {
    Http09,
    Http10,
    Http11,
    Http2,
    Http3,
}

/// The head of an answer.
pub struct ResponseHeader {
    pub status: u16,
    pub headers: http::HeaderMap<http::HeaderValue>,
    pub version: Version,
}

impl ResponseHeader {
    /// The head of an answer with a status and no headers, which is one of
    /// HTTP/1.1.
    pub fn build(status: u16, _version: Option<u8>) -> (r: Result<Self, Box<Error>>)
        ensures
            r matches Ok(header) && header.status == status && held(header.headers)
                == headers::no_headers() && header.version == Version::Http11,
    {
        Ok(ResponseHeader { status, headers: headers::empty(), version: Version::Http11 })
    }

    /// Gives a header one value, in place of those it has. A name or a value
    /// that no header can have is refused.
    pub fn insert_header(&mut self, name: &str, value: &str) -> (r: Result<(), Box<Error>>)
        requires
            headers::room(held(old(self).headers), 1),
        ensures
            final(self).status == old(self).status,
            final(self).version == old(self).version,
            if headers::valid_name(name@) && headers::valid_value(value@) {
                &&& r is Ok
                &&& held(final(self).headers) == held(old(self).headers).insert(
                    text::lower(name@),
                    seq![vstd::utf8::encode_utf8(value@)],
                )
            } else {
                &&& r matches Err(error) && *error is InvalidHeader
                &&& held(final(self).headers) == held(old(self).headers)
            },
    {
        if headers::insert(&mut self.headers, name, value) {
            Ok(())
        } else {
            Err(Box::new(Error::InvalidHeader))
        }
    }
}

// ---- sessions ------------------------------------------------------------

/// One request and the answer it is being given; the body that is still to be
/// read stays open (`B`).
pub struct Session<V, B> {
    req_header: RequestHeader<V>,
    request_body: Option<B>,
    response_status: Option<u16>,
    response_headers: http::HeaderMap<http::HeaderValue>,
    response_body: Vec<Vec<u8>>,
    keepalive: Option<u64>,
}

pub struct SessionView<V, B> {
    pub req_header: RequestHeader<V>,
    pub request_body: Option<B>,
    pub response_status: Option<u16>,
    pub response_headers: HeadersView,
    pub response_body: Seq<Seq<u8>>,
    pub keepalive: Option<u64>,
}

pub open spec fn chunk_views(chunks: Seq<Vec<u8>>) -> Seq<Seq<u8>> {
    chunks.map_values(|c: Vec<u8>| c@)
}

impl<V, B> View for Session<V, B> {
    type V = SessionView<V, B>;

    closed spec fn view(&self) -> SessionView<V, B> {
        SessionView {
            req_header: self.req_header,
            request_body: self.request_body,
            response_status: self.response_status,
            response_headers: held(self.response_headers),
            response_body: chunk_views(self.response_body@),
            keepalive: self.keepalive,
        }
    }
}

/// Several pieces as one.
pub open spec fn joined(chunks: Seq<Seq<u8>>) -> Seq<u8>
    decreases chunks.len(),
{
    if chunks.len() == 0 {
        seq![]
    } else {
        joined(chunks.drop_last()) + chunks.last()
    }
}

/// Joins several pieces.
pub fn join_chunks(chunks: &Vec<Vec<u8>>) -> (r: Vec<u8>)
    ensures
        r@ == joined(chunk_views(chunks@)),
{
    let mut r: Vec<u8> = Vec::new();
    let mut i: usize = 0;
    let ghost all = chunk_views(chunks@);
    assert(all.take(0) =~= Seq::<Seq<u8>>::empty());
    while i < chunks.len()
        invariant
            i <= chunks@.len(),
            all == chunk_views(chunks@),
            r@ == joined(all.take(i as int)),
        decreases chunks.len() - i,
    {
        proof {
            assert(all.take(i + 1).drop_last() =~= all.take(i as int));
            assert(all.take(i + 1).last() == chunks@[i as int]@);
        }
        let ghost before = r@;
        let chunk = &chunks[i];
        let mut j: usize = 0;
        while j < chunk.len()
            invariant
                j <= chunk@.len(),
                r@ == before + chunk@.take(j as int),
            decreases chunk.len() - j,
        {
            r.push(chunk[j]);
            j = j + 1;
            assert(r@ =~= before + chunk@.take(j as int));
        }
        assert(chunk@.take(j as int) =~= chunk@);
        i = i + 1;
    }
    assert(all.take(i as int) =~= all);
    r
}

/// What reading a request's body came to.
pub enum BodyFrame {
    /// A piece of it.
    Data(Vec<u8>),
    /// Something that is no part of it.
    Other,
    Failed,
    End,
}

/// What is to be done about it.
pub enum BodyRead {
    /// The piece is answered, or that there is none.
    Answer(Result<Option<Vec<u8>>, Box<Error>>),
    /// The next one is read.
    ReadOn,
}

/// A status that a client can be sent; what is none counts as an internal
/// error.
pub open spec fn sent_status(status: u16) -> u16 {
    if 100 <= status < 1000 {
        status
    } else {
        500
    }
}

/// An answer that is complete.
pub struct BuiltResponse {
    pub status: u16,
    pub headers: http::HeaderMap<http::HeaderValue>,
    pub body: Vec<u8>,
}

impl<V, B> Session<V, B> {
    /// A request that was read up to its body.
    pub fn new(req_header: RequestHeader<V>, body: B) -> (r: Self)
        ensures
            r@ == (SessionView {
                req_header,
                request_body: Some(body),
                response_status: None,
                response_headers: headers::no_headers(),
                response_body: Seq::empty(),
                keepalive: None,
            }),
    {
        let r = Session {
            req_header,
            request_body: Some(body),
            response_status: None,
            response_headers: headers::empty(),
            response_body: Vec::new(),
            keepalive: None,
        };
        assert(r@.response_body =~= Seq::<Seq<u8>>::empty());
        r
    }

    /// A request for a WebSocket, which has no body.
    pub fn new_websocket(req_header: RequestHeader<V>) -> (r: Self)
        ensures
            r@ == (SessionView::<V, B> {
                req_header,
                request_body: None,
                response_status: None,
                response_headers: headers::no_headers(),
                response_body: Seq::empty(),
                keepalive: None,
            }),
    {
        let r = Session {
            req_header,
            request_body: None,
            response_status: None,
            response_headers: headers::empty(),
            response_body: Vec::new(),
            keepalive: None,
        };
        assert(r@.response_body =~= Seq::<Seq<u8>>::empty());
        r
    }

    /// Whether the request is for a WebSocket.
    pub fn is_websocket(&self) -> (r: bool)
        ensures
            r == (self@.request_body is None && held(
                self@.req_header.headers,
            ).contains_key("sec-websocket-key"@)),
    {
        self.request_body.is_none() && headers::has_websocket_key(&self.req_header.headers)
    }

    pub fn req_header(&self) -> (r: &RequestHeader<V>)
        ensures
            *r == self@.req_header,
    {
        &self.req_header
    }

    /// The head of the request, to be changed.
    pub fn req_header_mut(&mut self) -> (r: &mut RequestHeader<V>)
        ensures
            *r == old(self)@.req_header,
            final(self)@ == (SessionView { req_header: *final(r), ..old(self)@ }),
    {
        &mut self.req_header
    }

    /// Gives the answer its head, in place of an earlier one.
    pub fn write_response_header(&mut self, resp: ResponseHeader)
        ensures
            final(self)@ == (SessionView {
                response_status: Some(resp.status),
                response_headers: held(resp.headers),
                ..old(self)@
            }),
    {
        self.response_status = Some(resp.status);
        self.response_headers = resp.headers;
    }

    /// Adds a piece to the answer's body.
    pub fn write_response_body(&mut self, data: Option<Vec<u8>>)
        ensures
            final(self)@ == (match data {
                Some(piece) => SessionView {
                    response_body: old(self)@.response_body.push(piece@),
                    ..old(self)@
                },
                None => old(self)@,
            }),
    {
        if let Some(piece) = data {
            self.response_body.push(piece);
            assert(self@.response_body =~= old(self)@.response_body.push(piece@));
        }
    }

    pub fn set_keepalive(&mut self, ka: Option<u64>)
        ensures
            final(self)@ == (SessionView { keepalive: ka, ..old(self)@ }),
    {
        self.keepalive = ka;
    }

    /// Makes the answer an error with a body; its headers stay.
    pub fn respond_error_with_body(&mut self, status: u16, body: Vec<u8>)
        ensures
            final(self)@ == (SessionView {
                response_status: Some(sent_status(status)),
                response_body: seq![body@],
                ..old(self)@
            }),
    {
        self.response_status = Some(
            if 100 <= status && status < 1000 {
                status
            } else {
                500
            },
        );
        let mut chunks: Vec<Vec<u8>> = Vec::new();
        chunks.push(body);
        self.response_body = chunks;
        assert(self@.response_body =~= seq![body@]);
    }

    /// Whether there is a body to be read.
    pub fn has_request_body(&self) -> (r: bool)
        ensures
            r == (self@.request_body is Some),
    {
        self.request_body.is_some()
    }

    /// The body, to be read from.
    pub fn take_request_body(&mut self) -> (r: Option<B>)
        ensures
            r == old(self)@.request_body,
            final(self)@ == (SessionView { request_body: None, ..old(self)@ }),
    {
        let mut body: Option<B> = None;
        std::mem::swap(&mut body, &mut self.request_body);
        body
    }

    /// Takes in what reading the body came to; `body` is what is left of it.
    /// At its end, and after an error, the body is gone.
    pub fn read_request_body(&mut self, body: B, frame: BodyFrame) -> (r: BodyRead)
        ensures
            match frame {
                BodyFrame::Data(piece) => {
                    &&& r == BodyRead::Answer(Ok(Some(piece)))
                    &&& final(self)@ == (SessionView { request_body: Some(body), ..old(self)@ })
                },
                BodyFrame::Other => {
                    &&& r is ReadOn
                    &&& final(self)@ == (SessionView { request_body: Some(body), ..old(self)@ })
                },
                BodyFrame::Failed => {
                    &&& r matches BodyRead::Answer(Err(error)) && error.explains(
                        ErrorType::InternalError,
                        "Error reading request body"@,
                    )
                    &&& final(self)@ == (SessionView { request_body: None, ..old(self)@ })
                },
                BodyFrame::End => {
                    &&& r matches BodyRead::Answer(Ok(None))
                    &&& final(self)@ == (SessionView { request_body: None, ..old(self)@ })
                },
            },
    {
        match frame {
            BodyFrame::Data(piece) => {
                self.request_body = Some(body);
                BodyRead::Answer(Ok(Some(piece)))
            },
            BodyFrame::Other => {
                self.request_body = Some(body);
                BodyRead::ReadOn
            },
            BodyFrame::Failed => {
                self.request_body = None;
                BodyRead::Answer(
                    Err(Error::explain(ErrorType::InternalError, "Error reading request body")),
                )
            },
            BodyFrame::End => {
                self.request_body = None;
                BodyRead::Answer(Ok(None))
            },
        }
    }

    /// The answer: its status, or that all went well; its headers; and its
    /// pieces as one.
    pub fn build_response(self) -> (r: BuiltResponse)
        ensures
            r.status == (match self@.response_status {
                Some(status) => status,
                None => 200,
            }),
            held(r.headers) == self@.response_headers,
            r.body@ == joined(self@.response_body),
    {
        let status: u16 = match self.response_status {
            Some(status) => status,
            None => 200,
        };
        let body = join_chunks(&self.response_body);
        BuiltResponse { status, headers: self.response_headers, body }
    }
}

// ---- the course of a request ---------------------------------------------

/// An answer that the proxy gives of itself.
#[derive(Clone, Copy, Debug, PartialEq, Eq, Structural)]
pub enum Refusal {
    BadRequest,
    InternalServerError,
    BadGateway,
}

impl Refusal {
    pub open spec fn code(self) -> u16 {
        match self {
            Refusal::BadRequest => 400,
            Refusal::InternalServerError => 500,
            Refusal::BadGateway => 502,
        }
    }

    pub fn status(self) -> (r: u16)
        ensures
            r == self.code(),
    {
        match self {
            Refusal::BadRequest => 400,
            Refusal::InternalServerError => 500,
            Refusal::BadGateway => 502,
        }
    }

    pub fn message(self) -> (r: &'static str)
        ensures
            r@ == (match self {
                Refusal::BadRequest => "Bad Request"@,
                Refusal::InternalServerError => "Internal Server Error"@,
                Refusal::BadGateway => "Bad Gateway"@,
            }),
    {
        match self {
            Refusal::BadRequest => "Bad Request",
            Refusal::InternalServerError => "Internal Server Error",
            Refusal::BadGateway => "Bad Gateway",
        }
    }
}

/// What a request's course waits for.
#[derive(Clone, Copy, Debug, PartialEq, Eq, Structural)]
pub enum Stage {
    /// The service's first filter.
    RequestFilter,
    /// The next piece of the body.
    ReadBody,
    /// The filter of a piece.
    FilterChunk,
    /// The filter of the body's end.
    FilterEnd,
    /// Where the request goes.
    UpstreamPeer,
    /// The filter of what goes there.
    UpstreamRequestFilter,
    /// What came of it there.
    Upstream,
    /// Nothing: the request was answered.
    Over,
}

/// What came of it.
#[derive(Clone, Copy, Debug, PartialEq, Eq, Structural)]
pub enum Event {
    /// It went well, and the course goes on.
    Passed,
    /// The filter answered the request.
    Handled,
    /// A piece of the body came.
    Chunk,
    /// The body is at its end.
    EndOfBody,
    /// It failed.
    Failed,
}

/// What is to be done next.
#[derive(Clone, Copy, Debug, PartialEq, Eq, Structural)]
pub enum Action {
    /// What the stage waits for.
    Do(Stage),
    /// The answer that the filter made.
    AnswerBuilt,
    /// The answer that came from where the request went; the service logs it.
    AnswerUpstream,
    /// The proxy's own answer.
    Refuse(Refusal),
    /// The proxy's own answer, which the service logs as any other.
    RefuseAnswered(Refusal),
    /// The proxy's own answer; the service logs the failure.
    RefuseLogged(Refusal),
}

/// The course of a request. One for a WebSocket reads its body first.
#[derive(Clone, Copy, Debug, PartialEq, Eq, Structural)]
pub struct Course {
    pub websocket: bool,
    pub stage: Stage,
}

/// What follows on an event. An event that a stage cannot come to ends the
/// course as a failure of the stage does.
pub open spec fn follows(websocket: bool, stage: Stage, event: Event) -> Action {
    match (stage, event) {
        (Stage::RequestFilter, Event::Handled) => if websocket {
            Action::Refuse(Refusal::BadRequest)
        } else {
            Action::AnswerBuilt
        },
        (Stage::RequestFilter, Event::Passed) => Action::Do(Stage::UpstreamPeer),
        (Stage::RequestFilter, _) => Action::Refuse(Refusal::InternalServerError),
        (Stage::UpstreamPeer, Event::Passed) => Action::Do(Stage::UpstreamRequestFilter),
        (Stage::UpstreamPeer, _) => Action::Refuse(Refusal::BadGateway),
        (Stage::UpstreamRequestFilter, Event::Passed) => if websocket {
            Action::Do(Stage::Upstream)
        } else {
            Action::Do(Stage::ReadBody)
        },
        (Stage::UpstreamRequestFilter, _) => Action::Refuse(Refusal::BadGateway),
        (Stage::ReadBody, Event::Chunk) => Action::Do(Stage::FilterChunk),
        (Stage::ReadBody, Event::EndOfBody) => Action::Do(Stage::FilterEnd),
        (Stage::ReadBody, _) => Action::Refuse(Refusal::BadRequest),
        (Stage::FilterChunk, Event::Passed) => Action::Do(Stage::ReadBody),
        (Stage::FilterChunk, _) => Action::Refuse(Refusal::InternalServerError),
        (Stage::FilterEnd, Event::Passed) => if websocket {
            Action::Do(Stage::RequestFilter)
        } else {
            Action::Do(Stage::Upstream)
        },
        (Stage::FilterEnd, _) => Action::Refuse(Refusal::InternalServerError),
        (Stage::Upstream, Event::Passed) => Action::AnswerUpstream,
        (Stage::Upstream, _) => if websocket {
            Action::RefuseLogged(Refusal::BadGateway)
        } else {
            Action::RefuseAnswered(Refusal::BadGateway)
        },
        (Stage::Over, _) => Action::Refuse(Refusal::InternalServerError),
    }
}

impl Course {
    /// A request's course, by whether it holds the header that a WebSocket asks
    /// with.
    pub fn begin(map: &http::HeaderMap<http::HeaderValue>) -> (r: (Self, Action))
        ensures
            r.0.websocket == held(*map).contains_key("sec-websocket-key"@),
            r.0.stage == (if r.0.websocket {
                Stage::ReadBody
            } else {
                Stage::RequestFilter
            }),
            r.1 == Action::Do(r.0.stage),
            r.1 == action_after(r.0.websocket, Seq::empty()),
    {
        let websocket = headers::has_websocket_key(map);
        let stage = if websocket {
            Stage::ReadBody
        } else {
            Stage::RequestFilter
        };
        (Course { websocket, stage }, Action::Do(stage))
    }

    /// Takes in what came of a stage.
    pub fn step(&mut self, event: Event) -> (r: Action)
        ensures
            r == follows(old(self).websocket, old(self).stage, event),
            final(self).websocket == old(self).websocket,
            final(self).stage == (match r {
                Action::Do(stage) => stage,
                _ => Stage::Over,
            }),
    {
        let websocket = self.websocket;
        let action = match (self.stage, event) {
            (Stage::RequestFilter, Event::Handled) => if websocket {
                Action::Refuse(Refusal::BadRequest)
            } else {
                Action::AnswerBuilt
            },
            (Stage::RequestFilter, Event::Passed) => Action::Do(Stage::UpstreamPeer),
            (Stage::RequestFilter, _) => Action::Refuse(Refusal::InternalServerError),
            (Stage::UpstreamPeer, Event::Passed) => Action::Do(Stage::UpstreamRequestFilter),
            (Stage::UpstreamPeer, _) => Action::Refuse(Refusal::BadGateway),
            (Stage::UpstreamRequestFilter, Event::Passed) => if websocket {
                Action::Do(Stage::Upstream)
            } else {
                Action::Do(Stage::ReadBody)
            },
            (Stage::UpstreamRequestFilter, _) => Action::Refuse(Refusal::BadGateway),
            (Stage::ReadBody, Event::Chunk) => Action::Do(Stage::FilterChunk),
            (Stage::ReadBody, Event::EndOfBody) => Action::Do(Stage::FilterEnd),
            (Stage::ReadBody, _) => Action::Refuse(Refusal::BadRequest),
            (Stage::FilterChunk, Event::Passed) => Action::Do(Stage::ReadBody),
            (Stage::FilterChunk, _) => Action::Refuse(Refusal::InternalServerError),
            (Stage::FilterEnd, Event::Passed) => if websocket {
                Action::Do(Stage::RequestFilter)
            } else {
                Action::Do(Stage::Upstream)
            },
            (Stage::FilterEnd, _) => Action::Refuse(Refusal::InternalServerError),
            (Stage::Upstream, Event::Passed) => Action::AnswerUpstream,
            (Stage::Upstream, _) => if websocket {
                Action::RefuseLogged(Refusal::BadGateway)
            } else {
                Action::RefuseAnswered(Refusal::BadGateway)
            },
            (Stage::Over, _) => Action::Refuse(Refusal::InternalServerError),
        };
        self.stage = match action {
            Action::Do(stage) => stage,
            _ => Stage::Over,
        };
        action
    }
}

/// Nothing goes to where a request is bound for unless the filter before it
/// passed, and the body's filter passed its end.
pub proof fn upstream_follows_the_filters(websocket: bool, stage: Stage, event: Event)
    requires
        follows(websocket, stage, event) == Action::Do(Stage::Upstream),
    ensures
        event == Event::Passed,
        stage == (if websocket {
            Stage::UpstreamRequestFilter
        } else {
            Stage::FilterEnd
        }),
{
}

/// Every failure is answered: no stage that fails leaves a request waiting.
pub proof fn failures_are_answered(websocket: bool, stage: Stage)
    ensures
        follows(websocket, stage, Event::Failed) !is Do,
{
}

/// What a request's course waits for first.
pub open spec fn first_stage(websocket: bool) -> Stage {
    if websocket {
        Stage::ReadBody
    } else {
        Stage::RequestFilter
    }
}

/// What is to be done once these events came to a course, one after the other.
pub open spec fn action_after(websocket: bool, events: Seq<Event>) -> Action
    decreases events.len(),
{
    if events.len() == 0 {
        Action::Do(first_stage(websocket))
    } else {
        match action_after(websocket, events.drop_last()) {
            Action::Do(stage) => follows(websocket, stage, events.last()),
            action => action,
        }
    }
}

/// The stages that a course waits at before each of these events.
pub open spec fn stages_of(websocket: bool, events: Seq<Event>) -> Seq<Stage>
    decreases events.len(),
{
    if events.len() == 0 {
        seq![]
    } else {
        match action_after(websocket, events.drop_last()) {
            Action::Do(stage) => stages_of(websocket, events.drop_last()).push(stage),
            _ => stages_of(websocket, events.drop_last()),
        }
    }
}

/// The events of a body that comes in pieces, where each passes its filter.
pub open spec fn pieces(n: nat) -> Seq<Event>
    decreases n,
{
    if n == 0 {
        seq![]
    } else {
        pieces((n - 1) as nat).push(Event::Chunk).push(Event::Passed)
    }
}

/// The stages that such a body goes through: each piece is waited for, then
/// filtered.
pub open spec fn piece_stages(n: nat) -> Seq<Stage>
    decreases n,
{
    if n == 0 {
        seq![]
    } else {
        piece_stages((n - 1) as nat).push(Stage::ReadBody).push(Stage::FilterChunk)
    }
}

proof fn lemma_event(websocket: bool, events: Seq<Event>, event: Event)
    ensures
        action_after(websocket, events.push(event)) == (match action_after(websocket, events) {
            Action::Do(stage) => follows(websocket, stage, event),
            action => action,
        }),
        stages_of(websocket, events.push(event)) == (match action_after(websocket, events) {
            Action::Do(stage) => stages_of(websocket, events).push(stage),
            _ => stages_of(websocket, events),
        }),
{
    assert(events.push(event).drop_last() =~= events);
}

proof fn lemma_pieces(websocket: bool, before: Seq<Event>, n: nat)
    requires
        action_after(websocket, before) == Action::Do(Stage::ReadBody),
    ensures
        action_after(websocket, before + pieces(n)) == Action::Do(Stage::ReadBody),
        stages_of(websocket, before + pieces(n)) == stages_of(websocket, before) + piece_stages(n),
    decreases n,
{
    if n == 0 {
        assert(before + pieces(n) =~= before);
        assert(stages_of(websocket, before) + piece_stages(n) =~= stages_of(websocket, before));
    } else {
        let fewer = (n - 1) as nat;
        lemma_pieces(websocket, before, fewer);
        let so_far = before + pieces(fewer);
        lemma_event(websocket, so_far, Event::Chunk);
        lemma_event(websocket, so_far.push(Event::Chunk), Event::Passed);
        assert(before + pieces(n) =~= so_far.push(Event::Chunk).push(Event::Passed));
        assert(stages_of(websocket, before) + piece_stages(n) =~= stages_of(
            websocket,
            so_far,
        ).push(Stage::ReadBody).push(Stage::FilterChunk));
    }
}

/// A request whose stages all pass comes to where it is bound for, whatever the
/// number of its body's pieces, and is then answered from there. On the way it
/// is filtered, told where it goes and filtered for there, and then its body is
/// read and filtered piece by piece, and at its end.
pub proof fn passing_request_is_answered(n: nat)
    ensures
        ({
            let events = seq![Event::Passed, Event::Passed, Event::Passed] + pieces(n) + seq![
                Event::EndOfBody,
                Event::Passed,
            ];
            &&& action_after(false, events) == Action::Do(Stage::Upstream)
            &&& action_after(false, events.push(Event::Passed)) == Action::AnswerUpstream
            &&& stages_of(false, events.push(Event::Passed)) == seq![
                Stage::RequestFilter,
                Stage::UpstreamPeer,
                Stage::UpstreamRequestFilter,
            ] + piece_stages(n) + seq![Stage::ReadBody, Stage::FilterEnd, Stage::Upstream]
        }),
{
    let none = Seq::<Event>::empty();
    lemma_event(false, none, Event::Passed);
    lemma_event(false, none.push(Event::Passed), Event::Passed);
    lemma_event(false, none.push(Event::Passed).push(Event::Passed), Event::Passed);
    let before = seq![Event::Passed, Event::Passed, Event::Passed];
    assert(before =~= none.push(Event::Passed).push(Event::Passed).push(Event::Passed));
    assert(stages_of(false, before) =~= seq![
        Stage::RequestFilter,
        Stage::UpstreamPeer,
        Stage::UpstreamRequestFilter,
    ]);
    lemma_pieces(false, before, n);
    let read = before + pieces(n);
    lemma_event(false, read, Event::EndOfBody);
    lemma_event(false, read.push(Event::EndOfBody), Event::Passed);
    let events = before + pieces(n) + seq![Event::EndOfBody, Event::Passed];
    assert(events =~= read.push(Event::EndOfBody).push(Event::Passed));
    lemma_event(false, events, Event::Passed);
    assert(stages_of(false, events.push(Event::Passed)) =~= seq![
        Stage::RequestFilter,
        Stage::UpstreamPeer,
        Stage::UpstreamRequestFilter,
    ] + piece_stages(n) + seq![Stage::ReadBody, Stage::FilterEnd, Stage::Upstream]);
}

/// A request for a WebSocket whose stages all pass comes to where it is bound
/// for, whatever the number of its body's pieces, and is then answered from
/// there. Its body is read and filtered first.
pub proof fn passing_websocket_is_answered(n: nat)
    ensures
        ({
            let events = pieces(n) + seq![
                Event::EndOfBody,
                Event::Passed,
                Event::Passed,
                Event::Passed,
                Event::Passed,
            ];
            &&& action_after(true, events) == Action::Do(Stage::Upstream)
            &&& action_after(true, events.push(Event::Passed)) == Action::AnswerUpstream
            &&& stages_of(true, events.push(Event::Passed)) == piece_stages(n) + seq![
                Stage::ReadBody,
                Stage::FilterEnd,
                Stage::RequestFilter,
                Stage::UpstreamPeer,
                Stage::UpstreamRequestFilter,
                Stage::Upstream,
            ]
        }),
{
    let none = Seq::<Event>::empty();
    lemma_pieces(true, none, n);
    assert(none + pieces(n) =~= pieces(n));
    let a = pieces(n);
    let b = a.push(Event::EndOfBody);
    let c = b.push(Event::Passed);
    let d = c.push(Event::Passed);
    let e = d.push(Event::Passed);
    let events = a + seq![
        Event::EndOfBody,
        Event::Passed,
        Event::Passed,
        Event::Passed,
        Event::Passed,
    ];
    assert(events =~= e.push(Event::Passed));
    lemma_event(true, a, Event::EndOfBody);
    lemma_event(true, b, Event::Passed);
    lemma_event(true, c, Event::Passed);
    lemma_event(true, d, Event::Passed);
    lemma_event(true, e, Event::Passed);
    lemma_event(true, events, Event::Passed);
    assert(stages_of(true, events.push(Event::Passed)) =~= piece_stages(n) + seq![
        Stage::ReadBody,
        Stage::FilterEnd,
        Stage::RequestFilter,
        Stage::UpstreamPeer,
        Stage::UpstreamRequestFilter,
        Stage::Upstream,
    ]);
}

/// Whether an action is one of the proxy's own answers.
pub open spec fn refuses(action: Action) -> bool {
    action is Refuse || action is RefuseAnswered || action is RefuseLogged
}

/// The answer that a refusal gives.
pub open spec fn refusal_of(action: Action) -> Option<Refusal> {
    match action {
        Action::Refuse(refusal) => Some(refusal),
        Action::RefuseAnswered(refusal) => Some(refusal),
        Action::RefuseLogged(refusal) => Some(refusal),
        _ => None,
    }
}

/// A request is refused only where something went wrong: while it is not
/// answered, nothing is refused on a piece of the body or its end where the
/// body is read, nor on a pass anywhere else. What does go wrong is answered as
/// a bad request where the body could not be read, as a failure of the proxy
/// where a filter of the request or its body failed, and as one of where it was
/// bound for from there on; a filter that answers a request is answered with
/// its own answer, but for a WebSocket, which cannot be answered so.
pub proof fn refusals_have_a_cause(websocket: bool, stage: Stage, event: Event)
    requires
        stage != Stage::Over,
    ensures
        refuses(follows(websocket, stage, event)) ==> (if stage == Stage::ReadBody {
            event != Event::Chunk && event != Event::EndOfBody
        } else {
            event != Event::Passed
        }),
        event == Event::Failed ==> refuses(follows(websocket, stage, event)) && refusal_of(
            follows(websocket, stage, event),
        ) == Some(
            if stage == Stage::ReadBody {
                Refusal::BadRequest
            } else if stage == Stage::RequestFilter || stage == Stage::FilterChunk || stage
                == Stage::FilterEnd {
                Refusal::InternalServerError
            } else {
                Refusal::BadGateway
            },
        ),
        !websocket ==> follows(websocket, Stage::RequestFilter, Event::Handled)
            == Action::AnswerBuilt,
        websocket ==> follows(websocket, Stage::RequestFilter, Event::Handled) == Action::Refuse(
            Refusal::BadRequest,
        ),
        follows(websocket, stage, event) is RefuseLogged ==> websocket && stage == Stage::Upstream,
        follows(websocket, stage, event) is RefuseAnswered ==> !websocket && stage
            == Stage::Upstream,
        stage == Stage::Upstream && event == Event::Failed ==> follows(websocket, stage, event)
            !is Refuse,
{
}

/// An error's kind tells whose fault it was: the request's, the connection's,
/// the time's, the service's, or the proxy's own.
pub proof fn errors_have_their_kind(error: Error)
    ensures
        error.kind() == ErrorType::BadRequest <==> error is BadRequest || error is InvalidHeader,
        error.kind() == ErrorType::ConnectError <==> error is HyperError || error is ConnectionError,
        error.kind() == ErrorType::ReadError <==> error is IoError,
        error.kind() == ErrorType::TimeoutError <==> error is TimeoutError,
        error.kind() == ErrorType::ServiceUnavailable <==> error is ServiceUnavailable,
        error.kind() == ErrorType::InternalError <==> error is HttpError || error is InternalError,
{
}

/// An error's words end with their cause, where it has one, and say before it
/// what kind of error it is.
pub proof fn errors_tell_their_cause(error: Error)
    ensures
        match error {
            Error::HttpError(why) => error.words() == "HTTP error: "@ + why@,
            Error::HyperError(why) => error.words() == "Hyper error: "@ + why@,
            Error::IoError(why) => error.words() == "IO error: "@ + why@,
            Error::InternalError(why) => error.words() == "Internal error: "@ + why@,
            Error::ConnectionError(why) => error.words() == "Connection error: "@ + why@,
            Error::TimeoutError => error.words() == "Timeout error"@,
            Error::BadRequest(why) => error.words() == "Bad request: "@ + why@,
            Error::ServiceUnavailable(why) => error.words() == "Service unavailable: "@ + why@,
            Error::InvalidHeader => error.words() == "Invalid header"@,
        },
{
}

/// Pieces that are joined are all of their bytes, in order.
pub proof fn pieces_are_joined_in_order(a: Seq<Seq<u8>>, b: Seq<Seq<u8>>, piece: Seq<u8>)
    ensures
        joined(a + b) == joined(a) + joined(b),
        joined(seq![piece]) == piece,
        joined(Seq::<Seq<u8>>::empty()).len() == 0,
    decreases b.len(),
{
    reveal_with_fuel(joined, 2);
    assert(seq![piece].drop_last() =~= Seq::<Seq<u8>>::empty());
    assert(joined(seq![piece]) =~= piece);
    if b.len() == 0 {
        assert(a + b =~= a);
        assert(joined(a) + joined(b) =~= joined(a));
    } else {
        pieces_are_joined_in_order(a, b.drop_last(), piece);
        assert((a + b).drop_last() =~= a + b.drop_last());
        assert((a + b).last() == b.last());
        assert(joined(a + b) =~= joined(a) + joined(b));
    }
}

/// A status of three digits is sent as it is; any other is an internal error.
/// The proxy's own answers are sent as they are, and only a bad request is laid
/// to the client.
pub proof fn statuses_are_sent(status: u16, refusal: Refusal)
    ensures
        sent_status(status) == status <==> 100 <= status <= 999,
        sent_status(status) != status ==> sent_status(status) == 500,
        sent_status(sent_status(status)) == sent_status(status),
        sent_status(refusal.code()) == refusal.code(),
        refusal.code() / 100 == 4 <==> refusal == Refusal::BadRequest,
        refusal == Refusal::BadRequest <==> refusal.code() == 400,
        refusal == Refusal::BadGateway <==> refusal.code() == 502,
        refusal == Refusal::InternalServerError <==> refusal.code() == 500,
{
}

/// The path of a text that reads as a URI.
pub uninterp spec fn uri_path(uri: Seq<char>) -> Option<Seq<char>>;

/// `http::Uri`'s `from_str` and `path`: the path of the URI that a text reads
/// as, which is a function of the text; none where it reads as no URI.
#[verifier::external_body]
fn path_of(uri: &str) -> (r: Option<String>)
    ensures
        match r {
            Some(path) => uri_path(uri@) == Some(path@),
            None => uri_path(uri@) is None,
        },
{
    uri.parse::<http::Uri>().ok().map(|read| read.path().to_string())
}

/// The target that goes on, by the path of the request's own: the original,
/// where the filters left it no path.
pub fn kept_uri(uri: String, path: Option<String>, original: String) -> (r: String)
    ensures
        r == (match path {
            Some(path) => if path@.len() == 0 {
                original
            } else {
                uri
            },
            None => original,
        }),
{
    match path {
        Some(path) => if path.as_str().unicode_len() == 0 {
            original
        } else {
            uri
        },
        None => original,
    }
}

/// The target that goes on: the request's own, unless the filters left it
/// without a path.
pub fn upstream_uri(uri: String, original: String) -> (r: String)
    ensures
        r == (match uri_path(uri@) {
            Some(path) => if path.len() == 0 {
                original
            } else {
                uri
            },
            None => original,
        }),
{
    let path = path_of(uri.as_str());
    kept_uri(uri, path, original)
}

// ---- WebSockets ----------------------------------------------------------

/// Whether the other side changed the protocol. `status_text` is the status as
/// it is written.
pub fn check_upgraded(is_uds: bool, status: u16, status_text: &str) -> (r: Result<(), String>)
    ensures
        if status == 101 {
            r is Ok
        } else {
            r matches Err(error) && error@ == (if is_uds {
                "UDS"@
            } else {
                "TCP"@
            }) + " WebSocket upgrade failed with status: "@ + status_text@
        },
{
    if status == 101 {
        return Ok(());
    }
    Err(
        text::join3(
            if is_uds {
                "UDS"
            } else {
                "TCP"
            },
            " WebSocket upgrade failed with status: ",
            status_text,
        ),
    )
}

// ---- services ------------------------------------------------------------

/// How a server runs.
pub struct ServerConf {
    pub grace_period_seconds: Option<u64>,
}

impl Default for ServerConf {
    fn default() -> (r: Self)
        ensures
            r.grace_period_seconds == Some(300u64),
    {
        ServerConf { grace_period_seconds: Some(300) }
    }
}

impl ServerConf {
    /// The configuration that nothing is said of.
    pub fn new() -> (r: Result<Self, Box<Error>>)
        ensures
            r matches Ok(conf) && conf.grace_period_seconds == Some(300u64),
    {
        Ok(Self::default())
    }

    /// How many seconds services have to stop.
    pub fn grace_period(&self) -> (r: u64)
        ensures
            r == (match self.grace_period_seconds {
                Some(seconds) => seconds,
                None => 300,
            }),
    {
        match self.grace_period_seconds {
            Some(seconds) => seconds,
            None => 300,
        }
    }
}

/// A proxy service under a name.
pub struct HttpProxy<SV> {
    inner: Arc<SV>,
    name: String,
}

impl<SV> HttpProxy<SV> {
    pub closed spec fn inner(&self) -> SV {
        *self.inner
    }

    pub closed spec fn title(&self) -> Seq<char> {
        self.name@
    }

    pub fn new(inner: SV, name: String) -> (r: Self)
        ensures
            r.inner() == inner,
            r.title() == name@,
    {
        HttpProxy { inner: Arc::new(inner), name }
    }

    pub fn name(&self) -> (r: &str)
        ensures
            r@ == self.title(),
    {
        self.name.as_str()
    }

    /// The service, to be shared with its tasks.
    pub fn service(&self) -> (r: Arc<SV>)
        ensures
            *r == self.inner(),
    {
        share(&self.inner)
    }
}

/// `Arc::clone`: another handle to the same value.
#[verifier::external_body]
fn share<T>(value: &Arc<T>) -> (r: Arc<T>)
    ensures
        *r == **value,
{
    value.clone()
}

/// A service and the addresses it listens on.
pub struct ListeningService<T> {
    inner: T,
    tcp_addresses: Vec<String>,
}

impl<T> ListeningService<T> {
    pub closed spec fn inner(&self) -> T {
        self.inner
    }

    pub closed spec fn addresses(&self) -> Seq<Seq<char>> {
        text::texts(self.tcp_addresses@)
    }

    pub fn new(inner: T) -> (r: Self)
        ensures
            r.inner() == inner,
            r.addresses() == Seq::<Seq<char>>::empty(),
    {
        let r = ListeningService { inner, tcp_addresses: Vec::new() };
        assert(r.addresses() =~= Seq::<Seq<char>>::empty());
        r
    }

    pub fn add_tcp(&mut self, addr: &str)
        ensures
            final(self).inner() == old(self).inner(),
            final(self).addresses() == old(self).addresses().push(addr@),
    {
        self.tcp_addresses.push(String::from_str(addr));
        assert(self.addresses() =~= old(self).addresses().push(addr@));
    }

    pub fn service(&self) -> (r: &T)
        ensures
            *r == self.inner(),
    {
        &self.inner
    }

    pub fn tcp_addresses(&self) -> (r: &Vec<String>)
        ensures
            text::texts(r@) == self.addresses(),
    {
        &self.tcp_addresses
    }
}

/// A proxy service that listens on no address yet.
pub fn http_proxy_service<SV>(_conf: &ServerConf, inner: SV) -> (r: ListeningService<HttpProxy<SV>>)
    ensures
        r.inner().inner() == inner,
        r.inner().title() == "HTTP Proxy Service"@,
        r.addresses() == Seq::<Seq<char>>::empty(),
{
    ListeningService::new(HttpProxy::new(inner, String::from_str("HTTP Proxy Service")))
}

/// A task that runs beside a server's services.
pub struct GenBackgroundService<A> {
    pub name: String,
    pub task: Arc<A>,
    /// How many threads it asks for.
    pub threads: Option<usize>,
}

impl<A> GenBackgroundService<A> {
    pub fn new(name: String, task: Arc<A>) -> (r: Self)
        ensures
            r.name == name,
            r.task == task,
            r.threads == Some(1usize),
    {
        GenBackgroundService { name, task, threads: Some(1) }
    }

    /// The task, to be shared.
    pub fn task(&self) -> (r: Arc<A>)
        ensures
            *r == *self.task,
    {
        share(&self.task)
    }

    pub fn name(&self) -> (r: &str)
        ensures
            r@ == self.name@,
    {
        self.name.as_str()
    }
}

/// A background task under a name.
pub fn background_service<SV>(name: &str, task: SV) -> (r: GenBackgroundService<SV>)
    ensures
        r.name@ == "BG "@ + name@,
        *r.task == task,
        r.threads == Some(1usize),
{
    GenBackgroundService::new(text::join("BG ", name), Arc::new(task))
}

} // verus!
