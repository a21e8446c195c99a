//! Responses.

use vstd::prelude::*;
use vstd::utf8::encode_utf8;

use crate::codec::{law_text_is_read_back, text_from_utf8_lossy, text_of};
use crate::cookie::{sanitize_cookie_part, sanitized, Cookie};
use crate::error::{HttpError, HttpErrorView, IntoHttpError};
use crate::headers::{
    few, get_header_values, header_contents, is_header_name, is_header_value, new_headers, no_headers,
    try_append_header, try_insert_header, valid_header_name, valid_header_value, values_of,
    with_added, with_header,
};
use crate::text::{lower, views};

verus! {

/// The body of a response.
#[derive(Debug)]
pub enum BodyKind {
    /// Bytes in memory.
    Bytes(Vec<u8>),
    /// A stream, by the number it is known under.
    Stream(u64),
    /// Nothing.
    Empty,
}

/// A body as contracts speak of it.
#[verifier::ext_equal]
pub enum BodyView {
    Bytes(Seq<u8>),
    Stream(u64),
    Empty,
}

impl View for BodyKind {
    type V = BodyView;

    open spec fn view(&self) -> BodyView {
        match *self {
            BodyKind::Bytes(b) => BodyView::Bytes(b@),
            BodyKind::Stream(n) => BodyView::Stream(n),
            BodyKind::Empty => BodyView::Empty,
        }
    }
}

/// The answer to a request.
#[derive(Debug)]
pub struct Response {
    pub status: u16,
    pub content_type: String,
    pub headers: hyper::HeaderMap<hyper::header::HeaderValue>,
    pub body_kind: BodyKind,
    pub error: Option<HttpError>,
}

/// A response as contracts speak of it.
#[verifier::ext_equal]
pub struct ResponseView {
    pub status: u16,
    pub content_type: Seq<char>,
    pub headers: Map<Seq<char>, Seq<Seq<char>>>,
    pub body: BodyView,
    pub error: Option<HttpErrorView>,
}

/// The view of an optional error.
pub open spec fn error_view(e: Option<HttpError>) -> Option<HttpErrorView> {
    match e {
        Some(err) => Some(err@),
        None => None,
    }
}

impl View for Response {
    type V = ResponseView;

    open spec fn view(&self) -> ResponseView {
        ResponseView {
            status: self.status,
            content_type: self.content_type@,
            headers: header_contents(self.headers),
            body: self.body_kind@,
            error: error_view(self.error),
        }
    }
}

/// Whether two responses differ in their headers at most.
pub open spec fn same_but_headers(a: ResponseView, b: ResponseView) -> bool {
    a.status == b.status && a.content_type == b.content_type && a.body == b.body && a.error
        == b.error
}

/// Whether a map has room for so many more names.
pub open spec fn room(m: Map<Seq<char>, Seq<Seq<char>>>, n: nat) -> bool {
    m.dom().finite() && m.dom().len() + n < 6000
}

/// A header takes up the room of one name at most.
pub proof fn lemma_room(
    m: Map<Seq<char>, Seq<Seq<char>>>,
    n: nat,
    name: Seq<char>,
    value: Seq<char>,
)
    requires
        room(m, n + 1),
    ensures
        few(m),
        room(with_header(m, name, value), n),
        room(with_added(m, name, value), n),
{
    let k = lower(name);
    let v = seq![value];
    let w = values_of(m, name).push(value);
    assert(m.insert(k, v).dom() =~= m.dom().insert(k));
    assert(m.insert(k, w).dom() =~= m.dom().insert(k));
}

/// A map without headers has room.
pub proof fn lemma_room_empty(n: nat)
    requires
        n < 6000,
    ensures
        room(no_headers(), n),
{
    assert(no_headers().dom() =~= Set::empty());
}

/// The content type of plain text.
pub open spec fn plain_text() -> Seq<char> {
    "text/plain; charset=utf-8"@
}

impl ResponseView {
    /// The response to a request that succeeds with bytes.
    pub open spec fn ok(body: Seq<u8>, content_type: Seq<char>) -> ResponseView {
        ResponseView {
            status: 200,
            content_type,
            headers: no_headers(),
            body: BodyView::Bytes(body),
            error: None,
        }
    }

    /// The response that is a text.
    pub open spec fn text(text: Seq<char>) -> ResponseView {
        ResponseView::ok(encode_utf8(text), plain_text())
    }

    /// The response with another status.
    pub open spec fn with_status(self, status: u16) -> ResponseView {
        ResponseView { status, ..self }
    }

    /// The response with a header in the place of those of the same name.
    pub open spec fn with_header(self, name: Seq<char>, value: Seq<char>) -> ResponseView {
        ResponseView { headers: with_header(self.headers, name, value), ..self }
    }

    /// The response with one more header.
    pub open spec fn with_added(self, name: Seq<char>, value: Seq<char>) -> ResponseView {
        ResponseView { headers: with_added(self.headers, name, value), ..self }
    }

    /// The response that tells an error.
    pub open spec fn of_error(e: HttpErrorView) -> ResponseView {
        ResponseView { error: Some(e), ..ResponseView::text(e.text()).with_status(e.status) }
    }
}

impl Response {
    /// A text.
    pub fn send(text: &str) -> (r: Response)
        ensures
            r@ == ResponseView::text(text@),
    {
        Response::bytes(text.as_bytes_vec(), "text/plain; charset=utf-8")
    }

    /// Bytes of a content type.
    pub fn bytes(bytes: Vec<u8>, content_type: &str) -> (r: Response)
        ensures
            r@ == ResponseView::ok(bytes@, content_type@),
    {
        Response {
            status: 200,
            content_type: content_type.to_owned(),
            headers: new_headers(),
            body_kind: BodyKind::Bytes(bytes),
            error: None,
        }
    }

    /// A stream of bytes, by the number it is known under.
    pub fn stream(stream: u64) -> (r: Response)
        ensures
            r@ == (ResponseView {
                body: BodyView::Stream(stream),
                ..ResponseView::ok(Seq::empty(), "application/octet-stream"@)
            }),
    {
        Response {
            status: 200,
            content_type: "application/octet-stream".to_owned(),
            headers: new_headers(),
            body_kind: BodyKind::Stream(stream),
            error: None,
        }
    }

    /// A stream of events, by the number it is known under.
    pub fn sse(stream: u64) -> (r: Response)
        ensures
            r@ == (ResponseView {
                body: BodyView::Stream(stream),
                ..ResponseView::ok(Seq::empty(), "text/event-stream"@)
            }).with_header("cache-control"@, "no-cache"@).with_header(
                "connection"@,
                "keep-alive"@,
            ),
    {
        proof {
            lemma_room_empty(2);
            lemma_room(no_headers(), 1, "cache-control"@, "no-cache"@);
        }
        Response::stream(stream).content_type("text/event-stream").header(
            "cache-control",
            "no-cache",
        ).header("connection", "keep-alive")
    }

    /// A JSON text, or a failure where the value could not be turned into one.
    pub fn json(text: Option<String>) -> (r: Response)
        ensures
            r@ == (match text {
                Some(body) => ResponseView::ok(encode_utf8(body@), "application/json"@),
                None => ResponseView::of_error(
                    HttpErrorView { status: 500, message: "Internal Server Error"@ },
                ),
            }),
    {
        match text {
            Some(body) => Response::bytes(body.as_str().as_bytes_vec(), "application/json"),
            None => Response::internal_server_error(),
        }
    }

    /// There is nothing here.
    pub fn not_found() -> (r: Response)
        ensures
            r@ == ResponseView::text("404 Not Found"@).with_status(404),
    {
        Response::send("404 Not Found").status(404)
    }

    /// The request is wrong.
    pub fn bad_request() -> (r: Response)
        ensures
            r@ == ResponseView::text("400 Bad Request"@).with_status(400),
    {
        Response::send("400 Bad Request").status(400)
    }

    /// The server failed.
    pub fn internal_server_error() -> (r: Response)
        ensures
            r@ == ResponseView::of_error(
                HttpErrorView { status: 500, message: "Internal Server Error"@ },
            ),
    {
        Response::from_error(HttpError::internal_server_error("Internal Server Error"))
    }

    /// The answer that tells an error, and carries it.
    pub fn from_error(error: HttpError) -> (r: Response)
        ensures
            r@ == ResponseView::of_error(error@),
    {
        let body: String = error.line();
        let status: u16 = error.status();
        Response {
            status,
            content_type: "text/plain; charset=utf-8".to_owned(),
            headers: new_headers(),
            body_kind: BodyKind::Bytes(body.as_str().as_bytes_vec()),
            error: Some(error),
        }
    }

    /// Sends the client elsewhere for now.
    pub fn redirect(location: &str) -> (r: Response)
        ensures
            r@ == ResponseView::text(""@).with_status(302).with_header("location"@, location@),
    {
        Response::redirect_with_status(location, 302)
    }

    /// Sends the client elsewhere with a status.
    pub fn redirect_with_status(location: &str, status: u16) -> (r: Response)
        ensures
            r@ == ResponseView::text(""@).with_status(status).with_header(
                "location"@,
                location@,
            ),
    {
        proof {
            lemma_room_empty(1);
        }
        Response::send("").status(status).header("location", location)
    }

    /// The response with another status.
    pub fn status(self, status: u16) -> (r: Response)
        ensures
            r@ == self@.with_status(status),
    {
        Response { status, ..self }
    }

    /// The response with another content type.
    pub fn content_type(self, content_type: &str) -> (r: Response)
        ensures
            r@ == (ResponseView { content_type: content_type@, ..self@ }),
    {
        Response { content_type: content_type.to_owned(), ..self }
    }

    /// The response with a header in the place of those of the same name. A name or a
    /// value that no header can have changes nothing.
    pub fn header(self, name: &str, value: &str) -> (r: Response)
        ensures
            few(self@.headers) ==> r@ == self@.with_header(name@, value@),
            r@ == self@ || r@ == self@.with_header(name@, value@),
    {
        let mut r: Response = self;
        r.set_header(name, value);
        r
    }

    /// The response with one more header. A name or a value that no header can have
    /// changes nothing.
    pub fn append_header(self, name: &str, value: &str) -> (r: Response)
        ensures
            few(self@.headers) ==> r@ == self@.with_added(name@, value@),
            r@ == self@ || r@ == self@.with_added(name@, value@),
    {
        let mut r: Response = self;
        r.add_header(name, value);
        r
    }

    /// Sets a header.
    pub fn set_header(&mut self, name: &str, value: &str)
        ensures
            few(old(self)@.headers) ==> final(self)@ == old(self)@.with_header(name@, value@),
            final(self)@ == old(self)@ || final(self)@ == old(self)@.with_header(name@, value@),
    {
        if valid_header_name(name) && valid_header_value(value) {
            let _stored: bool = try_insert_header(&mut self.headers, name, value);
        }
    }

    /// Adds a header.
    pub fn add_header(&mut self, name: &str, value: &str)
        ensures
            few(old(self)@.headers) ==> final(self)@ == old(self)@.with_added(name@, value@),
            final(self)@ == old(self)@ || final(self)@ == old(self)@.with_added(name@, value@),
    {
        if valid_header_name(name) && valid_header_value(value) {
            let _stored: bool = try_append_header(&mut self.headers, name, value);
        }
    }

    /// The values of a header.
    pub fn header_values(&self, name: &str) -> (r: Vec<String>)
        requires
            is_header_name(name@),
        ensures
            views(r@) == values_of(self@.headers, name@),
    {
        get_header_values(&self.headers, name)
    }

    /// The response with a cookie for the whole site, hidden from scripts.
    pub fn cookie(self, name: &str, value: &str) -> (r: Response)
        ensures
            few(self@.headers) ==> r@ == self@.with_added(
                "set-cookie"@,
                sanitized(name@) + "="@ + sanitized(value@) + "; Path=/; HttpOnly"@,
            ),
            r@ == self@ || r@ == self@.with_added(
                "set-cookie"@,
                sanitized(name@) + "="@ + sanitized(value@) + "; Path=/; HttpOnly"@,
            ),
    {
        let text: String = sanitize_cookie_part(name).concat("=").concat(
            sanitize_cookie_part(value).as_str(),
        ).concat("; Path=/; HttpOnly");
        self.append_header("set-cookie", text.as_str())
    }

    /// The response with a cookie.
    pub fn set_cookie(self, cookie: Cookie) -> (r: Response)
        ensures
            few(self@.headers) ==> r@ == self@.with_added("set-cookie"@, cookie.header_value()),
            r@ == self@ || r@ == self@.with_added("set-cookie"@, cookie.header_value()),
    {
        self.append_header("set-cookie", cookie.to_header_value().as_str())
    }

    /// Tells the client to forget a cookie.
    pub fn clear_cookie(self, name: &str) -> (r: Response)
        ensures
            few(self@.headers) ==> r@ == self@.with_added(
                "set-cookie"@,
                sanitized(name@) + "=; Path=/; Max-Age=0"@,
            ),
            r@ == self@ || r@ == self@.with_added(
                "set-cookie"@,
                sanitized(name@) + "=; Path=/; Max-Age=0"@,
            ),
    {
        let cookie: Cookie = Cookie::new(name, "").max_age_secs(0);
        proof {
            reveal_strlit("");
            reveal_strlit("=");
            reveal_strlit("; Path=");
            reveal_strlit("/");
            reveal_strlit("; Max-Age=");
            reveal_strlit("=; Path=/; Max-Age=0");
            assert(sanitized(""@) =~= Seq::empty());
            assert(crate::cookie::signed_decimal(0) =~= seq!['0']);
            assert(cookie.header_value() =~= sanitized(name@) + "=; Path=/; Max-Age=0"@);
        }
        self.set_cookie(cookie)
    }

    /// The bytes of a body in memory.
    pub fn body_bytes(&self) -> (r: Option<&Vec<u8>>)
        ensures
            match self@.body {
                BodyView::Bytes(b) => r matches Some(v) && v@ == b,
                _ => r is None,
            },
    {
        match &self.body_kind {
            BodyKind::Bytes(b) => Some(b),
            _ => None,
        }
    }

    /// The body in memory as text; another body is none. What was sent as text is read
    /// as that text.
    pub fn body_text(&self) -> (r: String)
        ensures
            r@ == (match self@.body {
                BodyView::Bytes(b) => text_of(b),
                _ => Seq::empty(),
            }),
            forall|s: Seq<char>| self@.body == BodyView::Bytes(#[trigger] encode_utf8(s)) ==> r@
                == s,
    {
        proof {
            assert forall|s: Seq<char>|
                self@.body == BodyView::Bytes(#[trigger] encode_utf8(s)) implies text_of(
                encode_utf8(s),
            ) == s by {
                law_text_is_read_back(s);
            }
        }
        match &self.body_kind {
            BodyKind::Bytes(b) => text_from_utf8_lossy(b),
            _ => String::new(),
        }
    }

    /// Takes the body away.
    pub fn clear_body(&mut self)
        ensures
            final(self)@ == (ResponseView { body: BodyView::Empty, ..old(self)@ }),
    {
        self.body_kind = BodyKind::Empty;
    }

    /// Puts other bytes in the place of a body in memory, or fails and leaves it.
    pub fn map_body_bytes(&mut self, mapped: Result<Vec<u8>, HttpError>) -> (r: Result<
        (),
        HttpError,
    >)
        ensures
            match old(self)@.body {
                BodyView::Bytes(_) => match mapped {
                    Ok(b) => r is Ok && final(self)@ == (ResponseView {
                        body: BodyView::Bytes(b@),
                        ..old(self)@
                    }),
                    Err(e) => r == Err::<(), HttpError>(e) && final(self)@ == old(self)@,
                },
                _ => r is Ok && final(self)@ == old(self)@,
            },
    {
        let in_memory: bool = matches!(self.body_kind, BodyKind::Bytes(_));
        if !in_memory {
            return Ok(());
        }
        match mapped {
            Ok(b) => {
                self.body_kind = BodyKind::Bytes(b);
                Ok(())
            },
            Err(e) => Err(e),
        }
    }

    /// Takes the error that the response carries.
    pub fn take_error(&mut self) -> (r: Option<HttpError>)
        ensures
            error_view(r) == old(self)@.error,
            final(self)@ == (ResponseView { error: None, ..old(self)@ }),
    {
        self.error.take()
    }

    /// Whether the content type goes out as a header of its own: none of the headers
    /// is one.
    pub fn sends_content_type(&self) -> (r: bool)
        ensures
            r == (values_of(self@.headers, "content-type"@).len() == 0),
    {
        proof {
            reveal_strlit("content-type");
            lemma_plain_name("content-type"@);
        }
        self.header_values("content-type").len() == 0
    }
}

impl ResponseView {
    /// Whether the response can go out: its status has three digits, and its content
    /// type can be a header.
    pub open spec fn can_go_out(self) -> bool {
        100 <= self.status <= 999 && (values_of(self.headers, "content-type"@).len() > 0
            || is_header_value(self.content_type))
    }

    /// The headers that go out: the content type is one, unless one was set.
    pub open spec fn outgoing(self) -> Map<Seq<char>, Seq<Seq<char>>> {
        if values_of(self.headers, "content-type"@).len() > 0 {
            self.headers
        } else {
            with_header(self.headers, "content-type"@, self.content_type)
        }
    }
}

impl Response {
    /// The response with all its headers, as it goes out, where it can.
    pub fn into_outgoing(self) -> (r: Option<Response>)
        ensures
            r is Some == self@.can_go_out(),
            r matches Some(res) ==> same_but_headers(res@, self@) && (few(self@.headers)
                ==> res@.headers == self@.outgoing()),
    {
        if self.status < 100 || self.status > 999 {
            return None;
        }
        if !self.sends_content_type() {
            return Some(self);
        }
        if !valid_header_value(self.content_type.as_str()) {
            return None;
        }
        let content_type: String = self.content_type.clone();
        Some(self.header("content-type", content_type.as_str()))
    }
}

/// A text of small letters and dashes is a header name.
pub proof fn lemma_plain_name(s: Seq<char>)
    requires
        0 < s.len() <= 65535,
        forall|i: int| 0 <= i < s.len() ==> 'a' <= #[trigger] s[i] <= 'z' || s[i] == '-',
    ensures
        is_header_name(s),
{
    let marks = seq!['!', '#', '$', '%', '&', '\'', '*', '+', '-', '.', '^', '_', '`', '|', '~'];
    assert(marks[8] == '-');
    assert(marks.contains('-'));
}

/// What can answer a request.
pub trait IntoResponse: Sized {
    /// The response as contracts speak of it.
    spec fn as_response(self) -> ResponseView;

    /// The response.
    fn into_response(self) -> (r: Response)
        ensures
            r@ == self.as_response(),
    ;
}

impl IntoResponse for Response {
    open spec fn as_response(self) -> ResponseView {
        self@
    }

    fn into_response(self) -> (r: Response) {
        self
    }
}

impl IntoResponse for HttpError {
    open spec fn as_response(self) -> ResponseView {
        ResponseView::of_error(self@)
    }

    fn into_response(self) -> (r: Response) {
        Response::from_error(self)
    }
}

impl<E: IntoHttpError> IntoResponse for Result<Response, E> {
    open spec fn as_response(self) -> ResponseView {
        match self {
            Ok(response) => response@,
            Err(e) => ResponseView::of_error(e.as_error()),
        }
    }

    fn into_response(self) -> (r: Response) {
        match self {
            Ok(response) => response,
            Err(e) => Response::from_error(e.into_http_error()),
        }
    }
}

/// A text goes out with status 200 as plain text in UTF-8, without further headers, and an
/// error with its own status and its line as the text, and is carried along.
pub proof fn law_texts_and_errors_are_answers(text: Seq<char>, e: HttpErrorView)
    ensures
        ResponseView::text(text).status == 200,
        ResponseView::text(text).content_type == "text/plain; charset=utf-8"@,
        ResponseView::text(text).body == BodyView::Bytes(encode_utf8(text)),
        ResponseView::text(text).error is None,
        forall|n: Seq<char>| (#[trigger] values_of(ResponseView::text(text).headers, n)).len() == 0,
        ResponseView::of_error(e).status == e.status,
        ResponseView::of_error(e).error == Some(e),
        ResponseView::of_error(e).content_type == "text/plain; charset=utf-8"@,
        ResponseView::of_error(e).body == BodyView::Bytes(encode_utf8(e.text())),
        forall|n: Seq<char>|
            (#[trigger] values_of(ResponseView::of_error(e).headers, n)).len() == 0,
{
}

/// A response goes out with exactly the headers that it has, and with its content type
/// where none of them is one.
pub proof fn law_content_type_goes_out(r: ResponseView, n: Seq<char>)
    requires
        r.can_go_out(),
    ensures
        values_of(r.headers, "content-type"@).len() > 0 ==> values_of(r.outgoing(), "content-type"@)
            == values_of(r.headers, "content-type"@),
        values_of(r.headers, "content-type"@).len() == 0 ==> values_of(
            r.outgoing(),
            "content-type"@,
        ) == seq![r.content_type],
        lower(n) != lower("content-type"@) ==> values_of(r.outgoing(), n) == values_of(
            r.headers,
            n,
        ),
        100 <= r.status <= 999,
{
    reveal_strlit("content-type");
    lemma_plain_name("content-type"@);
}

/// A response answers as it is, and an error, or a result that is one, by its status and
/// its text.
pub proof fn law_results_are_answers<E: IntoHttpError>(
    r: Response,
    e: HttpError,
    result: Result<Response, E>,
)
    ensures
        r.as_response() == r@,
        e.as_response().status == e.status,
        e.as_response().error == Some(e@),
        result matches Ok(inner) ==> result.as_response() == inner@,
        result matches Err(err) ==> result.as_response().status == err.as_error().status
            && result.as_response().error == Some(err.as_error()),
{
}

} // verus!
