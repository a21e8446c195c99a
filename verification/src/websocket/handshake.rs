//! The handshake that turns a request into a WebSocket.

use vstd::prelude::*;
use vstd::utf8::encode_utf8;

use crate::codec::{base64_encode, base64_text, sha1_bytes, sha1_digest};
use crate::error::{HttpError, HttpErrorView};
use crate::headers::{is_header_name, is_header_value, no_headers, values_of};
use crate::request::{is_valid_websocket_key, valid_key, HttpVersion, Request};
use crate::response::{lemma_room, lemma_room_empty, room, Response, ResponseView};
use crate::text::{
    lower, opt, pairs, same, same_ignoring_case, split, split_text, trim, trimmed, views,
};
use crate::websocket::config::{
    protocols_view, resolved, ConfigView, ResolvedWebSocketConfig, WebSocketConfig,
};
use crate::websocket::runtime::{
    conns_ok, lemma_admitted, AdmissionError, RuntimeView, WebSocketCounters, WebSocketRuntimeHandle,
};
use crate::websocket::types::{PeerAddr, WebSocketId};

verus! {

/// Why a handshake is refused.
#[derive(Debug)]
pub struct HandshakeRejection {
    pub status: u16,
    pub message: &'static str,
    pub headers: Vec<(&'static str, &'static str)>,
}

/// A refusal as contracts speak of it.
#[verifier::ext_equal]
pub struct RejectionView {
    pub status: u16,
    pub message: Seq<char>,
    pub headers: Seq<(Seq<char>, Seq<char>)>,
}

impl View for HandshakeRejection {
    type V = RejectionView;

    open spec fn view(&self) -> RejectionView {
        RejectionView {
            status: self.status,
            message: self.message@,
            headers: Seq::new(
                self.headers@.len(),
                |i: int| (self.headers@[i].0@, self.headers@[i].1@),
            ),
        }
    }
}

/// A response with headers set one after the other.
pub open spec fn with_headers(base: ResponseView, headers: Seq<(Seq<char>, Seq<char>)>) -> ResponseView
    decreases headers.len(),
{
    if headers.len() == 0 {
        base
    } else {
        with_headers(base, headers.drop_last()).with_header(headers.last().0, headers.last().1)
    }
}

impl RejectionView {
    /// A refusal with a status and a message.
    pub open spec fn plain(status: u16, message: Seq<char>) -> RejectionView {
        RejectionView { status, message, headers: Seq::empty() }
    }

    /// The response that tells the refusal.
    pub open spec fn response(self) -> ResponseView {
        with_headers(ResponseView::text(self.message).with_status(self.status), self.headers)
    }
}

impl HandshakeRejection {
    /// A refusal with a status and a message.
    pub fn new(status: u16, message: &'static str) -> (r: HandshakeRejection)
        ensures
            r@ == RejectionView::plain(status, message@),
    {
        HandshakeRejection { status, message, headers: Vec::new() }
    }

    /// The refusal with one more header.
    pub fn with_header(self, name: &'static str, value: &'static str) -> (r: HandshakeRejection)
        ensures
            r@ == (RejectionView { headers: self@.headers.push((name@, value@)), ..self@ }),
    {
        let mut headers: Vec<(&'static str, &'static str)> = self.headers;
        headers.push((name, value));
        let r: HandshakeRejection = HandshakeRejection {
            status: self.status,
            message: self.message,
            headers,
        };
        assert(r@.headers =~= self@.headers.push((name@, value@)));
        r
    }

    /// The response that tells the refusal.
    pub fn into_response(self) -> (r: Response)
        requires
            self.headers@.len() < 6000,
        ensures
            r@ == self@.response(),
    {
        let mut r: Response = Response::send(self.message).status(self.status);
        let mut i: usize = 0;
        let ghost base = r@;
        proof {
            lemma_room_empty(self.headers@.len());
            assert(self@.headers.take(0) =~= Seq::empty());
        }
        while i < self.headers.len()
            invariant
                i <= self.headers.len(),
                r@ == with_headers(base, self@.headers.take(i as int)),
                room(r@.headers, (self.headers@.len() - i) as nat),
            decreases self.headers.len() - i,
        {
            let name: &'static str = self.headers[i].0;
            let value: &'static str = self.headers[i].1;
            proof {
                lemma_room(r@.headers, (self.headers@.len() - i - 1) as nat, name@, value@);
                let all = self@.headers.take(i + 1);
                assert(all.drop_last() =~= self@.headers.take(i as int));
                assert(all.last() == (name@, value@));
            }
            r = r.header(name, value);
            i += 1;
        }
        assert(self@.headers.take(self@.headers.len() as int) =~= self@.headers);
        r
    }

    /// The error that tells the refusal.
    pub fn into_http_error(self) -> (r: HttpError)
        ensures
            r@ == (HttpErrorView { status: self.status, message: self.message@ }),
    {
        HttpError::new(self.status, self.message)
    }
}

/// Whether a subprotocol is among those that are spoken.
pub open spec fn is_supported(protocols: Seq<Seq<char>>, candidate: Seq<char>) -> bool {
    exists|i: int|
        0 <= i < protocols.len() && lower(#[trigger] protocols[i]) == lower(candidate)
}

/// The first of the tokens that is spoken.
pub open spec fn first_supported(
    tokens: Seq<Seq<char>>,
    protocols: Seq<Seq<char>>,
) -> Option<Seq<char>>
    decreases tokens.len(),
{
    if tokens.len() == 0 {
        None
    } else {
        match first_supported(tokens.drop_last(), protocols) {
            Some(p) => Some(p),
            None => if is_supported(protocols, trim(tokens.last())) {
                Some(trim(tokens.last()))
            } else {
                None
            },
        }
    }
}

/// The first spoken subprotocol that header values offer, in the client's order.
pub open spec fn first_offered(
    values: Seq<Seq<char>>,
    protocols: Seq<Seq<char>>,
) -> Option<Seq<char>>
    decreases values.len(),
{
    if values.len() == 0 {
        None
    } else {
        match first_offered(values.drop_last(), protocols) {
            Some(p) => Some(p),
            None => first_supported(split(values.last(), ','), protocols),
        }
    }
}

/// The subprotocol that a request settles on.
pub open spec fn negotiated(req: Request, protocols: Seq<Seq<char>>) -> Option<Seq<char>> {
    match first_offered(req.headers_of("sec-websocket-protocol"@), protocols) {
        Some(p) => Some(p),
        None => match req.header_of("sec-websocket-protocol"@) {
            Some(value) => first_supported(split(value, ','), protocols),
            None => None,
        },
    }
}

/// Whether a subprotocol is among those that are spoken.
fn supports(protocols: &Vec<String>, candidate: &str) -> (r: bool)
    ensures
        r == is_supported(views(protocols@), candidate@),
{
    let mut i: usize = 0;
    while i < protocols.len()
        invariant
            i <= protocols.len(),
            forall|j: int|
                0 <= j < i ==> lower(#[trigger] views(protocols@)[j]) != lower(candidate@),
        decreases protocols.len() - i,
    {
        if same_ignoring_case(protocols[i].as_str(), candidate) {
            assert(lower(views(protocols@)[i as int]) == lower(candidate@));
            return true;
        }
        i += 1;
    }
    false
}

/// The first spoken subprotocol that a header value offers.
fn offered_in(value: &str, protocols: &Vec<String>) -> (r: Option<String>)
    ensures
        opt(r) == first_supported(split(value@, ','), views(protocols@)),
{
    let tokens: Vec<String> = split_text(value, ',');
    let mut i: usize = 0;
    let mut found: Option<String> = None;
    assert(views(tokens@).take(0) =~= Seq::empty());
    while i < tokens.len()
        invariant
            i <= tokens.len(),
            views(tokens@) == split(value@, ','),
            opt(found) == first_supported(views(tokens@).take(i as int), views(protocols@)),
        decreases tokens.len() - i,
    {
        proof {
            let all = views(tokens@).take(i + 1);
            assert(all.drop_last() =~= views(tokens@).take(i as int));
            assert(all.last() == tokens@[i as int]@);
        }
        if found.is_none() {
            let token: String = trimmed(tokens[i].as_str());
            if supports(protocols, token.as_str()) {
                found = Some(token);
            }
        }
        i += 1;
    }
    assert(views(tokens@).take(tokens@.len() as int) =~= views(tokens@));
    found
}

/// The subprotocol that a request settles on: the first that the client offers and
/// that is spoken here.
pub fn negotiate_protocol(req: &Request, protocols: &Vec<String>) -> (r: Option<String>)
    requires
        req.wf(),
    ensures
        opt(r) == negotiated(*req, views(protocols@)),
{
    let values: Vec<String> = req.headers_all("sec-websocket-protocol");
    let mut i: usize = 0;
    let mut found: Option<String> = None;
    assert(views(values@).take(0) =~= Seq::empty());
    while i < values.len()
        invariant
            i <= values.len(),
            opt(found) == first_offered(views(values@).take(i as int), views(protocols@)),
        decreases values.len() - i,
    {
        proof {
            let all = views(values@).take(i + 1);
            assert(all.drop_last() =~= views(values@).take(i as int));
            assert(all.last() == values@[i as int]@);
        }
        if found.is_none() {
            found = offered_in(values[i].as_str(), protocols);
        }
        i += 1;
    }
    assert(views(values@).take(values@.len() as int) =~= views(values@));
    match found {
        Some(p) => Some(p),
        None => match req.header("sec-websocket-protocol") {
            Some(value) => offered_in(value, protocols),
            None => None,
        },
    }
}

impl WebSocketConfig {
    /// The subprotocol that a request settles on.
    pub fn negotiate(&self, req: &Request) -> (r: Option<String>)
        requires
            req.wf(),
        ensures
            opt(r) == negotiated(
                *req,
                match protocols_view(self.protocols) {
                    Some(p) => p,
                    None => Seq::empty(),
                },
            ),
    {
        match &self.protocols {
            Some(list) => negotiate_protocol(req, list),
            None => {
                let list: Vec<String> = Vec::new();
                assert(views(list@) =~= Seq::empty());
                negotiate_protocol(req, &list)
            },
        }
    }
}

/// The origin of a request, where it names one.
pub open spec fn origin_in(req: Request) -> Option<Seq<char>> {
    if req.headers_of("origin"@).len() > 0 {
        Some(req.headers_of("origin"@)[0])
    } else {
        None
    }
}

/// Why the handshake of a request is refused, where it is.
pub open spec fn refused(req: Request, c: ConfigView) -> Option<RejectionView> {
    if req.version != HttpVersion::Http11 {
        Some(RejectionView::plain(400, "La actualizacion WebSocket requiere HTTP/1.1"@))
    } else if req.only_header("host"@) is None || trim(req.only_header("host"@)->0).len() == 0 {
        Some(
            RejectionView::plain(
                400,
                "La cabecera Host debe aparecer exactamente una vez y no estar vacia"@,
            ),
        )
    } else if lower(req.method@) != lower("GET"@) {
        Some(RejectionView::plain(400, "La actualizacion WebSocket requiere el metodo GET"@))
    } else if !req.has_token("upgrade"@, "websocket"@) {
        Some(RejectionView::plain(400, "La cabecera Upgrade debe incluir websocket"@))
    } else if !req.has_token("connection"@, "upgrade"@) {
        Some(RejectionView::plain(400, "La cabecera Connection debe incluir Upgrade"@))
    } else if req.only_header("sec-websocket-version"@) is None {
        Some(
            RejectionView::plain(400, "Sec-WebSocket-Version debe aparecer exactamente una vez"@),
        )
    } else if trim(req.only_header("sec-websocket-version"@)->0) != "13"@ {
        Some(
            RejectionView {
                status: 426,
                message: "La version WebSocket debe ser 13"@,
                headers: seq![("sec-websocket-version"@, "13"@)],
            },
        )
    } else if req.only_header("sec-websocket-key"@) is None {
        Some(RejectionView::plain(400, "Sec-WebSocket-Key debe aparecer exactamente una vez"@))
    } else if !valid_key(req.only_header("sec-websocket-key"@)->0) {
        Some(RejectionView::plain(400, "Sec-WebSocket-Key debe codificar exactamente 16 bytes"@))
    } else if req.headers_of("origin"@).len() > 1 {
        Some(RejectionView::plain(400, "La cabecera Origin no puede aparecer mas de una vez"@))
    } else if !c.origin_policy.allowed_on(
        origin_in(req),
        trim(req.only_header("host"@)->0),
        req.secure_transport,
    ) {
        Some(RejectionView::plain(403, "El origen WebSocket no esta permitido"@))
    } else if c.require_protocol && negotiated(req, c.protocols) is None {
        Some(RejectionView::plain(400, "Se requiere un subprotocolo WebSocket compatible"@))
    } else {
        None
    }
}

/// Checks the handshake of a request, and settles on a subprotocol.
pub fn validate_handshake(
    req: &Request,
    config: &ResolvedWebSocketConfig,
) -> (r: Result<Option<String>, HandshakeRejection>)
    requires
        req.wf(),
    ensures
        match refused(*req, config@) {
            Some(why) => r matches Err(e) && e@ == why,
            None => r matches Ok(p) && opt(p) == negotiated(*req, config@.protocols),
        },
{
    if req.version() != HttpVersion::Http11 {
        return Err(HandshakeRejection::new(400, "La actualizacion WebSocket requiere HTTP/1.1"));
    }
    let host: String = match req.singleton_header("host") {
        Some(h) => trimmed(h.as_str()),
        None => {
            return Err(
                HandshakeRejection::new(
                    400,
                    "La cabecera Host debe aparecer exactamente una vez y no estar vacia",
                ),
            );
        },
    };
    if host.as_str().is_empty() {
        return Err(
            HandshakeRejection::new(
                400,
                "La cabecera Host debe aparecer exactamente una vez y no estar vacia",
            ),
        );
    }
    if !same_ignoring_case(req.method.as_str(), "GET") {
        return Err(
            HandshakeRejection::new(400, "La actualizacion WebSocket requiere el metodo GET"),
        );
    }
    if !req.request_header_contains_token("upgrade", "websocket") {
        return Err(HandshakeRejection::new(400, "La cabecera Upgrade debe incluir websocket"));
    }
    if !req.request_header_contains_token("connection", "upgrade") {
        return Err(HandshakeRejection::new(400, "La cabecera Connection debe incluir Upgrade"));
    }
    match req.singleton_header("sec-websocket-version") {
        Some(version) => {
            if !same(trimmed(version.as_str()).as_str(), "13") {
                let e: HandshakeRejection = HandshakeRejection::new(
                    426,
                    "La version WebSocket debe ser 13",
                ).with_header("sec-websocket-version", "13");
                assert(e@.headers =~= seq![("sec-websocket-version"@, "13"@)]);
                return Err(e);
            }
        },
        None => {
            return Err(
                HandshakeRejection::new(
                    400,
                    "Sec-WebSocket-Version debe aparecer exactamente una vez",
                ),
            );
        },
    }
    match req.singleton_header("sec-websocket-key") {
        Some(key) => {
            if !is_valid_websocket_key(key.as_str()) {
                return Err(
                    HandshakeRejection::new(
                        400,
                        "Sec-WebSocket-Key debe codificar exactamente 16 bytes",
                    ),
                );
            }
        },
        None => {
            return Err(
                HandshakeRejection::new(400, "Sec-WebSocket-Key debe aparecer exactamente una vez"),
            );
        },
    }
    let origins: Vec<String> = req.headers_all("origin");
    if origins.len() > 1 {
        return Err(
            HandshakeRejection::new(400, "La cabecera Origin no puede aparecer mas de una vez"),
        );
    }
    let origin: Option<&str> = if origins.len() > 0 {
        assert(views(origins@)[0] == origins@[0]@);
        Some(origins[0].as_str())
    } else {
        None
    };
    if !config.origin_policy.allows_for_transport(origin, host.as_str(), req.is_secure()) {
        return Err(HandshakeRejection::new(403, "El origen WebSocket no esta permitido"));
    }
    let protocol: Option<String> = negotiate_protocol(req, &config.protocols);
    if config.require_protocol && protocol.is_none() {
        return Err(
            HandshakeRejection::new(400, "Se requiere un subprotocolo WebSocket compatible"),
        );
    }
    Ok(protocol)
}

/// What proves to a client that its key was read.
pub open spec fn accept_of(key: Seq<char>) -> Seq<char> {
    base64_text(
        sha1_bytes(encode_utf8(key) + encode_utf8("258EAFA5-E914-47DA-95CA-C5AB0DC85B11"@)),
    )
}

/// What proves to a client that its key was read, in 28 characters.
pub fn accept_key(key: &str) -> (r: String)
    ensures
        r@ == accept_of(key@),
        r@.len() == 28,
{
    let mut data: Vec<u8> = key.as_bytes_vec();
    let mut guid: Vec<u8> = "258EAFA5-E914-47DA-95CA-C5AB0DC85B11".as_bytes_vec();
    data.append(&mut guid);
    let digest: Vec<u8> = sha1_digest(&data);
    base64_encode(&digest)
}

/// The response that opens a WebSocket for a key.
pub open spec fn opening(key: Seq<char>) -> ResponseView {
    ResponseView::text(""@).with_status(101).with_header("upgrade"@, "websocket"@).with_header(
        "connection"@,
        "Upgrade"@,
    ).with_header("sec-websocket-accept"@, accept_of(key))
}

/// The response that opens a WebSocket for a key.
pub fn opening_response(key: &str) -> (r: Response)
    ensures
        r@ == opening(key@),
        room(r@.headers, 1),
{
    let accept: String = accept_key(key);
    proof {
        let a = no_headers();
        lemma_room_empty(4);
        lemma_room(a, 3, "upgrade"@, "websocket"@);
        let b = crate::headers::with_header(a, "upgrade"@, "websocket"@);
        lemma_room(b, 2, "connection"@, "Upgrade"@);
        let c = crate::headers::with_header(b, "connection"@, "Upgrade"@);
        lemma_room(c, 1, "sec-websocket-accept"@, accept@);
    }
    Response::send("").status(101).header("upgrade", "websocket").header(
        "connection",
        "Upgrade",
    ).header("sec-websocket-accept", accept.as_str())
}

/// The rules of a request whose route has none of its own.
pub open spec fn default_rules() -> ConfigView {
    resolved(WebSocketConfig::blank(), WebSocketConfig::blank())
}

/// What keeps a request from opening a WebSocket where no rules are asked, if anything
/// does. The host is asked for where the headers of the request came in, as they do over
/// a connection.
pub open spec fn opening_fault(req: Request) -> Option<Seq<char>> {
    if lower(req.method@) != lower("GET"@) || !req.has_token("upgrade"@, "websocket"@)
        || !req.has_token("connection"@, "upgrade"@) || req.told_header(
        "sec-websocket-key"@,
    ) is None || !(req.told_header("sec-websocket-version"@) matches Some(v) && trim(v) == "13"@) {
        Some("Invalid WebSocket upgrade"@)
    } else if req.header_pairs@.len() > 0 && !(req.told_header("host"@) matches Some(h) && trim(
        h,
    ).len() > 0) {
        Some("La cabecera Host debe aparecer exactamente una vez y no estar vacia"@)
    } else if req.headers_of("origin"@).len() > 1 {
        Some("La cabecera Origin no puede aparecer mas de una vez"@)
    } else {
        None
    }
}

impl Response {
    /// The response that opens the WebSocket that a request asks for, or the error
    /// that says what is wrong with the request.
    pub fn websocket(req: &Request) -> (r: Result<Response, HttpError>)
        requires
            req.wf(),
        ensures
            match opening_fault(*req) {
                Some(why) => r matches Err(e) && e@ == (HttpErrorView {
                    status: 400,
                    message: why,
                }),
                None => r matches Ok(res) && res@ == opening(
                    req.told_header("sec-websocket-key"@)->0,
                ) && room(res@.headers, 1),
            },
    {
        let key: String = match req.unrepeated_header("sec-websocket-key") {
            Some(key) => key,
            None => {
                return Err(HttpError::bad_request("Invalid WebSocket upgrade"));
            },
        };
        if !same_ignoring_case(req.method.as_str(), "GET") || !req.request_header_contains_token(
            "upgrade",
            "websocket",
        ) || !req.request_header_contains_token("connection", "upgrade")
            || !req.wants_version_13() {
            return Err(HttpError::bad_request("Invalid WebSocket upgrade"));
        }
        if req.header_pairs.len() > 0 {
            let has_host: bool = match req.unrepeated_header("host") {
                Some(h) => !trimmed(h.as_str()).as_str().is_empty(),
                None => false,
            };
            if !has_host {
                return Err(
                    HttpError::bad_request(
                        "La cabecera Host debe aparecer exactamente una vez y no estar vacia",
                    ),
                );
            }
        }
        let origins: Vec<String> = req.headers_all("origin");
        assert(views(origins@).len() == origins@.len());
        if origins.len() > 1 {
            return Err(
                HttpError::bad_request("La cabecera Origin no puede aparecer mas de una vez"),
            );
        }
        Ok(opening_response(key.as_str()))
    }
}

/// A handshake that any rules let pass opens a WebSocket.
pub proof fn law_passed_handshakes_open(req: Request, c: ConfigView)
    requires
        refused(req, c) is None,
    ensures
        opening_fault(req) is None,
        req.told_header("sec-websocket-key"@) == req.only_header("sec-websocket-key"@),
{
    assert(req.headers_of("host"@).len() == 1);
    assert(pairs(req.header_pairs@).len() > 0);
}

/// A handshake that any rules let pass is also let pass by the default ones.
pub proof fn law_default_rules_are_the_loosest(req: Request, c: ConfigView)
    requires
        refused(req, c) is None,
    ensures
        refused(req, default_rules()) is None,
{
}

/// A handshake with more than one host, version, key or origin is refused, whatever the
/// rules are: with status 400, but with 426 where its one version is told to be wrong
/// first.
pub proof fn law_repeated_headers_are_refused(req: Request, c: ConfigView)
    requires
        req.headers_of("host"@).len() > 1 || req.headers_of("sec-websocket-version"@).len() > 1
            || req.headers_of("sec-websocket-key"@).len() > 1 || req.headers_of("origin"@).len()
            > 1,
    ensures
        refused(req, c) is Some,
        refused(req, c)->0.status == 400 || refused(req, c)->0.status == 426,
        req.headers_of("sec-websocket-version"@).len() != 1 ==> refused(req, c)->0.status == 400,
{
}

/// What is settled of a WebSocket that opens.
#[derive(Debug)]
pub struct Opening {
    pub id: WebSocketId,
    pub config: ResolvedWebSocketConfig,
    pub protocol: Option<String>,
    pub route: String,
    pub remote_addr: Option<PeerAddr>,
}

/// What became of the connection that a handshake asks for.
#[derive(Debug)]
pub enum Admission {
    /// The handshake was refused before a runtime was asked.
    NotAsked,
    /// The runtime did not admit the connection.
    Refused(AdmissionError),
    /// The connection was admitted, and given back since it could not be taken over.
    GivenBack(WebSocketId),
    /// The WebSocket opens.
    Opened(Opening),
}

impl AdmissionError {
    /// The response that tells why a connection is not admitted, as contracts speak of
    /// it.
    pub open spec fn response(self) -> ResponseView {
        match self {
            AdmissionError::Shutdown => ResponseView::text(
                "El runtime WebSocket se esta cerrando"@,
            ).with_status(503),
            AdmissionError::ProcessCapacity => ResponseView::text(
                "La capacidad global de conexiones WebSocket esta agotada"@,
            ).with_status(503),
            AdmissionError::RouteCapacity => ResponseView::text(
                "La capacidad de conexiones WebSocket para esta ruta esta agotada"@,
            ).with_status(503),
            AdmissionError::IpCapacity => ResponseView::text(
                "El limite de conexiones WebSocket para esta direccion IP esta agotado"@,
            ).with_status(429).with_header("retry-after"@, "1"@),
        }
    }

    /// The response that tells why a connection is not admitted.
    pub fn into_response(self) -> (r: Response)
        ensures
            r@ == self.response(),
    {
        proof {
            lemma_room_empty(1);
        }
        match self {
            AdmissionError::Shutdown => Response::send(
                "El runtime WebSocket se esta cerrando",
            ).status(503),
            AdmissionError::ProcessCapacity => Response::send(
                "La capacidad global de conexiones WebSocket esta agotada",
            ).status(503),
            AdmissionError::RouteCapacity => Response::send(
                "La capacidad de conexiones WebSocket para esta ruta esta agotada",
            ).status(503),
            AdmissionError::IpCapacity => Response::send(
                "El limite de conexiones WebSocket para esta direccion IP esta agotado",
            ).status(429).header("retry-after", "1"),
        }
    }
}

/// The route that a request came in on: its pattern, else its path.
pub open spec fn route_of(req: Request) -> Seq<char> {
    match req.route_pattern {
        Some(p) => p@,
        None => req.path@,
    }
}

/// The response that opens a WebSocket with a subprotocol.
pub open spec fn opening_with(key: Seq<char>, protocol: Option<Seq<char>>) -> ResponseView {
    match protocol {
        Some(p) => opening(key).with_header("sec-websocket-protocol"@, p),
        None => opening(key),
    }
}

/// What a request whose handshake is in order is answered, what became of its
/// connection, and what the runtime is then.
pub open spec fn opened(
    req: Request,
    c: ConfigView,
    protocol: Option<Seq<char>>,
    was: RuntimeView,
    now: u128,
    response: ResponseView,
    admission: Admission,
    is: RuntimeView,
) -> bool {
    let admitted = was.with_connection(route_of(req), req.remote_addr, protocol, c, now);
    match was.refusal(route_of(req), req.remote_addr, c) {
        Some(e) => {
            &&& response == e.response()
            &&& admission == Admission::Refused(e)
            &&& is == (RuntimeView {
                counters: WebSocketCounters {
                    rejected_connections: (was.counters.rejected_connections + 1) as u64,
                    ..was.counters
                },
                ..was
            })
        },
        None => if req.upgrade {
            &&& response == opening_with(req.only_header("sec-websocket-key"@)->0, protocol)
            &&& admission matches Admission::Opened(o)
            &&& o.id == WebSocketId(was.next_id)
            &&& o.config@ == c
            &&& opt(o.protocol) == protocol
            &&& o.route@ == route_of(req)
            &&& o.remote_addr == req.remote_addr
            &&& is == admitted
        } else {
            &&& response == ResponseView::of_error(
                HttpErrorView {
                    status: 400,
                    message: "La actualizacion WebSocket no esta disponible"@,
                },
            )
            &&& admission == Admission::GivenBack(WebSocketId(was.next_id))
            &&& is == admitted.without(was.next_id)
        },
    }
}

/// The rules of a request: those of its route, else those that it is given.
pub open spec fn rules_of(req: Request, config: WebSocketConfig) -> ConfigView {
    match req.resolved_websocket_config {
        Some(c) => c@,
        None => resolved(WebSocketConfig::blank(), config),
    }
}

impl Request {
    /// Opens the WebSocket that the request asks for, or tells why it is refused.
    pub fn websocket(&self, runtime: &mut WebSocketRuntimeHandle, now: u128) -> (r: (
        Response,
        Admission,
    ))
        requires
            self.wf(),
            old(runtime).wf(),
            old(runtime)@.can_count(),
        ensures
            final(runtime).wf(),
            match refused(*self, rules_of(*self, WebSocketConfig::blank())) {
                Some(why) => r.0@ == why.response() && r.1 is NotAsked && final(runtime)@
                    == old(runtime)@,
                None => opened(
                    *self,
                    rules_of(*self, WebSocketConfig::blank()),
                    negotiated(*self, rules_of(*self, WebSocketConfig::blank()).protocols),
                    old(runtime)@,
                    now,
                    r.0@,
                    r.1,
                    final(runtime)@,
                ),
            },
    {
        let config: WebSocketConfig = WebSocketConfig::new();
        self.websocket_with(&config, runtime, now)
    }

    /// Opens the WebSocket that the request asks for by rules, or tells why it is
    /// refused. The rules of a WebSocket route come before those that are given.
    pub fn websocket_with(
        &self,
        config: &WebSocketConfig,
        runtime: &mut WebSocketRuntimeHandle,
        now: u128,
    ) -> (r: (Response, Admission))
        requires
            self.wf(),
            old(runtime).wf(),
            old(runtime)@.can_count(),
        ensures
            final(runtime).wf(),
            match refused(*self, rules_of(*self, *config)) {
                Some(why) => r.0@ == why.response() && r.1 is NotAsked && final(runtime)@
                    == old(runtime)@,
                None => opened(
                    *self,
                    rules_of(*self, *config),
                    negotiated(*self, rules_of(*self, *config).protocols),
                    old(runtime)@,
                    now,
                    r.0@,
                    r.1,
                    final(runtime)@,
                ),
            },
    {
        let rules: ResolvedWebSocketConfig = match &self.resolved_websocket_config {
            Some(c) => c.copy(),
            None => ResolvedWebSocketConfig::from_layers(&WebSocketConfig::new(), config),
        };
        match validate_handshake(self, &rules) {
            Err(rejection) => {
                assert(rejection.headers@.len() == rejection@.headers.len());
                (rejection.into_response(), Admission::NotAsked)
            },
            Ok(protocol) => self.into_websocket_response(rules, protocol, runtime, now),
        }
    }

    /// Opens the WebSocket of a request whose handshake is in order, where the runtime
    /// admits the connection and it can be taken over.
    pub fn into_websocket_response(
        &self,
        config: ResolvedWebSocketConfig,
        protocol: Option<String>,
        runtime: &mut WebSocketRuntimeHandle,
        now: u128,
    ) -> (r: (Response, Admission))
        requires
            self.wf(),
            old(runtime).wf(),
            old(runtime)@.can_count(),
            refused(*self, config@) is None,
        ensures
            final(runtime).wf(),
            opened(
                *self,
                config@,
                opt(protocol),
                old(runtime)@,
                now,
                r.0@,
                r.1,
                final(runtime)@,
            ),
    {
        let route: String = match &self.route_pattern {
            Some(p) => p.clone(),
            None => self.path.clone(),
        };
        let offered: Option<&str> = match &protocol {
            Some(p) => Some(p.as_str()),
            None => None,
        };
        let ghost was = runtime@;
        let id: WebSocketId = match runtime.admit_connection(
            route.as_str(),
            self.remote_addr,
            offered,
            &config,
            now,
        ) {
            Ok(id) => id,
            Err(e) => {
                return (e.into_response(), Admission::Refused(e));
            },
        };
        proof {
            lemma_admitted(was, route@, self.remote_addr, opt(protocol), config@, now);
            law_passed_handshakes_open(*self, config@);
        }
        let response: Response = match Response::websocket(self) {
            Ok(response) => response,
            Err(error) => Response::from_error(error),
        };
        let response: Response = match &protocol {
            Some(p) => {
                proof {
                    lemma_room(response@.headers, 0, "sec-websocket-protocol"@, p@);
                }
                response.header("sec-websocket-protocol", p.as_str())
            },
            None => response,
        };
        if !self.upgrade {
            runtime.release(id);
            return (
                Response::from_error(
                    HttpError::bad_request("La actualizacion WebSocket no esta disponible"),
                ),
                Admission::GivenBack(id),
            );
        }
        let opening: Opening = Opening {
            id,
            config,
            protocol,
            route,
            remote_addr: self.remote_addr,
        };
        (response, Admission::Opened(opening))
    }
}

/// A subprotocol is spoken exactly where it is among those of the server, whatever its case.
pub proof fn law_spoken_subprotocols(protocols: Seq<Seq<char>>, candidate: Seq<char>, i: int)
    ensures
        0 <= i < protocols.len() && lower(protocols[i]) == lower(candidate) ==> is_supported(
            protocols,
            candidate,
        ),
        (forall|j: int|
            0 <= j < protocols.len() ==> lower(#[trigger] protocols[j]) != lower(candidate))
            ==> !is_supported(protocols, candidate),
{
}

/// Of what the client offers the first that is spoken is settled on, in its own order, and
/// in the client's spelling; what is not spoken is passed over.
pub proof fn law_clients_order_decides(
    tokens: Seq<Seq<char>>,
    protocols: Seq<Seq<char>>,
    k: int,
)
    ensures
        0 <= k < tokens.len() && is_supported(protocols, trim(tokens[k])) && (forall|i: int|
            0 <= i < k ==> !is_supported(protocols, trim(#[trigger] tokens[i])))
            ==> first_supported(tokens, protocols) == Some(trim(tokens[k])),
        (forall|i: int|
            0 <= i < tokens.len() ==> !is_supported(protocols, trim(#[trigger] tokens[i])))
            ==> first_supported(tokens, protocols) is None,
    decreases tokens.len(),
{
    if tokens.len() > 0 {
        let d = tokens.drop_last();
        law_clients_order_decides(d, protocols, k);
        assert(tokens[tokens.len() - 1] == tokens.last());
        assert forall|i: int| 0 <= i < d.len() implies #[trigger] d[i] == tokens[i] by {}
        if 0 <= k < d.len() {
            assert(d[k] == tokens[k]);
        }
        if k == tokens.len() - 1 {
            law_clients_order_decides(d, protocols, -1);
            if forall|i: int|
                0 <= i < k ==> !is_supported(protocols, trim(#[trigger] tokens[i])) {
                assert forall|i: int| 0 <= i < d.len() implies !is_supported(
                    protocols,
                    trim(#[trigger] d[i]),
                ) by {
                    assert(d[i] == tokens[i]);
                }
            }
        }
    }
}

/// Headers are gone through one after the other.
pub proof fn law_headers_are_offered_in_order(
    values: Seq<Seq<char>>,
    v: Seq<char>,
    protocols: Seq<Seq<char>>,
)
    ensures
        first_offered(Seq::empty(), protocols) is None,
        first_offered(values.push(v), protocols) == (if first_offered(values, protocols) is Some {
            first_offered(values, protocols)
        } else {
            first_supported(split(v, ','), protocols)
        }),
{
    assert(values.push(v).drop_last() =~= values);
}

/// A handshake passes exactly where it comes over HTTP/1.1 with GET, has one host, both
/// tokens, the one version there is, one key of sixteen bytes, one origin at most that the
/// policy lets in, and a subprotocol where one is required.
pub proof fn law_handshakes_pass_in_full(req: Request, c: ConfigView)
    ensures
        refused(req, c) is None <==> {
            &&& req.version == HttpVersion::Http11
            &&& lower(req.method@) == lower("GET"@)
            &&& req.headers_of("host"@).len() == 1 && trim(req.headers_of("host"@)[0]).len() > 0
            &&& req.has_token("upgrade"@, "websocket"@)
            &&& req.has_token("connection"@, "upgrade"@)
            &&& req.headers_of("sec-websocket-version"@).len() == 1 && trim(
                req.headers_of("sec-websocket-version"@)[0],
            ) == "13"@
            &&& req.headers_of("sec-websocket-key"@).len() == 1 && valid_key(
                req.headers_of("sec-websocket-key"@)[0],
            )
            &&& req.headers_of("origin"@).len() <= 1
            &&& req.headers_of("origin"@).len() == 0 ==> c.origin_policy.allowed_on(
                None,
                trim(req.headers_of("host"@)[0]),
                req.secure_transport,
            )
            &&& req.headers_of("origin"@).len() == 1 ==> c.origin_policy.allowed_on(
                Some(req.headers_of("origin"@)[0]),
                trim(req.headers_of("host"@)[0]),
                req.secure_transport,
            )
            &&& c.require_protocol ==> negotiated(req, c.protocols) is Some
        },
{
}

/// A refused handshake is answered 400, but 403 where only the origin is wrong, and 426 with
/// the version that there is where the version is.
pub proof fn law_refusals_have_their_status(req: Request, c: ConfigView)
    requires
        refused(req, c) is Some,
    ensures
        refused(req, c)->0.status == 400 || refused(req, c)->0.status == 403 || refused(
            req,
            c,
        )->0.status == 426,
        refused(req, c)->0.status == 426 ==> refused(req, c)->0.headers == seq![
            ("sec-websocket-version"@, "13"@),
        ] && req.headers_of("sec-websocket-version"@).len() == 1 && trim(
            req.headers_of("sec-websocket-version"@)[0],
        ) != "13"@,
        refused(req, c)->0.status == 403 ==> !c.origin_policy.allowed_on(
            origin_in(req),
            trim(req.headers_of("host"@)[0]),
            req.secure_transport,
        ),
        refused(req, c)->0.status != 426 ==> refused(req, c)->0.headers.len() == 0,
{
}

/// A WebSocket opens with status 101, both upgrade headers, and what proves that the key
/// was read: the base64 of the digest of the key and a fixed text.
pub proof fn law_openings_prove_that_the_key_was_read(key: Seq<char>)
    ensures
        opening(key).status == 101,
        values_of(opening(key).headers, "upgrade"@) == seq!["websocket"@],
        values_of(opening(key).headers, "connection"@) == seq!["Upgrade"@],
        accept_of(key) == base64_text(
            sha1_bytes(
                encode_utf8(key) + encode_utf8("258EAFA5-E914-47DA-95CA-C5AB0DC85B11"@),
            ),
        ),
{
    reveal_strlit("upgrade");
    reveal_strlit("connection");
    reveal_strlit("sec-websocket-accept");
    reveal_strlit("websocket");
    reveal_strlit("Upgrade");
    crate::response::lemma_plain_name("upgrade"@);
    crate::response::lemma_plain_name("connection"@);
    assert(lower("upgrade"@).len() == 7);
    assert(lower("connection"@).len() == 10);
    assert(lower("sec-websocket-accept"@).len() == 20);
}

/// Connections that are not admitted are answered 503, but 429 with the time to wait where
/// the address has too many.
pub proof fn law_refused_admissions_are_answered(e: AdmissionError)
    ensures
        e == AdmissionError::IpCapacity ==> e.response().status == 429 && values_of(
            e.response().headers,
            "retry-after"@,
        ) == seq!["1"@],
        e != AdmissionError::IpCapacity ==> e.response().status == 503,
        e.response().error is None,
{
    reveal_strlit("retry-after");
    reveal_strlit("1");
    crate::response::lemma_plain_name("retry-after"@);
}

/// Headers of a refusal are set one after the other: the last of one name counts, and
/// nothing else of the response changes.
pub proof fn law_headers_are_set_in_order(
    base: ResponseView,
    headers: Seq<(Seq<char>, Seq<char>)>,
    name: Seq<char>,
    value: Seq<char>,
    other: Seq<char>,
)
    ensures
        with_headers(base, Seq::empty()) == base,
        is_header_name(name) && is_header_value(value) ==> values_of(
            with_headers(base, headers.push((name, value))).headers,
            name,
        ) == seq![value],
        lower(other) != lower(name) ==> values_of(
            with_headers(base, headers.push((name, value))).headers,
            other,
        ) == values_of(with_headers(base, headers).headers, other),
        with_headers(base, headers).status == base.status,
        with_headers(base, headers).body == base.body,
        with_headers(base, headers).error == base.error,
    decreases headers.len(),
{
    assert(headers.push((name, value)).drop_last() =~= headers);
    if headers.len() > 0 {
        law_headers_are_set_in_order(base, headers.drop_last(), name, value, other);
    }
}

/// A connection is on the route whose pattern served the request, and on its path where
/// there was none. The rules that were settled for the route hold.
pub proof fn law_connections_are_on_their_route(req: Request, config: WebSocketConfig)
    ensures
        req.route_pattern matches Some(p) ==> route_of(req) == p@,
        req.route_pattern is None ==> route_of(req) == req.path@,
        req.resolved_websocket_config matches Some(c) ==> rules_of(req, config) == c@,
        req.resolved_websocket_config is None ==> (config.max_message_size matches Some(n)
            ==> rules_of(req, config).max_message_size == n),
        req.resolved_websocket_config is None ==> rules_of(
            req,
            config,
        ).process_max_connections is None,
        req.resolved_websocket_config is None ==> rules_of(req, config).route_max_connections
            == config.max_connections,
{
}

/// A subprotocol that was settled on is told, and none is told where none was.
pub proof fn law_settled_subprotocols_are_told(key: Seq<char>, protocol: Option<Seq<char>>)
    ensures
        protocol matches Some(p) ==> (is_header_value(p) ==> values_of(
            opening_with(key, protocol).headers,
            "sec-websocket-protocol"@,
        ) == seq![p]),
        protocol is None ==> values_of(
            opening_with(key, protocol).headers,
            "sec-websocket-protocol"@,
        ).len() == 0,
        opening_with(key, protocol).status == 101,
        values_of(opening_with(key, protocol).headers, "upgrade"@) == seq!["websocket"@],
        values_of(opening_with(key, protocol).headers, "connection"@) == seq!["Upgrade"@],
{
    law_openings_prove_that_the_key_was_read(key);
    reveal_strlit("sec-websocket-protocol");
    reveal_strlit("upgrade");
    reveal_strlit("connection");
    reveal_strlit("sec-websocket-accept");
    crate::response::lemma_plain_name("sec-websocket-protocol"@);
    assert(lower("sec-websocket-protocol"@).len() == 22);
    assert(lower("upgrade"@).len() == 7);
    assert(lower("connection"@).len() == 10);
    assert(lower("sec-websocket-accept"@).len() == 20);
}

/// Where the handshake passes, the connection opens with the next id and stands in the
/// runtime, or it is refused and only that is counted; where the transport cannot be
/// upgraded it is answered 400.
pub proof fn law_connections_open_or_are_refused(
    req: Request,
    c: ConfigView,
    protocol: Option<Seq<char>>,
    was: RuntimeView,
    now: u128,
    response: ResponseView,
    admission: Admission,
    is: RuntimeView,
)
    requires
        was.can_count(),
        conns_ok(was.conns, was.next_id),
        opened(req, c, protocol, was, now, response, admission, is),
    ensures
        was.refusal(route_of(req), req.remote_addr, c) is Some ==> is.conns == was.conns
            && is.counters.rejected_connections == was.counters.rejected_connections + 1
            && is.counters.accepted_connections == was.counters.accepted_connections && is.next_id
            == was.next_id && (admission matches Admission::Refused(e) && Some(e) == was.refusal(
            route_of(req),
            req.remote_addr,
            c,
        )) && (response.status == 503 || response.status == 429),
        was.refusal(route_of(req), req.remote_addr, c) is None && req.upgrade ==> is.conns.len()
            == was.conns.len() + 1 && is.conns.last().id == was.next_id && is.conns.last().route
            == route_of(req) && is.conns.last().protocol == protocol && response.status == 101 && (
        admission matches Admission::Opened(o) && o.id.0 == was.next_id && o.route@ == route_of(req)
            && opt(o.protocol) == protocol && o.config@ == c && o.remote_addr == req.remote_addr),
        was.refusal(route_of(req), req.remote_addr, c) is None && !req.upgrade ==> response.status
            == 400 && !(admission is Opened) && is.conns == was.conns,
{
    lemma_admitted(was, route_of(req), req.remote_addr, protocol, c, now);
    if let Some(e) = was.refusal(route_of(req), req.remote_addr, c) {
        law_refused_admissions_are_answered(e);
    }
}

/// What a request settles on is found among what its subprotocol headers offer, and where
/// there is such an offer, the first that is spoken is settled on.
pub proof fn law_offers_are_made_in_their_header(
    req: Request,
    protocols: Seq<Seq<char>>,
    value: Seq<char>,
)
    ensures
        req.headers_of("sec-websocket-protocol"@) == seq![value] && first_supported(
            split(value, ','),
            protocols,
        ) is Some ==> negotiated(req, protocols) == first_supported(split(value, ','), protocols),
        req.headers_of("sec-websocket-protocol"@).len() == 0 && req.header_of(
            "sec-websocket-protocol"@,
        ) is None ==> negotiated(req, protocols) is None,
        protocols.len() == 0 ==> negotiated(req, protocols) is None,
        req.headers_of("origin"@).len() == 0 ==> origin_in(req) is None,
        req.headers_of("origin"@).len() > 0 ==> origin_in(req) == Some(req.headers_of("origin"@)[0]),
{
    let none = Seq::<Seq<char>>::empty();
    assert(none.push(value) =~= seq![value]);
    law_headers_are_offered_in_order(none, value, protocols);
    if protocols.len() == 0 {
        lemma_nothing_is_spoken(req.headers_of("sec-websocket-protocol"@), protocols);
        if let Some(v) = req.header_of("sec-websocket-protocol"@) {
            law_clients_order_decides(split(v, ','), protocols, -1);
        }
    }
}

/// Where no subprotocol is spoken, none is settled on.
proof fn lemma_nothing_is_spoken(values: Seq<Seq<char>>, protocols: Seq<Seq<char>>)
    requires
        protocols.len() == 0,
    ensures
        first_offered(values, protocols) is None,
    decreases values.len(),
{
    if values.len() > 0 {
        lemma_nothing_is_spoken(values.drop_last(), protocols);
        law_clients_order_decides(split(values.last(), ','), protocols, -1);
    }
}

/// A refused handshake is told the first thing that is wrong with it.
pub proof fn law_refusals_say_what_is_wrong(req: Request, c: ConfigView)
    requires
        refused(req, c) is Some,
    ensures
        ({
            let why = refused(req, c)->0.message;
            let hosts = req.headers_of("host"@);
            let versions = req.headers_of("sec-websocket-version"@);
            let keys = req.headers_of("sec-websocket-key"@);
            let version = req.version == HttpVersion::Http11;
            let host = version && hosts.len() == 1 && trim(hosts[0]).len() > 0;
            let get = host && lower(req.method@) == lower("GET"@);
            let upgrade = get && req.has_token("upgrade"@, "websocket"@);
            let connection = upgrade && req.has_token("connection"@, "upgrade"@);
            let one = connection && versions.len() == 1;
            let right = one && trim(versions[0]) == "13"@;
            let key = right && keys.len() == 1;
            let sixteen = key && valid_key(keys[0]);
            let origin = sixteen && req.headers_of("origin"@).len() <= 1;
            &&& !version ==> why == "La actualizacion WebSocket requiere HTTP/1.1"@
            &&& version && !host ==> why
                == "La cabecera Host debe aparecer exactamente una vez y no estar vacia"@
            &&& host && !get ==> why == "La actualizacion WebSocket requiere el metodo GET"@
            &&& get && !upgrade ==> why == "La cabecera Upgrade debe incluir websocket"@
            &&& upgrade && !connection ==> why == "La cabecera Connection debe incluir Upgrade"@
            &&& connection && !one ==> why
                == "Sec-WebSocket-Version debe aparecer exactamente una vez"@
            &&& one && !right ==> why == "La version WebSocket debe ser 13"@
            &&& right && !key ==> why == "Sec-WebSocket-Key debe aparecer exactamente una vez"@
            &&& key && !sixteen ==> why == "Sec-WebSocket-Key debe codificar exactamente 16 bytes"@
            &&& sixteen && !origin ==> why == "La cabecera Origin no puede aparecer mas de una vez"@
            &&& origin ==> why == "El origen WebSocket no esta permitido"@ || why
                == "Se requiere un subprotocolo WebSocket compatible"@
            &&& origin && (!c.require_protocol || negotiated(req, c.protocols) is Some) ==> why
                == "El origen WebSocket no esta permitido"@ && refused(req, c)->0.status == 403
        }),
{
}

} // verus!
