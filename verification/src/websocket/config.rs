//! Configuration of WebSocket connections, in layers: a route's own values, the
//! application's values, and bounded defaults.

use vstd::prelude::*;

use super::error::WsError;
use crate::text::{
    chars, copy_texts, decimal, find_char, first_index, has_char, lower, own_texts, same,
    same_ignoring_case, str_views, to_lower, views,
};
use crate::time::Duration;
use crate::uri::{
    authority_host, authority_port, authority_text, parse_uri, parsed_uri, port_number,
    AuthorityParts, UriParts,
};

verus! {

pub const DEFAULT_MAX_MESSAGE_SIZE: usize = 16_777_216;

pub const DEFAULT_MAX_FRAME_SIZE: usize = 4_194_304;

pub const DEFAULT_WRITE_BUFFER_SIZE: usize = 131_072;

pub const DEFAULT_MAX_WRITE_BUFFER_SIZE: usize = 1_048_576;

pub const DEFAULT_CHANNEL_CAPACITY: usize = 64;

pub const DEFAULT_MAX_ROOMS: usize = 32;

pub const DEFAULT_MAX_ROOM_NAME_BYTES: usize = 128;

/// Five seconds.
pub const DEFAULT_SEND_NANOS: u128 = 5_000_000_000;

/// Ten seconds.
pub const DEFAULT_PONG_NANOS: u128 = 10_000_000_000;

/// Five seconds.
pub const DEFAULT_CLOSE_NANOS: u128 = 5_000_000_000;

/// What happens to a message for which the outbound queue has no room.
#[derive(Clone, Copy, Debug, PartialEq, Eq, Structural)]
pub enum BackpressurePolicy {
    Wait,
    Reject,
    Disconnect,
}

impl Default for BackpressurePolicy {
    fn default() -> (r: Self)
        ensures
            r == BackpressurePolicy::Wait,
    {
        BackpressurePolicy::Wait
    }
}

/// Which origins may open a connection, and whether one without an origin may.
#[derive(Clone, Debug)]
pub enum OriginPolicy {
    Any { allow_missing: bool },
    SameHost { allow_missing: bool },
    AllowList { origins: Vec<String>, allow_missing: bool },
}

/// A policy as contracts speak of it.
#[verifier::ext_equal]
pub enum OriginPolicyView {
    Any { allow_missing: bool },
    SameHost { allow_missing: bool },
    AllowList { origins: Seq<Seq<char>>, allow_missing: bool },
}

impl View for OriginPolicy {
    type V = OriginPolicyView;

    open spec fn view(&self) -> OriginPolicyView {
        match *self {
            OriginPolicy::Any { allow_missing } => OriginPolicyView::Any { allow_missing },
            OriginPolicy::SameHost { allow_missing } => OriginPolicyView::SameHost {
                allow_missing,
            },
            OriginPolicy::AllowList { origins, allow_missing } => OriginPolicyView::AllowList {
                origins: views(origins@),
                allow_missing,
            },
        }
    }
}

/// The schemes that an origin can have.
#[derive(Clone, Copy, Debug, PartialEq, Eq, Structural)]
pub enum OriginScheme {
    Http,
    Https,
    Ws,
    Wss,
}

/// The scheme that a text names, whatever the case of its letters.
pub open spec fn scheme_named(value: Seq<char>) -> Option<OriginScheme> {
    if lower(value) == lower("http"@) {
        Some(OriginScheme::Http)
    } else if lower(value) == lower("https"@) {
        Some(OriginScheme::Https)
    } else if lower(value) == lower("ws"@) {
        Some(OriginScheme::Ws)
    } else if lower(value) == lower("wss"@) {
        Some(OriginScheme::Wss)
    } else {
        None
    }
}

impl OriginScheme {
    /// The port of the scheme where an authority names none.
    pub open spec fn spec_default_port(self) -> u16 {
        match self {
            OriginScheme::Http | OriginScheme::Ws => 80,
            OriginScheme::Https | OriginScheme::Wss => 443,
        }
    }

    /// The scheme that a text names.
    pub fn parse(value: &str) -> (r: Option<OriginScheme>)
        ensures
            r == scheme_named(value@),
    {
        if same_ignoring_case(value, "http") {
            Some(OriginScheme::Http)
        } else if same_ignoring_case(value, "https") {
            Some(OriginScheme::Https)
        } else if same_ignoring_case(value, "ws") {
            Some(OriginScheme::Ws)
        } else if same_ignoring_case(value, "wss") {
            Some(OriginScheme::Wss)
        } else {
            None
        }
    }

    /// The port of the scheme where an authority names none.
    pub fn default_port(self) -> (r: u16)
        ensures
            r == self.spec_default_port(),
    {
        match self {
            OriginScheme::Http | OriginScheme::Ws => 80,
            OriginScheme::Https | OriginScheme::Wss => 443,
        }
    }
}

/// An origin in one spelling: lower case host, explicit port.
#[derive(Debug)]
pub struct NormalizedOrigin {
    pub scheme: OriginScheme,
    pub host: String,
    pub port: u16,
}

/// An origin as contracts speak of it.
#[verifier::ext_equal]
pub struct OriginView {
    pub scheme: OriginScheme,
    pub host: Seq<char>,
    pub port: nat,
}

impl View for NormalizedOrigin {
    type V = OriginView;

    open spec fn view(&self) -> OriginView {
        OriginView { scheme: self.scheme, host: self.host@, port: self.port as nat }
    }
}

/// Whether an authority writes something where its port stands.
pub open spec fn has_explicit_port(text: Seq<char>) -> bool {
    if text.len() > 0 && text[0] == '[' {
        first_index(text, ']') + 1 < text.len()
    } else {
        text.contains(':')
    }
}

/// The port of an authority, or the default where it writes none. A port that is no
/// number has no value.
pub open spec fn port_of(text: Seq<char>, port: Option<nat>, default_port: nat) -> Option<nat> {
    match port {
        Some(p) => Some(p),
        None => if has_explicit_port(text) {
            None
        } else {
            Some(default_port)
        },
    }
}

/// The host and the port of a URI without user information, path or query.
pub open spec fn host_and_port(
    authority: Option<Seq<char>>,
    host: Seq<char>,
    port: Option<nat>,
    path_and_query: Option<Seq<char>>,
    default_port: nat,
) -> Option<(Seq<char>, nat)> {
    match authority {
        Some(text) => if text.contains('@') || (path_and_query matches Some(p) && p != "/"@)
            || host.len() == 0 {
            None
        } else {
            match port_of(text, port, default_port) {
                Some(n) => Some((lower(host), n)),
                None => None,
            }
        },
        None => None,
    }
}

/// The host of an optional authority.
pub open spec fn host_text(a: Option<AuthorityParts>) -> Seq<char> {
    match a {
        Some(p) => p.host@,
        None => Seq::empty(),
    }
}

/// The port of an optional authority.
pub open spec fn port_in(a: Option<AuthorityParts>) -> Option<nat> {
    match a {
        Some(p) => port_number(p.port),
        None => None,
    }
}

/// The origin that the parts of a URI make up.
pub open spec fn origin_of_parts(parts: Option<UriParts>) -> Option<OriginView> {
    match parts {
        Some(p) => match p.scheme {
            Some(s) => match scheme_named(s@) {
                Some(scheme) => match host_and_port(
                    authority_text(p.authority),
                    host_text(p.authority),
                    port_in(p.authority),
                    crate::text::opt(p.path_and_query),
                    scheme.spec_default_port() as nat,
                ) {
                    Some((host, port)) => Some(OriginView { scheme, host, port }),
                    None => None,
                },
                None => None,
            },
            None => None,
        },
        None => None,
    }
}

/// The origin that a text spells.
pub open spec fn origin_of(text: Seq<char>) -> Option<OriginView> {
    match parsed_uri(text) {
        Some((Some(s), Some(a), pq)) => match scheme_named(s) {
            Some(scheme) => match host_and_port(
                Some(a),
                authority_host(a),
                authority_port(a),
                pq,
                scheme.spec_default_port() as nat,
            ) {
                Some((host, port)) => Some(OriginView { scheme, host, port }),
                None => None,
            },
            None => None,
        },
        _ => None,
    }
}

/// The host and the port that a `Host` header names.
pub open spec fn host_of(host: Seq<char>, default_port: nat) -> Option<(Seq<char>, nat)> {
    match parsed_uri("http://"@ + host) {
        Some((_, Some(a), pq)) => host_and_port(
            Some(a),
            authority_host(a),
            authority_port(a),
            pq,
            default_port,
        ),
        _ => None,
    }
}

/// The port of an authority, or the default where it writes none.
pub fn effective_port(authority: &AuthorityParts, default_port: u16) -> (r: Option<u16>)
    ensures
        port_number(r) == port_of(
            authority.text@,
            port_number(authority.port),
            default_port as nat,
        ),
{
    if let Some(port) = authority.port {
        return Some(port);
    }
    let raw: Vec<char> = chars(authority.text.as_str());
    let explicit: bool = if raw.len() > 0 && raw[0] == '[' {
        let end: usize = find_char(&raw, ']', 0);
        assert(raw@.skip(0) =~= raw@);
        end < raw.len() && end + 1 < raw.len()
    } else {
        has_char(authority.text.as_str(), ':')
    };
    if explicit {
        None
    } else {
        Some(default_port)
    }
}

/// The host and the port of a URI without user information, path or query.
pub fn plain_host(parts: &UriParts, default_port: u16) -> (r: Option<(String, u16)>)
    ensures
        match r {
            Some(p) => host_and_port(
                authority_text(parts.authority),
                host_text(parts.authority),
                port_in(parts.authority),
                crate::text::opt(parts.path_and_query),
                default_port as nat,
            ) == Some((p.0@, p.1 as nat)),
            None => host_and_port(
                authority_text(parts.authority),
                host_text(parts.authority),
                port_in(parts.authority),
                crate::text::opt(parts.path_and_query),
                default_port as nat,
            ) is None,
        },
{
    match &parts.authority {
        None => None,
        Some(authority) => {
            if has_char(authority.text.as_str(), '@') {
                return None;
            }
            if let Some(path) = &parts.path_and_query {
                if !same(path.as_str(), "/") {
                    return None;
                }
            }
            if authority.host.as_str().is_empty() {
                return None;
            }
            match effective_port(authority, default_port) {
                Some(port) => Some((to_lower(authority.host.as_str()), port)),
                None => None,
            }
        },
    }
}

/// The host and the port that a `Host` header names.
pub fn normalize_host(host: &str, default_port: u16) -> (r: Option<(String, u16)>)
    ensures
        match r {
            Some(p) => host_of(host@, default_port as nat) == Some((p.0@, p.1 as nat)),
            None => host_of(host@, default_port as nat) is None,
        },
{
    let text: String = "http://".to_owned().concat(host);
    match parse_uri(text.as_str()) {
        Some(parts) => plain_host(&parts, default_port),
        None => None,
    }
}

impl NormalizedOrigin {
    /// The origin that the parts of a URI make up.
    pub fn from_parts(parts: &Option<UriParts>) -> (r: Option<NormalizedOrigin>)
        ensures
            match r {
                Some(o) => origin_of_parts(*parts) == Some(o@),
                None => origin_of_parts(*parts) is None,
            },
    {
        match parts {
            None => None,
            Some(p) => match &p.scheme {
                None => None,
                Some(s) => match OriginScheme::parse(s.as_str()) {
                    None => None,
                    Some(scheme) => match plain_host(p, scheme.default_port()) {
                        None => None,
                        Some((host, port)) => Some(NormalizedOrigin { scheme, host, port }),
                    },
                },
            },
        }
    }

    /// The origin that a text spells.
    pub fn parse(value: &str) -> (r: Option<NormalizedOrigin>)
        ensures
            match r {
                Some(o) => origin_of(value@) == Some(o@),
                None => origin_of(value@) is None,
            },
    {
        let parts: Option<UriParts> = parse_uri(value);
        NormalizedOrigin::from_parts(&parts)
    }

    /// Whether two origins are the same.
    pub fn is(&self, other: &NormalizedOrigin) -> (r: bool)
        ensures
            r == (self@ == other@),
    {
        self.scheme == other.scheme && same(self.host.as_str(), other.host.as_str()) && self.port
            == other.port
    }
}

impl OriginPolicyView {
    /// Whether a connection without an origin may be opened.
    pub open spec fn missing_allowed(self) -> bool {
        match self {
            OriginPolicyView::Any { allow_missing } => allow_missing,
            OriginPolicyView::SameHost { allow_missing } => allow_missing,
            OriginPolicyView::AllowList { allow_missing, .. } => allow_missing,
        }
    }

    /// The policy with another rule for connections without an origin.
    pub open spec fn with_missing(self, allow: bool) -> OriginPolicyView {
        match self {
            OriginPolicyView::Any { .. } => OriginPolicyView::Any { allow_missing: allow },
            OriginPolicyView::SameHost { .. } => OriginPolicyView::SameHost {
                allow_missing: allow,
            },
            OriginPolicyView::AllowList { origins, .. } => OriginPolicyView::AllowList {
                origins,
                allow_missing: allow,
            },
        }
    }

    /// Whether `origin` may open a connection to the host that `host` names.
    pub open spec fn admits(
        self,
        origin: OriginView,
        host: Option<(Seq<char>, nat)>,
    ) -> bool {
        match self {
            OriginPolicyView::Any { .. } => true,
            OriginPolicyView::SameHost { .. } => host == Some((origin.host, origin.port)),
            OriginPolicyView::AllowList { origins, .. } => exists|i: int|
                0 <= i < origins.len() && #[trigger] origin_of(origins[i]) == Some(origin),
        }
    }

    /// Whether a connection may be opened where the host's port defaults to the
    /// origin's own.
    pub open spec fn allowed(self, origin: Option<Seq<char>>, host: Seq<char>) -> bool {
        match origin {
            None => self.missing_allowed(),
            Some(text) => match origin_of(text) {
                None => false,
                Some(o) => self.admits(o, host_of(host, o.scheme.spec_default_port() as nat)),
            },
        }
    }

    /// Whether a connection may be opened where the host's port defaults to that of
    /// the transport.
    pub open spec fn allowed_on(
        self,
        origin: Option<Seq<char>>,
        host: Seq<char>,
        secure: bool,
    ) -> bool {
        match origin {
            None => self.missing_allowed(),
            Some(text) => match origin_of(text) {
                None => false,
                Some(o) => self.admits(
                    o,
                    host_of(
                        host,
                        if secure {
                            443
                        } else {
                            80
                        },
                    ),
                ),
            },
        }
    }

    /// Whether every origin of an allow list spells one.
    pub open spec fn valid(self) -> bool {
        match self {
            OriginPolicyView::AllowList { origins, .. } => forall|i: int|
                0 <= i < origins.len() ==> #[trigger] origin_of(origins[i]) is Some,
            _ => true,
        }
    }
}

/// The view of an optional string slice.
pub open spec fn str_opt(s: Option<&str>) -> Option<Seq<char>> {
    match s {
        Some(t) => Some(t@),
        None => None,
    }
}

impl OriginPolicy {
    /// Every origin, and connections without one.
    pub fn any() -> (r: OriginPolicy)
        ensures
            r@ == (OriginPolicyView::Any { allow_missing: true }),
    {
        OriginPolicy::Any { allow_missing: true }
    }

    /// The host's own origin, and connections without one.
    pub fn same_host() -> (r: OriginPolicy)
        ensures
            r@ == (OriginPolicyView::SameHost { allow_missing: true }),
    {
        OriginPolicy::SameHost { allow_missing: true }
    }

    /// The listed origins, and connections without one.
    pub fn allow(origins: &[&str]) -> (r: OriginPolicy)
        ensures
            r@ == (OriginPolicyView::AllowList {
                origins: str_views(origins@),
                allow_missing: true,
            }),
    {
        OriginPolicy::AllowList { origins: own_texts(origins), allow_missing: true }
    }

    /// The policy with another rule for connections without an origin.
    pub fn allow_missing(self, allow_missing: bool) -> (r: OriginPolicy)
        ensures
            r@ == self@.with_missing(allow_missing),
    {
        match self {
            OriginPolicy::Any { .. } => OriginPolicy::Any { allow_missing },
            OriginPolicy::SameHost { .. } => OriginPolicy::SameHost { allow_missing },
            OriginPolicy::AllowList { origins, .. } => OriginPolicy::AllowList {
                origins,
                allow_missing,
            },
        }
    }

    /// A copy of the policy.
    pub fn copy(&self) -> (r: OriginPolicy)
        ensures
            r@ == self@,
    {
        match self {
            OriginPolicy::Any { allow_missing } => OriginPolicy::Any {
                allow_missing: *allow_missing,
            },
            OriginPolicy::SameHost { allow_missing } => OriginPolicy::SameHost {
                allow_missing: *allow_missing,
            },
            OriginPolicy::AllowList { origins, allow_missing } => OriginPolicy::AllowList {
                origins: copy_texts(origins),
                allow_missing: *allow_missing,
            },
        }
    }

    /// Whether a connection without an origin may be opened.
    pub fn allows_missing(&self) -> (r: bool)
        ensures
            r == self@.missing_allowed(),
    {
        match self {
            OriginPolicy::Any { allow_missing } => *allow_missing,
            OriginPolicy::SameHost { allow_missing } => *allow_missing,
            OriginPolicy::AllowList { allow_missing, .. } => *allow_missing,
        }
    }

    /// Whether `origin` may open a connection to `host`.
    pub fn allows_normalized(
        &self,
        origin: NormalizedOrigin,
        host: &str,
        host_default_port: u16,
    ) -> (r: bool)
        ensures
            r == self@.admits(origin@, host_of(host@, host_default_port as nat)),
    {
        match self {
            OriginPolicy::Any { .. } => true,
            OriginPolicy::SameHost { .. } => match normalize_host(host, host_default_port) {
                Some((expected_host, expected_port)) => same(
                    expected_host.as_str(),
                    origin.host.as_str(),
                ) && expected_port == origin.port,
                None => false,
            },
            OriginPolicy::AllowList { origins, .. } => {
                let mut i: usize = 0;
                while i < origins.len()
                    invariant
                        i <= origins.len(),
                        self@ is AllowList,
                        self@->origins == views(origins@),
                        forall|j: int|
                            0 <= j < i ==> #[trigger] origin_of(views(origins@)[j]) != Some(
                                origin@,
                            ),
                    decreases origins.len() - i,
                {
                    assert(views(origins@)[i as int] == origins@[i as int]@);
                    if let Some(allowed) = NormalizedOrigin::parse(origins[i].as_str()) {
                        if allowed.is(&origin) {
                            return true;
                        }
                    }
                    i += 1;
                }
                false
            },
        }
    }

    /// Whether `origin` may open a connection to `host`, whose port defaults to that
    /// of the origin's scheme.
    pub fn allows(&self, origin: Option<&str>, host: &str) -> (r: bool)
        ensures
            r == self@.allowed(str_opt(origin), host@),
    {
        match origin {
            None => self.allows_missing(),
            Some(text) => match NormalizedOrigin::parse(text) {
                None => false,
                Some(o) => {
                    let port: u16 = o.scheme.default_port();
                    self.allows_normalized(o, host, port)
                },
            },
        }
    }

    /// Whether `origin` may open a connection to `host`, whose port defaults to that
    /// of the transport.
    pub fn allows_for_transport(
        &self,
        origin: Option<&str>,
        host: &str,
        secure_transport: bool,
    ) -> (r: bool)
        ensures
            r == self@.allowed_on(str_opt(origin), host@, secure_transport),
    {
        match origin {
            None => self.allows_missing(),
            Some(text) => match NormalizedOrigin::parse(text) {
                None => false,
                Some(o) => {
                    let port: u16 = if secure_transport {
                        443
                    } else {
                        80
                    };
                    self.allows_normalized(o, host, port)
                },
            },
        }
    }

    /// Whether every origin of an allow list spells one.
    pub fn is_valid(&self) -> (r: bool)
        ensures
            r == self@.valid(),
    {
        match self {
            OriginPolicy::AllowList { origins, .. } => {
                let mut i: usize = 0;
                while i < origins.len()
                    invariant
                        i <= origins.len(),
                        self@ is AllowList,
                        self@->origins == views(origins@),
                        forall|j: int|
                            0 <= j < i ==> #[trigger] origin_of(views(origins@)[j]) is Some,
                    decreases origins.len() - i,
                {
                    assert(views(origins@)[i as int] == origins@[i as int]@);
                    if NormalizedOrigin::parse(origins[i].as_str()).is_none() {
                        assert(origin_of(views(origins@)[i as int]) is None);
                        return false;
                    }
                    i += 1;
                }
                true
            },
            _ => true,
        }
    }
}


/// How many application messages a connection may send within an interval.
#[derive(Clone, Copy, Debug, PartialEq, Eq, Structural)]
pub struct MessageRateLimit {
    pub max_messages: u32,
    pub interval: Duration,
}

/// Overrides of the WebSocket configuration. A value that is not set comes from the
/// application's layer, and then from bounded defaults.
#[derive(Clone, Debug)]
pub struct WebSocketConfig {
    pub protocols: Option<Vec<String>>,
    pub origin_policy: Option<OriginPolicy>,
    pub require_protocol: Option<bool>,
    pub max_message_size: Option<usize>,
    pub max_frame_size: Option<usize>,
    pub write_buffer_size: Option<usize>,
    pub max_write_buffer_size: Option<usize>,
    pub inbound_capacity: Option<usize>,
    pub outbound_capacity: Option<usize>,
    pub backpressure_policy: Option<BackpressurePolicy>,
    pub send_timeout: Option<Duration>,
    pub ping_interval: Option<Option<Duration>>,
    pub pong_timeout: Option<Duration>,
    pub idle_timeout: Option<Option<Duration>>,
    pub max_connection_lifetime: Option<Option<Duration>>,
    pub close_timeout: Option<Duration>,
    pub max_connections: Option<usize>,
    pub max_connections_per_ip: Option<Option<usize>>,
    pub message_rate_limit: Option<Option<MessageRateLimit>>,
    pub max_rooms_per_connection: Option<usize>,
    pub max_room_name_bytes: Option<usize>,
}

/// The protocols of an optional list.
pub open spec fn protocols_view(p: Option<Vec<String>>) -> Option<Seq<Seq<char>>> {
    match p {
        Some(list) => Some(views(list@)),
        None => None,
    }
}

/// The view of an optional policy.
pub open spec fn policy_view(p: Option<OriginPolicy>) -> Option<OriginPolicyView> {
    match p {
        Some(policy) => Some(policy@),
        None => None,
    }
}

impl WebSocketConfig {
    /// The configuration that sets nothing.
    pub open spec fn blank() -> WebSocketConfig {
        WebSocketConfig {
            protocols: None,
            origin_policy: None,
            require_protocol: None,
            max_message_size: None,
            max_frame_size: None,
            write_buffer_size: None,
            max_write_buffer_size: None,
            inbound_capacity: None,
            outbound_capacity: None,
            backpressure_policy: None,
            send_timeout: None,
            ping_interval: None,
            pong_timeout: None,
            idle_timeout: None,
            max_connection_lifetime: None,
            close_timeout: None,
            max_connections: None,
            max_connections_per_ip: None,
            message_rate_limit: None,
            max_rooms_per_connection: None,
            max_room_name_bytes: None,
        }
    }

    /// A configuration that sets nothing.
    pub fn new() -> (r: WebSocketConfig)
        ensures
            r == WebSocketConfig::blank(),
    {
        WebSocketConfig {
            protocols: None,
            origin_policy: None,
            require_protocol: None,
            max_message_size: None,
            max_frame_size: None,
            write_buffer_size: None,
            max_write_buffer_size: None,
            inbound_capacity: None,
            outbound_capacity: None,
            backpressure_policy: None,
            send_timeout: None,
            ping_interval: None,
            pong_timeout: None,
            idle_timeout: None,
            max_connection_lifetime: None,
            close_timeout: None,
            max_connections: None,
            max_connections_per_ip: None,
            message_rate_limit: None,
            max_rooms_per_connection: None,
            max_room_name_bytes: None,
        }
    }

    /// The subprotocols that the server supports.
    pub fn protocols(self, protocols: &[&str]) -> (r: WebSocketConfig)
        ensures
            protocols_view(r.protocols) == Some(str_views(protocols@)),
            r == (WebSocketConfig { protocols: r.protocols, ..self }),
    {
        WebSocketConfig { protocols: Some(own_texts(protocols)), ..self }
    }

    /// Which origins may open a connection.
    pub fn origin_policy(self, policy: OriginPolicy) -> (r: WebSocketConfig)
        ensures
            r == (WebSocketConfig { origin_policy: Some(policy), ..self }),
    {
        WebSocketConfig { origin_policy: Some(policy), ..self }
    }

    /// Whether a client has to offer a supported subprotocol.
    pub fn require_protocol(self, require: bool) -> (r: WebSocketConfig)
        ensures
            r == (WebSocketConfig { require_protocol: Some(require), ..self }),
    {
        WebSocketConfig { require_protocol: Some(require), ..self }
    }

    /// Caps the size of incoming messages; larger ones close the connection.
    pub fn max_message_size(self, bytes: usize) -> (r: WebSocketConfig)
        ensures
            r == (WebSocketConfig { max_message_size: Some(bytes), ..self }),
    {
        WebSocketConfig { max_message_size: Some(bytes), ..self }
    }

    /// Caps the size of incoming frames.
    pub fn max_frame_size(self, bytes: usize) -> (r: WebSocketConfig)
        ensures
            r == (WebSocketConfig { max_frame_size: Some(bytes), ..self }),
    {
        WebSocketConfig { max_frame_size: Some(bytes), ..self }
    }

    /// How many bytes are buffered before they are written.
    pub fn write_buffer_size(self, bytes: usize) -> (r: WebSocketConfig)
        ensures
            r == (WebSocketConfig { write_buffer_size: Some(bytes), ..self }),
    {
        WebSocketConfig { write_buffer_size: Some(bytes), ..self }
    }

    /// Caps the write buffer.
    pub fn max_write_buffer_size(self, bytes: usize) -> (r: WebSocketConfig)
        ensures
            r == (WebSocketConfig { max_write_buffer_size: Some(bytes), ..self }),
    {
        WebSocketConfig { max_write_buffer_size: Some(bytes), ..self }
    }

    /// How many incoming messages wait for the handler.
    pub fn inbound_capacity(self, capacity: usize) -> (r: WebSocketConfig)
        ensures
            r == (WebSocketConfig { inbound_capacity: Some(capacity), ..self }),
    {
        WebSocketConfig { inbound_capacity: Some(capacity), ..self }
    }

    /// How many outgoing messages wait for the transport.
    pub fn outbound_capacity(self, capacity: usize) -> (r: WebSocketConfig)
        ensures
            r == (WebSocketConfig { outbound_capacity: Some(capacity), ..self }),
    {
        WebSocketConfig { outbound_capacity: Some(capacity), ..self }
    }

    /// What happens to a message for which the outbound queue has no room.
    pub fn backpressure_policy(self, policy: BackpressurePolicy) -> (r: WebSocketConfig)
        ensures
            r == (WebSocketConfig { backpressure_policy: Some(policy), ..self }),
    {
        WebSocketConfig { backpressure_policy: Some(policy), ..self }
    }

    /// How long a message waits for room in a queue.
    pub fn send_timeout(self, timeout: Duration) -> (r: WebSocketConfig)
        ensures
            r == (WebSocketConfig { send_timeout: Some(timeout), ..self }),
    {
        WebSocketConfig { send_timeout: Some(timeout), ..self }
    }

    /// Sends a Ping whenever nothing has come in for `interval`.
    pub fn ping_interval(self, interval: Duration) -> (r: WebSocketConfig)
        ensures
            r == (WebSocketConfig { ping_interval: Some(Some(interval)), ..self }),
    {
        WebSocketConfig { ping_interval: Some(Some(interval)), ..self }
    }

    /// Sends no Ping of its own accord.
    pub fn disable_ping(self) -> (r: WebSocketConfig)
        ensures
            r == (WebSocketConfig { ping_interval: Some(None), ..self }),
    {
        WebSocketConfig { ping_interval: Some(None), ..self }
    }

    /// How long a Ping waits for its Pong.
    pub fn pong_timeout(self, timeout: Duration) -> (r: WebSocketConfig)
        ensures
            r == (WebSocketConfig { pong_timeout: Some(timeout), ..self }),
    {
        WebSocketConfig { pong_timeout: Some(timeout), ..self }
    }

    /// Closes a connection without application messages for `timeout`.
    pub fn idle_timeout(self, timeout: Duration) -> (r: WebSocketConfig)
        ensures
            r == (WebSocketConfig { idle_timeout: Some(Some(timeout)), ..self }),
    {
        WebSocketConfig { idle_timeout: Some(Some(timeout)), ..self }
    }

    /// Closes no connection for being idle.
    pub fn disable_idle_timeout(self) -> (r: WebSocketConfig)
        ensures
            r == (WebSocketConfig { idle_timeout: Some(None), ..self }),
    {
        WebSocketConfig { idle_timeout: Some(None), ..self }
    }

    /// Closes a connection `lifetime` after it was opened.
    pub fn max_connection_lifetime(self, lifetime: Duration) -> (r: WebSocketConfig)
        ensures
            r == (WebSocketConfig { max_connection_lifetime: Some(Some(lifetime)), ..self }),
    {
        WebSocketConfig { max_connection_lifetime: Some(Some(lifetime)), ..self }
    }

    /// Closes no connection for its age.
    pub fn disable_max_connection_lifetime(self) -> (r: WebSocketConfig)
        ensures
            r == (WebSocketConfig { max_connection_lifetime: Some(None), ..self }),
    {
        WebSocketConfig { max_connection_lifetime: Some(None), ..self }
    }

    /// How long a connection waits for the peer's Close.
    pub fn close_timeout(self, timeout: Duration) -> (r: WebSocketConfig)
        ensures
            r == (WebSocketConfig { close_timeout: Some(timeout), ..self }),
    {
        WebSocketConfig { close_timeout: Some(timeout), ..self }
    }

    /// Caps the connections: of the process where the application sets it, of the route where a route does.
    pub fn max_connections(self, max_connections: usize) -> (r: WebSocketConfig)
        ensures
            r == (WebSocketConfig { max_connections: Some(max_connections), ..self }),
    {
        WebSocketConfig { max_connections: Some(max_connections), ..self }
    }

    /// Caps the connections from one IP address.
    pub fn max_connections_per_ip(self, max_connections: usize) -> (r: WebSocketConfig)
        ensures
            r == (WebSocketConfig { max_connections_per_ip: Some(Some(max_connections)), ..self }),
    {
        WebSocketConfig { max_connections_per_ip: Some(Some(max_connections)), ..self }
    }

    /// Does not cap the connections from one IP address.
    pub fn disable_max_connections_per_ip(self) -> (r: WebSocketConfig)
        ensures
            r == (WebSocketConfig { max_connections_per_ip: Some(None), ..self }),
    {
        WebSocketConfig { max_connections_per_ip: Some(None), ..self }
    }

    /// Caps the application messages within an interval.
    pub fn message_rate_limit(self, max_messages: u32, interval: Duration) -> (r: WebSocketConfig)
        ensures
            r == (WebSocketConfig {
                message_rate_limit: Some(Some(MessageRateLimit { max_messages, interval })),
                ..self
            }),
    {
        WebSocketConfig {
            message_rate_limit: Some(Some(MessageRateLimit { max_messages, interval })),
            ..self
        }
    }

    /// Does not cap the application messages.
    pub fn disable_message_rate_limit(self) -> (r: WebSocketConfig)
        ensures
            r == (WebSocketConfig { message_rate_limit: Some(None), ..self }),
    {
        WebSocketConfig { message_rate_limit: Some(None), ..self }
    }

    /// Caps the rooms that one connection is in.
    pub fn max_rooms_per_connection(self, max_rooms: usize) -> (r: WebSocketConfig)
        ensures
            r == (WebSocketConfig { max_rooms_per_connection: Some(max_rooms), ..self }),
    {
        WebSocketConfig { max_rooms_per_connection: Some(max_rooms), ..self }
    }

    /// Caps the length of a room's name, in bytes.
    pub fn max_room_name_bytes(self, max_bytes: usize) -> (r: WebSocketConfig)
        ensures
            r == (WebSocketConfig { max_room_name_bytes: Some(max_bytes), ..self }),
    {
        WebSocketConfig { max_room_name_bytes: Some(max_bytes), ..self }
    }

    /// Checks the configuration as it applies with no other layer.
    pub fn validate(&self) -> (r: Result<(), WsError>)
        ensures
            says(r, resolved(WebSocketConfig::blank(), *self).fault()),
    {
        let app: WebSocketConfig = WebSocketConfig::new();
        let config: ResolvedWebSocketConfig = ResolvedWebSocketConfig::from_layers(&app, self);
        config.validate()
    }
}

impl Default for WebSocketConfig {
    fn default() -> (r: Self)
        ensures
            r == WebSocketConfig::blank(),
    {
        WebSocketConfig::new()
    }
}

/// The value of the route's layer, or of the application's, or the default.
pub open spec fn layered<T>(route: Option<T>, app: Option<T>, default: T) -> T {
    match route {
        Some(v) => v,
        None => match app {
            Some(v) => v,
            None => default,
        },
    }
}

/// The value of the route's layer, or of the application's, or the default.
pub fn pick<T: Copy>(route: Option<T>, app: Option<T>, default: T) -> (r: T)
    ensures
        r == layered(route, app, default),
{
    match route {
        Some(v) => v,
        None => match app {
            Some(v) => v,
            None => default,
        },
    }
}

/// A configuration with every value settled.
#[derive(Clone, Debug)]
pub struct ResolvedWebSocketConfig {
    pub protocols: Vec<String>,
    pub origin_policy: OriginPolicy,
    pub require_protocol: bool,
    pub max_message_size: usize,
    pub max_frame_size: usize,
    pub write_buffer_size: usize,
    pub max_write_buffer_size: usize,
    pub inbound_capacity: usize,
    pub outbound_capacity: usize,
    pub backpressure_policy: BackpressurePolicy,
    pub send_timeout: Duration,
    pub ping_interval: Option<Duration>,
    pub pong_timeout: Duration,
    pub idle_timeout: Option<Duration>,
    pub max_connection_lifetime: Option<Duration>,
    pub close_timeout: Duration,
    pub max_connections_per_ip: Option<usize>,
    pub message_rate_limit: Option<MessageRateLimit>,
    pub max_rooms_per_connection: usize,
    pub max_room_name_bytes: usize,
    pub process_max_connections: Option<usize>,
    pub route_max_connections: Option<usize>,
}

/// A settled configuration as contracts speak of it.
#[verifier::ext_equal]
pub struct ConfigView {
    pub protocols: Seq<Seq<char>>,
    pub origin_policy: OriginPolicyView,
    pub require_protocol: bool,
    pub max_message_size: usize,
    pub max_frame_size: usize,
    pub write_buffer_size: usize,
    pub max_write_buffer_size: usize,
    pub inbound_capacity: usize,
    pub outbound_capacity: usize,
    pub backpressure_policy: BackpressurePolicy,
    pub send_timeout: Duration,
    pub ping_interval: Option<Duration>,
    pub pong_timeout: Duration,
    pub idle_timeout: Option<Duration>,
    pub max_connection_lifetime: Option<Duration>,
    pub close_timeout: Duration,
    pub max_connections_per_ip: Option<usize>,
    pub message_rate_limit: Option<MessageRateLimit>,
    pub max_rooms_per_connection: usize,
    pub max_room_name_bytes: usize,
    pub process_max_connections: Option<usize>,
    pub route_max_connections: Option<usize>,
}

impl View for ResolvedWebSocketConfig {
    type V = ConfigView;

    open spec fn view(&self) -> ConfigView {
        ConfigView {
            protocols: views(self.protocols@),
            origin_policy: self.origin_policy@,
            require_protocol: self.require_protocol,
            max_message_size: self.max_message_size,
            max_frame_size: self.max_frame_size,
            write_buffer_size: self.write_buffer_size,
            max_write_buffer_size: self.max_write_buffer_size,
            inbound_capacity: self.inbound_capacity,
            outbound_capacity: self.outbound_capacity,
            backpressure_policy: self.backpressure_policy,
            send_timeout: self.send_timeout,
            ping_interval: self.ping_interval,
            pong_timeout: self.pong_timeout,
            idle_timeout: self.idle_timeout,
            max_connection_lifetime: self.max_connection_lifetime,
            close_timeout: self.close_timeout,
            max_connections_per_ip: self.max_connections_per_ip,
            message_rate_limit: self.message_rate_limit,
            max_rooms_per_connection: self.max_rooms_per_connection,
            max_room_name_bytes: self.max_room_name_bytes,
            process_max_connections: self.process_max_connections,
            route_max_connections: self.route_max_connections,
        }
    }
}

/// What two layers settle on: the route's values, else the application's, else the
/// defaults. The caps on connections stay apart: the application's counts for the
/// process, the route's for the route.
pub open spec fn resolved(app: WebSocketConfig, route: WebSocketConfig) -> ConfigView {
    ConfigView {
        protocols: layered(
            protocols_view(route.protocols),
            protocols_view(app.protocols),
            Seq::empty(),
        ),
        origin_policy: layered(
            policy_view(route.origin_policy),
            policy_view(app.origin_policy),
            OriginPolicyView::Any { allow_missing: true },
        ),
        require_protocol: layered(route.require_protocol, app.require_protocol, false),
        max_message_size: layered(route.max_message_size, app.max_message_size, DEFAULT_MAX_MESSAGE_SIZE),
        max_frame_size: layered(route.max_frame_size, app.max_frame_size, DEFAULT_MAX_FRAME_SIZE),
        write_buffer_size: layered(route.write_buffer_size, app.write_buffer_size, DEFAULT_WRITE_BUFFER_SIZE),
        max_write_buffer_size: layered(route.max_write_buffer_size, app.max_write_buffer_size, DEFAULT_MAX_WRITE_BUFFER_SIZE),
        inbound_capacity: layered(route.inbound_capacity, app.inbound_capacity, DEFAULT_CHANNEL_CAPACITY),
        outbound_capacity: layered(route.outbound_capacity, app.outbound_capacity, DEFAULT_CHANNEL_CAPACITY),
        backpressure_policy: layered(route.backpressure_policy, app.backpressure_policy, BackpressurePolicy::Wait),
        send_timeout: layered(route.send_timeout, app.send_timeout, Duration { nanos: DEFAULT_SEND_NANOS }),
        ping_interval: layered(route.ping_interval, app.ping_interval, None),
        pong_timeout: layered(route.pong_timeout, app.pong_timeout, Duration { nanos: DEFAULT_PONG_NANOS }),
        idle_timeout: layered(route.idle_timeout, app.idle_timeout, None),
        max_connection_lifetime: layered(route.max_connection_lifetime, app.max_connection_lifetime, None),
        close_timeout: layered(route.close_timeout, app.close_timeout, Duration { nanos: DEFAULT_CLOSE_NANOS }),
        max_connections_per_ip: layered(route.max_connections_per_ip, app.max_connections_per_ip, None),
        message_rate_limit: layered(route.message_rate_limit, app.message_rate_limit, None),
        max_rooms_per_connection: layered(route.max_rooms_per_connection, app.max_rooms_per_connection, DEFAULT_MAX_ROOMS),
        max_room_name_bytes: layered(route.max_room_name_bytes, app.max_room_name_bytes, DEFAULT_MAX_ROOM_NAME_BYTES),
        process_max_connections: app.max_connections,
        route_max_connections: route.max_connections,
    }
}

impl ConfigView {
    /// What is wrong with the configuration, where anything is.
    pub open spec fn fault(self) -> Option<Seq<char>> {
        if self.max_message_size == 0 || self.max_frame_size == 0 {
            Some("los limites de mensaje y frame WebSocket deben ser mayores que cero"@)
        } else if self.inbound_capacity == 0 || self.outbound_capacity == 0 {
            Some("las capacidades de los canales WebSocket deben ser mayores que cero"@)
        } else if self.max_write_buffer_size <= self.write_buffer_size {
            Some("max_write_buffer_size debe ser mayor que write_buffer_size"@)
        } else if self.ping_interval matches Some(p) && p.nanos <= self.pong_timeout.nanos {
            Some("ping_interval debe ser mayor que pong_timeout"@)
        } else if self.send_timeout.nanos == 0 || self.close_timeout.nanos == 0 {
            Some("los tiempos limite de envio y cierre WebSocket deben ser mayores que cero"@)
        } else if self.max_rooms_per_connection == 0 || self.max_room_name_bytes == 0 {
            Some("los limites de rooms WebSocket deben ser mayores que cero"@)
        } else if self.process_max_connections == Some(0usize) || self.route_max_connections
            == Some(0usize) || self.max_connections_per_ip == Some(0usize) {
            Some("los limites de conexiones WebSocket deben ser mayores que cero"@)
        } else if self.message_rate_limit matches Some(l) && (l.max_messages == 0
            || l.interval.nanos == 0) {
            Some("los limites de frecuencia de mensajes WebSocket deben ser mayores que cero"@)
        } else if !self.origin_policy.valid() {
            Some("la politica de origen WebSocket contiene un origen no valido"@)
        } else {
            None
        }
    }
}

/// Whether a result reports exactly the given fault of a configuration.
pub open spec fn says(r: Result<(), WsError>, fault: Option<Seq<char>>) -> bool {
    match fault {
        None => r is Ok,
        Some(text) => r matches Err(WsError::InvalidConfiguration(m)) && m@ == text,
    }
}

/// The error for a configuration with a fault.
fn invalid(text: &str) -> (r: Result<(), WsError>)
    ensures
        says(r, Some(text@)),
{
    Err(WsError::InvalidConfiguration(text.to_owned()))
}

impl ResolvedWebSocketConfig {
    /// What the layers of an application and of a route settle on.
    pub fn from_layers(
        app: &WebSocketConfig,
        route: &WebSocketConfig,
    ) -> (r: ResolvedWebSocketConfig)
        ensures
            r@ == resolved(*app, *route),
    {
        let protocols: Vec<String> = match &route.protocols {
            Some(list) => copy_texts(list),
            None => match &app.protocols {
                Some(list) => copy_texts(list),
                None => Vec::new(),
            },
        };
        assert(views(Seq::<String>::empty()) =~= Seq::empty());
        let origin_policy: OriginPolicy = match &route.origin_policy {
            Some(policy) => policy.copy(),
            None => match &app.origin_policy {
                Some(policy) => policy.copy(),
                None => OriginPolicy::any(),
            },
        };
        ResolvedWebSocketConfig {
            protocols,
            origin_policy,
            require_protocol: pick(route.require_protocol, app.require_protocol, false),
            max_message_size: pick(route.max_message_size, app.max_message_size, DEFAULT_MAX_MESSAGE_SIZE),
            max_frame_size: pick(route.max_frame_size, app.max_frame_size, DEFAULT_MAX_FRAME_SIZE),
            write_buffer_size: pick(route.write_buffer_size, app.write_buffer_size, DEFAULT_WRITE_BUFFER_SIZE),
            max_write_buffer_size: pick(route.max_write_buffer_size, app.max_write_buffer_size, DEFAULT_MAX_WRITE_BUFFER_SIZE),
            inbound_capacity: pick(route.inbound_capacity, app.inbound_capacity, DEFAULT_CHANNEL_CAPACITY),
            outbound_capacity: pick(route.outbound_capacity, app.outbound_capacity, DEFAULT_CHANNEL_CAPACITY),
            backpressure_policy: pick(route.backpressure_policy, app.backpressure_policy, BackpressurePolicy::Wait),
            send_timeout: pick(route.send_timeout, app.send_timeout, Duration { nanos: DEFAULT_SEND_NANOS }),
            ping_interval: pick(route.ping_interval, app.ping_interval, None),
            pong_timeout: pick(route.pong_timeout, app.pong_timeout, Duration { nanos: DEFAULT_PONG_NANOS }),
            idle_timeout: pick(route.idle_timeout, app.idle_timeout, None),
            max_connection_lifetime: pick(route.max_connection_lifetime, app.max_connection_lifetime, None),
            close_timeout: pick(route.close_timeout, app.close_timeout, Duration { nanos: DEFAULT_CLOSE_NANOS }),
            max_connections_per_ip: pick(route.max_connections_per_ip, app.max_connections_per_ip, None),
            message_rate_limit: pick(route.message_rate_limit, app.message_rate_limit, None),
            max_rooms_per_connection: pick(route.max_rooms_per_connection, app.max_rooms_per_connection, DEFAULT_MAX_ROOMS),
            max_room_name_bytes: pick(route.max_room_name_bytes, app.max_room_name_bytes, DEFAULT_MAX_ROOM_NAME_BYTES),
            process_max_connections: app.max_connections,
            route_max_connections: route.max_connections,
        }
    }

    /// A copy of the configuration.
    pub fn copy(&self) -> (r: ResolvedWebSocketConfig)
        ensures
            r@ == self@,
    {
        ResolvedWebSocketConfig {
            protocols: copy_texts(&self.protocols),
            origin_policy: self.origin_policy.copy(),
            require_protocol: self.require_protocol,
            max_message_size: self.max_message_size,
            max_frame_size: self.max_frame_size,
            write_buffer_size: self.write_buffer_size,
            max_write_buffer_size: self.max_write_buffer_size,
            inbound_capacity: self.inbound_capacity,
            outbound_capacity: self.outbound_capacity,
            backpressure_policy: self.backpressure_policy,
            send_timeout: self.send_timeout,
            ping_interval: self.ping_interval,
            pong_timeout: self.pong_timeout,
            idle_timeout: self.idle_timeout,
            max_connection_lifetime: self.max_connection_lifetime,
            close_timeout: self.close_timeout,
            max_connections_per_ip: self.max_connections_per_ip,
            message_rate_limit: self.message_rate_limit,
            max_rooms_per_connection: self.max_rooms_per_connection,
            max_room_name_bytes: self.max_room_name_bytes,
            process_max_connections: self.process_max_connections,
            route_max_connections: self.route_max_connections,
        }
    }

    /// Reports the first fault of the configuration.
    pub fn validate(&self) -> (r: Result<(), WsError>)
        ensures
            says(r, self@.fault()),
    {
        if self.max_message_size == 0 || self.max_frame_size == 0 {
            return invalid("los limites de mensaje y frame WebSocket deben ser mayores que cero");
        }
        if self.inbound_capacity == 0 || self.outbound_capacity == 0 {
            return invalid("las capacidades de los canales WebSocket deben ser mayores que cero");
        }
        if self.max_write_buffer_size <= self.write_buffer_size {
            return invalid("max_write_buffer_size debe ser mayor que write_buffer_size");
        }
        if let Some(interval) = self.ping_interval {
            if interval.nanos <= self.pong_timeout.nanos {
                return invalid("ping_interval debe ser mayor que pong_timeout");
            }
        }
        if self.send_timeout.is_zero() || self.close_timeout.is_zero() {
            return invalid(
                "los tiempos limite de envio y cierre WebSocket deben ser mayores que cero",
            );
        }
        if self.max_rooms_per_connection == 0 || self.max_room_name_bytes == 0 {
            return invalid("los limites de rooms WebSocket deben ser mayores que cero");
        }
        if is_zero(self.process_max_connections) || is_zero(self.route_max_connections)
            || is_zero(self.max_connections_per_ip) {
            return invalid("los limites de conexiones WebSocket deben ser mayores que cero");
        }
        if let Some(limit) = self.message_rate_limit {
            if limit.max_messages == 0 || limit.interval.is_zero() {
                return invalid(
                    "los limites de frecuencia de mensajes WebSocket deben ser mayores que cero",
                );
            }
        }
        if !self.origin_policy.is_valid() {
            return invalid("la politica de origen WebSocket contiene un origen no valido");
        }
        Ok(())
    }
}

/// Whether a cap is set to zero.
fn is_zero(cap: Option<usize>) -> (r: bool)
    ensures
        r == (cap == Some(0usize)),
{
    match cap {
        Some(n) => n == 0,
        None => false,
    }
}

/// A configuration passes exactly when all its limits are bounded and consistent: no
/// limit or time is zero, the write buffer has room to grow, a Ping comes no sooner
/// than its Pong is given up, and every listed origin is one.
pub proof fn law_valid_configuration_is_bounded(c: ConfigView)
    ensures
        c.fault() is None <==> {
            &&& c.max_message_size > 0 && c.max_frame_size > 0
            &&& c.inbound_capacity > 0 && c.outbound_capacity > 0
            &&& c.max_write_buffer_size > c.write_buffer_size
            &&& (c.ping_interval matches Some(p) ==> p.nanos > c.pong_timeout.nanos)
            &&& c.send_timeout.nanos > 0 && c.close_timeout.nanos > 0
            &&& c.max_rooms_per_connection > 0 && c.max_room_name_bytes > 0
            &&& (c.process_max_connections matches Some(n) ==> n > 0)
            &&& (c.route_max_connections matches Some(n) ==> n > 0)
            &&& (c.max_connections_per_ip matches Some(n) ==> n > 0)
            &&& (c.message_rate_limit matches Some(l) ==> l.max_messages > 0 && l.interval.nanos
                > 0)
            &&& c.origin_policy.valid()
        },
{
}

/// With nothing set in either layer the configuration is valid.
pub proof fn law_defaults_are_valid()
    ensures
        resolved(WebSocketConfig::blank(), WebSocketConfig::blank()).fault() is None,
{
}

/// A layer of a route that sets nothing leaves the application's values in force, but
/// for the cap on connections, which stays the process's.
pub proof fn law_unset_route_inherits(app: WebSocketConfig)
    ensures
        resolved(app, WebSocketConfig::blank()) == (ConfigView {
            process_max_connections: app.max_connections,
            route_max_connections: None,
            ..resolved(WebSocketConfig::blank(), app)
        }),
{
}

/// What a route sets is in force whatever the application sets.
pub proof fn law_route_overrides(app: WebSocketConfig, other: WebSocketConfig, route: WebSocketConfig)
    ensures
        route.protocols is Some ==> resolved(app, route).protocols == resolved(
            other,
            route,
        ).protocols,
        route.origin_policy is Some ==> resolved(app, route).origin_policy == resolved(
            other,
            route,
        ).origin_policy,
        route.max_message_size is Some ==> resolved(app, route).max_message_size
            == route.max_message_size->0,
        route.ping_interval is Some ==> resolved(app, route).ping_interval
            == route.ping_interval->0,
        route.idle_timeout is Some ==> resolved(app, route).idle_timeout == route.idle_timeout->0,
        route.max_connection_lifetime is Some ==> resolved(app, route).max_connection_lifetime
            == route.max_connection_lifetime->0,
        route.max_connections_per_ip is Some ==> resolved(app, route).max_connections_per_ip
            == route.max_connections_per_ip->0,
        route.message_rate_limit is Some ==> resolved(app, route).message_rate_limit
            == route.message_rate_limit->0,
{
}

/// Each value of a route counts, else that of the application, else the default. Caps on
/// connections are not inherited: the application's is one for the process, the route's
/// one for the route.
pub proof fn law_each_value_is_settled_by_the_nearest_layer(
    app: WebSocketConfig,
    route: WebSocketConfig,
)
    ensures
        route.require_protocol matches Some(v) ==> resolved(app, route).require_protocol == v,
        route.require_protocol is None ==> (app.require_protocol matches Some(v) ==> resolved(app, route).require_protocol == v),
        route.require_protocol is None && app.require_protocol is None ==> resolved(app, route).require_protocol == false,
        route.max_message_size matches Some(v) ==> resolved(app, route).max_message_size == v,
        route.max_message_size is None ==> (app.max_message_size matches Some(v) ==> resolved(app, route).max_message_size == v),
        route.max_message_size is None && app.max_message_size is None ==> resolved(app, route).max_message_size == 16_777_216,
        route.max_frame_size matches Some(v) ==> resolved(app, route).max_frame_size == v,
        route.max_frame_size is None ==> (app.max_frame_size matches Some(v) ==> resolved(app, route).max_frame_size == v),
        route.max_frame_size is None && app.max_frame_size is None ==> resolved(app, route).max_frame_size == 4_194_304,
        route.write_buffer_size matches Some(v) ==> resolved(app, route).write_buffer_size == v,
        route.write_buffer_size is None ==> (app.write_buffer_size matches Some(v) ==> resolved(app, route).write_buffer_size == v),
        route.write_buffer_size is None && app.write_buffer_size is None ==> resolved(app, route).write_buffer_size == 131_072,
        route.max_write_buffer_size matches Some(v) ==> resolved(app, route).max_write_buffer_size == v,
        route.max_write_buffer_size is None ==> (app.max_write_buffer_size matches Some(v) ==> resolved(app, route).max_write_buffer_size == v),
        route.max_write_buffer_size is None && app.max_write_buffer_size is None ==> resolved(app, route).max_write_buffer_size == 1_048_576,
        route.inbound_capacity matches Some(v) ==> resolved(app, route).inbound_capacity == v,
        route.inbound_capacity is None ==> (app.inbound_capacity matches Some(v) ==> resolved(app, route).inbound_capacity == v),
        route.inbound_capacity is None && app.inbound_capacity is None ==> resolved(app, route).inbound_capacity == 64,
        route.outbound_capacity matches Some(v) ==> resolved(app, route).outbound_capacity == v,
        route.outbound_capacity is None ==> (app.outbound_capacity matches Some(v) ==> resolved(app, route).outbound_capacity == v),
        route.outbound_capacity is None && app.outbound_capacity is None ==> resolved(app, route).outbound_capacity == 64,
        route.backpressure_policy matches Some(v) ==> resolved(app, route).backpressure_policy == v,
        route.backpressure_policy is None ==> (app.backpressure_policy matches Some(v) ==> resolved(app, route).backpressure_policy == v),
        route.backpressure_policy is None && app.backpressure_policy is None ==> resolved(app, route).backpressure_policy == BackpressurePolicy::Wait,
        route.send_timeout matches Some(v) ==> resolved(app, route).send_timeout == v,
        route.send_timeout is None ==> (app.send_timeout matches Some(v) ==> resolved(app, route).send_timeout == v),
        route.send_timeout is None && app.send_timeout is None ==> resolved(app, route).send_timeout == (Duration { nanos: 5_000_000_000 }),
        route.ping_interval matches Some(v) ==> resolved(app, route).ping_interval == v,
        route.ping_interval is None ==> (app.ping_interval matches Some(v) ==> resolved(app, route).ping_interval == v),
        route.ping_interval is None && app.ping_interval is None ==> resolved(app, route).ping_interval == None::<Duration>,
        route.pong_timeout matches Some(v) ==> resolved(app, route).pong_timeout == v,
        route.pong_timeout is None ==> (app.pong_timeout matches Some(v) ==> resolved(app, route).pong_timeout == v),
        route.pong_timeout is None && app.pong_timeout is None ==> resolved(app, route).pong_timeout == (Duration { nanos: 10_000_000_000 }),
        route.idle_timeout matches Some(v) ==> resolved(app, route).idle_timeout == v,
        route.idle_timeout is None ==> (app.idle_timeout matches Some(v) ==> resolved(app, route).idle_timeout == v),
        route.idle_timeout is None && app.idle_timeout is None ==> resolved(app, route).idle_timeout == None::<Duration>,
        route.max_connection_lifetime matches Some(v) ==> resolved(app, route).max_connection_lifetime == v,
        route.max_connection_lifetime is None ==> (app.max_connection_lifetime matches Some(v) ==> resolved(app, route).max_connection_lifetime == v),
        route.max_connection_lifetime is None && app.max_connection_lifetime is None ==> resolved(app, route).max_connection_lifetime == None::<Duration>,
        route.close_timeout matches Some(v) ==> resolved(app, route).close_timeout == v,
        route.close_timeout is None ==> (app.close_timeout matches Some(v) ==> resolved(app, route).close_timeout == v),
        route.close_timeout is None && app.close_timeout is None ==> resolved(app, route).close_timeout == (Duration { nanos: 5_000_000_000 }),
        route.max_connections_per_ip matches Some(v) ==> resolved(app, route).max_connections_per_ip == v,
        route.max_connections_per_ip is None ==> (app.max_connections_per_ip matches Some(v) ==> resolved(app, route).max_connections_per_ip == v),
        route.max_connections_per_ip is None && app.max_connections_per_ip is None ==> resolved(app, route).max_connections_per_ip == None::<usize>,
        route.message_rate_limit matches Some(v) ==> resolved(app, route).message_rate_limit == v,
        route.message_rate_limit is None ==> (app.message_rate_limit matches Some(v) ==> resolved(app, route).message_rate_limit == v),
        route.message_rate_limit is None && app.message_rate_limit is None ==> resolved(app, route).message_rate_limit == None::<MessageRateLimit>,
        route.max_rooms_per_connection matches Some(v) ==> resolved(app, route).max_rooms_per_connection == v,
        route.max_rooms_per_connection is None ==> (app.max_rooms_per_connection matches Some(v) ==> resolved(app, route).max_rooms_per_connection == v),
        route.max_rooms_per_connection is None && app.max_rooms_per_connection is None ==> resolved(app, route).max_rooms_per_connection == 32,
        route.max_room_name_bytes matches Some(v) ==> resolved(app, route).max_room_name_bytes == v,
        route.max_room_name_bytes is None ==> (app.max_room_name_bytes matches Some(v) ==> resolved(app, route).max_room_name_bytes == v),
        route.max_room_name_bytes is None && app.max_room_name_bytes is None ==> resolved(app, route).max_room_name_bytes == 128,
        route.protocols matches Some(list) ==> resolved(app, route).protocols == views(list@),
        route.protocols is None ==> (app.protocols matches Some(list) ==> resolved(
            app,
            route,
        ).protocols == views(list@)),
        route.protocols is None && app.protocols is None ==> resolved(app, route).protocols.len()
            == 0,
        route.origin_policy matches Some(p) ==> resolved(app, route).origin_policy == p@,
        route.origin_policy is None ==> (app.origin_policy matches Some(p) ==> resolved(
            app,
            route,
        ).origin_policy == p@),
        route.origin_policy is None && app.origin_policy is None ==> resolved(
            app,
            route,
        ).origin_policy == (OriginPolicyView::Any { allow_missing: true }),
        resolved(app, route).process_max_connections == app.max_connections,
        resolved(app, route).route_max_connections == route.max_connections,
{
}

/// A connection without an origin is let in exactly where the policy says so, and one
/// whose origin is none never is.
pub proof fn law_missing_and_broken_origins(
    p: OriginPolicyView,
    text: Seq<char>,
    host: Seq<char>,
    secure: bool,
)
    ensures
        p matches OriginPolicyView::Any { allow_missing } ==> p.allowed_on(None, host, secure)
            == allow_missing && p.allowed(None, host) == allow_missing,
        p matches OriginPolicyView::SameHost { allow_missing } ==> p.allowed_on(None, host, secure)
            == allow_missing && p.allowed(None, host) == allow_missing,
        p matches OriginPolicyView::AllowList { allow_missing, .. } ==> p.allowed_on(
            None,
            host,
            secure,
        ) == allow_missing && p.allowed(None, host) == allow_missing,
        origin_of(text) is None ==> !p.allowed_on(Some(text), host, secure) && !p.allowed(
            Some(text),
            host,
        ),
{
}

/// Any origin is let in where all are; where only the host itself is, those with its name
/// and its port; and where there is a list, those that it spells, at any place in it.
pub proof fn law_policies_let_their_origins_in(
    p: OriginPolicyView,
    text: Seq<char>,
    host: Seq<char>,
    secure: bool,
    i: int,
)
    requires
        origin_of(text) is Some,
    ensures
        p is Any ==> p.allowed_on(Some(text), host, secure) && p.allowed(Some(text), host),
        p is SameHost ==> (p.allowed_on(Some(text), host, secure) <==> host_of(
            host,
            if secure {
                443
            } else {
                80
            },
        ) == Some((origin_of(text)->0.host, origin_of(text)->0.port))),
        p matches OriginPolicyView::AllowList { origins, .. } ==> (0 <= i < origins.len()
            && origin_of(origins[i]) == origin_of(text) ==> p.allowed_on(Some(text), host, secure)
            && p.allowed(Some(text), host)),
        p matches OriginPolicyView::AllowList { origins, .. } ==> ((forall|j: int|
            0 <= j < origins.len() ==> #[trigger] origin_of(origins[j]) != origin_of(text))
            ==> !p.allowed_on(Some(text), host, secure) && !p.allowed(Some(text), host)),
{
}

/// Where an authority writes no port, that of the scheme counts: 80 for the plain ones, 443
/// for the secure ones. A port that is written but is no number makes no origin, and hosts
/// are the same whatever their case.
pub proof fn law_ports_default_to_those_of_the_scheme(
    a: Seq<char>,
    host: Seq<char>,
    port: Option<nat>,
    default_port: nat,
)
    requires
        !a.contains('@'),
        host.len() > 0,
    ensures
        port matches Some(n) ==> host_and_port(Some(a), host, port, None, default_port) == Some(
            (lower(host), n),
        ),
        port is None && (a.len() == 0 || a[0] != '[') && !a.contains(':') ==> host_and_port(
            Some(a),
            host,
            port,
            None,
            default_port,
        ) == Some((lower(host), default_port)),
        port is None && (a.len() == 0 || a[0] != '[') && a.contains(':') ==> host_and_port(
            Some(a),
            host,
            port,
            None,
            default_port,
        ) is None,
        OriginScheme::Http.spec_default_port() == 80,
        OriginScheme::Ws.spec_default_port() == 80,
        OriginScheme::Https.spec_default_port() == 443,
        OriginScheme::Wss.spec_default_port() == 443,
{
}

/// User information, a path or a query, and an empty host make no origin.
pub proof fn law_origins_are_hosts_alone(
    a: Seq<char>,
    host: Seq<char>,
    port: Option<nat>,
    path: Seq<char>,
    default_port: nat,
)
    ensures
        a.contains('@') ==> host_and_port(Some(a), host, port, None, default_port) is None,
        path != "/"@ ==> host_and_port(Some(a), host, port, Some(path), default_port) is None,
        host.len() == 0 ==> host_and_port(Some(a), host, port, None, default_port) is None,
        host_and_port(None, host, port, None, default_port) is None,
        host_and_port(Some(a), host, port, Some("/"@), default_port) == host_and_port(
            Some(a),
            host,
            port,
            None,
            default_port,
        ),
{
}

/// Four schemes can open connections, whatever the case of their letters.
pub proof fn law_schemes_are_told_apart(s: Seq<char>)
    ensures
        lower(s) == "http"@ <==> scheme_named(s) == Some(OriginScheme::Http),
        lower(s) == "https"@ <==> scheme_named(s) == Some(OriginScheme::Https),
        lower(s) == "ws"@ <==> scheme_named(s) == Some(OriginScheme::Ws),
        lower(s) == "wss"@ <==> scheme_named(s) == Some(OriginScheme::Wss),
{
    reveal_strlit("http");
    reveal_strlit("https");
    reveal_strlit("ws");
    reveal_strlit("wss");
    assert(lower("http"@) =~= "http"@);
    assert(lower("https"@) =~= "https"@);
    assert(lower("ws"@) =~= "ws"@);
    assert(lower("wss"@) =~= "wss"@);
    assert("http"@.len() == 4 && "https"@.len() == 5 && "ws"@.len() == 2 && "wss"@.len() == 3);
}

/// A configuration is in order exactly where its sizes, capacities, times and limits are
/// more than zero, the larger write buffer is larger, pings are further apart than their
/// pongs may take, and every origin of an allow list is one. Nothing else is asked of it.
pub proof fn law_configurations_in_order(c: ConfigView)
    ensures
        c.fault() is None <==> {
            &&& c.max_message_size > 0 && c.max_frame_size > 0
            &&& c.inbound_capacity > 0 && c.outbound_capacity > 0
            &&& c.write_buffer_size < c.max_write_buffer_size
            &&& c.ping_interval matches Some(p) ==> p.nanos > c.pong_timeout.nanos
            &&& c.send_timeout.nanos > 0 && c.close_timeout.nanos > 0
            &&& c.max_rooms_per_connection > 0 && c.max_room_name_bytes > 0
            &&& c.process_max_connections matches Some(n) ==> n > 0
            &&& c.route_max_connections matches Some(n) ==> n > 0
            &&& c.max_connections_per_ip matches Some(n) ==> n > 0
            &&& c.message_rate_limit matches Some(l) ==> l.max_messages > 0 && l.interval.nanos > 0
            &&& c.origin_policy matches OriginPolicyView::AllowList { origins, .. } ==> forall|i: int|
                0 <= i < origins.len() ==> #[trigger] origin_of(origins[i]) is Some
        },
{
}

/// Setting what holds for connections without an origin changes that alone.
pub proof fn law_missing_origins_are_ruled_apart(
    p: OriginPolicyView,
    allow: bool,
    text: Seq<char>,
    host: Seq<char>,
    secure: bool,
)
    ensures
        p.with_missing(allow).allowed(None, host) == allow,
        p.with_missing(allow).allowed_on(None, host, secure) == allow,
        p.with_missing(allow).allowed(Some(text), host) == p.allowed(Some(text), host),
        p.with_missing(allow).allowed_on(Some(text), host, secure) == p.allowed_on(
            Some(text),
            host,
            secure,
        ),
{
    match p {
        OriginPolicyView::AllowList { origins, .. } => {
            match origin_of(text) {
                Some(o) => {
                    let there = exists|i: int|
                        0 <= i < origins.len() && #[trigger] origin_of(origins[i]) == Some(o);
                    assert(p.with_missing(allow)->AllowList_origins == origins);
                },
                None => {},
            }
        },
        _ => {},
    }
}

/// An authority that is a name alone is its host, and has the port that is given for none;
/// with a number behind a colon, that is its port.
pub proof fn law_authorities_are_hosts_and_ports(name: Seq<char>, port: nat, default_port: nat)
    requires
        name.len() > 0,
        name[0] != '[',
        !name.contains(':'),
        !name.contains('@'),
        port <= 65535,
    ensures
        host_and_port(Some(name), authority_host(name), authority_port(name), None, default_port)
            == Some((lower(name), default_port)),
        ({
            let a = name + seq![':'] + decimal(port);
            host_and_port(Some(a), authority_host(a), authority_port(a), None, default_port) == Some(
                (lower(name), port),
            )
        }),
{
    let digits = decimal(port);
    let a = name + seq![':'] + digits;
    lemma_digits_alone(port, ':');
    lemma_digits_alone(port, '@');
    crate::text::law_decimals_are_read_back(port, u16::MAX as nat);
    crate::text::law_texts_are_parted_once(name, digits, ':');
    crate::text::law_texts_are_parted_once(name, digits, '@');
    assert(!a.contains('@')) by {
        assert forall|i: int| 0 <= i < a.len() implies a[i] != '@' by {
            if i < name.len() {
                assert(a[i] == name[i]);
                assert(name.contains(name[i]));
            } else if i > name.len() {
                assert(a[i] == digits[i - name.len() - 1]);
                assert(digits.contains(digits[i - name.len() - 1]));
            }
        }
    }
    crate::text::law_texts_are_parted_once(a, digits, '@');
    let k = name.len() as int;
    assert(a[k] == ':');
    assert(a[0] == name[0]);
    assert forall|i: int| 0 <= i < k implies #[trigger] a[i] != ':' by {
        assert(a[i] == name[i]);
        assert(name.contains(name[i]));
    }
    crate::text::lemma_first_index_is(a, ':', k);
    assert(a.take(k) =~= name);
    crate::text::lemma_first_index(name, ':');
    if first_index(name, ':') < name.len() {
        assert(name.contains(name[first_index(name, ':')]));
    }
    assert(name.take(name.len() as int) =~= name);
}

/// A number is made of digits alone.
proof fn lemma_digits_alone(n: nat, c: char)
    requires
        c < '0' || c > '9',
    ensures
        !decimal(n).contains(c),
    decreases n,
{
    let d = decimal(n);
    if n >= 10 {
        lemma_digits_alone(n / 10, c);
    }
    assert forall|i: int| 0 <= i < d.len() implies d[i] != c by {
        if n >= 10 && i < d.len() - 1 {
            assert(d[i] == decimal(n / 10)[i]);
            assert(decimal(n / 10).contains(decimal(n / 10)[i]));
        }
    }
}

/// A text is the origin of the scheme and the authority that it has as a URI, where the
/// scheme is one of the four, and a host is read as if it stood in such a URI.
pub proof fn law_origins_are_those_of_uris(
    text: Seq<char>,
    s: Seq<char>,
    a: Seq<char>,
    scheme: OriginScheme,
    host: Seq<char>,
    default_port: nat,
)
    requires
        a.len() > 0,
        a[0] != '[',
        !a.contains(':'),
        !a.contains('@'),
        scheme_named(s) == Some(scheme),
    ensures
        parsed_uri(text) == Some((Some(s), Some(a), None::<Seq<char>>)) ==> origin_of(text) == Some(
            OriginView { scheme, host: lower(a), port: scheme.spec_default_port() as nat },
        ),
        parsed_uri(text) is None ==> origin_of(text) is None,
        parsed_uri("http://"@ + host) == Some((Some(s), Some(a), None::<Seq<char>>)) ==> host_of(
            host,
            default_port,
        ) == Some((lower(a), default_port)),
        parsed_uri("http://"@ + host) is None ==> host_of(host, default_port) is None,
{
    law_authorities_are_hosts_and_ports(a, 0, default_port);
    law_authorities_are_hosts_and_ports(a, 0, scheme.spec_default_port() as nat);
}

/// What is wrong with a configuration is told as that, in its own words.
pub proof fn law_faults_are_told_in_their_words(r: Result<(), WsError>, text: Seq<char>)
    ensures
        says(r, None) <==> r is Ok,
        says(r, Some(text)) ==> (r matches Err(e) && e.text()
            == "configuracion WebSocket no valida: "@ + text),
{
}

} // verus!
