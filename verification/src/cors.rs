//! Which sites may read responses.

use vstd::prelude::*;
use vstd::utf8::encode_utf8;

use crate::headers::{is_header_name, is_header_value, no_headers, values_of};
use crate::request::Request;
use crate::response::{
    lemma_plain_name, lemma_room, lemma_room_empty, room, same_but_headers, BodyView, Response,
    ResponseView,
};
use crate::text::{
    contains_text, decimal, join, join_texts, lower, opt, own_texts, same, str_views, to_decimal,
    views,
};

verus! {

/// The rules by which other sites may read responses.
#[derive(Debug)]
pub struct Cors {
    pub any_origin: bool,
    pub origins: Vec<String>,
    pub methods: String,
    /// The headers that requests may carry; what a client asks for where there are none.
    pub headers: Option<String>,
    pub credentials: bool,
    pub max_age_secs: Option<u64>,
}

/// The rules as contracts speak of them.
#[verifier::ext_equal]
pub struct CorsView {
    pub any_origin: bool,
    pub origins: Seq<Seq<char>>,
    pub methods: Seq<char>,
    pub headers: Option<Seq<char>>,
    pub credentials: bool,
    pub max_age_secs: Option<u64>,
}

impl View for Cors {
    type V = CorsView;

    open spec fn view(&self) -> CorsView {
        CorsView {
            any_origin: self.any_origin,
            origins: views(self.origins@),
            methods: self.methods@,
            headers: opt(self.headers),
            credentials: self.credentials,
            max_age_secs: self.max_age_secs,
        }
    }
}

impl CorsView {
    /// The rules that let no other site in.
    pub open spec fn closed_to_all() -> CorsView {
        CorsView {
            any_origin: false,
            origins: Seq::empty(),
            methods: "GET, POST, PUT, PATCH, DELETE, OPTIONS, HEAD"@,
            headers: None,
            credentials: false,
            max_age_secs: None,
        }
    }

    /// The origin that a response is opened to, where it is opened to the one that asks.
    pub open spec fn grant(self, origin: Seq<char>) -> Option<Seq<char>> {
        if self.any_origin {
            if self.credentials {
                Some(origin)
            } else {
                Some("*"@)
            }
        } else if self.origins.contains(origin) {
            Some(origin)
        } else {
            None
        }
    }

    /// The response opened to an origin.
    pub open spec fn granted(self, r: ResponseView, allowed: Seq<char>) -> ResponseView {
        let a = r.with_header("access-control-allow-origin"@, allowed);
        let b = if self.credentials {
            a.with_header("access-control-allow-credentials"@, "true"@)
        } else {
            a
        };
        if allowed != "*"@ {
            b.with_added("vary"@, "Origin"@)
        } else {
            b
        }
    }

    /// The headers that requests may carry, where a client asks for some.
    pub open spec fn headers_for(self, asked: Option<Seq<char>>) -> Option<Seq<char>> {
        match self.headers {
            Some(h) => Some(h),
            None => asked,
        }
    }

    /// What a question before the request proper is answered.
    pub open spec fn preflight(
        self,
        grant: Option<Seq<char>>,
        asked: Option<Seq<char>>,
    ) -> ResponseView {
        let base = ResponseView::text(""@).with_status(204);
        match grant {
            None => base,
            Some(allowed) => {
                let a = base.with_header("access-control-allow-methods"@, self.methods);
                let b = match self.headers_for(asked) {
                    Some(h) => a.with_header("access-control-allow-headers"@, h),
                    None => a,
                };
                let c = match self.max_age_secs {
                    Some(age) => b.with_header("access-control-max-age"@, decimal(age as nat)),
                    None => b,
                };
                self.granted(c, allowed)
            },
        }
    }
}

/// Whether a request is a question before the request proper.
pub open spec fn is_preflight(req: Request) -> bool {
    req.method@ == "OPTIONS"@ && req.header_of("access-control-request-method"@) is Some
}

/// What is done with a request.
#[derive(Debug)]
pub enum CorsStep {
    /// It is answered at once.
    Answer(Response),
    /// It goes on, and its response is opened to this origin, where there is one.
    Pass(Option<String>),
}

impl Cors {
    /// Rules that let no other site in.
    pub fn new() -> (r: Cors)
        ensures
            r@ == CorsView::closed_to_all(),
    {
        let r: Cors = Cors {
            any_origin: false,
            origins: Vec::new(),
            methods: "GET, POST, PUT, PATCH, DELETE, OPTIONS, HEAD".to_owned(),
            headers: None,
            credentials: false,
            max_age_secs: None,
        };
        assert(r@.origins =~= Seq::empty());
        r
    }

    /// Lets any site in.
    pub fn allow_any_origin(self) -> (r: Cors)
        ensures
            r@ == (CorsView { any_origin: true, ..self@ }),
    {
        Cors { any_origin: true, ..self }
    }

    /// Lets one more site in.
    pub fn allow_origin(self, origin: &str) -> (r: Cors)
        ensures
            r@ == (CorsView { origins: self@.origins.push(origin@), ..self@ }),
    {
        let ghost was = self@;
        let mut origins: Vec<String> = self.origins;
        origins.push(origin.to_owned());
        let r: Cors = Cors { origins, ..self };
        assert(r@.origins =~= was.origins.push(origin@));
        r
    }

    /// Sets the methods that may be used.
    pub fn allow_methods(self, methods: &[&str]) -> (r: Cors)
        ensures
            r@ == (CorsView { methods: join(str_views(methods@), ", "@), ..self@ }),
    {
        let list: Vec<String> = own_texts(methods);
        Cors { methods: join_texts(&list, ", "), ..self }
    }

    /// Sets the headers that requests may carry.
    pub fn allow_headers(self, headers: &[&str]) -> (r: Cors)
        ensures
            r@ == (CorsView { headers: Some(join(str_views(headers@), ", "@)), ..self@ }),
    {
        let list: Vec<String> = own_texts(headers);
        Cors { headers: Some(join_texts(&list, ", ")), ..self }
    }

    /// Sets whether requests may carry credentials.
    pub fn allow_credentials(self, allow: bool) -> (r: Cors)
        ensures
            r@ == (CorsView { credentials: allow, ..self@ }),
    {
        Cors { credentials: allow, ..self }
    }

    /// Sets how long a client may remember the answer.
    pub fn max_age_secs(self, seconds: u64) -> (r: Cors)
        ensures
            r@ == (CorsView { max_age_secs: Some(seconds), ..self@ }),
    {
        Cors { max_age_secs: Some(seconds), ..self }
    }

    /// The origin that a response is opened to, where it is opened to the one that asks.
    pub fn grant_for(&self, origin: &str) -> (r: Option<String>)
        ensures
            opt(r) == self@.grant(origin@),
    {
        if self.any_origin {
            if self.credentials {
                Some(origin.to_owned())
            } else {
                Some("*".to_owned())
            }
        } else if contains_text(&self.origins, origin) {
            Some(origin.to_owned())
        } else {
            None
        }
    }

    /// Opens a response to an origin.
    pub fn apply_grant(&self, response: Response, allowed: &str) -> (r: Response)
        ensures
            same_but_headers(r@, response@),
            room(response@.headers, 3) ==> r@ == self@.granted(response@, allowed@),
    {
        let ghost was = response@;
        proof {
            if room(was.headers, 3) {
                lemma_room(was.headers, 2, "access-control-allow-origin"@, allowed@);
            }
        }
        let mut r: Response = response.header("access-control-allow-origin", allowed);
        if self.credentials {
            proof {
                if room(was.headers, 3) {
                    lemma_room(r@.headers, 1, "access-control-allow-credentials"@, "true"@);
                }
            }
            r = r.header("access-control-allow-credentials", "true");
        }
        if !same(allowed, "*") {
            r = r.append_header("vary", "Origin");
        }
        r
    }

    /// Decides what is done with a request. One without an origin goes on as it is, and
    /// a question before the request proper is answered at once.
    pub fn into_middleware(&self, req: &Request) -> (r: CorsStep)
        requires
            req.wf(),
        ensures
            match req.header_of("origin"@) {
                None => r matches CorsStep::Pass(g) && g is None,
                Some(origin) => if is_preflight(*req) {
                    r matches CorsStep::Answer(res) && res@ == self@.preflight(
                        self@.grant(origin),
                        req.header_of("access-control-request-headers"@),
                    )
                } else {
                    r matches CorsStep::Pass(g) && opt(g) == self@.grant(origin)
                },
            },
    {
        let grant: Option<String> = match req.header("origin") {
            Some(origin) => self.grant_for(origin),
            None => {
                return CorsStep::Pass(None);
            },
        };
        let asks: bool = req.header("access-control-request-method").is_some();
        if !(same(req.method.as_str(), "OPTIONS") && asks) {
            return CorsStep::Pass(grant);
        }
        let mut r: Response = Response::send("").status(204);
        if let Some(allowed) = &grant {
            let headers: Option<String> = match &self.headers {
                Some(h) => Some(h.clone()),
                None => match req.header("access-control-request-headers") {
                    Some(h) => Some(h.to_owned()),
                    None => None,
                },
            };
            proof {
                lemma_room_empty(6);
                lemma_room(no_headers(), 5, "access-control-allow-methods"@, self.methods@);
            }
            r = r.header("access-control-allow-methods", self.methods.as_str());
            if let Some(h) = &headers {
                proof {
                    lemma_room(r@.headers, 4, "access-control-allow-headers"@, h@);
                }
                r = r.header("access-control-allow-headers", h.as_str());
            }
            if let Some(age) = self.max_age_secs {
                let age: String = to_decimal(age);
                proof {
                    lemma_room(r@.headers, 3, "access-control-max-age"@, age@);
                }
                r = r.header("access-control-max-age", age.as_str());
            }
            r = self.apply_grant(r, allowed.as_str());
        }
        CorsStep::Answer(r)
    }
}

impl Default for Cors {
    fn default() -> (r: Self)
        ensures
            r@ == CorsView::closed_to_all(),
    {
        Cors::new()
    }
}

/// Credentials are never granted to all sites at once: where they are, the one origin
/// that asked is named.
pub proof fn law_credentials_name_the_origin(c: CorsView, origin: Seq<char>)
    requires
        c.credentials,
        c.grant(origin) is Some,
    ensures
        c.grant(origin) == Some(origin),
{
}

/// A site that is not let in is granted nothing.
pub proof fn law_unlisted_origins_are_granted_nothing(c: CorsView, origin: Seq<char>)
    requires
        !c.any_origin,
        !c.origins.contains(origin),
    ensures
        c.grant(origin) is None,
        forall|asked: Option<Seq<char>>| #[trigger]
            c.preflight(c.grant(origin), asked) == ResponseView::text(""@).with_status(204),
{
}

/// Where not any origin is let in, exactly those are that were allowed, wherever they
/// stand in the list, and each is granted itself.
pub proof fn law_listed_origins_are_granted_themselves(c: CorsView, origin: Seq<char>)
    requires
        !c.any_origin,
    ensures
        (exists|i: int| 0 <= i < c.origins.len() && #[trigger] c.origins[i] == origin) ==> c.grant(
            origin,
        ) == Some(origin),
        (forall|i: int| 0 <= i < c.origins.len() ==> #[trigger] c.origins[i] != origin) ==> c.grant(
            origin,
        ) is None,
{
    if exists|i: int| 0 <= i < c.origins.len() && #[trigger] c.origins[i] == origin {
        let i = choose|i: int| 0 <= i < c.origins.len() && #[trigger] c.origins[i] == origin;
        assert(c.origins.contains(c.origins[i]));
    }
}

/// Where any origin is let in, every one is: by name where credentials go along, and by
/// the star where they do not.
pub proof fn law_any_origin_is_granted(c: CorsView, origin: Seq<char>)
    requires
        c.any_origin,
    ensures
        c.credentials ==> c.grant(origin) == Some(origin),
        !c.credentials ==> c.grant(origin) == Some("*"@),
{
}

/// Allowing one more origin lets that one in, and takes no grant away.
pub proof fn law_allowing_takes_nothing_away(c: CorsView, more: Seq<char>, origin: Seq<char>)
    ensures
        ({
            let wider = CorsView { origins: c.origins.push(more), ..c };
            &&& wider.grant(more) is Some
            &&& c.grant(origin) is Some ==> wider.grant(origin) == c.grant(origin)
            &&& wider.grant(origin) is Some && origin != more ==> c.grant(origin)
                == wider.grant(origin)
        }),
{
    let wider = CorsView { origins: c.origins.push(more), ..c };
    assert(wider.origins[c.origins.len() as int] == more);
    if c.origins.contains(origin) {
        let i = choose|i: int| 0 <= i < c.origins.len() && c.origins[i] == origin;
        assert(wider.origins[i] == origin);
    }
    if wider.origins.contains(origin) && origin != more {
        let i = choose|i: int| 0 <= i < wider.origins.len() && wider.origins[i] == origin;
        assert(c.origins[i] == origin);
    }
}

/// Names of the headers that open responses are header names, and differ.
proof fn lemma_names()
    ensures
        is_header_name("access-control-allow-origin"@),
        is_header_name("access-control-allow-credentials"@),
        is_header_name("access-control-allow-methods"@),
        is_header_name("access-control-allow-headers"@),
        is_header_name("access-control-max-age"@),
        is_header_name("vary"@),
        lower("access-control-allow-origin"@).len() == 27,
        lower("access-control-allow-credentials"@).len() == 32,
        lower("access-control-allow-methods"@).len() == 28 && lower(
            "access-control-allow-methods"@,
        )[21] == 'm',
        lower("access-control-allow-headers"@).len() == 28 && lower(
            "access-control-allow-headers"@,
        )[21] == 'h',
        lower("access-control-max-age"@).len() == 22,
        lower("vary"@).len() == 4,
        is_header_value("true"@),
        is_header_value("Origin"@),
{
    reveal_strlit("access-control-allow-origin");
    reveal_strlit("access-control-allow-credentials");
    reveal_strlit("access-control-allow-methods");
    reveal_strlit("access-control-allow-headers");
    reveal_strlit("access-control-max-age");
    reveal_strlit("vary");
    reveal_strlit("true");
    reveal_strlit("Origin");
    lemma_plain_name("access-control-allow-origin"@);
    lemma_plain_name("access-control-allow-credentials"@);
    lemma_plain_name("access-control-allow-methods"@);
    lemma_plain_name("access-control-allow-headers"@);
    lemma_plain_name("access-control-max-age"@);
    lemma_plain_name("vary"@);
}

/// A response that is opened names the origin, says so where credentials go along, and
/// tells caches that it differs by origin unless it is open to all. What else it is stays.
pub proof fn law_opened_responses_name_the_origin(
    c: CorsView,
    r: ResponseView,
    allowed: Seq<char>,
    other: Seq<char>,
)
    requires
        is_header_value(allowed),
    ensures
        values_of(c.granted(r, allowed).headers, "access-control-allow-origin"@) == seq![allowed],
        c.credentials ==> values_of(
            c.granted(r, allowed).headers,
            "access-control-allow-credentials"@,
        ) == seq!["true"@],
        !c.credentials ==> values_of(
            c.granted(r, allowed).headers,
            "access-control-allow-credentials"@,
        ) == values_of(r.headers, "access-control-allow-credentials"@),
        allowed != "*"@ ==> values_of(c.granted(r, allowed).headers, "vary"@) == values_of(
            r.headers,
            "vary"@,
        ).push("Origin"@),
        allowed == "*"@ ==> values_of(c.granted(r, allowed).headers, "vary"@) == values_of(
            r.headers,
            "vary"@,
        ),
        lower(other) != lower("access-control-allow-origin"@) && lower(other) != lower(
            "access-control-allow-credentials"@,
        ) && lower(other) != lower("vary"@) ==> values_of(c.granted(r, allowed).headers, other)
            == values_of(r.headers, other),
        c.granted(r, allowed).status == r.status,
        c.granted(r, allowed).body == r.body,
        c.granted(r, allowed).content_type == r.content_type,
        c.granted(r, allowed).error == r.error,
{
    lemma_names();
}

/// A question before the request proper is answered 204 without a body. Where the origin
/// is granted, the answer tells the methods, the headers that were set or else those that
/// were asked for, and for how long it holds; where it is not, it tells nothing.
pub proof fn law_questions_are_answered(
    c: CorsView,
    grant: Option<Seq<char>>,
    asked: Option<Seq<char>>,
)
    ensures
        c.preflight(grant, asked).status == 204,
        c.preflight(grant, asked).body == BodyView::Bytes(encode_utf8(""@)),
        grant is None ==> c.preflight(grant, asked).headers == no_headers(),
        grant matches Some(allowed) ==> (is_header_value(allowed) ==> values_of(
            c.preflight(grant, asked).headers,
            "access-control-allow-origin"@,
        ) == seq![allowed]),
        grant is Some && is_header_value(c.methods) ==> values_of(
            c.preflight(grant, asked).headers,
            "access-control-allow-methods"@,
        ) == seq![c.methods],
        grant is Some ==> (c.headers matches Some(h) ==> (is_header_value(h) ==> values_of(
            c.preflight(grant, asked).headers,
            "access-control-allow-headers"@,
        ) == seq![h])),
        grant is Some && c.headers is None ==> (asked matches Some(h) ==> (is_header_value(h)
            ==> values_of(c.preflight(grant, asked).headers, "access-control-allow-headers"@)
            == seq![h])),
        grant is Some && c.headers is None && asked is None ==> values_of(
            c.preflight(grant, asked).headers,
            "access-control-allow-headers"@,
        ).len() == 0,
        grant is Some ==> (c.max_age_secs matches Some(age) ==> (is_header_value(
            decimal(age as nat),
        ) ==> values_of(c.preflight(grant, asked).headers, "access-control-max-age"@) == seq![
            decimal(age as nat),
        ])),
        grant is Some && c.max_age_secs is None ==> values_of(
            c.preflight(grant, asked).headers,
            "access-control-max-age"@,
        ).len() == 0,
{
    lemma_names();
}

/// Only a request with the method OPTIONS that asks for a method is such a question.
pub proof fn law_questions_ask_for_a_method(req: Request)
    ensures
        is_preflight(req) <==> req.method@ == "OPTIONS"@ && req.header_of(
            "access-control-request-method"@,
        ) is Some,
{
}

/// Rules that were not opened let no origin in, name the seven common methods, and ask for
/// nothing else.
pub proof fn law_nothing_is_opened_at_first(origin: Seq<char>)
    ensures
        CorsView::closed_to_all().grant(origin) is None,
        CorsView::closed_to_all().methods == "GET, POST, PUT, PATCH, DELETE, OPTIONS, HEAD"@,
        CorsView::closed_to_all().headers is None,
        CorsView::closed_to_all().max_age_secs is None,
        !CorsView::closed_to_all().credentials,
{
}

} // verus!
