//! What handlers take out of requests.

use vstd::prelude::*;
use vstd::utf8::encode_utf8;

use crate::codec::{law_text_is_read_back, text_of};
use crate::error::{HttpError, HttpErrorView};
use crate::form::bytes_between;
use crate::request::Request;

verus! {

/// What can be taken out of a request.
pub trait FromRequest: Sized {
    /// Whether this is what is taken out of a request.
    spec fn is_taken(req: Request, r: Result<Self, HttpError>) -> bool;

    /// Takes it out of a request, or says why it cannot be.
    fn from_request(req: &Request) -> (r: Result<Self, HttpError>)
        requires
            req.wf(),
        ensures
            Self::is_taken(*req, r),
    ;
}

/// The body.
impl FromRequest for Vec<u8> {
    open spec fn is_taken(req: Request, r: Result<Self, HttpError>) -> bool {
        r matches Ok(b) && b@ == req.body@
    }

    fn from_request(req: &Request) -> (r: Result<Self, HttpError>) {
        let body: &Vec<u8> = req.bytes();
        let b: Vec<u8> = bytes_between(body, 0, body.len());
        assert(body@.subrange(0, body@.len() as int) =~= body@);
        Ok(b)
    }
}

/// The body as text.
impl FromRequest for String {
    open spec fn is_taken(req: Request, r: Result<Self, HttpError>) -> bool {
        r matches Ok(s) && s@ == text_of(req.body@)
    }

    fn from_request(req: &Request) -> (r: Result<Self, HttpError>) {
        Ok(req.text())
    }
}

/// What can be taken out, or nothing; this never fails.
impl<E: FromRequest> FromRequest for Option<E> {
    open spec fn is_taken(req: Request, r: Result<Self, HttpError>) -> bool {
        r matches Ok(o) && match o {
            Some(e) => E::is_taken(req, Ok(e)),
            None => exists|err: HttpError| E::is_taken(req, Err(err)),
        }
    }

    fn from_request(req: &Request) -> (r: Result<Self, HttpError>) {
        match E::from_request(req) {
            Ok(e) => Ok(Some(e)),
            Err(err) => {
                assert(E::is_taken(*req, Err(err)));
                Ok(None)
            },
        }
    }
}

/// What can be taken out, or why it cannot be; this never fails.
impl<E: FromRequest> FromRequest for Result<E, HttpError> {
    open spec fn is_taken(req: Request, r: Result<Self, HttpError>) -> bool {
        r matches Ok(inner) && E::is_taken(req, inner)
    }

    fn from_request(req: &Request) -> (r: Result<Self, HttpError>) {
        Ok(E::from_request(req))
    }
}

impl Request {
    /// Takes something out of the request.
    pub fn extract<E: FromRequest>(&self) -> (r: Result<E, HttpError>)
        requires
            self.wf(),
        ensures
            E::is_taken(*self, r),
    {
        E::from_request(self)
    }

    /// The value of a kind of state, or the error that there is none.
    pub fn state_or_error(&self, kind: u64) -> (r: Result<u64, HttpError>)
        requires
            self.wf(),
        ensures
            match self.state.lookup(kind) {
                Some(v) => r == Ok::<u64, HttpError>(v),
                None => r matches Err(e) && e@ == (HttpErrorView {
                    status: 500,
                    message: "State not found"@,
                }),
            },
    {
        match self.state(kind) {
            Some(v) => Ok(v),
            None => Err(HttpError::internal_server_error("State not found")),
        }
    }

    /// The one path parameter, where there is exactly one.
    pub fn sole_param(&self) -> (r: Option<&str>)
        ensures
            match r {
                Some(v) => self.params.entries@.len() == 1 && v@ == self.params.entries@[0].1@,
                None => self.params.entries@.len() != 1,
            },
    {
        if self.params.entries.len() == 1 {
            Some(self.params.entries[0].1.as_str())
        } else {
            None
        }
    }
}

/// The body is taken out as it is, and a text that was written into it is taken out again.
pub proof fn law_bodies_are_taken_out(
    req: Request,
    b: Result<Vec<u8>, HttpError>,
    s: Result<String, HttpError>,
    text: Seq<char>,
)
    ensures
        <Vec<u8> as FromRequest>::is_taken(req, b) ==> (b matches Ok(v) && v@ == req.body@),
        <String as FromRequest>::is_taken(req, s) && req.body@ == encode_utf8(text) ==> (s matches
            Ok(t) && t@ == text),
{
    law_text_is_read_back(text);
}

/// What may be missing is there exactly where it can be taken out, and what may fail is
/// the failure itself: neither fails the request.
pub proof fn law_optional_parts_never_fail<E: FromRequest>(
    req: Request,
    o: Result<Option<E>, HttpError>,
    r: Result<Result<E, HttpError>, HttpError>,
)
    ensures
        <Option<E> as FromRequest>::is_taken(req, o) ==> o is Ok,
        <Option<E> as FromRequest>::is_taken(req, o) ==> (o matches Ok(Some(e)) ==> E::is_taken(
            req,
            Ok(e),
        )),
        <Option<E> as FromRequest>::is_taken(req, o) && (forall|err: HttpError|
            !(#[trigger] E::is_taken(req, Err(err)))) ==> (o matches Ok(x) && x is Some),
        <Result<E, HttpError> as FromRequest>::is_taken(req, r) ==> (r matches Ok(inner)
            && E::is_taken(req, inner)),
{
}

} // verus!
