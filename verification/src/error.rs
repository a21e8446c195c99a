//! Errors that answer a request.

use vstd::prelude::*;

use crate::text::{decimal, to_decimal};

verus! {

/// A status and a message that answer a request.
#[derive(Debug)]
pub struct HttpError {
    pub status: u16,
    pub message: String,
}

/// An error as contracts speak of it.
#[verifier::ext_equal]
pub struct HttpErrorView {
    pub status: u16,
    pub message: Seq<char>,
}

impl View for HttpError {
    type V = HttpErrorView;

    open spec fn view(&self) -> HttpErrorView {
        HttpErrorView { status: self.status, message: self.message@ }
    }
}

impl HttpErrorView {
    /// The status and the message in one line.
    pub open spec fn text(self) -> Seq<char> {
        decimal(self.status as nat) + " "@ + self.message
    }
}

impl Clone for HttpError {
    fn clone(&self) -> (r: HttpError)
        ensures
            r == *self,
    {
        HttpError { status: self.status, message: self.message.clone() }
    }
}

impl HttpError {
    /// An error with a status and a message.
    pub fn new(status: u16, message: &str) -> (r: HttpError)
        ensures
            r@ == (HttpErrorView { status, message: message@ }),
    {
        HttpError { status, message: message.to_owned() }
    }

    /// The request is wrong.
    pub fn bad_request(message: &str) -> (r: HttpError)
        ensures
            r@ == (HttpErrorView { status: 400, message: message@ }),
    {
        HttpError::new(400, message)
    }

    /// The client is not known.
    pub fn unauthorized(message: &str) -> (r: HttpError)
        ensures
            r@ == (HttpErrorView { status: 401, message: message@ }),
    {
        HttpError::new(401, message)
    }

    /// The client may not do this.
    pub fn forbidden(message: &str) -> (r: HttpError)
        ensures
            r@ == (HttpErrorView { status: 403, message: message@ }),
    {
        HttpError::new(403, message)
    }

    /// There is nothing here.
    pub fn not_found(message: &str) -> (r: HttpError)
        ensures
            r@ == (HttpErrorView { status: 404, message: message@ }),
    {
        HttpError::new(404, message)
    }

    /// The server failed.
    pub fn internal_server_error(message: &str) -> (r: HttpError)
        ensures
            r@ == (HttpErrorView { status: 500, message: message@ }),
    {
        HttpError::new(500, message)
    }

    /// The status.
    pub fn status(&self) -> (r: u16)
        ensures
            r == self@.status,
    {
        self.status
    }

    /// The message.
    pub fn message(&self) -> (r: &str)
        ensures
            r@ == self@.message,
    {
        self.message.as_str()
    }

    /// The status and the message in one line.
    pub fn line(&self) -> (r: String)
        ensures
            r@ == self@.text(),
    {
        to_decimal(self.status as u64).concat(" ").concat(self.message.as_str())
    }
}

/// What can answer a request as an error.
pub trait IntoHttpError: Sized {
    /// The error as contracts speak of it.
    spec fn as_error(self) -> HttpErrorView;

    /// The error.
    fn into_http_error(self) -> (r: HttpError)
        ensures
            r@ == self.as_error(),
    ;
}

impl IntoHttpError for HttpError {
    open spec fn as_error(self) -> HttpErrorView {
        self@
    }

    fn into_http_error(self) -> (r: HttpError) {
        self
    }
}

impl IntoHttpError for String {
    open spec fn as_error(self) -> HttpErrorView {
        HttpErrorView { status: 500, message: self@ }
    }

    fn into_http_error(self) -> (r: HttpError) {
        HttpError { status: 500, message: self }
    }
}

impl IntoHttpError for &'static str {
    open spec fn as_error(self) -> HttpErrorView {
        HttpErrorView { status: 500, message: self@ }
    }

    fn into_http_error(self) -> (r: HttpError) {
        HttpError::internal_server_error(self)
    }
}

/// An error is told by its status in three digits, a space and its message; two errors
/// with the same status and text have the same message.
pub proof fn law_errors_tell_status_and_message(e: HttpErrorView)
    ensures
        e.text() == decimal(e.status as nat) + seq![' '] + e.message,
        100 <= e.status <= 999 ==> e.text().len() == 4 + e.message.len() && e.text().skip(4)
            == e.message,
{
    reveal_strlit(" ");
    assert(" "@ =~= seq![' ']);
    if 100 <= e.status <= 999 {
        let n = e.status as nat;
        assert(decimal(n) == decimal(n / 10).push(crate::text::digit_char(n % 10)));
        assert(decimal(n / 10) == decimal(n / 10 / 10).push(crate::text::digit_char(n / 10 % 10)));
        assert(decimal(n / 10 / 10).len() == 1);
        assert(e.text().skip(4) =~= e.message);
    }
}

/// A text that is an error is one of the server, with the text as its message; an error
/// stays what it is.
pub proof fn law_texts_are_errors_of_the_server(e: HttpError, s: String, t: &'static str)
    ensures
        e.as_error() == e@,
        s.as_error().status == 500,
        s.as_error().message == s@,
        t.as_error().status == 500,
        t.as_error().message == t@,
{
}

} // verus!
