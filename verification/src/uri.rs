//! URIs, taken apart by the `http` crate that `hyper` exports.

use vstd::prelude::*;

use crate::text::{first_index, opt, parsed, rsplit_once};

verus! {

/// An authority: its text, and the host and the port in it.
#[derive(Clone, Debug)]
pub struct AuthorityParts {
    pub text: String,
    pub host: String,
    pub port: Option<u16>,
}

/// The parts of a URI that are present in it.
#[derive(Clone, Debug)]
pub struct UriParts {
    pub scheme: Option<String>,
    pub authority: Option<AuthorityParts>,
    pub path_and_query: Option<String>,
}

/// The scheme, the authority, and the path with the query of the URI that a text
/// spells, or `None` where it spells none.
pub uninterp spec fn parsed_uri(text: Seq<char>) -> Option<
    (Option<Seq<char>>, Option<Seq<char>>, Option<Seq<char>>),
>;

/// The text of an optional authority.
pub open spec fn authority_text(a: Option<AuthorityParts>) -> Option<Seq<char>> {
    match a {
        Some(p) => Some(p.text@),
        None => None,
    }
}

/// The host of an authority: what follows the user information, up to the end of
/// the bracketed address or to the first colon.
pub open spec fn authority_host(text: Seq<char>) -> Seq<char> {
    let host_port = match rsplit_once(text, '@') {
        Some((_, rest)) => rest,
        None => text,
    };
    if host_port.len() > 0 && host_port[0] == '[' {
        host_port.take(first_index(host_port, ']') + 1)
    } else {
        host_port.take(first_index(host_port, ':'))
    }
}

/// The port of an authority: the number after its last colon, where there is one.
pub open spec fn authority_port(text: Seq<char>) -> Option<nat> {
    match rsplit_once(text, ':') {
        Some((_, digits)) => parsed(digits, u16::MAX as nat),
        None => None,
    }
}

/// An optional number without its width.
pub open spec fn port_number(port: Option<u16>) -> Option<nat> {
    match port {
        Some(p) => Some(p as nat),
        None => None,
    }
}

/// `http::Uri::from_str`, read through `scheme_str`, `authority` and
/// `path_and_query`. What the text parses into has the name `parsed_uri`. The host
/// and the port are those that `Authority::host` and `Authority::port_u16` find in
/// the text of the authority.
#[verifier::external_body]
pub(crate) fn parse_uri(text: &str) -> (r: Option<UriParts>)
    ensures
        match r {
            Some(p) => parsed_uri(text@) == Some(
                (opt(p.scheme), authority_text(p.authority), opt(p.path_and_query)),
            ),
            None => parsed_uri(text@) is None,
        },
        r matches Some(p) ==> (p.authority matches Some(a) ==> a.host@ == authority_host(a.text@)
            && port_number(a.port) == authority_port(a.text@)),
{
    let uri = text.parse::<hyper::Uri>().ok()?;
    Some(UriParts {
        scheme: uri.scheme_str().map(|s| s.to_string()),
        authority: uri.authority().map(|a| AuthorityParts {
            text: a.as_str().to_string(),
            host: a.host().to_string(),
            port: a.port_u16(),
        }),
        path_and_query: uri.path_and_query().map(|p| p.as_str().to_string()),
    })
}

} // verus!
