//! Response cookies, and values signed with HMAC-SHA256.

use vstd::prelude::*;
use vstd::utf8::encode_utf8;

use crate::codec::{
    base64url_decode, base64url_encode, base64url_text, hmac_sha256, hmac_sha256_matches, hmac_tag,
    is_url_text, law_base64_stands_for_one, lemma_base64url_is_url_text,
};
use crate::text::{
    chars, decimal, lemma_last_index, lemma_last_index_is, opt, rsplit_once, rsplit_once_text,
    to_decimal,
};

verus! {

/// The `SameSite` attribute of a cookie.
#[derive(Clone, Copy, Debug, PartialEq, Eq, Structural)]
pub enum SameSite {
    Strict,
    Lax,
    /// Sent with every request; the attribute's value is `None`.
    Unrestricted,
}

impl SameSite {
    /// The value of the attribute, as contracts speak of it.
    pub open spec fn spec_str(self) -> Seq<char> {
        match self {
            SameSite::Strict => "Strict"@,
            SameSite::Lax => "Lax"@,
            SameSite::Unrestricted => "None"@,
        }
    }

    /// The value of the attribute.
    pub fn as_str(self) -> (r: &'static str)
        ensures
            r@ == self.spec_str(),
    {
        match self {
            SameSite::Strict => "Strict",
            SameSite::Lax => "Lax",
            SameSite::Unrestricted => "None",
        }
    }
}

/// A response cookie with the standard attributes.
#[derive(Clone, Debug)]
pub struct Cookie {
    pub name: String,
    pub value: String,
    pub path: String,
    pub domain: Option<String>,
    pub max_age_secs: Option<i64>,
    pub secure: bool,
    pub http_only: bool,
    pub same_site: Option<SameSite>,
}

/// Whether a character may not be part of a cookie's name or value.
pub open spec fn is_cookie_break(c: char) -> bool {
    c == ';' || c == ',' || c == '\r' || c == '\n'
}

/// `s` without the characters that would end a cookie.
pub open spec fn sanitized(s: Seq<char>) -> Seq<char>
    decreases s.len(),
{
    if s.len() == 0 {
        s
    } else if is_cookie_break(s.last()) {
        sanitized(s.drop_last())
    } else {
        sanitized(s.drop_last()).push(s.last())
    }
}

/// A signed number in decimal.
pub open spec fn signed_decimal(n: int) -> Seq<char> {
    if n < 0 {
        "-"@ + decimal((-n) as nat)
    } else {
        decimal(n as nat)
    }
}

/// A signed number in decimal.
pub fn to_signed_decimal(n: i64) -> (r: String)
    ensures
        r@ == signed_decimal(n as int),
{
    if n == i64::MIN {
        "-".to_owned().concat(to_decimal(0x8000_0000_0000_0000).as_str())
    } else if n < 0 {
        "-".to_owned().concat(to_decimal((-n) as u64).as_str())
    } else {
        to_decimal(n as u64)
    }
}

/// An attribute of a cookie, where it has a value.
pub open spec fn attribute(name: Seq<char>, value: Option<Seq<char>>) -> Seq<char> {
    match value {
        Some(v) => name + v,
        None => Seq::empty(),
    }
}

/// A flag of a cookie, where it is set.
pub open spec fn flag(name: Seq<char>, set: bool) -> Seq<char> {
    if set {
        name
    } else {
        Seq::empty()
    }
}

/// The text without the characters that would end a cookie.
pub fn sanitize_cookie_part(value: &str) -> (r: String)
    ensures
        r@ == sanitized(value@),
{
    let v: Vec<char> = chars(value);
    let mut r: String = String::new();
    let mut i: usize = 0;
    assert(v@.take(0) =~= Seq::empty());
    while i < v.len()
        invariant
            i <= v.len(),
            r@ == sanitized(v@.take(i as int)),
        decreases v.len() - i,
    {
        let c: char = v[i];
        proof {
            assert(v@.take(i + 1).drop_last() =~= v@.take(i as int));
            assert(v@.take(i + 1).last() == c);
        }
        if !(c == ';' || c == ',' || c == '\r' || c == '\n') {
            r.push(c);
        }
        i += 1;
    }
    assert(v@.take(v@.len() as int) =~= v@);
    r
}

impl Cookie {
    /// The optional age in decimal.
    pub open spec fn age_text(self) -> Option<Seq<char>> {
        match self.max_age_secs {
            Some(n) => Some(signed_decimal(n as int)),
            None => None,
        }
    }

    /// The optional `SameSite` value.
    pub open spec fn site_text(self) -> Option<Seq<char>> {
        match self.same_site {
            Some(s) => Some(s.spec_str()),
            None => None,
        }
    }

    /// The value of the `Set-Cookie` header.
    pub open spec fn header_value(self) -> Seq<char> {
        self.name@ + "="@ + self.value@ + "; Path="@ + self.path@ + attribute(
            "; Domain="@,
            opt(self.domain),
        ) + attribute("; Max-Age="@, self.age_text()) + flag("; Secure"@, self.secure) + flag(
            "; HttpOnly"@,
            self.http_only,
        ) + attribute("; SameSite="@, self.site_text())
    }

    /// A cookie for the whole site, without other attributes.
    pub fn new(name: &str, value: &str) -> (r: Cookie)
        ensures
            r.name@ == sanitized(name@),
            r.value@ == sanitized(value@),
            r.path@ == "/"@,
            r.domain is None && r.max_age_secs is None && !r.secure && !r.http_only
                && r.same_site is None,
    {
        Cookie {
            name: sanitize_cookie_part(name),
            value: sanitize_cookie_part(value),
            path: "/".to_owned(),
            domain: None,
            max_age_secs: None,
            secure: false,
            http_only: false,
            same_site: None,
        }
    }

    /// The cookie for a path.
    pub fn path(self, path: &str) -> (r: Cookie)
        ensures
            r.path@ == path@,
            r == (Cookie { path: r.path, ..self }),
    {
        Cookie { path: path.to_owned(), ..self }
    }

    /// The cookie for a domain.
    pub fn domain(self, domain: &str) -> (r: Cookie)
        ensures
            opt(r.domain) == Some(domain@),
            r == (Cookie { domain: r.domain, ..self }),
    {
        Cookie { domain: Some(domain.to_owned()), ..self }
    }

    /// The cookie with an age in seconds. Zero removes it at once.
    pub fn max_age_secs(self, seconds: i64) -> (r: Cookie)
        ensures
            r == (Cookie { max_age_secs: Some(seconds), ..self }),
    {
        Cookie { max_age_secs: Some(seconds), ..self }
    }

    /// The cookie for secure connections only, or not.
    pub fn secure(self, secure: bool) -> (r: Cookie)
        ensures
            r == (Cookie { secure, ..self }),
    {
        Cookie { secure, ..self }
    }

    /// The cookie hidden from scripts, or not.
    pub fn http_only(self, http_only: bool) -> (r: Cookie)
        ensures
            r == (Cookie { http_only, ..self }),
    {
        Cookie { http_only, ..self }
    }

    /// The cookie with a `SameSite` attribute.
    pub fn same_site(self, same_site: SameSite) -> (r: Cookie)
        ensures
            r == (Cookie { same_site: Some(same_site), ..self }),
    {
        Cookie { same_site: Some(same_site), ..self }
    }

    /// The value of the `Set-Cookie` header.
    pub fn to_header_value(&self) -> (r: String)
        ensures
            r@ == self.header_value(),
    {
        let mut out: String = self.name.clone().concat("=").concat(self.value.as_str()).concat(
            "; Path=",
        ).concat(self.path.as_str());
        let ghost head = out@;
        if let Some(domain) = &self.domain {
            out.append("; Domain=");
            out.append(domain.as_str());
        }
        assert(out@ =~= head + attribute("; Domain="@, opt(self.domain)));
        let ghost head = out@;
        if let Some(age) = self.max_age_secs {
            out.append("; Max-Age=");
            out.append(to_signed_decimal(age).as_str());
        }
        assert(out@ =~= head + attribute("; Max-Age="@, self.age_text()));
        let ghost head = out@;
        if self.secure {
            out.append("; Secure");
        }
        assert(out@ =~= head + flag("; Secure"@, self.secure));
        let ghost head = out@;
        if self.http_only {
            out.append("; HttpOnly");
        }
        assert(out@ =~= head + flag("; HttpOnly"@, self.http_only));
        let ghost head = out@;
        if let Some(site) = self.same_site {
            out.append("; SameSite=");
            out.append(site.as_str());
        }
        assert(out@ =~= head + attribute("; SameSite="@, self.site_text()));
        out
    }
}

/// The signature of a value.
pub open spec fn signature(secret: Seq<char>, value: Seq<char>) -> Seq<char> {
    base64url_text(hmac_tag(encode_utf8(secret), encode_utf8(value)))
}

/// The value with its signature after a full stop.
pub open spec fn signed(secret: Seq<char>, value: Seq<char>) -> Seq<char> {
    value + "."@ + signature(secret, value)
}

/// The value of a signed text whose signature is the value's own.
pub open spec fn verified(secret: Seq<char>, text: Seq<char>) -> Option<Seq<char>> {
    match rsplit_once(text, '.') {
        Some((value, own)) => if own == signature(secret, value) {
            Some(value)
        } else {
            None
        },
        None => None,
    }
}

/// Signs a value. The signature has 43 letters, digits, dashes and underscores. What is
/// signed verifies under the same secret as the value itself.
pub fn sign_value(secret: &str, value: &str) -> (r: String)
    ensures
        r@ == signed(secret@, value@),
        verified(secret@, r@) == Some(value@),
        rsplit_once(r@, '.') == Some((value@, signature(secret@, value@))),
        is_url_text(signature(secret@, value@)),
        signature(secret@, value@).len() == 43,
{
    let tag: Vec<u8> = hmac_sha256(secret.as_bytes(), value.as_bytes());
    let own: String = base64url_encode(&tag);
    proof {
        lemma_base64url_is_url_text(tag@);
        lemma_signed_parts(secret@, value@);
    }
    value.to_owned().concat(".").concat(own.as_str())
}

/// The value of a signed text, where its signature is the value's own. That is so of
/// what signing gives, and of nothing else.
pub fn verify_value(secret: &str, signed: &str) -> (r: Option<String>)
    ensures
        opt(r) == verified(secret@, signed@),
        forall|v: Seq<char>| opt(r) == Some(v) <==> signed@ == #[trigger] self::signed(secret@, v),
{
    proof {
        assert forall|v: Seq<char>|
            verified(secret@, signed@) == Some(v) <==> signed@ == #[trigger] self::signed(
                secret@,
                v,
            ) by {
            law_signing_is_undone(secret@, v, signed@);
        }
    }
    match rsplit_once_text(signed, '.') {
        None => None,
        Some((value, own)) => match base64url_decode(own.as_str()) {
            None => None,
            Some(tag) => {
                proof {
                    law_base64_stands_for_one(
                        tag@,
                        hmac_tag(encode_utf8(secret@), encode_utf8(value@)),
                    );
                }
                if hmac_sha256_matches(secret.as_bytes(), value.as_str().as_bytes(), &tag) {
                    Some(value)
                } else {
                    None
                }
            },
        },
    }
}

/// The last full stop of a signed text is the one before the signature.
proof fn lemma_signed_parts(secret: Seq<char>, value: Seq<char>)
    ensures
        rsplit_once(signed(secret, value), '.') == Some((value, signature(secret, value))),
{
    reveal_strlit(".");
    let own = signature(secret, value);
    let text = signed(secret, value);
    let n = value.len() as int;
    lemma_base64url_is_url_text(hmac_tag(encode_utf8(secret), encode_utf8(value)));
    assert(text[n] == '.');
    assert forall|i: int| n < i < text.len() implies text[i] != '.' by {
        assert(text[i] == own[i - n - 1]);
    }
    lemma_last_index_is(text, '.', n);
    assert(text.take(n) =~= value);
    assert(text.skip(n + 1) =~= own);
}

/// A text verifies as a value exactly where it is that value with its signature, also
/// where the value has a full stop in it. Every other text is refused.
pub proof fn law_signing_is_undone(secret: Seq<char>, value: Seq<char>, text: Seq<char>)
    ensures
        verified(secret, text) == Some(value) <==> text == signed(secret, value),
{
    lemma_signed_parts(secret, value);
    if verified(secret, text) == Some(value) {
        reveal_strlit(".");
        lemma_last_index(text, '.');
        assert(text =~= signed(secret, value));
    }
}

/// Different values have different signed texts under one secret.
pub proof fn law_signed_texts_differ(secret: Seq<char>, one: Seq<char>, other: Seq<char>)
    requires
        signed(secret, one) == signed(secret, other),
    ensures
        one == other,
{
    lemma_signed_parts(secret, one);
    lemma_signed_parts(secret, other);
}

/// A sanitized text has no character that would end a cookie.
pub proof fn law_sanitized_text_stays_in_its_cookie(s: Seq<char>)
    ensures
        forall|i: int| 0 <= i < sanitized(s).len() ==> !is_cookie_break(#[trigger] sanitized(s)[i]),
    decreases s.len(),
{
    if s.len() > 0 {
        let t = sanitized(s.drop_last());
        law_sanitized_text_stays_in_its_cookie(s.drop_last());
        assert forall|i: int| 0 <= i < sanitized(s).len() implies !is_cookie_break(
            #[trigger] sanitized(s)[i],
        ) by {
            if i < t.len() {
                assert(!is_cookie_break(t[i]));
                assert(sanitized(s)[i] == t[i]);
            }
        }
    }
}

/// A text without such characters is kept as it is.
pub proof fn law_sanitizing_keeps_plain_text(s: Seq<char>)
    requires
        forall|i: int| 0 <= i < s.len() ==> !is_cookie_break(#[trigger] s[i]),
    ensures
        sanitized(s) == s,
    decreases s.len(),
{
    if s.len() > 0 {
        let t = s.drop_last();
        assert forall|i: int| 0 <= i < t.len() implies !is_cookie_break(#[trigger] t[i]) by {
            assert(t[i] == s[i]);
        }
        law_sanitizing_keeps_plain_text(t);
        assert(!is_cookie_break(s[s.len() - 1]));
        assert(t.push(s.last()) =~= s);
    }
}

/// A cookie is told as its name and value, its path, and then what else was set, in a fixed
/// order; what was not set is not told.
pub proof fn law_cookies_tell_what_was_set(c: Cookie)
    ensures
        ({
            let base = c.name@ + "="@ + c.value@ + "; Path="@ + c.path@;
            let a = match c.domain {
                Some(d) => base + "; Domain="@ + d@,
                None => base,
            };
            let b = match c.max_age_secs {
                Some(n) => if n < 0 {
                    a + "; Max-Age="@ + "-"@ + decimal((-n) as nat)
                } else {
                    a + "; Max-Age="@ + decimal(n as nat)
                },
                None => a,
            };
            let d = if c.secure {
                b + "; Secure"@
            } else {
                b
            };
            let e = if c.http_only {
                d + "; HttpOnly"@
            } else {
                d
            };
            c.header_value() == (match c.same_site {
                None => e,
                Some(SameSite::Strict) => e + "; SameSite="@ + "Strict"@,
                Some(SameSite::Lax) => e + "; SameSite="@ + "Lax"@,
                Some(SameSite::Unrestricted) => e + "; SameSite="@ + "None"@,
            })
        }),
{
    let base = c.name@ + "="@ + c.value@ + "; Path="@ + c.path@;
    let a = match c.domain {
        Some(d) => base + "; Domain="@ + d@,
        None => base,
    };
    assert(base + attribute("; Domain="@, opt(c.domain)) =~= a);
    let b = match c.max_age_secs {
        Some(n) => if n < 0 {
            a + "; Max-Age="@ + "-"@ + decimal((-n) as nat)
        } else {
            a + "; Max-Age="@ + decimal(n as nat)
        },
        None => a,
    };
    assert(a + attribute("; Max-Age="@, c.age_text()) =~= b);
    let d = if c.secure {
        b + "; Secure"@
    } else {
        b
    };
    assert(b + flag("; Secure"@, c.secure) =~= d);
    let e = if c.http_only {
        d + "; HttpOnly"@
    } else {
        d
    };
    assert(d + flag("; HttpOnly"@, c.http_only) =~= e);
    let f = match c.same_site {
        None => e,
        Some(SameSite::Strict) => e + "; SameSite="@ + "Strict"@,
        Some(SameSite::Lax) => e + "; SameSite="@ + "Lax"@,
        Some(SameSite::Unrestricted) => e + "; SameSite="@ + "None"@,
    };
    assert(e + attribute("; SameSite="@, c.site_text()) =~= f);
}

/// Characters that would end a cookie are left out wherever they stand, and no others.
pub proof fn law_sanitizing_leaves_out_breaks_alone(s: Seq<char>, c: char)
    ensures
        sanitized(Seq::empty()) == Seq::<char>::empty(),
        c == ';' || c == ',' || c == '\r' || c == '\n' ==> sanitized(s.push(c)) == sanitized(s),
        !(c == ';' || c == ',' || c == '\r' || c == '\n') ==> sanitized(s.push(c)) == sanitized(
            s,
        ).push(c),
{
    assert(s.push(c).drop_last() =~= s);
}

/// A signed text is its value, a full stop and the signature.
pub proof fn law_signed_texts_begin_with_their_value(secret: Seq<char>, value: Seq<char>)
    ensures
        signed(secret, value) == value + seq!['.'] + signature(secret, value),
        signature(secret, value) == base64url_text(
            hmac_tag(encode_utf8(secret), encode_utf8(value)),
        ),
{
    reveal_strlit(".");
    assert("."@ =~= seq!['.']);
}

} // verus!
