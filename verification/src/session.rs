//! Sessions in memory, by ids in signed cookies.

use vstd::prelude::*;

use crate::codec::is_url_text;
use crate::cookie::{
    is_cookie_break, law_sanitizing_keeps_plain_text, sanitized, sign_value, signature, signed, verified,
    verify_value, Cookie, SameSite,
};
use crate::headers::few;
use crate::request::Request;
use crate::response::{same_but_headers, Response};
use crate::text::{decimal, opt, rsplit_once_text, same, to_decimal, to_decimal_wide};
use crate::text_map::TextMap;

verus! {

/// The data of a session.
#[derive(Debug)]
pub struct SessionData {
    pub id: String,
    pub data: TextMap,
}

/// Sessions, and how their ids are kept in cookies.
#[derive(Debug)]
pub struct Sessions {
    pub secret: String,
    pub cookie_name: String,
    pub store: Vec<SessionData>,
}

/// Numbers for the sessions of a process.
#[derive(Debug)]
pub struct SessionIds {
    pub next: u64,
}

impl SessionIds {
    /// The numbers from one on.
    pub fn new() -> (r: SessionIds)
        ensures
            r.next == 1,
    {
        SessionIds { next: 1 }
    }

    /// The next number. After the last comes zero.
    pub fn take(&mut self) -> (r: u64)
        ensures
            r == old(self).next,
            final(self).next == (if old(self).next == u64::MAX {
                0
            } else {
                (old(self).next + 1) as u64
            }),
    {
        let r: u64 = self.next;
        self.next = if r == u64::MAX {
            0
        } else {
            r + 1
        };
        r
    }
}

/// The text that a session id is made of.
pub open spec fn id_seed(nanos: u128, count: u64) -> Seq<char> {
    decimal(nanos as nat) + "-"@ + decimal(count as nat)
}

/// The session id for a time and a number: the signature of both.
pub open spec fn id_of(secret: Seq<char>, nanos: u128, count: u64) -> Seq<char> {
    signature(secret, id_seed(nanos, count))
}

/// The session that a cookie names, where its signature is in order.
pub open spec fn session_in(secret: Seq<char>, cookie: Option<Seq<char>>) -> Option<Seq<char>> {
    match cookie {
        Some(text) => verified(secret, text),
        None => None,
    }
}

/// The cookie of a session.
pub open spec fn cookie_for(c: Cookie, name: Seq<char>, secret: Seq<char>, id: Seq<char>) -> bool {
    &&& c.name@ == sanitized(name)
    &&& c.value@ == sanitized(signed(secret, id))
    &&& c.path@ == "/"@
    &&& c.domain is None
    &&& c.max_age_secs is None
    &&& !c.secure
    &&& c.http_only
    &&& c.same_site == Some(SameSite::Lax)
}

impl Sessions {
    /// Whether an entry is that of a session.
    pub open spec fn at(&self, i: int, id: Seq<char>) -> bool {
        0 <= i < self.store@.len() && self.store@[i].id@ == id
    }

    /// Whether each session stands once.
    pub open spec fn wf(&self) -> bool {
        &&& forall|i: int, j: int|
            0 <= i < j < self.store@.len() ==> (#[trigger] self.store@[i]).id@ != (
            #[trigger] self.store@[j]).id@
        &&& forall|i: int| 0 <= i < self.store@.len() ==> (#[trigger] self.store@[i]).data.wf()
    }

    /// A value of a session.
    pub open spec fn lookup(&self, id: Seq<char>, key: Seq<char>) -> Option<Seq<char>> {
        if exists|i: int| self.at(i, id) {
            self.store@[choose|i: int| self.at(i, id)].data.lookup(key)
        } else {
            None
        }
    }

    proof fn lemma_at(&self, i: int, id: Seq<char>)
        requires
            self.wf(),
            self.at(i, id),
        ensures
            forall|key: Seq<char>| #[trigger]
                self.lookup(id, key) == self.store@[i].data.lookup(key),
    {
        let k = choose|k: int| self.at(k, id);
        assert(self.at(k, id));
        assert(k == i);
    }

    /// No sessions yet. Their ids are signed with a secret.
    pub fn new(secret: &str) -> (r: Sessions)
        ensures
            r.wf(),
            r.secret@ == secret@,
            r.cookie_name@ == "rustrest_session"@,
            forall|id: Seq<char>, key: Seq<char>| #[trigger] r.lookup(id, key) is None,
    {
        Sessions {
            secret: secret.to_owned(),
            cookie_name: "rustrest_session".to_owned(),
            store: Vec::new(),
        }
    }

    /// Sets the name of the cookie.
    pub fn cookie_name(self, name: &str) -> (r: Sessions)
        ensures
            r.cookie_name@ == name@,
            r == (Sessions { cookie_name: r.cookie_name, ..self }),
    {
        Sessions { cookie_name: name.to_owned(), ..self }
    }

    /// Where a session stands, or the number of sessions.
    fn find(&self, id: &str) -> (k: usize)
        requires
            self.wf(),
        ensures
            k <= self.store.len(),
            k < self.store.len() ==> self.at(k as int, id@),
            k == self.store.len() ==> forall|i: int| !self.at(i, id@),
    {
        let mut k: usize = 0;
        while k < self.store.len() && !same(self.store[k].id.as_str(), id)
            invariant
                k <= self.store.len(),
                forall|i: int| 0 <= i < k ==> !#[trigger] self.at(i, id@),
            decreases self.store.len() - k,
        {
            k += 1;
        }
        k
    }

    /// A value of a session.
    pub fn get(&self, session_id: &str, key: &str) -> (r: Option<String>)
        requires
            self.wf(),
        ensures
            opt(r) == self.lookup(session_id@, key@),
    {
        let k: usize = self.find(session_id);
        if k < self.store.len() {
            proof {
                self.lemma_at(k as int, session_id@);
            }
            match self.store[k].data.get(key) {
                Some(v) => Some(v.to_owned()),
                None => None,
            }
        } else {
            None
        }
    }

    /// Sets a value of a session.
    pub fn set(&mut self, session_id: &str, key: &str, value: &str)
        requires
            old(self).wf(),
        ensures
            final(self).wf(),
            final(self).secret == old(self).secret,
            final(self).cookie_name == old(self).cookie_name,
            forall|i: Seq<char>, k: Seq<char>| #[trigger]
                final(self).lookup(i, k) == (if i == session_id@ && k == key@ {
                    Some(value@)
                } else {
                    old(self).lookup(i, k)
                }),
    {
        let k: usize = self.find(session_id);
        let ghost was = *self;
        if k == self.store.len() {
            self.store.push(SessionData { id: session_id.to_owned(), data: TextMap::new() });
        }
        let ghost mid = *self;
        self.store[k].data.insert(key.to_owned(), value.to_owned());
        proof {
            let now = *self;
            assert forall|i: int, j: int| 0 <= i < j < now.store@.len() implies (
            #[trigger] now.store@[i]).id@ != (#[trigger] now.store@[j]).id@ by {
                assert(now.store@[i].id@ == mid.store@[i].id@);
                assert(now.store@[j].id@ == mid.store@[j].id@);
                if j < was.store@.len() {
                    assert(was.store@[i].id@ != was.store@[j].id@);
                } else {
                    assert(!was.at(i, session_id@));
                }
            }
            assert forall|i: int| 0 <= i < now.store@.len() implies (
            #[trigger] now.store@[i]).data.wf() by {
                if i != k {
                    assert(now.store@[i] == was.store@[i]);
                }
            }
            assert forall|i: Seq<char>, x: Seq<char>| #[trigger]
                now.lookup(i, x) == (if i == session_id@ && x == key@ {
                    Some(value@)
                } else {
                    was.lookup(i, x)
                }) by {
                if i == session_id@ {
                    assert(now.at(k as int, i));
                    now.lemma_at(k as int, i);
                    if k < was.store@.len() {
                        assert(was.at(k as int, i));
                        was.lemma_at(k as int, i);
                    }
                } else if exists|n: int| was.at(n, i) {
                    let n = choose|n: int| was.at(n, i);
                    was.lemma_at(n, i);
                    assert(now.store@[n] == was.store@[n]);
                    assert(now.at(n, i));
                    now.lemma_at(n, i);
                } else {
                    assert forall|n: int| !now.at(n, i) by {
                        assert(!was.at(n, i));
                        if 0 <= n < now.store@.len() && n != k {
                            assert(now.store@[n] == was.store@[n]);
                        }
                    }
                }
            }
        }
    }

    /// Takes a value out of a session.
    pub fn remove(&mut self, session_id: &str, key: &str)
        requires
            old(self).wf(),
        ensures
            final(self).wf(),
            final(self).secret == old(self).secret,
            final(self).cookie_name == old(self).cookie_name,
            forall|i: Seq<char>, k: Seq<char>| #[trigger]
                final(self).lookup(i, k) == (if i == session_id@ && k == key@ {
                    None
                } else {
                    old(self).lookup(i, k)
                }),
    {
        let k: usize = self.find(session_id);
        if k == self.store.len() {
            return;
        }
        let ghost was = *self;
        let _found: bool = self.store[k].data.remove(key);
        proof {
            let now = *self;
            assert forall|i: int| 0 <= i < now.store@.len() implies (
            #[trigger] now.store@[i]).id@ == was.store@[i].id@ && now.store@[i].data.wf() && (i != k
                ==> now.store@[i] == was.store@[i]) by {
                if i != k {
                    assert(now.store@[i] == was.store@[i]);
                }
            }
            assert forall|i: Seq<char>, x: Seq<char>| #[trigger]
                now.lookup(i, x) == (if i == session_id@ && x == key@ {
                    None
                } else {
                    was.lookup(i, x)
                }) by {
                if exists|n: int| was.at(n, i) {
                    let n = choose|n: int| was.at(n, i);
                    was.lemma_at(n, i);
                    assert(now.at(n, i));
                    now.lemma_at(n, i);
                    assert(i == session_id@ ==> n == k);
                } else {
                    assert forall|n: int| !now.at(n, i) by {
                        assert(!was.at(n, i));
                    }
                }
            }
        }
    }

    /// Forgets a session.
    pub fn clear(&mut self, session_id: &str)
        requires
            old(self).wf(),
        ensures
            final(self).wf(),
            final(self).secret == old(self).secret,
            final(self).cookie_name == old(self).cookie_name,
            forall|i: Seq<char>, k: Seq<char>| #[trigger]
                final(self).lookup(i, k) == (if i == session_id@ {
                    None
                } else {
                    old(self).lookup(i, k)
                }),
    {
        let k: usize = self.find(session_id);
        if k == self.store.len() {
            return;
        }
        let ghost was = *self;
        let _gone: SessionData = self.store.remove(k);
        proof {
            let now = *self;
            assert(now.store@ =~= was.store@.remove(k as int));
            assert forall|i: Seq<char>, x: Seq<char>| #[trigger]
                now.lookup(i, x) == (if i == session_id@ {
                    None
                } else {
                    was.lookup(i, x)
                }) by {
                if i == session_id@ {
                    assert forall|n: int| !now.at(n, i) by {
                        if now.at(n, i) {
                            let m = if n < k {
                                n
                            } else {
                                n + 1
                            };
                            assert(was.store@[m] == now.store@[n]);
                            assert(was.at(m, i) && was.at(k as int, i));
                        }
                    }
                } else if exists|n: int| was.at(n, i) {
                    let n = choose|n: int| was.at(n, i);
                    was.lemma_at(n, i);
                    let m = if n < k {
                        n
                    } else {
                        n - 1
                    };
                    assert(n != k);
                    assert(now.store@[m] == was.store@[n]);
                    assert(now.at(m, i));
                    now.lemma_at(m, i);
                } else {
                    assert forall|n: int| !now.at(n, i) by {
                        if now.at(n, i) {
                            let m = if n < k {
                                n
                            } else {
                                n + 1
                            };
                            assert(was.store@[m] == now.store@[n]);
                            assert(was.at(m, i));
                        }
                    }
                }
            }
        }
    }

    /// A new session id: the signature of the time, in nanoseconds since 1970, and a
    /// number. It has 43 letters, digits, dashes and underscores.
    pub fn generate_id(&self, nanos: u128, count: u64) -> (r: String)
        ensures
            r@ == id_of(self.secret@, nanos, count),
            is_url_text(r@),
            r@.len() == 43,
    {
        let time: String = to_decimal_wide(nanos);
        let number: String = to_decimal(count);
        let seed: String = time.concat("-").concat(number.as_str());
        let text: String = sign_value(self.secret.as_str(), seed.as_str());
        match rsplit_once_text(text.as_str(), '.') {
            Some((_, signature)) => signature,
            None => text,
        }
    }

    /// Finds the session of a request, or begins one, and says which it is and whether
    /// it is new. The request carries the id from then on.
    pub fn begin(&self, req: &mut Request, ids: &mut SessionIds, nanos: u128) -> (r: (
        String,
        bool,
    ))
        requires
            old(req).wf(),
        ensures
            final(req).wf(),
            match session_in(self.secret@, old(req).cookies.lookup(self.cookie_name@)) {
                Some(id) => r.0@ == id && !r.1 && final(ids).next == old(ids).next,
                None => {
                    &&& r.0@ == id_of(self.secret@, nanos, old(ids).next)
                    &&& is_url_text(r.0@)
                    &&& r.0@.len() == 43
                    &&& r.1
                    &&& final(ids).next == (if old(ids).next == u64::MAX {
                        0
                    } else {
                        (old(ids).next + 1) as u64
                    })
                },
            },
            *final(req) == (Request { headers: final(req).headers, ..*old(req) }),
            forall|n: Seq<char>| #[trigger]
                final(req).headers.lookup(n) == (if n == "x-session-id"@ {
                    Some(r.0@)
                } else {
                    old(req).headers.lookup(n)
                }),
    {
        let existing: Option<String> = match req.cookie(self.cookie_name.as_str()) {
            Some(text) => verify_value(self.secret.as_str(), text),
            None => None,
        };
        let (id, is_new): (String, bool) = match existing {
            Some(id) => (id, false),
            None => {
                let count: u64 = ids.take();
                (self.generate_id(nanos, count), true)
            },
        };
        req.headers.insert("x-session-id".to_owned(), id.clone());
        (id, is_new)
    }

    /// The cookie that keeps a session. Where the id consists of letters, digits,
    /// dashes and underscores, as new ids do, the cookie names the session.
    pub fn session_cookie(&self, id: &str) -> (r: Cookie)
        ensures
            cookie_for(r, self.cookie_name@, self.secret@, id@),
            is_url_text(id@) ==> session_in(self.secret@, Some(r.value@)) == Some(id@),
    {
        let text: String = sign_value(self.secret.as_str(), id);
        proof {
            if is_url_text(id@) {
                let n = id@.len() as int;
                assert forall|i: int| 0 <= i < text@.len() implies !is_cookie_break(
                    #[trigger] text@[i],
                ) by {
                    reveal_strlit(".");
                    if i < n {
                        assert(text@[i] == id@[i]);
                    } else if i > n {
                        assert(text@[i] == signature(self.secret@, id@)[i - n - 1]);
                    } else {
                        assert(text@[i] == '.');
                    }
                }
                law_sanitizing_keeps_plain_text(text@);
            }
        }
        Cookie::new(self.cookie_name.as_str(), text.as_str()).http_only(true).same_site(
            SameSite::Lax,
        )
    }

    /// Sends the cookie of a new session along with a response.
    pub fn finish(&self, response: Response, id: &str, is_new: bool) -> (r: Response)
        ensures
            !is_new ==> r@ == response@,
            is_new ==> same_but_headers(r@, response@),
            is_new && few(response@.headers) ==> exists|c: Cookie| #[trigger]
                cookie_for(c, self.cookie_name@, self.secret@, id@) && r@ == response@.with_added(
                    "set-cookie"@,
                    c.header_value(),
                ),
    {
        if !is_new {
            return response;
        }
        let cookie: Cookie = self.session_cookie(id);
        assert(cookie_for(cookie, self.cookie_name@, self.secret@, id@));
        response.set_cookie(cookie)
    }
}

impl Request {
    /// The id of the session.
    pub fn session_id(&self) -> (r: Option<&str>)
        requires
            self.wf(),
        ensures
            match r {
                Some(v) => self.header_of("x-session-id"@) == Some(v@),
                None => self.header_of("x-session-id"@) is None,
            },
    {
        self.header("x-session-id")
    }
}

/// A session holds the data of its entry, and nothing where it has none.
pub proof fn law_sessions_hold_their_data(s: Sessions, i: int, id: Seq<char>, key: Seq<char>)
    requires
        s.wf(),
    ensures
        0 <= i < s.store@.len() ==> s.lookup(s.store@[i].id@, key) == s.store@[i].data.lookup(key),
        (forall|j: int| 0 <= j < s.store@.len() ==> (#[trigger] s.store@[j]).id@ != id) ==> s.lookup(
            id,
            key,
        ) is None,
{
    if 0 <= i < s.store@.len() {
        s.lemma_at(i, s.store@[i].id@);
    }
}

/// A session is resumed by the cookie that was signed for it, and by no other text.
pub proof fn law_only_signed_cookies_resume(secret: Seq<char>, cookie: Seq<char>, id: Seq<char>)
    ensures
        session_in(secret, Some(cookie)) == Some(id) <==> cookie == signed(secret, id),
        session_in(secret, None) is None,
{
    crate::cookie::law_signing_is_undone(secret, id, cookie);
}

/// Different times, or different numbers, make different texts to sign.
pub proof fn law_seeds_differ(n: u128, c: u64, m: u128, d: u64)
    requires
        id_seed(n, c) == id_seed(m, d),
    ensures
        n == m,
        c == d,
{
    reveal_strlit("-");
    assert("-"@ =~= seq!['-']);
    crate::text::law_decimals_are_read_back(n as nat, 0);
    crate::text::law_decimals_are_read_back(m as nat, 0);
    crate::text::law_decimals_are_read_back(c as nat, 0);
    crate::text::law_decimals_are_read_back(d as nat, 0);
    let a = decimal(n as nat);
    let b = decimal(m as nat);
    assert(!a.contains('-'));
    assert(!b.contains('-'));
    crate::text::law_split_at_each_separator(a, decimal(c as nat), '-');
    crate::text::law_split_at_each_separator(b, decimal(d as nat), '-');
    assert(id_seed(n, c) =~= a + seq!['-'] + decimal(c as nat));
    assert(id_seed(m, d) =~= b + seq!['-'] + decimal(d as nat));
}

/// The cookie of a session holds for the whole site, is not read by scripts, comes along
/// when another site leads here, and ends with the browser's own session.
pub proof fn law_session_cookies_are_kept_from_scripts(
    c: Cookie,
    name: Seq<char>,
    secret: Seq<char>,
    id: Seq<char>,
)
    requires
        cookie_for(c, name, secret, id),
    ensures
        c.http_only,
        c.same_site == Some(SameSite::Lax),
        c.path@ == "/"@,
        c.max_age_secs is None,
        c.domain is None,
        !c.secure,
        c.name@ == sanitized(name),
        c.value@ == sanitized(signed(secret, id)),
{
}

/// An id is made of the moment, a dash and the number.
pub proof fn law_seeds_are_moments_and_numbers(nanos: u128, count: u64)
    ensures
        id_seed(nanos, count) == decimal(nanos as nat) + seq!['-'] + decimal(count as nat),
{
    reveal_strlit("-");
    assert("-"@ =~= seq!['-']);
}

} // verus!
