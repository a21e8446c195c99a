//! Requests, and how their parts are read.

use vstd::prelude::*;
use vstd::utf8::encode_utf8;

use crate::codec::{
    base64_decode, base64_text, law_base64_stands_for_one, law_text_is_read_back,
    text_from_utf8_lossy, text_of,
};
use crate::state::StateStore;
use crate::text::{
    copy_opt, is_space, lower, opt, pairs, same, same_ignoring_case, split, split_once, split_once_text,
    split_text, to_lower, to_upper, trim, trimmed, upper, views,
};
use crate::text_map::{MultiMap, TextMap};
use crate::websocket::config::ResolvedWebSocketConfig;
use crate::websocket::types::PeerAddr;

verus! {

/// The version of HTTP that a request came in.
#[derive(Clone, Copy, Debug, PartialEq, Eq, Structural)]
pub enum HttpVersion {
    Http09,
    Http10,
    Http11,
    Http2,
    Http3,
}

/// The value of a hexadecimal digit.
pub open spec fn hex_digit(b: u8) -> Option<u8> {
    if 0x30 <= b <= 0x39 {
        Some((b - 0x30) as u8)
    } else if 0x61 <= b <= 0x66 {
        Some((b - 0x61 + 10) as u8)
    } else if 0x41 <= b <= 0x46 {
        Some((b - 0x41 + 10) as u8)
    } else {
        None
    }
}

/// The value of a hexadecimal digit.
pub fn hex_value(byte: u8) -> (r: Option<u8>)
    ensures
        r == hex_digit(byte),
{
    if 0x30 <= byte && byte <= 0x39 {
        Some(byte - 0x30)
    } else if 0x61 <= byte && byte <= 0x66 {
        Some(byte - 0x61 + 10)
    } else if 0x41 <= byte && byte <= 0x46 {
        Some(byte - 0x41 + 10)
    } else {
        None
    }
}

/// The bytes with each escape `%XX` replaced by the byte it stands for, and plus signs
/// by spaces where they stand for them. What is no escape stays as it is.
pub open spec fn unescaped(b: Seq<u8>, plus_as_space: bool) -> Seq<u8>
    decreases b.len(),
{
    if b.len() == 0 {
        Seq::empty()
    } else if b[0] == 0x2b && plus_as_space {
        seq![0x20u8] + unescaped(b.skip(1), plus_as_space)
    } else if b[0] == 0x25 && b.len() > 2 && hex_digit(b[1]) is Some && hex_digit(b[2]) is Some {
        seq![(16 * hex_digit(b[1])->0 + hex_digit(b[2])->0) as u8] + unescaped(
            b.skip(3),
            plus_as_space,
        )
    } else {
        seq![b[0]] + unescaped(b.skip(1), plus_as_space)
    }
}

/// The bytes with their escapes replaced.
pub fn unescape(bytes: &[u8], plus_as_space: bool) -> (r: Vec<u8>)
    ensures
        r@ == unescaped(bytes@, plus_as_space),
{
    let mut r: Vec<u8> = Vec::new();
    let mut i: usize = 0;
    assert(bytes@.skip(0) =~= bytes@);
    assert(r@ + unescaped(bytes@, plus_as_space) =~= unescaped(bytes@, plus_as_space));
    while i < bytes.len()
        invariant
            i <= bytes.len(),
            r@ + unescaped(bytes@.skip(i as int), plus_as_space) == unescaped(
                bytes@,
                plus_as_space,
            ),
        decreases bytes.len() - i,
    {
        let ghost rest = bytes@.skip(i as int);
        let ghost done = r@;
        assert(rest[0] == bytes@[i as int]);
        let b: u8 = bytes[i];
        if b == 0x2b && plus_as_space {
            r.push(0x20);
            proof {
                assert(rest.skip(1) =~= bytes@.skip(i + 1));
                assert(done + (seq![0x20u8] + unescaped(rest.skip(1), plus_as_space)) =~= r@
                    + unescaped(rest.skip(1), plus_as_space));
            }
            i += 1;
        } else {
            let escape: Option<u8> = if b == 0x25 && bytes.len() - i > 2 {
                assert(rest[1] == bytes@[i + 1]);
                assert(rest[2] == bytes@[i + 2]);
                match (hex_value(bytes[i + 1]), hex_value(bytes[i + 2])) {
                    (Some(high), Some(low)) => Some(high * 16 + low),
                    _ => None,
                }
            } else {
                None
            };
            match escape {
                Some(x) => {
                    r.push(x);
                    proof {
                        assert(rest.skip(3) =~= bytes@.skip(i + 3));
                        assert(done + (seq![x] + unescaped(rest.skip(3), plus_as_space)) =~= r@
                            + unescaped(rest.skip(3), plus_as_space));
                    }
                    i += 3;
                },
                None => {
                    r.push(b);
                    proof {
                        assert(rest.skip(1) =~= bytes@.skip(i + 1));
                        assert(done + (seq![b] + unescaped(rest.skip(1), plus_as_space)) =~= r@
                            + unescaped(rest.skip(1), plus_as_space));
                    }
                    i += 1;
                },
            }
        }
    }
    assert(bytes@.skip(bytes@.len() as int) =~= Seq::empty());
    assert(r@ + Seq::<u8>::empty() =~= r@);
    r
}

/// The text that a component of a URL stands for.
pub open spec fn component(s: Seq<char>, plus_as_space: bool) -> Seq<char> {
    text_of(unescaped(encode_utf8(s), plus_as_space))
}

/// Whether nothing in a component stands for something else.
pub open spec fn is_plain_component(s: Seq<char>, plus_as_space: bool) -> bool {
    !s.contains('%') && (plus_as_space ==> !s.contains('+'))
}

/// Whether a byte is escaped at a place of a text: a percent sign and its two hexadecimal
/// digits, in either case.
pub open spec fn is_escape_at(t: Seq<char>, i: int, b: u8) -> bool {
    &&& t[i] == '%'
    &&& t[i + 1] <= '\u{7f}' && hex_digit(t[i + 1] as u8) == Some((b / 16) as u8)
    &&& t[i + 2] <= '\u{7f}' && hex_digit(t[i + 2] as u8) == Some((b % 16) as u8)
}

/// Whether a text is the escapes of bytes, one after the other.
pub open spec fn is_escaped(t: Seq<char>, bytes: Seq<u8>) -> bool {
    &&& t.len() == 3 * bytes.len()
    &&& forall|i: int| 0 <= i < bytes.len() ==> is_escape_at(t, 3 * i, #[trigger] bytes[i])
}

/// The text that a component of a URL stands for. A component without escapes stands
/// for itself, and one in which every byte of a text is escaped stands for that text.
pub fn decode_component(input: &str, plus_as_space: bool) -> (r: String)
    ensures
        r@ == component(input@, plus_as_space),
        is_plain_component(input@, plus_as_space) ==> r@ == input@,
        forall|s: Seq<char>| #[trigger] is_escaped(input@, encode_utf8(s)) ==> r@ == s,
{
    proof {
        if is_plain_component(input@, plus_as_space) {
            law_plain_components_stand_for_themselves(input@, plus_as_space);
        }
        assert forall|s: Seq<char>| #[trigger] is_escaped(input@, encode_utf8(s)) implies component(
            input@,
            plus_as_space,
        ) == s by {
            law_decoding_undoes_escaping(input@, s, plus_as_space);
        }
    }
    let bytes: Vec<u8> = unescape(input.as_bytes(), plus_as_space);
    text_from_utf8_lossy(&bytes)
}

/// A component without escapes stands for itself.
pub proof fn law_plain_components_stand_for_themselves(s: Seq<char>, plus_as_space: bool)
    requires
        is_plain_component(s, plus_as_space),
    ensures
        component(s, plus_as_space) == s,
{
    lemma_ascii_byte(s, '%');
    lemma_ascii_byte(s, '+');
    lemma_unescaped_plain(encode_utf8(s), plus_as_space);
    law_text_is_read_back(s);
}

/// A component in which every byte of a text is escaped, in digits of either case, stands
/// for that text.
pub proof fn law_decoding_undoes_escaping(t: Seq<char>, s: Seq<char>, plus_as_space: bool)
    requires
        is_escaped(t, encode_utf8(s)),
    ensures
        component(t, plus_as_space) == s,
{
    law_unescaping_undoes_escaping(t, encode_utf8(s), plus_as_space);
    law_text_is_read_back(s);
}

/// Where every byte is escaped, in digits of either case, taking the escapes away gives
/// the bytes back.
pub proof fn law_unescaping_undoes_escaping(t: Seq<char>, bytes: Seq<u8>, plus_as_space: bool)
    requires
        is_escaped(t, bytes),
    ensures
        unescaped(encode_utf8(t), plus_as_space) == bytes,
{
    assert forall|k: int| 0 <= k < t.len() implies '\0' <= #[trigger] t[k] <= '\u{7f}' by {
        let i = k / 3;
        assert(0 <= i < bytes.len());
        assert(is_escape_at(t, 3 * i, bytes[i]));
        let c: char = t[k];
        if k == 3 * i {
            assert(c == '%');
        } else if k == 3 * i + 1 {
            assert(c == t[3 * i + 1]);
        } else {
            assert(c == t[3 * i + 2]);
        }
        assert(c <= '\u{7f}');
        lemma_least_char(c);
    }
    assert(vstd::utf8::is_ascii_chars(t));
    vstd::utf8::is_ascii_chars_encode_utf8(t);
    let e = encode_utf8(t);
    assert forall|i: int| 0 <= i < bytes.len() implies spells(e, 3 * i, #[trigger] bytes[i]) by {
        assert(is_escape_at(t, 3 * i, bytes[i]));
        assert(t[3 * i] as u8 == e[3 * i]);
        assert(t[3 * i + 1] as u8 == e[3 * i + 1]);
        assert(t[3 * i + 2] as u8 == e[3 * i + 2]);
    }
    lemma_unescaped_escapes(e, bytes, plus_as_space);
}

/// No character comes before the first.
proof fn lemma_least_char(c: char)
    ensures
        '\0' <= c,
{
}

/// Whether the escape of a byte stands at a place.
spec fn spells(e: Seq<u8>, i: int, b: u8) -> bool {
    e[i] == 0x25 && hex_digit(e[i + 1]) == Some((b / 16) as u8) && hex_digit(e[i + 2]) == Some(
        (b % 16) as u8,
    )
}

/// Escapes that stand one after the other are taken away one after the other.
proof fn lemma_unescaped_escapes(e: Seq<u8>, bytes: Seq<u8>, plus_as_space: bool)
    requires
        e.len() == 3 * bytes.len(),
        forall|i: int| 0 <= i < bytes.len() ==> spells(e, 3 * i, #[trigger] bytes[i]),
    ensures
        unescaped(e, plus_as_space) == bytes,
    decreases bytes.len(),
{
    if bytes.len() > 0 {
        let rest = bytes.skip(1);
        let tail = e.skip(3);
        assert forall|i: int| 0 <= i < rest.len() implies spells(
            tail,
            3 * i,
            #[trigger] rest[i],
        ) by {
            assert(rest[i] == bytes[i + 1]);
            assert(spells(e, 3 * (i + 1), bytes[i + 1]));
            assert(tail[3 * i] == e[3 * (i + 1)]);
            assert(tail[3 * i + 1] == e[3 * (i + 1) + 1]);
            assert(tail[3 * i + 2] == e[3 * (i + 1) + 2]);
        }
        lemma_unescaped_escapes(tail, rest, plus_as_space);
        assert(spells(e, 0, bytes[0]));
        assert(seq![bytes[0]] + rest =~= bytes);
    } else {
        assert(e =~= Seq::empty());
        assert(bytes =~= Seq::empty());
    }
}

proof fn lemma_unescaped_plain(b: Seq<u8>, plus_as_space: bool)
    requires
        !b.contains(0x25),
        plus_as_space ==> !b.contains(0x2b),
    ensures
        unescaped(b, plus_as_space) == b,
    decreases b.len(),
{
    if b.len() > 0 {
        let t = b.skip(1);
        assert(b.contains(b[0]));
        assert forall|x: u8| t.contains(x) implies b.contains(x) by {
            let i = choose|i: int| 0 <= i < t.len() && t[i] == x;
            assert(b[i + 1] == x);
        }
        lemma_unescaped_plain(t, plus_as_space);
        assert(seq![b[0]] + t =~= b);
    } else {
        assert(b =~= Seq::empty());
    }
}

/// An ASCII character occurs in the UTF-8 of a text only where it occurs in the text.
proof fn lemma_ascii_byte(s: Seq<char>, c: char)
    requires
        (c as u32) < 0x80,
    ensures
        encode_utf8(s).contains(c as u8) ==> s.contains(c),
    decreases s.len(),
{
    if s.len() > 0 && encode_utf8(s).contains(c as u8) {
        let u = s[0] as u32;
        let head = vstd::utf8::encode_scalar(u);
        let tail = encode_utf8(s.drop_first());
        let i = choose|i: int| 0 <= i < encode_utf8(s).len() && encode_utf8(s)[i] == c as u8;
        if i < head.len() {
            assert(head[i] == c as u8);
            lemma_wide_bytes(u);
            if u < 0x80 {
                lemma_ascii_char(s[0], c);
                assert(s[0] == c);
            }
        } else {
            assert(tail[i - head.len()] == c as u8);
            lemma_ascii_byte(s.drop_first(), c);
            let j = choose|j: int| 0 <= j < s.drop_first().len() && s.drop_first()[j] == c;
            assert(s[j + 1] == c);
        }
    }
}

/// An ASCII character is its byte.
proof fn lemma_ascii_char(x: char, c: char)
    requires
        (x as u32) < 0x80,
        (c as u32) < 0x80,
        ((x as u32) & 0x7F) as u8 == c as u8,
    ensures
        x == c,
{
    let u = x as u32;
    assert((u & 0x7F) as u8 == u) by (bit_vector)
        requires
            u < 0x80,
    ;
}

/// The bytes of a character beyond ASCII are all beyond ASCII.
proof fn lemma_wide_bytes(u: u32)
    ensures
        u >= 0x80 ==> forall|i: int|
            0 <= i < vstd::utf8::encode_scalar(u).len() ==> #[trigger] vstd::utf8::encode_scalar(
                u,
            )[i] >= 0x80,
{
    assert(0xC0u8 | ((u >> 6) & 0x1F) as u8 >= 0x80) by (bit_vector);
    assert(0xE0u8 | ((u >> 12) & 0x0F) as u8 >= 0x80) by (bit_vector);
    assert(0xF0u8 | ((u >> 18) & 0x7) as u8 >= 0x80) by (bit_vector);
    assert(0x80u8 | (u & 0x3F) as u8 >= 0x80) by (bit_vector);
    assert(0x80u8 | ((u >> 6) & 0x3F) as u8 >= 0x80) by (bit_vector);
    assert(0x80u8 | ((u >> 12) & 0x3F) as u8 >= 0x80) by (bit_vector);
}

/// The key and the value of a part of a query string.
pub open spec fn query_pair(part: Seq<char>) -> (Seq<char>, Seq<char>) {
    match split_once(part, '=') {
        Some((k, v)) => (component(k, true), component(v, true)),
        None => (component(part, true), component(""@, true)),
    }
}

/// The values of a key in the parts of a query string, in order. Empty parts count for
/// nothing.
pub open spec fn query_values(parts: Seq<Seq<char>>, key: Seq<char>) -> Seq<Seq<char>>
    decreases parts.len(),
{
    if parts.len() == 0 {
        Seq::empty()
    } else {
        let before = query_values(parts.drop_last(), key);
        if parts.last().len() > 0 && query_pair(parts.last()).0 == key {
            before.push(query_pair(parts.last()).1)
        } else {
            before
        }
    }
}

/// The values of each key of a query string.
pub fn parse_query(query: &str) -> (r: MultiMap)
    ensures
        r.wf(),
        forall|k: Seq<char>| #[trigger] r.lookup(k) == query_values(split(query@, '&'), k),
{
    let parts: Vec<String> = split_text(query, '&');
    let mut r: MultiMap = MultiMap::new();
    let mut i: usize = 0;
    assert(views(parts@).take(0) =~= Seq::empty());
    while i < parts.len()
        invariant
            i <= parts.len(),
            r.wf(),
            forall|k: Seq<char>| #[trigger]
                r.lookup(k) == query_values(views(parts@).take(i as int), k),
        decreases parts.len() - i,
    {
        proof {
            let all = views(parts@).take(i + 1);
            assert(all.drop_last() =~= views(parts@).take(i as int));
            assert(all.last() == parts@[i as int]@);
        }
        if !parts[i].as_str().is_empty() {
            match split_once_text(parts[i].as_str(), '=') {
                Some((k, v)) => {
                    r.add(
                        decode_component(k.as_str(), true),
                        decode_component(v.as_str(), true),
                    );
                },
                None => {
                    r.add(decode_component(parts[i].as_str(), true), decode_component("", true));
                },
            }
        }
        i += 1;
    }
    assert(views(parts@).take(parts@.len() as int) =~= views(parts@));
    r
}

/// The name and the value of a part of a cookie header, where it has both.
pub open spec fn cookie_pair(part: Seq<char>) -> Option<(Seq<char>, Seq<char>)> {
    match split_once(trim(part), '=') {
        Some((n, v)) => Some((trim(n), trim(v))),
        None => None,
    }
}

/// The value of a cookie in the parts of a cookie header: the last one.
pub open spec fn cookie_in(parts: Seq<Seq<char>>, name: Seq<char>) -> Option<Seq<char>>
    decreases parts.len(),
{
    if parts.len() == 0 {
        None
    } else {
        match cookie_pair(parts.last()) {
            Some((n, v)) => if n == name {
                Some(v)
            } else {
                cookie_in(parts.drop_last(), name)
            },
            None => cookie_in(parts.drop_last(), name),
        }
    }
}

/// The value of a cookie in a cookie header.
pub open spec fn cookie_value(header: Seq<char>, name: Seq<char>) -> Option<Seq<char>> {
    cookie_in(split(header, ';'), name)
}

/// The cookies of a cookie header.
pub fn parse_cookies(header: &str) -> (r: TextMap)
    ensures
        r.wf(),
        forall|n: Seq<char>| #[trigger] r.lookup(n) == cookie_value(header@, n),
{
    let parts: Vec<String> = split_text(header, ';');
    let mut r: TextMap = TextMap::new();
    let mut i: usize = 0;
    assert(views(parts@).take(0) =~= Seq::empty());
    while i < parts.len()
        invariant
            i <= parts.len(),
            r.wf(),
            forall|n: Seq<char>| #[trigger]
                r.lookup(n) == cookie_in(views(parts@).take(i as int), n),
        decreases parts.len() - i,
    {
        proof {
            let all = views(parts@).take(i + 1);
            assert(all.drop_last() =~= views(parts@).take(i as int));
            assert(all.last() == parts@[i as int]@);
        }
        let part: String = trimmed(parts[i].as_str());
        if let Some((n, v)) = split_once_text(part.as_str(), '=') {
            r.insert(trimmed(n.as_str()), trimmed(v.as_str()));
        }
        i += 1;
    }
    assert(views(parts@).take(parts@.len() as int) =~= views(parts@));
    r
}

/// The value of the last header with exactly a name.
pub open spec fn last_header(
    headers: Seq<(Seq<char>, Seq<char>)>,
    name: Seq<char>,
) -> Option<Seq<char>>
    decreases headers.len(),
{
    if headers.len() == 0 {
        None
    } else if headers.last().0 == name {
        Some(headers.last().1)
    } else {
        last_header(headers.drop_last(), name)
    }
}

/// The values of the headers with a name, whatever the case of its letters, in order.
pub open spec fn all_headers(
    headers: Seq<(Seq<char>, Seq<char>)>,
    name: Seq<char>,
) -> Seq<Seq<char>>
    decreases headers.len(),
{
    if headers.len() == 0 {
        Seq::empty()
    } else if lower(headers.last().0) == lower(name) {
        all_headers(headers.drop_last(), name).push(headers.last().1)
    } else {
        all_headers(headers.drop_last(), name)
    }
}

/// The value of a cookie in the cookie headers: that of the first header that has it.
pub open spec fn header_cookie(
    headers: Seq<(Seq<char>, Seq<char>)>,
    name: Seq<char>,
) -> Option<Seq<char>>
    decreases headers.len(),
{
    if headers.len() == 0 {
        None
    } else {
        match header_cookie(headers.drop_last(), name) {
            Some(v) => Some(v),
            None => if headers.last().0 == "cookie"@ {
                cookie_value(headers.last().1, name)
            } else {
                None
            },
        }
    }
}

/// The first value of a header with exactly a name.
pub open spec fn first_header(
    headers: Seq<(Seq<char>, Seq<char>)>,
    name: Seq<char>,
) -> Option<Seq<char>>
    decreases headers.len(),
{
    if headers.len() == 0 {
        None
    } else {
        match first_header(headers.drop_last(), name) {
            Some(v) => Some(v),
            None => if headers.last().0 == name {
                Some(headers.last().1)
            } else {
                None
            },
        }
    }
}

/// Whether a header value lists a token, whatever the case of its letters.
pub open spec fn lists_token(value: Seq<char>, expected: Seq<char>) -> bool {
    exists|i: int|
        0 <= i < split(value, ',').len() && lower(trim(#[trigger] split(value, ',')[i])) == lower(
            expected,
        )
}

/// Whether a header value lists a token.
pub fn header_value_contains_token(value: &str, expected: &str) -> (r: bool)
    ensures
        r == lists_token(value@, expected@),
{
    let parts: Vec<String> = split_text(value, ',');
    let mut i: usize = 0;
    while i < parts.len()
        invariant
            i <= parts.len(),
            views(parts@) == split(value@, ','),
            forall|j: int|
                0 <= j < i ==> lower(trim(#[trigger] split(value@, ',')[j])) != lower(expected@),
        decreases parts.len() - i,
    {
        assert(split(value@, ',')[i as int] == parts@[i as int]@);
        if same_ignoring_case(trimmed(parts[i].as_str()).as_str(), expected) {
            return true;
        }
        i += 1;
    }
    false
}

/// Whether a text is the base64 of sixteen bytes.
pub open spec fn valid_key(text: Seq<char>) -> bool {
    exists|b: Seq<u8>| #[trigger] base64_text(b) == text && b.len() == 16
}

/// Whether a text is the base64 of sixteen bytes.
pub fn is_valid_websocket_key(value: &str) -> (r: bool)
    ensures
        r == valid_key(value@),
{
    let decoded: Option<Vec<u8>> = base64_decode(value);
    proof {
        if decoded is Some {
            let b = decoded->0@;
            assert forall|c: Seq<u8>| #[trigger] base64_text(c) == value@ implies c == b by {
                law_base64_stands_for_one(b, c);
            }
        }
    }
    is_key(&decoded)
}

/// Whether what a text decodes to can be a key.
pub fn is_key(decoded: &Option<Vec<u8>>) -> (r: bool)
    ensures
        r == (*decoded matches Some(b) && b@.len() == 16),
{
    match decoded {
        Some(b) => b.len() == 16,
        None => false,
    }
}

/// A request.
#[derive(Debug)]
pub struct Request {
    pub version: HttpVersion,
    pub method: String,
    pub path: String,
    /// What follows the question mark, where there is one.
    pub raw_query: Option<String>,
    pub query: MultiMap,
    pub headers: TextMap,
    pub cookies: TextMap,
    pub body: Vec<u8>,
    pub params: TextMap,
    pub route_pattern: Option<String>,
    /// What the layers of the application and of a WebSocket route settled on.
    pub resolved_websocket_config: Option<ResolvedWebSocketConfig>,
    pub state: StateStore,
    /// Whether the connection can be taken over.
    pub upgrade: bool,
    pub remote_addr: Option<PeerAddr>,
    pub secure_transport: bool,
    /// Every header in the order of arrival, also where a name occurs again.
    pub header_pairs: Vec<(String, String)>,
}

impl Request {
    /// Whether the maps of the request are sound.
    pub open spec fn wf(&self) -> bool {
        self.query.wf() && self.headers.wf() && self.cookies.wf() && self.params.wf()
            && self.state.wf()
    }

    /// The value of a header, whatever the case of the letters that ask for it.
    pub open spec fn header_of(&self, name: Seq<char>) -> Option<Seq<char>> {
        match self.headers.lookup(name) {
            Some(v) => Some(v),
            None => self.headers.lookup(lower(name)),
        }
    }

    /// The values of a header in the order of arrival.
    pub open spec fn headers_of(&self, name: Seq<char>) -> Seq<Seq<char>> {
        all_headers(pairs(self.header_pairs@), name)
    }

    /// The value of a header that occurs exactly once.
    pub open spec fn only_header(&self, name: Seq<char>) -> Option<Seq<char>> {
        if self.headers_of(name).len() == 1 {
            Some(self.headers_of(name)[0])
        } else {
            None
        }
    }

    /// The value of a header that must not be repeated. Where it did not come in, that
    /// which the map of headers was given counts.
    pub open spec fn told_header(&self, name: Seq<char>) -> Option<Seq<char>> {
        if self.headers_of(name).len() == 0 {
            self.header_of(name)
        } else {
            self.only_header(name)
        }
    }

    /// Whether a header lists a token.
    pub open spec fn has_token(&self, name: Seq<char>, expected: Seq<char>) -> bool {
        (exists|i: int|
            0 <= i < self.headers_of(name).len() && lists_token(
                #[trigger] self.headers_of(name)[i],
                expected,
            )) || (self.header_of(name) matches Some(v) && lists_token(v, expected))
    }

    /// Begins a request.
    pub fn builder() -> (r: RequestBuilder)
        ensures
            r.wf(),
            r.is_fresh(),
    {
        RequestBuilder::new()
    }

    /// The version of HTTP that the request came in.
    pub fn version(&self) -> (r: HttpVersion)
        ensures
            r == self.version,
    {
        self.version
    }

    /// Whether the request came over a secure transport.
    pub fn is_secure(&self) -> (r: bool)
        ensures
            r == self.secure_transport,
    {
        self.secure_transport
    }

    /// The pattern of the route that was matched.
    pub fn route_pattern(&self) -> (r: Option<String>)
        ensures
            r == self.route_pattern,
    {
        copy_opt(&self.route_pattern)
    }

    /// A captured path parameter.
    pub fn param(&self, name: &str) -> (r: Option<&str>)
        requires
            self.wf(),
        ensures
            match r {
                Some(v) => self.params.lookup(name@) == Some(v@),
                None => self.params.lookup(name@) is None,
            },
    {
        self.params.get(name)
    }

    /// The first value of a query parameter.
    pub fn query(&self, name: &str) -> (r: Option<&str>)
        requires
            self.wf(),
        ensures
            match r {
                Some(v) => self.query.lookup(name@).len() > 0 && v@ == self.query.lookup(name@)[0],
                None => self.query.lookup(name@).len() == 0,
            },
    {
        match self.query.get(name) {
            Some(list) => Some(list[0].as_str()),
            None => None,
        }
    }

    /// Every value of a query parameter, in order.
    pub fn query_all(&self, name: &str) -> (r: Vec<String>)
        requires
            self.wf(),
        ensures
            views(r@) == self.query.lookup(name@),
    {
        match self.query.get(name) {
            Some(list) => crate::text::copy_texts(list),
            None => {
                let r: Vec<String> = Vec::new();
                assert(views(r@) =~= self.query.lookup(name@));
                r
            },
        }
    }

    /// A cookie.
    pub fn cookie(&self, name: &str) -> (r: Option<&str>)
        requires
            self.wf(),
        ensures
            match r {
                Some(v) => self.cookies.lookup(name@) == Some(v@),
                None => self.cookies.lookup(name@) is None,
            },
    {
        self.cookies.get(name)
    }

    /// A header, whatever the case of the letters that ask for it.
    pub fn header(&self, name: &str) -> (r: Option<&str>)
        requires
            self.wf(),
        ensures
            match r {
                Some(v) => self.header_of(name@) == Some(v@),
                None => self.header_of(name@) is None,
            },
    {
        match self.headers.get(name) {
            Some(v) => Some(v),
            None => {
                let key: String = to_lower(name);
                self.headers.get(key.as_str())
            },
        }
    }

    /// Every value of a header, in the order of arrival.
    pub fn headers_all(&self, name: &str) -> (r: Vec<String>)
        ensures
            views(r@) == self.headers_of(name@),
    {
        let mut r: Vec<String> = Vec::new();
        let mut i: usize = 0;
        assert(pairs(self.header_pairs@).take(0) =~= Seq::empty());
        assert(views(r@) =~= Seq::empty());
        while i < self.header_pairs.len()
            invariant
                i <= self.header_pairs.len(),
                views(r@) == all_headers(pairs(self.header_pairs@).take(i as int), name@),
            decreases self.header_pairs.len() - i,
        {
            let ghost before = r@;
            proof {
                let all = pairs(self.header_pairs@).take(i + 1);
                assert(all.drop_last() =~= pairs(self.header_pairs@).take(i as int));
                assert(all.last() == pairs(self.header_pairs@)[i as int]);
            }
            if same_ignoring_case(self.header_pairs[i].0.as_str(), name) {
                r.push(self.header_pairs[i].1.clone());
                assert(views(r@) =~= views(before).push(self.header_pairs@[i as int].1@));
            }
            i += 1;
        }
        assert(pairs(self.header_pairs@).take(self.header_pairs@.len() as int) =~= pairs(
            self.header_pairs@,
        ));
        r
    }

    /// The id of the last event that a client of an event stream has seen.
    pub fn last_event_id(&self) -> (r: Option<&str>)
        requires
            self.wf(),
        ensures
            match r {
                Some(v) => self.header_of("last-event-id"@) == Some(v@),
                None => self.header_of("last-event-id"@) is None,
            },
    {
        self.header("last-event-id")
    }

    /// The address of the client.
    pub fn remote_addr(&self) -> (r: Option<PeerAddr>)
        ensures
            r == self.remote_addr,
    {
        self.remote_addr
    }

    /// The value of a kind of application state.
    pub fn state(&self, kind: u64) -> (r: Option<u64>)
        requires
            self.wf(),
        ensures
            r == self.state.lookup(kind),
    {
        self.state.get(kind)
    }

    /// The value of a header that occurs exactly once.
    pub fn singleton_header(&self, name: &str) -> (r: Option<String>)
        ensures
            match r {
                Some(v) => self.only_header(name@) == Some(v@),
                None => self.only_header(name@) is None,
            },
    {
        let values: Vec<String> = self.headers_all(name);
        if values.len() == 1 {
            assert(views(values@)[0] == values@[0]@);
            Some(values[0].clone())
        } else {
            None
        }
    }

    /// The value of a header that must not be repeated.
    pub fn unrepeated_header(&self, name: &str) -> (r: Option<String>)
        requires
            self.wf(),
        ensures
            opt(r) == self.told_header(name@),
    {
        let values: Vec<String> = self.headers_all(name);
        if values.len() == 0 {
            assert(views(values@).len() == 0);
            match self.header(name) {
                Some(v) => Some(v.to_owned()),
                None => None,
            }
        } else if values.len() == 1 {
            assert(views(values@)[0] == values@[0]@);
            Some(values[0].clone())
        } else {
            assert(views(values@).len() > 1);
            None
        }
    }

    /// Whether the request wants the one version of the protocol that there is.
    pub fn wants_version_13(&self) -> (r: bool)
        requires
            self.wf(),
        ensures
            r == (self.told_header("sec-websocket-version"@) matches Some(v) && trim(v) == "13"@),
    {
        match self.unrepeated_header("sec-websocket-version") {
            Some(v) => same(trimmed(v.as_str()).as_str(), "13"),
            None => false,
        }
    }

    /// Whether a header lists a token.
    pub fn request_header_contains_token(&self, name: &str, expected: &str) -> (r: bool)
        requires
            self.wf(),
        ensures
            r == self.has_token(name@, expected@),
    {
        let values: Vec<String> = self.headers_all(name);
        let mut i: usize = 0;
        while i < values.len()
            invariant
                i <= values.len(),
                views(values@) == self.headers_of(name@),
                forall|j: int|
                    0 <= j < i ==> !lists_token(#[trigger] self.headers_of(name@)[j], expected@),
            decreases values.len() - i,
        {
            assert(self.headers_of(name@)[i as int] == values@[i as int]@);
            if header_value_contains_token(values[i].as_str(), expected) {
                return true;
            }
            i += 1;
        }
        match self.header(name) {
            Some(v) => header_value_contains_token(v, expected),
            None => false,
        }
    }

    /// Whether the request asks for a WebSocket.
    pub open spec fn asks_for_websocket(&self) -> bool {
        &&& lower(self.method@) == lower("GET"@)
        &&& self.header_of("upgrade"@) matches Some(v) && lower(v) == lower("websocket"@)
        &&& self.header_of("connection"@) matches Some(v) && lists_token(v, "upgrade"@)
        &&& self.told_header("sec-websocket-key"@) is Some
        &&& self.told_header("sec-websocket-version"@) matches Some(v) && trim(v) == "13"@
    }

    /// Whether the request asks for a WebSocket: a GET whose upgrade header says so,
    /// with one key and one version, which is 13.
    pub fn is_websocket_upgrade(&self) -> (r: bool)
        requires
            self.wf(),
        ensures
            r == self.asks_for_websocket(),
    {
        let upgrade: bool = match self.header("upgrade") {
            Some(v) => same_ignoring_case(v, "websocket"),
            None => false,
        };
        let connection: bool = match self.header("connection") {
            Some(v) => header_value_contains_token(v, "upgrade"),
            None => false,
        };
        same_ignoring_case(self.method.as_str(), "GET") && upgrade && connection
            && self.unrepeated_header("sec-websocket-key").is_some() && self.wants_version_13()
    }

    /// The body.
    pub fn bytes(&self) -> (r: &Vec<u8>)
        ensures
            r@ == self.body@,
    {
        &self.body
    }

    /// The body as text.
    pub fn text(&self) -> (r: String)
        ensures
            r@ == text_of(self.body@),
    {
        text_from_utf8_lossy(&self.body)
    }
}

/// Builds a request piece by piece.
#[derive(Debug)]
pub struct RequestBuilder {
    pub version: HttpVersion,
    pub method: String,
    pub path: String,
    pub raw_query: Option<String>,
    pub headers: Vec<(String, String)>,
    pub cookies: TextMap,
    pub params: TextMap,
    pub state: StateStore,
    pub body: Vec<u8>,
    pub remote_addr: Option<PeerAddr>,
    pub secure: bool,
}

/// The query string of a request, which is empty where it has none.
pub open spec fn query_text(raw: Option<Seq<char>>) -> Seq<Seq<char>> {
    match raw {
        Some(q) => split(q, '&'),
        None => Seq::empty(),
    }
}

impl RequestBuilder {
    /// Whether the maps of the builder are sound.
    pub open spec fn wf(&self) -> bool {
        self.cookies.wf() && self.params.wf() && self.state.wf()
    }

    /// Whether nothing was set yet.
    pub open spec fn is_fresh(&self) -> bool {
        &&& self.version == HttpVersion::Http11
        &&& self.method@ == "GET"@
        &&& self.path@ == "/"@
        &&& self.raw_query is None
        &&& self.headers@.len() == 0
        &&& forall|n: Seq<char>| #[trigger] self.cookies.lookup(n) is None
        &&& forall|n: Seq<char>| #[trigger] self.params.lookup(n) is None
        &&& forall|k: u64| #[trigger] self.state.lookup(k) is None
        &&& self.body@.len() == 0
        &&& self.remote_addr is None
        &&& !self.secure
    }

    /// A GET of the root.
    pub fn new() -> (r: RequestBuilder)
        ensures
            r.wf(),
            r.is_fresh(),
    {
        RequestBuilder {
            version: HttpVersion::Http11,
            method: "GET".to_owned(),
            path: "/".to_owned(),
            raw_query: None,
            headers: Vec::new(),
            cookies: TextMap::new(),
            params: TextMap::new(),
            state: StateStore::new(),
            body: Vec::new(),
            remote_addr: None,
            secure: false,
        }
    }

    /// Sets the method, in upper case.
    pub fn method(self, method: &str) -> (r: RequestBuilder)
        ensures
            r.method@ == upper(method@),
            r == (RequestBuilder { method: r.method, ..self }),
    {
        RequestBuilder { method: to_upper(method), ..self }
    }

    /// Sets the path, and the query string where one follows it.
    pub fn path(self, path: &str) -> (r: RequestBuilder)
        ensures
            match split_once(path@, '?') {
                Some((p, q)) => r.path@ == p && opt(r.raw_query) == Some(q),
                None => r.path@ == path@ && r.raw_query == self.raw_query,
            },
            r == (RequestBuilder { path: r.path, raw_query: r.raw_query, ..self }),
    {
        match split_once_text(path, '?') {
            Some((p, q)) => RequestBuilder { path: p, raw_query: Some(q), ..self },
            None => RequestBuilder { path: path.to_owned(), ..self },
        }
    }

    /// Sets the query string.
    pub fn query(self, raw_query: &str) -> (r: RequestBuilder)
        ensures
            opt(r.raw_query) == Some(raw_query@),
            r == (RequestBuilder { raw_query: r.raw_query, ..self }),
    {
        RequestBuilder { raw_query: Some(raw_query.to_owned()), ..self }
    }

    /// Adds a header. Its name is kept in lower case.
    pub fn header(self, name: &str, value: &str) -> (r: RequestBuilder)
        ensures
            pairs(r.headers@) == pairs(self.headers@).push((lower(name@), value@)),
            r == (RequestBuilder { headers: r.headers, ..self }),
    {
        let mut headers: Vec<(String, String)> = self.headers;
        let ghost before = headers@;
        headers.push((to_lower(name), value.to_owned()));
        assert(pairs(headers@) =~= pairs(before).push((lower(name@), value@)));
        RequestBuilder { headers, ..self }
    }

    /// Sets a cookie.
    pub fn cookie(self, name: &str, value: &str) -> (r: RequestBuilder)
        requires
            self.wf(),
        ensures
            r.wf(),
            forall|n: Seq<char>| #[trigger]
                r.cookies.lookup(n) == (if n == name@ {
                    Some(value@)
                } else {
                    self.cookies.lookup(n)
                }),
            r == (RequestBuilder { cookies: r.cookies, ..self }),
    {
        let mut cookies: TextMap = self.cookies;
        cookies.insert(name.to_owned(), value.to_owned());
        RequestBuilder { cookies, ..self }
    }

    /// Sets a path parameter.
    pub fn param(self, name: &str, value: &str) -> (r: RequestBuilder)
        requires
            self.wf(),
        ensures
            r.wf(),
            forall|n: Seq<char>| #[trigger]
                r.params.lookup(n) == (if n == name@ {
                    Some(value@)
                } else {
                    self.params.lookup(n)
                }),
            r == (RequestBuilder { params: r.params, ..self }),
    {
        let mut params: TextMap = self.params;
        params.insert(name.to_owned(), value.to_owned());
        RequestBuilder { params, ..self }
    }

    /// Sets the value of a kind of application state.
    pub fn state(self, kind: u64, value: u64) -> (r: RequestBuilder)
        requires
            self.wf(),
        ensures
            r.wf(),
            forall|k: u64| #[trigger]
                r.state.lookup(k) == (if k == kind {
                    Some(value)
                } else {
                    self.state.lookup(k)
                }),
            r == (RequestBuilder { state: r.state, ..self }),
    {
        let mut state: StateStore = self.state;
        state.insert(kind, value);
        RequestBuilder { state, ..self }
    }

    /// Sets the body.
    pub fn body(self, body: Vec<u8>) -> (r: RequestBuilder)
        ensures
            r == (RequestBuilder { body, ..self }),
    {
        RequestBuilder { body, ..self }
    }

    /// Sets a JSON text as the body, with its content type. A value that could not be
    /// turned into one leaves an empty body.
    pub fn json(self, text: Option<String>) -> (r: RequestBuilder)
        ensures
            r.body@ == (match text {
                Some(t) => encode_utf8(t@),
                None => Seq::empty(),
            }),
            pairs(r.headers@) == pairs(self.headers@).push(
                (lower("content-type"@), "application/json"@),
            ),
            r == (RequestBuilder { headers: r.headers, body: r.body, ..self }),
    {
        let body: Vec<u8> = match text {
            Some(t) => t.as_str().as_bytes_vec(),
            None => Vec::new(),
        };
        self.header("content-type", "application/json").body(body)
    }

    /// Sets the address of the client.
    pub fn remote_addr(self, addr: PeerAddr) -> (r: RequestBuilder)
        ensures
            r == (RequestBuilder { remote_addr: Some(addr), ..self }),
    {
        RequestBuilder { remote_addr: Some(addr), ..self }
    }

    /// Sets whether the request comes over a secure transport.
    pub fn secure(self, secure: bool) -> (r: RequestBuilder)
        ensures
            r == (RequestBuilder { secure, ..self }),
    {
        RequestBuilder { secure, ..self }
    }

    /// The request. Of headers with the same name the last one counts, but all are
    /// kept. A cookie that was set counts before those of cookie headers; of these the
    /// first that has it counts.
    pub fn build(self) -> (r: Request)
        requires
            self.wf(),
        ensures
            r.wf(),
            r.version == self.version,
            r.method == self.method,
            r.path == self.path,
            r.raw_query == self.raw_query,
            r.body == self.body,
            r.params == self.params,
            r.state == self.state,
            r.remote_addr == self.remote_addr,
            r.secure_transport == self.secure,
            r.route_pattern is None,
            r.resolved_websocket_config is None,
            !r.upgrade,
            r.header_pairs == self.headers,
            forall|k: Seq<char>| #[trigger]
                r.query.lookup(k) == query_values(query_text(opt(self.raw_query)), k),
            forall|n: Seq<char>| #[trigger]
                r.headers.lookup(n) == last_header(pairs(self.headers@), n),
            forall|n: Seq<char>| #[trigger]
                r.cookies.lookup(n) == (match self.cookies.lookup(n) {
                    Some(v) => Some(v),
                    None => header_cookie(pairs(self.headers@), n),
                }),
    {
        let query: MultiMap = match &self.raw_query {
            Some(q) => parse_query(q.as_str()),
            None => MultiMap::new(),
        };
        let mut headers: TextMap = TextMap::new();
        let mut cookies: TextMap = self.cookies.copy();
        let mut i: usize = 0;
        assert(pairs(self.headers@).take(0) =~= Seq::empty());
        while i < self.headers.len()
            invariant
                i <= self.headers.len(),
                headers.wf(),
                cookies.wf(),
                forall|n: Seq<char>| #[trigger]
                    headers.lookup(n) == last_header(pairs(self.headers@).take(i as int), n),
                forall|n: Seq<char>| #[trigger]
                    cookies.lookup(n) == (match self.cookies.lookup(n) {
                        Some(v) => Some(v),
                        None => header_cookie(pairs(self.headers@).take(i as int), n),
                    }),
            decreases self.headers.len() - i,
        {
            proof {
                let all = pairs(self.headers@).take(i + 1);
                assert(all.drop_last() =~= pairs(self.headers@).take(i as int));
                assert(all.last() == pairs(self.headers@)[i as int]);
            }
            let name: &String = &self.headers[i].0;
            let value: &String = &self.headers[i].1;
            if same(name.as_str(), "cookie") {
                merge_cookies(&mut cookies, value.as_str());
            }
            headers.insert(name.clone(), value.clone());
            i += 1;
        }
        assert(pairs(self.headers@).take(self.headers@.len() as int) =~= pairs(self.headers@));
        Request {
            version: self.version,
            method: self.method,
            path: self.path,
            raw_query: self.raw_query,
            query,
            headers,
            cookies,
            body: self.body,
            params: self.params,
            route_pattern: None,
            resolved_websocket_config: None,
            upgrade: false,
            state: self.state,
            remote_addr: self.remote_addr,
            secure_transport: self.secure,
            header_pairs: self.headers,
        }
    }
}

impl Default for RequestBuilder {
    fn default() -> (r: Self)
        ensures
            r.wf(),
            r.is_fresh(),
    {
        RequestBuilder::new()
    }
}

/// Adds the cookies of a cookie header that are not there yet.
fn merge_cookies(cookies: &mut TextMap, header: &str)
    requires
        old(cookies).wf(),
    ensures
        final(cookies).wf(),
        forall|n: Seq<char>| #[trigger]
            final(cookies).lookup(n) == (match old(cookies).lookup(n) {
                Some(v) => Some(v),
                None => cookie_value(header@, n),
            }),
{
    let found: TextMap = parse_cookies(header);
    let ghost was = *cookies;
    let mut i: usize = 0;
    while i < found.entries.len()
        invariant
            i <= found.entries.len(),
            found.wf(),
            cookies.wf(),
            forall|n: Seq<char>| #[trigger]
                cookies.lookup(n) == (match was.lookup(n) {
                    Some(v) => Some(v),
                    None => if exists|j: int| 0 <= j < i && #[trigger] found.at(j, n) {
                        found.lookup(n)
                    } else {
                        None
                    },
                }),
        decreases found.entries.len() - i,
    {
        let ghost before = *cookies;
        let ghost key = found.entries@[i as int].0@;
        proof {
            assert(found.at(i as int, key));
            found.lemma_lookup(i as int, key);
        }
        cookies.insert_if_absent(found.entries[i].0.clone(), found.entries[i].1.clone());
        proof {
            assert forall|n: Seq<char>| #[trigger]
                cookies.lookup(n) == (match was.lookup(n) {
                    Some(v) => Some(v),
                    None => if exists|j: int| 0 <= j < i + 1 && #[trigger] found.at(j, n) {
                        found.lookup(n)
                    } else {
                        None
                    },
                }) by {
                if n == key {
                    assert(found.at(i as int, n));
                    if exists|j: int| 0 <= j < i && #[trigger] found.at(j, n) {
                        let j = choose|j: int| 0 <= j < i && #[trigger] found.at(j, n);
                        assert(found.entries@[j].0@ != found.entries@[i as int].0@);
                    }
                } else {
                    assert(!found.at(i as int, n));
                    if exists|j: int| 0 <= j < i + 1 && #[trigger] found.at(j, n) {
                        let j = choose|j: int| 0 <= j < i + 1 && #[trigger] found.at(j, n);
                        assert(j < i && found.at(j, n));
                    }
                    if exists|j: int| 0 <= j < i && #[trigger] found.at(j, n) {
                        let j = choose|j: int| 0 <= j < i && #[trigger] found.at(j, n);
                        assert(j < i + 1 && found.at(j, n));
                    }
                }
            }
        }
        i += 1;
    }
    proof {
        assert forall|n: Seq<char>| #[trigger]
            cookies.lookup(n) == (match was.lookup(n) {
                Some(v) => Some(v),
                None => cookie_value(header@, n),
            }) by {
            assert(found.lookup(n) == cookie_value(header@, n));
            if found.lookup(n) is Some {
                let j = choose|j: int| found.at(j, n);
                assert(found.at(j, n));
            }
        }
    }
}

/// Whether the head of a request asks for a WebSocket: HTTP/1.1, GET, the tokens of
/// both upgrade headers, a valid key, and version 13.
pub open spec fn head_asks_for_websocket(
    version: HttpVersion,
    method: Seq<char>,
    headers: Seq<(Seq<char>, Seq<char>)>,
) -> bool {
    &&& version == HttpVersion::Http11
    &&& lower(method) == lower("GET"@)
    &&& exists|i: int|
        0 <= i < all_headers(headers, "upgrade"@).len() && lists_token(
            #[trigger] all_headers(headers, "upgrade"@)[i],
            "websocket"@,
        )
    &&& exists|i: int|
        0 <= i < all_headers(headers, "connection"@).len() && lists_token(
            #[trigger] all_headers(headers, "connection"@)[i],
            "upgrade"@,
        )
    &&& all_headers(headers, "sec-websocket-key"@).len() > 0 && valid_key(
        all_headers(headers, "sec-websocket-key"@)[0],
    )
    &&& all_headers(headers, "sec-websocket-version"@).len() > 0 && all_headers(
        headers,
        "sec-websocket-version"@,
    )[0] == "13"@
}

/// Whether one of the values lists a token.
fn any_lists_token(values: &Vec<String>, expected: &str) -> (r: bool)
    ensures
        r == exists|i: int|
            0 <= i < values@.len() && lists_token(#[trigger] views(values@)[i], expected@),
{
    let mut i: usize = 0;
    while i < values.len()
        invariant
            i <= values.len(),
            forall|j: int| 0 <= j < i ==> !lists_token(#[trigger] views(values@)[j], expected@),
        decreases values.len() - i,
    {
        if header_value_contains_token(values[i].as_str(), expected) {
            assert(lists_token(views(values@)[i as int], expected@));
            return true;
        }
        i += 1;
    }
    false
}

impl Request {
    /// A request from the head and the body that came over a connection. The cookies
    /// are those of the first cookie header.
    pub fn from_parts(
        version: HttpVersion,
        method: String,
        path: String,
        raw_query: Option<String>,
        header_pairs: Vec<(String, String)>,
        body: Vec<u8>,
        remote_addr: Option<PeerAddr>,
        secure_transport: bool,
    ) -> (r: Request)
        ensures
            r.wf(),
            r.version == version,
            r.method == method,
            r.path == path,
            r.raw_query == raw_query,
            r.header_pairs == header_pairs,
            r.body == body,
            r.remote_addr == remote_addr,
            r.secure_transport == secure_transport,
            r.route_pattern is None,
            r.resolved_websocket_config is None,
            r.upgrade == head_asks_for_websocket(version, method@, pairs(header_pairs@)),
            forall|n: Seq<char>| #[trigger] r.params.lookup(n) is None,
            forall|k: u64| #[trigger] r.state.lookup(k) is None,
            forall|k: Seq<char>| #[trigger]
                r.query.lookup(k) == query_values(query_text(opt(raw_query)), k),
            forall|n: Seq<char>| #[trigger]
                r.headers.lookup(n) == last_header(pairs(header_pairs@), n),
            forall|n: Seq<char>| #[trigger]
                r.cookies.lookup(n) == (match first_header(pairs(header_pairs@), "cookie"@) {
                    Some(v) => cookie_value(v, n),
                    None => None,
                }),
    {
        let query: MultiMap = match &raw_query {
            Some(q) => parse_query(q.as_str()),
            None => MultiMap::new(),
        };
        let mut headers: TextMap = TextMap::new();
        let mut cookies: TextMap = TextMap::new();
        let mut found: bool = false;
        let mut i: usize = 0;
        assert(pairs(header_pairs@).take(0) =~= Seq::empty());
        while i < header_pairs.len()
            invariant
                i <= header_pairs.len(),
                headers.wf(),
                cookies.wf(),
                found == (first_header(pairs(header_pairs@).take(i as int), "cookie"@) is Some),
                forall|n: Seq<char>| #[trigger]
                    headers.lookup(n) == last_header(pairs(header_pairs@).take(i as int), n),
                forall|n: Seq<char>| #[trigger]
                    cookies.lookup(n) == (match first_header(
                        pairs(header_pairs@).take(i as int),
                        "cookie"@,
                    ) {
                        Some(v) => cookie_value(v, n),
                        None => None,
                    }),
            decreases header_pairs.len() - i,
        {
            proof {
                let all = pairs(header_pairs@).take(i + 1);
                assert(all.drop_last() =~= pairs(header_pairs@).take(i as int));
                assert(all.last() == pairs(header_pairs@)[i as int]);
            }
            let name: &String = &header_pairs[i].0;
            let value: &String = &header_pairs[i].1;
            if !found && same(name.as_str(), "cookie") {
                cookies = parse_cookies(value.as_str());
                found = true;
            }
            headers.insert(name.clone(), value.clone());
            i += 1;
        }
        assert(pairs(header_pairs@).take(header_pairs@.len() as int) =~= pairs(header_pairs@));
        let mut r: Request = Request {
            version,
            method,
            path,
            raw_query,
            query,
            headers,
            cookies,
            body,
            params: TextMap::new(),
            route_pattern: None,
            resolved_websocket_config: None,
            upgrade: false,
            state: StateStore::new(),
            remote_addr,
            secure_transport,
            header_pairs,
        };
        r.upgrade = r.is_websocket_upgrade_request();
        r
    }

    /// Whether the head of the request asks for a WebSocket.
    pub fn is_websocket_upgrade_request(&self) -> (r: bool)
        ensures
            r == head_asks_for_websocket(
                self.version,
                self.method@,
                pairs(self.header_pairs@),
            ),
    {
        let keys: Vec<String> = self.headers_all("sec-websocket-key");
        let versions: Vec<String> = self.headers_all("sec-websocket-version");
        proof {
            if keys.len() > 0 {
                assert(views(keys@)[0] == keys@[0]@);
            }
            if versions.len() > 0 {
                assert(views(versions@)[0] == versions@[0]@);
            }
        }
        let upgrade: Vec<String> = self.headers_all("upgrade");
        let connection: Vec<String> = self.headers_all("connection");
        self.version == HttpVersion::Http11 && same_ignoring_case(self.method.as_str(), "GET")
            && any_lists_token(&upgrade, "websocket") && any_lists_token(&connection, "upgrade")
            && keys.len() > 0 && is_valid_websocket_key(keys[0].as_str()) && versions.len() > 0
            && same(versions[0].as_str(), "13")
    }
}

/// The pairs of a query add up: a part `key=value` adds the value behind those that the
/// key already has, and to no other key. A part without a value adds an empty one, and an
/// empty part nothing.
pub proof fn law_queries_add_up(
    parts: Seq<Seq<char>>,
    k: Seq<char>,
    v: Seq<char>,
    key: Seq<char>,
)
    requires
        !k.contains('='),
    ensures
        query_values(Seq::<Seq<char>>::empty(), key).len() == 0,
        query_values(parts.push(k + seq!['='] + v), key) == (if component(k, true) == key {
            query_values(parts, key).push(component(v, true))
        } else {
            query_values(parts, key)
        }),
        k.len() > 0 ==> query_values(parts.push(k), key) == (if component(k, true) == key {
            query_values(parts, key).push(Seq::empty())
        } else {
            query_values(parts, key)
        }),
        query_values(parts.push(Seq::empty()), key) == query_values(parts, key),
{
    let p = k + seq!['='] + v;
    assert(parts.push(p).drop_last() =~= parts);
    assert(parts.push(k).drop_last() =~= parts);
    assert(parts.push(Seq::empty()).drop_last() =~= parts);
    crate::text::law_split_at_each_separator(k, v, '=');
    reveal_strlit("");
    assert(""@ =~= Seq::<char>::empty());
    law_plain_components_stand_for_themselves(""@, true);
}

/// A query is parted by ampersands.
pub proof fn law_ampersands_part_queries(a: Seq<char>, b: Seq<char>, key: Seq<char>)
    requires
        !a.contains('&'),
    ensures
        query_values(split(a, '&'), key) == query_values(seq![a], key),
        query_values(split(a + seq!['&'] + b, '&'), key) == query_values(seq![a], key)
            + query_values(split(b, '&'), key),
{
    crate::text::law_split_at_each_separator(a, b, '&');
    lemma_query_values_add(seq![a], split(b, '&'), key);
}

proof fn lemma_query_values_add(a: Seq<Seq<char>>, b: Seq<Seq<char>>, key: Seq<char>)
    ensures
        query_values(a + b, key) == query_values(a, key) + query_values(b, key),
    decreases b.len(),
{
    if b.len() == 0 {
        assert(a + b =~= a);
        assert(query_values(a, key) + query_values(b, key) =~= query_values(a, key));
    } else {
        assert((a + b).drop_last() =~= a + b.drop_last());
        assert((a + b).last() == b.last());
        lemma_query_values_add(a, b.drop_last(), key);
        assert(query_values(a + b, key) =~= query_values(a, key) + query_values(b, key));
    }
}

/// A cookie header is read pair by pair: `name=value` sets the cookie of that name, with
/// white space around both of no account, and leaves all others as they are. What is no
/// pair sets nothing.
pub proof fn law_cookies_are_read_pair_by_pair(
    parts: Seq<Seq<char>>,
    n: Seq<char>,
    v: Seq<char>,
    blank: Seq<char>,
    name: Seq<char>,
)
    requires
        !n.contains('='),
        n.len() > 0 && !is_space(n[0]) && !is_space(n.last()),
        v.len() > 0 && !is_space(v[0]) && !is_space(v.last()),
        forall|i: int| 0 <= i < blank.len() ==> is_space(#[trigger] blank[i]),
    ensures
        cookie_in(Seq::<Seq<char>>::empty(), name) is None,
        cookie_in(parts.push(blank + n + seq!['='] + v + blank), name) == (if n == name {
            Some(v)
        } else {
            cookie_in(parts, name)
        }),
        cookie_in(parts.push(n), name) == cookie_in(parts, name),
{
    let t = n + seq!['='] + v;
    let p = blank + n + seq!['='] + v + blank;
    assert(p =~= blank + t + blank);
    assert(t[0] == n[0]);
    assert(t.last() == v.last());
    crate::text::law_trim_takes_the_ends_off(blank, t, blank);
    let e = Seq::<char>::empty();
    crate::text::law_trim_takes_the_ends_off(e, n, e);
    assert(e + n + e =~= n);
    crate::text::law_trim_takes_the_ends_off(e, v, e);
    assert(e + v + e =~= v);
    crate::text::law_split_at_each_separator(n, v, '=');
    assert(parts.push(p).drop_last() =~= parts);
    assert(parts.push(n).drop_last() =~= parts);
}

/// Headers that came in one after the other: of those with a name the last counts where
/// one is asked for, all are told in their order where all are, and the first is the
/// first. Names are told apart as they are, but for their case where all are asked for.
pub proof fn law_headers_are_kept_in_order(
    h: Seq<(Seq<char>, Seq<char>)>,
    n: Seq<char>,
    v: Seq<char>,
    name: Seq<char>,
)
    ensures
        last_header(h.push((n, v)), name) == (if n == name {
            Some(v)
        } else {
            last_header(h, name)
        }),
        all_headers(h.push((n, v)), name) == (if lower(n) == lower(name) {
            all_headers(h, name).push(v)
        } else {
            all_headers(h, name)
        }),
        first_header(h.push((n, v)), name) == (if first_header(h, name) is None && n == name {
            Some(v)
        } else {
            first_header(h, name)
        }),
        last_header(Seq::empty(), name) is None,
        first_header(Seq::empty(), name) is None,
        all_headers(Seq::empty(), name).len() == 0,
{
    assert(h.push((n, v)).drop_last() =~= h);
}

/// The cookies of several headers: the first header that has one counts.
pub proof fn law_first_cookie_header_counts(
    h: Seq<(Seq<char>, Seq<char>)>,
    n: Seq<char>,
    v: Seq<char>,
    name: Seq<char>,
)
    ensures
        header_cookie(Seq::empty(), name) is None,
        header_cookie(h.push((n, v)), name) == (if header_cookie(h, name) is None && n
            == "cookie"@ {
            cookie_value(v, name)
        } else {
            header_cookie(h, name)
        }),
{
    assert(h.push((n, v)).drop_last() =~= h);
}

/// A list of tokens has a token exactly where one of them is it, whatever its case and the
/// white space around it.
pub proof fn law_tokens_are_parted_by_commas(a: Seq<char>, b: Seq<char>, t: Seq<char>)
    requires
        !a.contains(','),
    ensures
        lists_token(a, t) <==> lower(trim(a)) == lower(t),
        lists_token(a + seq![','] + b, t) <==> lower(trim(a)) == lower(t) || lists_token(b, t),
{
    crate::text::law_split_at_each_separator(a, b, ',');
    let one = split(a, ',');
    assert(one[0] == a);
    let all = split(a + seq![','] + b, ',');
    let rest = split(b, ',');
    assert(all[0] == a);
    assert forall|i: int| 0 <= i < rest.len() implies #[trigger] rest[i] == all[i + 1] by {}
    if lists_token(b, t) {
        let i = choose|i: int| 0 <= i < rest.len() && lower(trim(#[trigger] rest[i])) == lower(t);
        assert(lower(trim(all[i + 1])) == lower(t));
    }
    if lists_token(a + seq![','] + b, t) {
        let i = choose|i: int| 0 <= i < all.len() && lower(trim(#[trigger] all[i])) == lower(t);
        if i > 0 {
            assert(rest[i - 1] == all[i]);
        }
    }
}

/// A request asks for a WebSocket only over HTTP/1.1, with GET, with the tokens of both
/// headers, with the base64 of sixteen bytes as its key, and with version 13; and with all
/// of these it does.
pub proof fn law_upgrades_ask_in_full(
    version: HttpVersion,
    method: Seq<char>,
    headers: Seq<(Seq<char>, Seq<char>)>,
    key: Seq<u8>,
)
    ensures
        head_asks_for_websocket(version, method, headers) ==> version == HttpVersion::Http11
            && lower(method) == lower("GET"@) && all_headers(headers, "upgrade"@).len() > 0
            && all_headers(headers, "connection"@).len() > 0 && all_headers(
            headers,
            "sec-websocket-key"@,
        ).len() > 0 && all_headers(headers, "sec-websocket-version"@).len() > 0,
        head_asks_for_websocket(version, method, headers) ==> all_headers(
            headers,
            "sec-websocket-version"@,
        )[0] == "13"@ && (exists|b: Seq<u8>| #[trigger]
            base64_text(b) == all_headers(headers, "sec-websocket-key"@)[0] && b.len() == 16),
        (forall|i: int|
            0 <= i < all_headers(headers, "upgrade"@).len() ==> !lists_token(
                #[trigger] all_headers(headers, "upgrade"@)[i],
                "websocket"@,
            )) || (forall|i: int|
            0 <= i < all_headers(headers, "connection"@).len() ==> !lists_token(
                #[trigger] all_headers(headers, "connection"@)[i],
                "upgrade"@,
            )) ==> !head_asks_for_websocket(version, method, headers),
        version == HttpVersion::Http11 && lower(method) == lower("GET"@) && key.len() == 16
            && all_headers(headers, "upgrade"@).len() > 0 && lists_token(
            all_headers(headers, "upgrade"@)[0],
            "websocket"@,
        ) && all_headers(headers, "connection"@).len() > 0 && lists_token(
            all_headers(headers, "connection"@)[0],
            "upgrade"@,
        ) && all_headers(headers, "sec-websocket-key"@) == seq![base64_text(key)] && all_headers(
            headers,
            "sec-websocket-version"@,
        ) == seq!["13"@] ==> head_asks_for_websocket(version, method, headers),
{
}

/// A header that must not be repeated is told where it came in once, or was set without
/// coming in, and never where it came in more often.
pub proof fn law_repeated_headers_are_not_told(req: Request, name: Seq<char>)
    ensures
        req.headers_of(name).len() == 1 ==> req.only_header(name) == Some(req.headers_of(name)[0])
            && req.told_header(name) == Some(req.headers_of(name)[0]),
        req.headers_of(name).len() > 1 ==> req.only_header(name) is None && req.told_header(
            name,
        ) is None,
        req.headers_of(name).len() == 0 ==> req.only_header(name) is None && req.told_header(name)
            == req.header_of(name),
{
}

/// A header that is asked for is found as it was written, else under small letters.
pub proof fn law_headers_are_found_in_small_letters(req: Request, name: Seq<char>)
    ensures
        req.headers.lookup(name) matches Some(v) ==> req.header_of(name) == Some(v),
        req.headers.lookup(name) is None ==> req.header_of(name) == req.headers.lookup(lower(name)),
{
}

/// A header has a token where any of those that came in lists it, or the one that was set
/// does, and nowhere else.
pub proof fn law_any_header_may_list_a_token(
    req: Request,
    name: Seq<char>,
    t: Seq<char>,
    i: int,
)
    ensures
        0 <= i < req.headers_of(name).len() && lists_token(req.headers_of(name)[i], t)
            ==> req.has_token(name, t),
        req.header_of(name) matches Some(v) ==> (lists_token(v, t) ==> req.has_token(name, t)),
        (forall|j: int|
            0 <= j < req.headers_of(name).len() ==> !lists_token(
                #[trigger] req.headers_of(name)[j],
                t,
            )) && (req.header_of(name) matches Some(v) ==> !lists_token(v, t)) ==> !req.has_token(
            name,
            t,
        ),
{
}

/// A request that nothing was said of yet is a GET of the root over HTTP/1.1, without a
/// query, headers, cookies or a body.
pub proof fn law_fresh_requests_get_the_root(b: RequestBuilder, n: Seq<char>, k: u64)
    requires
        b.is_fresh(),
    ensures
        b.version == HttpVersion::Http11,
        b.method@ == "GET"@,
        b.path@ == "/"@,
        b.raw_query is None,
        b.headers@.len() == 0,
        b.cookies.lookup(n) is None,
        b.params.lookup(n) is None,
        b.state.lookup(k) is None,
        b.body@.len() == 0,
        b.remote_addr is None,
        !b.secure,
{
}

/// Digits and the letters from a to f, small or capital, are hexadecimal digits, with their
/// values, and no other byte is one.
pub proof fn law_hexadecimal_digits_have_their_values(b: u8)
    ensures
        '0' as u8 <= b <= '9' as u8 ==> hex_digit(b) == Some((b - 48) as u8),
        'a' as u8 <= b <= 'f' as u8 ==> hex_digit(b) == Some((b - 87) as u8),
        'A' as u8 <= b <= 'F' as u8 ==> hex_digit(b) == Some((b - 55) as u8),
        !('0' as u8 <= b <= '9' as u8) && !('a' as u8 <= b <= 'f' as u8) && !('A' as u8 <= b
            <= 'F' as u8) ==> hex_digit(b) is None,
{
}

/// A pair of a query is parted at its first equals sign; in both sides plus signs are
/// spaces. A part without one is a key alone.
pub proof fn law_pairs_are_parted_at_the_equals_sign(k: Seq<char>, v: Seq<char>)
    requires
        !k.contains('='),
    ensures
        query_pair(k + seq!['='] + v) == (component(k, true), component(v, true)),
        query_pair(k).0 == component(k, true),
        query_pair(k).1 == component(Seq::empty(), true),
{
    reveal_strlit("");
    assert(""@ =~= Seq::<char>::empty());
    crate::text::law_texts_are_parted_once(k, v, '=');
}

/// A request asks for a WebSocket exactly where it is a GET whose upgrade header is that
/// word, whose connection header lists the upgrade, and which tells one key and version 13.
pub proof fn law_requests_ask_for_websockets(req: Request)
    ensures
        req.asks_for_websocket() <==> {
            &&& lower(req.method@) == lower("GET"@)
            &&& req.header_of("upgrade"@) is Some && lower(req.header_of("upgrade"@)->0) == lower(
                "websocket"@,
            )
            &&& req.header_of("connection"@) is Some && lists_token(
                req.header_of("connection"@)->0,
                "upgrade"@,
            )
            &&& req.told_header("sec-websocket-key"@) is Some
            &&& req.told_header("sec-websocket-version"@) is Some && trim(
                req.told_header("sec-websocket-version"@)->0,
            ) == "13"@
        },
{
}

} // verus!
