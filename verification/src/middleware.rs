//! What stands around handlers.

use vstd::prelude::*;

use crate::codec::{sha1_bytes, sha1_digest};
use crate::error::{HttpError, HttpErrorView};
use crate::headers::{few, values_of};
use crate::request::Request;
use crate::response::{
    lemma_plain_name, lemma_room, room, same_but_headers, BodyKind, BodyView, Response,
    ResponseView,
};
use crate::text::{
    chars, decimal, hex_text, lemma_hex_text_chars, lemma_hex_text_len, lower, opt, piece, same,
    same_ignoring_case, split, split_once, split_once_text, split_text, to_decimal,
    to_decimal_wide, to_hex, to_lower, trim, trimmed, views,
};
use crate::time::since;

verus! {

/// The response with what lets any site read it.
pub open spec fn shared_with_all(r: ResponseView) -> ResponseView {
    r.with_header("access-control-allow-origin"@, "*"@).with_header(
        "access-control-allow-methods"@,
        "GET,POST,PUT,PATCH,DELETE,OPTIONS,HEAD"@,
    ).with_header(
        "access-control-allow-headers"@,
        "content-type,authorization,x-request-id"@,
    )
}

/// Lets any site read a response.
pub fn cors(response: Response) -> (r: Response)
    ensures
        same_but_headers(r@, response@),
        room(response@.headers, 3) ==> r@ == shared_with_all(response@),
{
    proof {
        if room(response@.headers, 3) {
            lemma_room(response@.headers, 2, "access-control-allow-origin"@, "*"@);
            lemma_room(
                response@.with_header("access-control-allow-origin"@, "*"@).headers,
                1,
                "access-control-allow-methods"@,
                "GET,POST,PUT,PATCH,DELETE,OPTIONS,HEAD"@,
            );
        }
    }
    response.header("access-control-allow-origin", "*").header(
        "access-control-allow-methods",
        "GET,POST,PUT,PATCH,DELETE,OPTIONS,HEAD",
    ).header("access-control-allow-headers", "content-type,authorization,x-request-id")
}

/// Numbers for the requests of a process.
#[derive(Debug)]
pub struct RequestIds {
    pub next: u64,
}

/// The text of a request id.
pub open spec fn request_id_text(nanos: u128, count: u64) -> Seq<char> {
    "req-"@ + decimal(nanos as nat) + "-"@ + decimal(count as nat)
}

impl RequestIds {
    /// The numbers from one on.
    pub fn new() -> (r: RequestIds)
        ensures
            r.next == 1,
    {
        RequestIds { next: 1 }
    }

    /// An id made of the time, in nanoseconds since 1970, and the next number. After
    /// the last number comes zero.
    pub fn generate_request_id(&mut self, nanos: u128) -> (r: String)
        ensures
            r@ == request_id_text(nanos, old(self).next),
            final(self).next == (if old(self).next == u64::MAX {
                0
            } else {
                (old(self).next + 1) as u64
            }),
    {
        let count: u64 = self.next;
        self.next = if count == u64::MAX {
            0
        } else {
            count + 1
        };
        let nanos: String = to_decimal_wide(nanos);
        let count: String = to_decimal(count);
        "req-".to_owned().concat(nanos.as_str()).concat("-").concat(count.as_str())
    }
}

/// Gives a request an id, unless it has one, and says which.
pub fn request_id(req: &mut Request, ids: &mut RequestIds, nanos: u128) -> (r: String)
    requires
        old(req).wf(),
    ensures
        final(req).wf(),
        match old(req).header_of("x-request-id"@) {
            Some(id) => r@ == id && final(ids).next == old(ids).next,
            None => r@ == request_id_text(nanos, old(ids).next) && final(ids).next == (if old(
                ids,
            ).next == u64::MAX {
                0
            } else {
                (old(ids).next + 1) as u64
            }),
        },
        *final(req) == (Request { headers: final(req).headers, ..*old(req) }),
        forall|n: Seq<char>| #[trigger]
            final(req).headers.lookup(n) == (if n == "x-request-id"@ {
                Some(r@)
            } else {
                old(req).headers.lookup(n)
            }),
{
    let given: Option<String> = match req.header("x-request-id") {
        Some(id) => Some(id.to_owned()),
        None => None,
    };
    let id: String = match given {
        Some(id) => id,
        None => ids.generate_request_id(nanos),
    };
    req.headers.insert("x-request-id".to_owned(), id.clone());
    id
}

/// Tells the id of the request in its response.
pub fn tell_request_id(response: Response, id: &str) -> (r: Response)
    ensures
        same_but_headers(r@, response@),
        few(response@.headers) ==> r@ == response@.with_header("x-request-id"@, id@),
{
    response.header("x-request-id", id)
}

/// How a body is compressed.
#[derive(Clone, Copy, Debug, PartialEq, Eq, Structural)]
pub enum Encoding {
    Brotli,
    Gzip,
    Deflate,
}

/// The bytes in the format of gzip.
pub uninterp spec fn gzip_bytes(data: Seq<u8>) -> Option<Seq<u8>>;

/// The bytes in the format of zlib.
pub uninterp spec fn zlib_bytes(data: Seq<u8>) -> Option<Seq<u8>>;

/// The bytes in the format of brotli, by the size of the buffer, the quality and the
/// bits of the window.
pub uninterp spec fn brotli_bytes(data: Seq<u8>, buffer: nat, quality: nat, window: nat) -> Option<
    Seq<u8>,
>;

/// The size of the buffer that brotli writes through.
pub const BROTLI_BUFFER: usize = 4096;

/// The quality of brotli, from zero to eleven.
pub const BROTLI_QUALITY: u32 = 5;

/// The bits of brotli's window.
pub const BROTLI_WINDOW: u32 = 22;

/// The view of bytes that may be missing.
pub open spec fn bytes_view(r: Option<Vec<u8>>) -> Option<Seq<u8>> {
    match r {
        Some(v) => Some(v@),
        None => None,
    }
}

/// `flate2::write::GzEncoder` compresses bytes into the format of gzip, at its default
/// level. What it makes of given bytes is only named here.
#[verifier::external_body]
pub(crate) fn gzip_encode(data: &Vec<u8>) -> (r: Option<Vec<u8>>)
    ensures
        bytes_view(r) == gzip_bytes(data@),
{
    let mut encoder = flate2::write::GzEncoder::new(Vec::new(), flate2::Compression::default());
    std::io::Write::write_all(&mut encoder, data).ok()?;
    encoder.finish().ok()
}

/// `flate2::write::ZlibEncoder` compresses bytes into the format of zlib, at its default
/// level. What it makes of given bytes is only named here.
#[verifier::external_body]
pub(crate) fn zlib_encode(data: &Vec<u8>) -> (r: Option<Vec<u8>>)
    ensures
        bytes_view(r) == zlib_bytes(data@),
{
    let mut encoder = flate2::write::ZlibEncoder::new(Vec::new(), flate2::Compression::default());
    std::io::Write::write_all(&mut encoder, data).ok()?;
    encoder.finish().ok()
}

/// `brotli::CompressorWriter` compresses bytes into the format of brotli. What it makes
/// of given bytes and parameters is only named here. It is built with its feature
/// `portable-float`, so that it estimates costs by tables and not by the logarithms of
/// the platform, and gives the same bytes everywhere.
#[verifier::external_body]
pub(crate) fn brotli_encode(data: &Vec<u8>, buffer: usize, quality: u32, window: u32) -> (r: Option<
    Vec<u8>,
>)
    requires
        0 < buffer <= 65536,
        quality <= 11,
        10 <= window <= 24,
    ensures
        bytes_view(r) == brotli_bytes(data@, buffer as nat, quality as nat, window as nat),
{
    let mut writer = brotli::CompressorWriter::new(Vec::new(), buffer, quality, window);
    std::io::Write::write_all(&mut writer, data).ok()?;
    std::io::Write::flush(&mut writer).ok()?;
    Some(writer.into_inner())
}

impl Encoding {
    /// The name of the encoding, as contracts speak of it.
    pub open spec fn spec_name(self) -> Seq<char> {
        match self {
            Encoding::Brotli => "br"@,
            Encoding::Gzip => "gzip"@,
            Encoding::Deflate => "deflate"@,
        }
    }

    /// The name of the encoding.
    pub fn name(self) -> (r: &'static str)
        ensures
            r@ == self.spec_name(),
    {
        match self {
            Encoding::Brotli => "br",
            Encoding::Gzip => "gzip",
            Encoding::Deflate => "deflate",
        }
    }

    /// What the encoding makes of bytes.
    pub open spec fn encoded(self, data: Seq<u8>) -> Option<Seq<u8>> {
        match self {
            Encoding::Brotli => brotli_bytes(
                data,
                BROTLI_BUFFER as nat,
                BROTLI_QUALITY as nat,
                BROTLI_WINDOW as nat,
            ),
            Encoding::Gzip => gzip_bytes(data),
            Encoding::Deflate => zlib_bytes(data),
        }
    }

    /// What the encoding makes of bytes.
    pub fn encode(self, data: &Vec<u8>) -> (r: Option<Vec<u8>>)
        ensures
            bytes_view(r) == self.encoded(data@),
    {
        match self {
            Encoding::Brotli => brotli_encode(data, BROTLI_BUFFER, BROTLI_QUALITY, BROTLI_WINDOW),
            Encoding::Gzip => gzip_encode(data),
            Encoding::Deflate => zlib_encode(data),
        }
    }
}

/// A text without its spaces.
pub open spec fn without_spaces(s: Seq<char>) -> Seq<char>
    decreases s.len(),
{
    if s.len() == 0 {
        Seq::empty()
    } else if s.last() == ' ' {
        without_spaces(s.drop_last())
    } else {
        without_spaces(s.drop_last()).push(s.last())
    }
}

/// A text without its spaces.
fn strip_spaces(s: &str) -> (r: String)
    ensures
        r@ == without_spaces(s@),
{
    let c: Vec<char> = chars(s);
    let mut r: String = String::new();
    let mut i: usize = 0;
    assert(c@.take(0) =~= Seq::empty());
    while i < c.len()
        invariant
            i <= c.len(),
            c@ == s@,
            r@ == without_spaces(c@.take(i as int)),
        decreases c.len() - i,
    {
        assert(c@.take(i + 1).drop_last() =~= c@.take(i as int));
        if c[i] != ' ' {
            r.push(c[i]);
        }
        i += 1;
    }
    assert(c@.take(c@.len() as int) =~= c@);
    r
}

/// The name and the parameters of a part of a list of encodings.
pub open spec fn coding_parts(part: Seq<char>) -> (Seq<char>, Seq<char>) {
    match split_once(trim(part), ';') {
        Some((name, params)) => (name, params),
        None => (trim(part), ""@),
    }
}

/// Whether a part of a list of encodings takes an encoding: it names it, and does not
/// refuse it.
pub open spec fn takes(part: Seq<char>, name: Seq<char>) -> bool {
    lower(without_spaces(coding_parts(part).1)) != lower("q=0"@) && lower(
        trim(coding_parts(part).0),
    ) == name
}

/// Whether a list of encodings takes one.
pub open spec fn accepts(list: Seq<char>, name: Seq<char>) -> bool {
    exists|i: int| 0 <= i < split(list, ',').len() && takes(#[trigger] split(list, ',')[i], name)
}

/// The best encoding that a list takes: brotli, where it is offered, before gzip, and
/// gzip before deflate.
pub open spec fn best_encoding(list: Seq<char>, brotli: bool) -> Option<Encoding> {
    if brotli && accepts(list, "br"@) {
        Some(Encoding::Brotli)
    } else if accepts(list, "gzip"@) {
        Some(Encoding::Gzip)
    } else if accepts(list, "deflate"@) {
        Some(Encoding::Deflate)
    } else {
        None
    }
}

/// Whether a list of encodings takes one.
fn accepted(list: &str, name: &str) -> (r: bool)
    ensures
        r == accepts(list@, name@),
{
    let parts: Vec<String> = split_text(list, ',');
    let mut i: usize = 0;
    while i < parts.len()
        invariant
            i <= parts.len(),
            views(parts@) == split(list@, ','),
            forall|j: int| 0 <= j < i ==> !takes(#[trigger] split(list@, ',')[j], name@),
        decreases parts.len() - i,
    {
        assert(split(list@, ',')[i as int] == parts@[i as int]@);
        let token: String = trimmed(parts[i].as_str());
        let (coding, params): (String, String) = match split_once_text(token.as_str(), ';') {
            Some(both) => both,
            None => (token, "".to_owned()),
        };
        if !same_ignoring_case(strip_spaces(params.as_str()).as_str(), "q=0") && same(
            to_lower(trimmed(coding.as_str()).as_str()).as_str(),
            name,
        ) {
            return true;
        }
        i += 1;
    }
    false
}

/// The best encoding that a list takes. Brotli is chosen only where it is offered.
pub fn choose_encoding(accept_encoding: &str, brotli: bool) -> (r: Option<Encoding>)
    ensures
        r == best_encoding(accept_encoding@, brotli),
{
    if brotli && accepted(accept_encoding, "br") {
        Some(Encoding::Brotli)
    } else if accepted(accept_encoding, "gzip") {
        Some(Encoding::Gzip)
    } else if accepted(accept_encoding, "deflate") {
        Some(Encoding::Deflate)
    } else {
        None
    }
}

/// The best encoding that a request takes.
pub open spec fn encoding_for(req: Request, brotli: bool) -> Option<Encoding> {
    match req.header_of("accept-encoding"@) {
        Some(list) => best_encoding(list, brotli),
        None => None,
    }
}

/// The best encoding that a request takes.
pub fn encoding_of(req: &Request, brotli: bool) -> (r: Option<Encoding>)
    requires
        req.wf(),
    ensures
        r == encoding_for(*req, brotli),
{
    match req.header("accept-encoding") {
        Some(list) => choose_encoding(list, brotli),
        None => None,
    }
}

/// Whether a response can be compressed: it does not open a WebSocket, is not
/// compressed yet, and has a body in memory of at least so many bytes.
pub open spec fn can_compress(r: ResponseView, min_size: nat) -> bool {
    &&& r.status != 101
    &&& values_of(r.headers, "content-encoding"@).len() == 0
    &&& r.body matches BodyView::Bytes(b) && b.len() >= min_size
}

/// The response with another body in a coding.
pub open spec fn recoded(r: ResponseView, data: Seq<u8>, name: Seq<char>) -> ResponseView {
    (ResponseView { body: BodyView::Bytes(data), ..r }).with_header(
        "content-encoding"@,
        name,
    ).with_added("vary"@, "Accept-Encoding"@)
}

/// What is left to be compressed of a response.
pub fn compressible(response: &Response, min_size: usize) -> (r: Option<&Vec<u8>>)
    ensures
        match r {
            Some(body) => can_compress(response@, min_size as nat) && response@.body
                == BodyView::Bytes(body@),
            None => !can_compress(response@, min_size as nat),
        },
{
    proof {
        reveal_strlit("content-encoding");
        lemma_plain_name("content-encoding"@);
    }
    if response.status == 101 || response.header_values("content-encoding").len() > 0 {
        return None;
    }
    match response.body_bytes() {
        Some(body) => if body.len() < min_size {
            None
        } else {
            Some(body)
        },
        None => None,
    }
}

/// Puts what a body was compressed to in its place. Where it could not be compressed
/// it stays.
pub fn recode(response: Response, name: &'static str, data: Option<Vec<u8>>) -> (r: Response)
    requires
        response@.body is Bytes,
    ensures
        match data {
            None => r@ == response@,
            Some(v) => {
                &&& r@.status == response@.status
                &&& r@.content_type == response@.content_type
                &&& r@.error == response@.error
                &&& r@.body == BodyView::Bytes(v@)
                &&& room(response@.headers, 2) ==> r@ == recoded(response@, v@, name@)
            },
        },
{
    let mut response: Response = response;
    let ghost was = response@;
    match data {
        None => response,
        Some(v) => {
            let _done: Result<(), HttpError> = response.map_body_bytes(Ok(v));
            proof {
                if room(was.headers, 2) {
                    lemma_room(was.headers, 1, "content-encoding"@, name@);
                }
            }
            response.header("content-encoding", name).append_header("vary", "Accept-Encoding")
        },
    }
}

/// Compresses a response in the encoding that its request takes, where its body has at
/// least so many bytes.
pub fn compression_with_min_size(
    response: Response,
    encoding: Option<Encoding>,
    min_size: usize,
) -> (r: Response)
    ensures
        match encoding {
            None => r@ == response@,
            Some(e) => if can_compress(response@, min_size as nat) {
                match e.encoded(response@.body->Bytes_0) {
                    None => r@ == response@,
                    Some(data) => {
                        &&& r@.status == response@.status
                        &&& r@.content_type == response@.content_type
                        &&& r@.error == response@.error
                        &&& r@.body == BodyView::Bytes(data)
                        &&& room(response@.headers, 2) ==> r@ == recoded(
                            response@,
                            data,
                            e.spec_name(),
                        )
                    },
                }
            } else {
                r@ == response@
            },
        },
{
    let e: Encoding = match encoding {
        Some(e) => e,
        None => {
            return response;
        },
    };
    let data: Option<Vec<u8>> = match compressible(&response, min_size) {
        Some(body) => e.encode(body),
        None => {
            return response;
        },
    };
    recode(response, e.name(), data)
}

/// The size from which on it is worth to compress a body.
pub const COMPRESSION_MIN_BYTES: usize = 1024;

/// Compresses a response in the encoding that its request takes, where its body has at
/// least a kilobyte.
pub fn compression(response: Response, encoding: Option<Encoding>) -> (r: Response)
    ensures
        match encoding {
            None => r@ == response@,
            Some(e) => if can_compress(response@, 1024) {
                match e.encoded(response@.body->Bytes_0) {
                    None => r@ == response@,
                    Some(data) => {
                        &&& r@.status == response@.status
                        &&& r@.content_type == response@.content_type
                        &&& r@.error == response@.error
                        &&& r@.body == BodyView::Bytes(data)
                        &&& room(response@.headers, 2) ==> r@ == recoded(
                            response@,
                            data,
                            e.spec_name(),
                        )
                    },
                }
            } else {
                r@ == response@
            },
        },
{
    compression_with_min_size(response, encoding, COMPRESSION_MIN_BYTES)
}

/// Whether a list of encodings names gzip.
pub open spec fn names_gzip(list: Seq<char>) -> bool {
    exists|i: int| 0 <= i < split(list, ',').len() && trim(#[trigger] split(list, ',')[i]) == "gzip"@
}

/// Whether a request takes gzip by its plain name.
pub fn accepts_gzip(req: &Request) -> (r: bool)
    requires
        req.wf(),
    ensures
        r == (req.header_of("accept-encoding"@) matches Some(list) && names_gzip(list)),
{
    match req.header("accept-encoding") {
        Some(list) => {
            let parts: Vec<String> = split_text(list, ',');
            let mut i: usize = 0;
            while i < parts.len()
                invariant
                    i <= parts.len(),
                    req.header_of("accept-encoding"@) == Some(list@),
                    views(parts@) == split(list@, ','),
                    forall|j: int| 0 <= j < i ==> trim(#[trigger] split(list@, ',')[j]) != "gzip"@,
                decreases parts.len() - i,
            {
                assert(split(list@, ',')[i as int] == parts@[i as int]@);
                if same(trimmed(parts[i].as_str()).as_str(), "gzip") {
                    return true;
                }
                i += 1;
            }
            false
        },
        None => false,
    }
}

/// Compresses a response with gzip, where its request takes that and its body is not
/// empty.
pub fn gzip(response: Response, accepts_gzip: bool) -> (r: Response)
    ensures
        if accepts_gzip && can_compress(response@, 1) {
            match gzip_bytes(response@.body->Bytes_0) {
                None => r@ == response@,
                Some(data) => {
                    &&& r@.status == response@.status
                    &&& r@.content_type == response@.content_type
                    &&& r@.error == response@.error
                    &&& r@.body == BodyView::Bytes(data)
                    &&& room(response@.headers, 2) ==> r@ == recoded(response@, data, "gzip"@)
                },
            }
        } else {
            r@ == response@
        },
{
    if !accepts_gzip {
        return response;
    }
    compression_with_min_size(response, Some(Encoding::Gzip), 1)
}

/// The digest of bytes in hexadecimal.
pub fn sha1_hex(data: &Vec<u8>) -> (r: String)
    ensures
        r@ == hex_text(sha1_bytes(data@)),
        r@.len() == 40,
{
    let digest: Vec<u8> = sha1_digest(data);
    proof {
        lemma_hex_text_len(digest@);
    }
    to_hex(&digest)
}

/// The tag of a body.
pub open spec fn tag_of(data: Seq<u8>) -> Seq<char> {
    "\""@ + hex_text(sha1_bytes(data)) + "\""@
}

/// Whether a text has only characters that can be shown.
pub open spec fn is_visible(s: Seq<char>) -> bool {
    forall|i: int| 0 <= i < s.len() ==> 32 <= (#[trigger] s[i]) as u32 && (s[i] as u32) < 127
        || s[i] == '\t'
}

/// Whether a text has only characters that can be shown.
fn visible(s: &str) -> (r: bool)
    ensures
        r == is_visible(s@),
{
    let c: Vec<char> = chars(s);
    let mut i: usize = 0;
    while i < c.len()
        invariant
            i <= c.len(),
            c@ == s@,
            forall|j: int| 0 <= j < i ==> 32 <= (#[trigger] s@[j]) as u32 && (s@[j] as u32) < 127
                || s@[j] == '\t',
        decreases c.len() - i,
    {
        let code: u32 = c[i] as u32;
        if !(32 <= code && code < 127) && c[i] != '\t' {
            assert(s@[i as int] == c@[i as int]);
            return false;
        }
        i += 1;
    }
    true
}

/// The tag that a response already has: the first, where it can be shown.
pub open spec fn own_tag(r: ResponseView) -> Option<Seq<char>> {
    let tags = values_of(r.headers, "etag"@);
    if tags.len() > 0 && is_visible(tags[0]) {
        Some(tags[0])
    } else {
        None
    }
}

/// The tag of a response: its own, else that of its body, where that is in memory and
/// not empty.
pub open spec fn tag_for(r: ResponseView) -> Option<Seq<char>> {
    match own_tag(r) {
        Some(t) => Some(t),
        None => match r.body {
            BodyView::Bytes(b) => if b.len() > 0 {
                Some(tag_of(b))
            } else {
                None
            },
            _ => None,
        },
    }
}

/// A tag without the marks of a weak one before it.
pub open spec fn strong(s: Seq<char>) -> Seq<char>
    decreases s.len(),
{
    if s.len() >= 2 && s[0] == 'W' && s[1] == '/' {
        strong(s.skip(2))
    } else {
        s
    }
}

/// A tag without the marks of a weak one before it.
fn strip_weak(s: &str) -> (r: String)
    ensures
        r@ == strong(s@),
{
    let c: Vec<char> = chars(s);
    let mut n: usize = 0;
    assert(c@.skip(0) =~= c@);
    while c.len() - n >= 2 && c[n] == 'W' && c[n + 1] == '/'
        invariant
            n <= c.len(),
            c@ == s@,
            strong(c@.skip(n as int)) == strong(s@),
        decreases c.len() - n,
    {
        assert(c@.skip(n as int).skip(2) =~= c@.skip(n + 2));
        n += 2;
    }
    let r: String = piece(&c, n, c.len());
    assert(c@.subrange(n as int, c@.len() as int) =~= c@.skip(n as int));
    r
}

/// Whether a part of a list names a tag, or any.
pub open spec fn names_tag(part: Seq<char>, tag: Seq<char>) -> bool {
    strong(trim(part)) == "*"@ || strong(trim(part)) == tag
}

/// Whether a list names a tag, or any.
pub open spec fn lists_tag(list: Seq<char>, tag: Seq<char>) -> bool {
    exists|i: int| 0 <= i < split(list, ',').len() && names_tag(#[trigger] split(list, ',')[i], tag)
}

/// Whether a list names a tag, or any.
fn tag_listed(list: &str, tag: &str) -> (r: bool)
    ensures
        r == lists_tag(list@, tag@),
{
    let parts: Vec<String> = split_text(list, ',');
    let mut i: usize = 0;
    while i < parts.len()
        invariant
            i <= parts.len(),
            views(parts@) == split(list@, ','),
            forall|j: int| 0 <= j < i ==> !names_tag(#[trigger] split(list@, ',')[j], tag@),
        decreases parts.len() - i,
    {
        assert(split(list@, ',')[i as int] == parts@[i as int]@);
        let part: String = strip_weak(trimmed(parts[i].as_str()).as_str());
        if same(part.as_str(), "*") || same(part.as_str(), tag) {
            return true;
        }
        i += 1;
    }
    false
}

/// What a request to read says of the tags that its client has.
pub open spec fn condition_in(req: Request) -> Option<Seq<char>> {
    if req.method@ == "GET"@ || req.method@ == "HEAD"@ {
        req.header_of("if-none-match"@)
    } else {
        None
    }
}

/// What a request to read says of the tags that its client has.
pub fn etag_condition(req: &Request) -> (r: Option<String>)
    requires
        req.wf(),
    ensures
        opt(r) == condition_in(*req),
{
    if same(req.method.as_str(), "GET") || same(req.method.as_str(), "HEAD") {
        match req.header("if-none-match") {
            Some(list) => Some(list.to_owned()),
            None => None,
        }
    } else {
        None
    }
}

/// The response with its tag.
pub open spec fn tagged(r: ResponseView) -> ResponseView {
    match own_tag(r) {
        Some(_) => r,
        None => match tag_for(r) {
            Some(t) => r.with_header("etag"@, t),
            None => r,
        },
    }
}

/// What a client is answered that may have the response already. A stream is sent as it
/// is, and so is what has another status than 200.
pub open spec fn conditional(r: ResponseView, condition: Option<Seq<char>>) -> ResponseView {
    if r.status != 200 || r.body is Stream {
        r
    } else {
        match tag_for(r) {
            Some(tag) => if condition matches Some(list) && lists_tag(list, tag) {
                (ResponseView { body: BodyView::Empty, ..tagged(r) }).with_status(304)
            } else {
                tagged(r)
            },
            None => r,
        }
    }
}

/// Gives a response a tag, and takes the body away where the client has it already.
/// Streams and responses with another status than 200 stay as they are.
pub fn etag(response: Response, if_none_match: Option<String>) -> (r: Response)
    ensures
        few(response@.headers) ==> r@ == conditional(response@, opt(if_none_match)),
        response@.status != 200 || response@.body is Stream ==> r@ == response@,
        r@.status == conditional(response@, opt(if_none_match)).status,
        r@.body == conditional(response@, opt(if_none_match)).body,
        r@.content_type == response@.content_type,
        r@.error == response@.error,
{
    if response.status != 200 || matches!(response.body_kind, BodyKind::Stream(_)) {
        return response;
    }
    proof {
        reveal_strlit("etag");
        lemma_plain_name("etag"@);
    }
    let tags: Vec<String> = response.header_values("etag");
    let ghost was = response@;
    let mut response: Response = response;
    let own: bool = tags.len() > 0 && visible(tags[0].as_str());
    proof {
        if tags.len() > 0 {
            assert(views(tags@)[0] == tags@[0]@);
        }
    }
    let tag: String = if own {
        tags[0].clone()
    } else {
        let made: String = match response.body_bytes() {
            Some(body) => {
                if body.len() == 0 {
                    return response;
                }
                let digest: String = sha1_hex(body);
                "\"".to_owned().concat(digest.as_str()).concat("\"")
            },
            None => {
                return response;
            },
        };
        response = response.header("etag", made.as_str());
        made
    };
    let known: bool = match &if_none_match {
        Some(list) => tag_listed(list.as_str(), tag.as_str()),
        None => false,
    };
    if known {
        response.clear_body();
        response = response.status(304);
    }
    response
}

/// A client that names the tag that a response in memory was given is answered without
/// the body. A stream is sent whatever the client names.
pub proof fn law_told_tag_revalidates(r: ResponseView, list: Seq<char>)
    requires
        r.status == 200,
        tag_for(r) is Some,
        lists_tag(list, tag_for(r)->0),
    ensures
        r.body is Stream ==> conditional(r, Some(list)) == r,
        !(r.body is Stream) ==> {
            &&& conditional(r, Some(list)).status == 304
            &&& conditional(r, Some(list)).body == BodyView::Empty
            &&& conditional(r, Some(list)).headers == tagged(r).headers
        },
{
}

/// What is answered once the time of a request is over.
pub fn timeout_response() -> (r: Response)
    ensures
        r@ == ResponseView::of_error(HttpErrorView { status: 408, message: "Request Timeout"@ }),
{
    Response::from_error(HttpError::new(408, "Request Timeout"))
}

/// What is answered to a request that a guard turns away; the others go on.
pub fn guard(allowed: bool) -> (r: Option<Response>)
    ensures
        r is None == allowed,
        r matches Some(res) ==> res@ == ResponseView::of_error(
            HttpErrorView { status: 403, message: "Access denied"@ },
        ),
{
    if allowed {
        None
    } else {
        Some(Response::from_error(HttpError::forbidden("Access denied")))
    }
}

/// A list of encodings takes one exactly where one of its parts does.
pub proof fn law_encodings_are_parted_by_commas(a: Seq<char>, b: Seq<char>, name: Seq<char>)
    requires
        !a.contains(','),
    ensures
        accepts(a, name) <==> takes(a, name),
        accepts(a + seq![','] + b, name) <==> takes(a, name) || accepts(b, name),
        names_gzip(a) <==> trim(a) == "gzip"@,
        names_gzip(a + seq![','] + b) <==> trim(a) == "gzip"@ || names_gzip(b),
{
    crate::text::law_split_at_each_separator(a, b, ',');
    assert(split(a, ',')[0] == a);
    let all = split(a + seq![','] + b, ',');
    let rest = split(b, ',');
    assert(all[0] == a);
    assert forall|i: int| 0 <= i < rest.len() implies #[trigger] rest[i] == all[i + 1] by {}
    if accepts(b, name) {
        let i = choose|i: int| 0 <= i < rest.len() && takes(#[trigger] rest[i], name);
        assert(takes(all[i + 1], name));
    }
    if accepts(a + seq![','] + b, name) {
        let i = choose|i: int| 0 <= i < all.len() && takes(#[trigger] all[i], name);
        if i > 0 {
            assert(rest[i - 1] == all[i]);
        }
    }
    if names_gzip(b) {
        let i = choose|i: int| 0 <= i < rest.len() && trim(#[trigger] rest[i]) == "gzip"@;
        assert(trim(all[i + 1]) == "gzip"@);
    }
    if names_gzip(a + seq![','] + b) {
        let i = choose|i: int| 0 <= i < all.len() && trim(#[trigger] all[i]) == "gzip"@;
        if i > 0 {
            assert(rest[i - 1] == all[i]);
        }
    }
}

/// A part of such a list takes the encoding that it names, whatever its case, unless its
/// weight is zero.
pub proof fn law_weight_zero_refuses(coding: Seq<char>, params: Seq<char>, name: Seq<char>)
    requires
        coding.len() > 0,
        !coding.contains(';'),
        !crate::text::is_space(coding[0]),
        !crate::text::is_space(coding.last()),
        params.len() > 0 ==> !crate::text::is_space(params.last()),
    ensures
        takes(coding, name) <==> lower(coding) == name,
        takes(coding + seq![';'] + params, name) <==> lower(coding) == name && lower(
            without_spaces(params),
        ) != "q=0"@,
{
    reveal_strlit("q=0");
    reveal_strlit("");
    let e = Seq::<char>::empty();
    assert(lower("q=0"@) =~= "q=0"@);
    crate::text::law_trim_takes_the_ends_off(e, coding, e);
    assert(e + coding + e =~= coding);
    crate::text::law_split_at_each_separator(coding, params, ';');
    let whole = coding + seq![';'] + params;
    assert(whole[0] == coding[0]);
    if params.len() > 0 {
        assert(whole.last() == params.last());
    } else {
        assert(whole.last() == ';');
    }
    crate::text::law_trim_takes_the_ends_off(e, whole, e);
    assert(e + whole + e =~= whole);
    assert(without_spaces(""@) =~= e);
    assert(lower(without_spaces(""@)).len() == 0);
}

/// Spaces are left out, wherever they stand, and nothing else is.
pub proof fn law_spaces_are_left_out(s: Seq<char>, c: char)
    ensures
        without_spaces(Seq::empty()) == Seq::<char>::empty(),
        without_spaces(s.push(' ')) == without_spaces(s),
        c != ' ' ==> without_spaces(s.push(c)) == without_spaces(s).push(c),
{
    assert(s.push(' ').drop_last() =~= s);
    assert(s.push(c).drop_last() =~= s);
}

/// Brotli comes before gzip, where it is offered, and gzip before deflate; what a list does
/// not take is never chosen.
pub proof fn law_best_encoding_is_chosen(list: Seq<char>, brotli: bool)
    ensures
        best_encoding(list, brotli) == Some(Encoding::Brotli) <==> brotli && accepts(list, "br"@),
        best_encoding(list, brotli) == Some(Encoding::Gzip) <==> !(brotli && accepts(list, "br"@))
            && accepts(list, "gzip"@),
        best_encoding(list, brotli) == Some(Encoding::Deflate) <==> !(brotli && accepts(
            list,
            "br"@,
        )) && !accepts(list, "gzip"@) && accepts(list, "deflate"@),
        best_encoding(list, brotli) is None <==> !(brotli && accepts(list, "br"@)) && !accepts(
            list,
            "gzip"@,
        ) && !accepts(list, "deflate"@),
        Encoding::Brotli.spec_name() == "br"@,
        Encoding::Gzip.spec_name() == "gzip"@,
        Encoding::Deflate.spec_name() == "deflate"@,
{
}

/// A compressed response has the compressed bytes as its body, names its encoding, and says
/// that it depends on what the client takes. All else stays.
pub proof fn law_compressed_responses_name_their_encoding(
    r: ResponseView,
    data: Seq<u8>,
    e: Encoding,
)
    ensures
        recoded(r, data, e.spec_name()).body == BodyView::Bytes(data),
        recoded(r, data, e.spec_name()).status == r.status,
        recoded(r, data, e.spec_name()).content_type == r.content_type,
        values_of(recoded(r, data, e.spec_name()).headers, "content-encoding"@) == seq![
            e.spec_name(),
        ],
        values_of(recoded(r, data, e.spec_name()).headers, "vary"@) == values_of(
            r.headers,
            "vary"@,
        ).push("Accept-Encoding"@),
{
    reveal_strlit("content-encoding");
    reveal_strlit("vary");
    reveal_strlit("Accept-Encoding");
    reveal_strlit("br");
    reveal_strlit("gzip");
    reveal_strlit("deflate");
    lemma_plain_name("content-encoding"@);
    lemma_plain_name("vary"@);
    assert(lower("content-encoding"@).len() == 16);
    assert(lower("vary"@).len() == 4);
}

/// Only what is long enough, in memory, not compressed yet and no opening of a WebSocket is
/// compressed.
pub proof fn law_what_can_be_compressed(r: ResponseView, min: nat)
    ensures
        can_compress(r, min) ==> r.status != 101 && values_of(r.headers, "content-encoding"@).len()
            == 0 && r.body is Bytes,
        r.status == 101 || r.body is Stream || r.body is Empty ==> !can_compress(r, min),
        r.body matches BodyView::Bytes(b) ==> (r.status != 101 && values_of(
            r.headers,
            "content-encoding"@,
        ).len() == 0 ==> (can_compress(r, min) <==> b.len() >= min)),
{
}

/// A list names a tag exactly where one of its parts is it, weak or not, or is the star.
pub proof fn law_lists_name_tags(a: Seq<char>, b: Seq<char>, tag: Seq<char>)
    requires
        !a.contains(','),
    ensures
        lists_tag(a, tag) <==> strong(trim(a)) == tag || strong(trim(a)) == "*"@,
        lists_tag(a + seq![','] + b, tag) <==> strong(trim(a)) == tag || strong(trim(a)) == "*"@
            || lists_tag(b, tag),
{
    crate::text::law_split_at_each_separator(a, b, ',');
    assert(split(a, ',')[0] == a);
    let all = split(a + seq![','] + b, ',');
    let rest = split(b, ',');
    assert(all[0] == a);
    assert forall|i: int| 0 <= i < rest.len() implies #[trigger] rest[i] == all[i + 1] by {}
    if lists_tag(b, tag) {
        let i = choose|i: int| 0 <= i < rest.len() && names_tag(#[trigger] rest[i], tag);
        assert(names_tag(all[i + 1], tag));
    }
    if lists_tag(a + seq![','] + b, tag) {
        let i = choose|i: int| 0 <= i < all.len() && names_tag(#[trigger] all[i], tag);
        if i > 0 {
            assert(rest[i - 1] == all[i]);
        }
    }
}

/// The mark of a weak tag counts for nothing.
pub proof fn law_weak_marks_count_for_nothing(t: Seq<char>)
    ensures
        strong(seq!['W', '/'] + t) == strong(t),
        t.len() < 2 || t[0] != 'W' || t[1] != '/' ==> strong(t) == t,
{
    assert((seq!['W', '/'] + t).skip(2) =~= t);
}

/// A response in memory gets the tag of its bytes, in quotes, unless it has one; one with
/// another status, or without bytes, gets none.
pub proof fn law_bodies_are_tagged(r: ResponseView, list: Seq<char>)
    requires
        r.status == 200,
        values_of(r.headers, "etag"@).len() == 0,
    ensures
        r.body matches BodyView::Bytes(b) ==> (b.len() > 0 ==> tag_for(r) == Some(
            seq!['"'] + hex_text(sha1_bytes(b)) + seq!['"'],
        ) && values_of(conditional(r, None).headers, "etag"@) == seq![tag_of(b)] && conditional(
            r,
            None,
        ).body == r.body && conditional(r, None).status == 200),
        r.body matches BodyView::Bytes(b) ==> (b.len() == 0 ==> conditional(r, Some(list)) == r),
        r.body is Empty || r.body is Stream ==> conditional(r, Some(list)) == r,
        r.body matches BodyView::Bytes(b) ==> (b.len() > 0 && !lists_tag(list, tag_of(b))
            ==> conditional(r, Some(list)).status == 200 && conditional(r, Some(list)).body
            == r.body),
{
    reveal_strlit("\"");
    assert("\""@ =~= seq!['"']);
    reveal_strlit("etag");
    lemma_plain_name("etag"@);
    if let BodyView::Bytes(b) = r.body {
        lemma_tag_value(b);
    }
}

proof fn lemma_tag_value(b: Seq<u8>)
    ensures
        crate::headers::is_header_value(tag_of(b)),
{
    reveal_strlit("\"");
    let d = sha1_bytes(b);
    lemma_hex_text_len(d);
    let t = tag_of(b);
    lemma_hex_text_chars(d);
    assert forall|i: int| 0 <= i < t.len() implies (#[trigger] t[i]) as u32 >= 32 && t[i] as u32
        != 127 || t[i] == '\t' by {
        if 1 <= i < 1 + 2 * d.len() {
            let c: char = hex_text(d)[i - 1];
            assert(t[i] == c);
            assert('0' <= c <= 'f');
        }
    }
}

/// A request that carries an id keeps it, and what is made for another tells the time and
/// the number apart from all others.
pub proof fn law_request_ids_differ(n: u128, c: u64, m: u128, d: u64)
    requires
        request_id_text(n, c) == request_id_text(m, d),
    ensures
        n == m,
        c == d,
{
    crate::text::law_decimals_are_read_back(n as nat, 0);
    crate::text::law_decimals_are_read_back(m as nat, 0);
    crate::text::law_decimals_are_read_back(c as nat, 0);
    crate::text::law_decimals_are_read_back(d as nat, 0);
    assert(!decimal(n as nat).contains('-'));
    assert(!decimal(m as nat).contains('-'));
    lemma_parted(
        "req-"@,
        decimal(n as nat),
        decimal(c as nat),
        decimal(m as nat),
        decimal(d as nat),
    );
}

/// What stands before and behind a dash can be told from the whole.
proof fn lemma_parted(p: Seq<char>, a: Seq<char>, b: Seq<char>, c: Seq<char>, d: Seq<char>)
    requires
        !a.contains('-'),
        !c.contains('-'),
        p + a + "-"@ + b == p + c + "-"@ + d,
    ensures
        a == c,
        b == d,
{
    reveal_strlit("-");
    assert("-"@ =~= seq!['-']);
    let x = p + a + "-"@ + b;
    let y = p + c + "-"@ + d;
    assert(x.skip(p.len() as int) =~= a + seq!['-'] + b);
    assert(y.skip(p.len() as int) =~= c + seq!['-'] + d);
    crate::text::law_split_at_each_separator(a, b, '-');
    crate::text::law_split_at_each_separator(c, d, '-');
}

/// A response that is shared with all says so in three headers.
pub proof fn law_shared_responses_say_so(r: ResponseView)
    ensures
        values_of(shared_with_all(r).headers, "access-control-allow-origin"@) == seq!["*"@],
        values_of(shared_with_all(r).headers, "access-control-allow-methods"@) == seq![
            "GET,POST,PUT,PATCH,DELETE,OPTIONS,HEAD"@,
        ],
        values_of(shared_with_all(r).headers, "access-control-allow-headers"@) == seq![
            "content-type,authorization,x-request-id"@,
        ],
        same_but_headers(shared_with_all(r), r),
{
    reveal_strlit("access-control-allow-origin");
    reveal_strlit("access-control-allow-methods");
    reveal_strlit("access-control-allow-headers");
    reveal_strlit("*");
    reveal_strlit("GET,POST,PUT,PATCH,DELETE,OPTIONS,HEAD");
    reveal_strlit("content-type,authorization,x-request-id");
    lemma_plain_name("access-control-allow-origin"@);
    lemma_plain_name("access-control-allow-methods"@);
    lemma_plain_name("access-control-allow-headers"@);
    assert(lower("access-control-allow-origin"@).len() == 27);
    assert(lower("access-control-allow-methods"@)[21] == 'm');
    assert(lower("access-control-allow-headers"@)[21] == 'h');
    assert(lower("access-control-allow-methods"@).len() == 28);
    assert(lower("access-control-allow-headers"@).len() == 28);
}

/// Only requests to read are answered without a body by the tags that they name, and
/// encodings are taken from the header for them.
pub proof fn law_requests_to_read_name_tags(req: Request, brotli: bool)
    ensures
        req.method@ == "GET"@ ==> condition_in(req) == req.header_of("if-none-match"@),
        req.method@ == "HEAD"@ ==> condition_in(req) == req.header_of("if-none-match"@),
        req.method@ != "GET"@ && req.method@ != "HEAD"@ ==> condition_in(req) is None,
        req.header_of("accept-encoding"@) is None ==> encoding_for(req, brotli) is None,
        req.header_of("accept-encoding"@) matches Some(list) ==> encoding_for(req, brotli)
            == best_encoding(list, brotli),
{
}

/// A response that has a tag keeps it, where it can be shown; else its body, unless it is
/// empty or a stream, has one, in quotes.
pub proof fn law_responses_have_tags(r: ResponseView)
    ensures
        values_of(r.headers, "etag"@).len() > 0 && (forall|i: int|
            0 <= i < values_of(r.headers, "etag"@)[0].len() ==> ' ' <= (#[trigger] values_of(
                r.headers,
                "etag"@,
            )[0][i]) <= '~' || values_of(r.headers, "etag"@)[0][i] == '\t') ==> tag_for(r) == Some(values_of(r.headers, "etag"@)[0]),
        values_of(r.headers, "etag"@).len() == 0 ==> (r.body matches BodyView::Bytes(b) ==> (b.len()
            > 0 ==> tag_for(r) == Some(
            seq!['"'] + hex_text(sha1_bytes(b)) + seq!['"'],
        ))),
        values_of(r.headers, "etag"@).len() == 0 ==> (r.body matches BodyView::Bytes(b) ==> (b.len()
            == 0 ==> tag_for(r) is None)),
        values_of(r.headers, "etag"@).len() == 0 && !(r.body is Bytes) ==> tag_for(r) is None,
{
    reveal_strlit("\"");
    assert("\""@ =~= seq!['"']);
    let tags = values_of(r.headers, "etag"@);
    if tags.len() > 0 && (forall|i: int|
        0 <= i < tags[0].len() ==> ' ' <= (#[trigger] tags[0][i]) <= '~' || tags[0][i] == '\t') {
        assert forall|i: int| 0 <= i < tags[0].len() implies 32 <= (#[trigger] tags[0][i]) as u32
            && (tags[0][i] as u32) < 127 || tags[0][i] == '\t' by {}
    }
}

/// Bodies are compressed by the algorithm of the encoding, and in brotli with a buffer of
/// four kibibytes, a quality of 5 and a window of 22 bits.
pub proof fn law_encodings_have_their_algorithm(e: Encoding, data: Seq<u8>)
    ensures
        e == Encoding::Gzip ==> e.encoded(data) == gzip_bytes(data),
        e == Encoding::Deflate ==> e.encoded(data) == zlib_bytes(data),
        e == Encoding::Brotli ==> e.encoded(data) == brotli_bytes(data, 4096, 5, 22),
{
}

} // verus!
