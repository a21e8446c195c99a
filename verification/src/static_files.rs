//! Files that are served from a directory.

use vstd::prelude::*;

use crate::headers::{is_header_name, is_header_value, no_headers, values_of, with_header};
use crate::request::{component, decode_component, Request};
use crate::response::{
    lemma_plain_name, lemma_room, lemma_room_empty, room, BodyView, Response, ResponseView,
};
use crate::text::{
    after_prefix, decimal, has_char, hexadecimal, lower, parse_u64, parsed, rsplit_once,
    rsplit_once_text, same, split, split_once, split_once_text, split_text, to_decimal,
    to_hexadecimal, trim, trimmed, views,
};

verus! {

/// The text of a moment in the form of HTTP dates, in seconds since 1970.
pub uninterp spec fn http_date_text(secs: nat) -> Seq<char>;

/// The moment that an HTTP date tells, in seconds since 1970.
pub uninterp spec fn http_date_secs(text: Seq<char>) -> Option<nat>;

/// `httpdate::fmt_http_date` writes a moment as an HTTP date. It panics beyond the year
/// 9999. What it writes is made of letters, digits, spaces, commas and colons, so that it
/// can be the value of a header, and `httpdate::parse_http_date` reads it back as the same
/// second.
#[verifier::external_body]
pub(crate) fn fmt_http_date(secs: u64) -> (r: String)
    requires
        secs < 253402300800,
    ensures
        r@ == http_date_text(secs as nat),
        http_date_secs(r@) == Some(secs as nat),
        is_header_value(r@),
{
    httpdate::fmt_http_date(std::time::UNIX_EPOCH + std::time::Duration::from_secs(secs))
}

/// The seconds of a moment, as contracts speak of them.
pub open spec fn seconds(s: Option<u64>) -> Option<nat> {
    match s {
        Some(n) => Some(n as nat),
        None => None,
    }
}

/// `httpdate::parse_http_date` reads an HTTP date, where a text is one. A text that
/// `httpdate::fmt_http_date` writes is read as the second that it was written of.
#[verifier::external_body]
pub(crate) fn parse_http_date(text: &str) -> (r: Option<u64>)
    ensures
        seconds(r) == http_date_secs(text@),
        forall|s: nat|
            s < 253402300800 && text@ == #[trigger] http_date_text(s) ==> seconds(r) == Some(s),
{
    httpdate::parse_http_date(text).ok().map(
        |t| t.duration_since(std::time::UNIX_EPOCH).unwrap_or_default().as_secs(),
    )
}

/// What a range header asks for.
#[derive(Clone, Copy, Debug, PartialEq, Eq, Structural)]
pub enum RangeParse {
    /// The bytes from the first to the last place.
    Satisfiable(u64, u64),
    /// Bytes that are not there.
    Unsatisfiable,
    /// Nothing that counts.
    Ignored,
}

/// The first place of the last `suffix` bytes of `total`.
pub open spec fn suffix_start(total: nat, suffix: nat) -> nat {
    if suffix < total {
        (total - suffix) as nat
    } else {
        0
    }
}

/// The last place that a range names, where its end is well formed: an end that is left
/// out means the last byte there can be.
pub open spec fn range_end(to: Seq<char>) -> Option<nat> {
    if to.len() == 0 {
        Some(u64::MAX as nat)
    } else {
        parsed(to, u64::MAX as nat)
    }
}

/// What the two sides of the dash in a range ask for. What is no number, and an end
/// before its start, count for nothing, wherever the file ends.
pub open spec fn range_between(from: Seq<char>, to: Seq<char>, total: nat) -> RangeParse {
    let max = u64::MAX as nat;
    if from.len() == 0 {
        match parsed(to, max) {
            None => RangeParse::Ignored,
            Some(suffix) => if suffix == 0 || total == 0 {
                RangeParse::Unsatisfiable
            } else {
                RangeParse::Satisfiable(suffix_start(total, suffix) as u64, (total - 1) as u64)
            },
        }
    } else {
        match (parsed(from, max), range_end(to)) {
            (Some(start), Some(end)) => if end < start {
                RangeParse::Ignored
            } else if start >= total {
                RangeParse::Unsatisfiable
            } else if end < total {
                RangeParse::Satisfiable(start as u64, end as u64)
            } else {
                RangeParse::Satisfiable(start as u64, (total - 1) as u64)
            },
            _ => RangeParse::Ignored,
        }
    }
}

/// What a range header asks for of so many bytes: one range, from one place to another,
/// from a place on, or so many bytes at the end.
pub open spec fn range_of(raw: Seq<char>, total: nat) -> RangeParse {
    let t = trim(raw);
    let unit = "bytes="@;
    if !(unit.len() <= t.len() && t.take(unit.len() as int) == unit) {
        RangeParse::Ignored
    } else {
        let spec_text = t.skip(unit.len() as int);
        if spec_text.contains(',') {
            RangeParse::Ignored
        } else {
            match split_once(spec_text, '-') {
                None => RangeParse::Ignored,
                Some((from, to)) => range_between(trim(from), trim(to), total),
            }
        }
    }
}

/// What a range header asks for of so many bytes.
pub fn parse_byte_range(raw: &str, total_len: u64) -> (r: RangeParse)
    ensures
        r == range_of(raw@, total_len as nat),
{
    let spec_text: String = match after_prefix(trimmed(raw).as_str(), "bytes=") {
        Some(s) => s,
        None => {
            return RangeParse::Ignored;
        },
    };
    if has_char(spec_text.as_str(), ',') {
        return RangeParse::Ignored;
    }
    let (from, to): (String, String) = match split_once_text(spec_text.as_str(), '-') {
        Some((a, b)) => (trimmed(a.as_str()), trimmed(b.as_str())),
        None => {
            return RangeParse::Ignored;
        },
    };
    if from.as_str().is_empty() {
        return match parse_u64(to.as_str()) {
            None => RangeParse::Ignored,
            Some(suffix) => if suffix == 0 || total_len == 0 {
                RangeParse::Unsatisfiable
            } else {
                RangeParse::Satisfiable(total_len.saturating_sub(suffix), total_len - 1)
            },
        };
    }
    let start: u64 = match parse_u64(from.as_str()) {
        Some(n) => n,
        None => {
            return RangeParse::Ignored;
        },
    };
    let end: u64 = if to.as_str().is_empty() {
        u64::MAX
    } else {
        match parse_u64(to.as_str()) {
            Some(n) => n,
            None => {
                return RangeParse::Ignored;
            },
        }
    };
    if end < start {
        return RangeParse::Ignored;
    }
    if start >= total_len {
        return RangeParse::Unsatisfiable;
    }
    if end < total_len {
        RangeParse::Satisfiable(start, end)
    } else {
        RangeParse::Satisfiable(start, total_len - 1)
    }
}

/// A range that can be satisfied lies within the bytes that are there, and holds at
/// least one.
pub proof fn law_ranges_are_within_the_file(raw: Seq<char>, total: u64)
    ensures
        range_of(raw, total as nat) matches RangeParse::Satisfiable(start, end) ==> start <= end
            && end < total,
{
}

/// The parts of a path but for those that mean the same directory.
pub open spec fn named_parts(parts: Seq<Seq<char>>) -> Seq<Seq<char>>
    decreases parts.len(),
{
    if parts.len() == 0 {
        Seq::empty()
    } else if parts.last().len() == 0 || parts.last() == "."@ {
        named_parts(parts.drop_last())
    } else {
        named_parts(parts.drop_last()).push(parts.last())
    }
}

/// The path that a request asks for below the directory: `index.html` where it asks for
/// none.
pub open spec fn asked_path(requested: Seq<char>) -> Seq<char> {
    if component(requested, false).len() == 0 {
        "index.html"@
    } else {
        component(requested, false)
    }
}

/// The names that lead to a file below the directory. A path from the root, or one
/// that goes up anywhere, leads nowhere.
pub open spec fn safe_parts(path: Seq<char>) -> Option<Seq<Seq<char>>> {
    if path.len() > 0 && path[0] == '/' || split(path, '/').contains(".."@) {
        None
    } else {
        Some(named_parts(split(path, '/')))
    }
}

/// The view of a list that may be missing.
pub open spec fn list_view(r: Option<Vec<String>>) -> Option<Seq<Seq<char>>> {
    match r {
        Some(v) => Some(views(v@)),
        None => None,
    }
}

/// The names that lead to the file that a request asks for, where it is below the
/// directory.
pub fn safe_static_path(requested: &str) -> (r: Option<Vec<String>>)
    ensures
        list_view(r) == safe_parts(asked_path(requested@)),
{
    let decoded: String = decode_component(requested, false);
    let relative: String = if decoded.as_str().is_empty() {
        "index.html".to_owned()
    } else {
        decoded
    };
    path_below(relative.as_str())
}

/// The names that a path leads through, where it stays below its directory.
pub fn path_below(relative: &str) -> (r: Option<Vec<String>>)
    ensures
        list_view(r) == safe_parts(relative@),
{
    let parts: Vec<String> = split_text(relative, '/');
    let c: Vec<char> = crate::text::chars(relative);
    if c.len() > 0 && c[0] == '/' {
        return None;
    }
    let ghost all = views(parts@);
    let mut r: Vec<String> = Vec::new();
    let mut i: usize = 0;
    assert(all.take(0) =~= Seq::empty());
    assert(views(r@) =~= Seq::empty());
    while i < parts.len()
        invariant
            i <= parts.len(),
            all == views(parts@),
            all == split(relative@, '/'),
            views(r@) == named_parts(all.take(i as int)),
            forall|j: int| 0 <= j < i ==> #[trigger] all[j] != ".."@,
        decreases parts.len() - i,
    {
        let ghost before = views(r@);
        proof {
            assert(all.take(i + 1).drop_last() =~= all.take(i as int));
            assert(all.take(i + 1).last() == parts@[i as int]@);
            assert(all[i as int] == parts@[i as int]@);
        }
        if same(parts[i].as_str(), "..") {
            assert(all.contains(all[i as int]));
            return None;
        }
        if !parts[i].as_str().is_empty() && !same(parts[i].as_str(), ".") {
            r.push(parts[i].clone());
            assert(views(r@) =~= before.push(parts@[i as int]@));
        }
        i += 1;
    }
    assert(all.take(all.len() as int) =~= all);
    Some(r)
}

/// The path that a request asks for: the rest that its route took in.
pub open spec fn requested_path(req: Request) -> Seq<char> {
    match req.params.lookup("path"@) {
        Some(path) => path,
        None => Seq::empty(),
    }
}

/// The names that lead to what a request asks for, or the answer to a request that
/// asks for something that is not below the directory.
pub fn static_names(req: &Request) -> (r: Result<Vec<String>, Response>)
    requires
        req.wf(),
    ensures
        match r {
            Ok(names) => safe_parts(asked_path(requested_path(*req))) == Some(views(names@)),
            Err(response) => safe_parts(asked_path(requested_path(*req))) is None && response@
                == ResponseView::text("400 Bad Request"@).with_status(400),
        },
{
    let found: Option<Vec<String>> = match req.param("path") {
        Some(path) => safe_static_path(path),
        None => {
            proof {
                reveal_strlit("");
                assert(""@ =~= Seq::<char>::empty());
            }
            safe_static_path("")
        },
    };
    match found {
        Some(names) => Ok(names),
        None => Err(Response::bad_request()),
    }
}

/// The names that lead to the file that is served: of a directory its `index.html`.
pub open spec fn file_names(names: Seq<Seq<char>>, is_dir: bool) -> Seq<Seq<char>> {
    if is_dir {
        names.push("index.html"@)
    } else {
        names
    }
}

/// The names that lead to the file that is served, once it is known whether names lead
/// to a directory.
pub fn file_below(names: Vec<String>, is_dir: bool) -> (r: Vec<String>)
    ensures
        views(r@) == file_names(views(names@), is_dir),
{
    let mut r: Vec<String> = names;
    if is_dir {
        r.push("index.html".to_owned());
        assert(views(r@) =~= views(names@).push("index.html"@));
    }
    r
}

/// Whatever is asked for, the names that lead to it are names: none is empty, goes up,
/// stays, or holds a slash.
pub proof fn law_served_paths_stay_below(path: Seq<char>)
    ensures
        safe_parts(path) matches Some(parts) ==> forall|i: int|
            0 <= i < parts.len() ==> (#[trigger] parts[i]).len() > 0 && parts[i] != "."@ && parts[i]
                != ".."@ && !parts[i].contains('/'),
{
    if let Some(parts) = safe_parts(path) {
        lemma_named_parts(split(path, '/'));
        lemma_split_parts(path, '/');
        assert forall|i: int| 0 <= i < parts.len() implies (#[trigger] parts[i]).len() > 0
            && parts[i] != "."@ && parts[i] != ".."@ && !parts[i].contains('/') by {
            let j = choose|j: int|
                0 <= j < split(path, '/').len() && split(path, '/')[j] == parts[i];
            assert(split(path, '/').contains(parts[i]));
        }
    }
}

proof fn lemma_named_parts(parts: Seq<Seq<char>>)
    ensures
        forall|i: int|
            0 <= i < named_parts(parts).len() ==> (#[trigger] named_parts(parts)[i]).len() > 0
                && named_parts(parts)[i] != "."@ && exists|j: int|
                0 <= j < parts.len() && parts[j] == named_parts(parts)[i],
    decreases parts.len(),
{
    if parts.len() > 0 {
        let d = parts.drop_last();
        lemma_named_parts(d);
        let n = named_parts(parts);
        assert forall|i: int| 0 <= i < n.len() implies (#[trigger] n[i]).len() > 0 && n[i] != "."@
            && exists|j: int| 0 <= j < parts.len() && parts[j] == n[i] by {
            if i < named_parts(d).len() {
                assert(n[i] == named_parts(d)[i]);
                let j = choose|j: int| 0 <= j < d.len() && d[j] == named_parts(d)[i];
                assert(parts[j] == n[i]);
            } else {
                assert(parts[parts.len() - 1] == n[i]);
            }
        }
    }
}

/// The parts between separators hold none.
pub proof fn lemma_split_parts(s: Seq<char>, c: char)
    ensures
        split(s, c).len() > 0,
        forall|i: int| 0 <= i < split(s, c).len() ==> !(#[trigger] split(s, c)[i]).contains(c),
    decreases s.len(),
{
    crate::text::lemma_first_index(s, c);
    let k = crate::text::first_index(s, c);
    if k < s.len() {
        lemma_split_parts(s.skip(k + 1), c);
        let rest = split(s.skip(k + 1), c);
        assert forall|i: int| 0 <= i < split(s, c).len() implies !(#[trigger] split(
            s,
            c,
        )[i]).contains(c) by {
            if i > 0 {
                assert(split(s, c)[i] == rest[i - 1]);
            }
        }
    }
}

/// What follows the last dot of a file name, where something stands before it.
pub open spec fn extension_of(name: Seq<char>) -> Seq<char> {
    match rsplit_once(name, '.') {
        Some((stem, ext)) => if stem.len() > 0 {
            ext
        } else {
            Seq::empty()
        },
        None => Seq::empty(),
    }
}

/// The content type of files with an extension.
pub open spec fn type_of_extension(e: Seq<char>) -> Seq<char> {
    if e == "html"@ || e == "htm"@ {
        "text/html; charset=utf-8"@
    } else if e == "css"@ {
        "text/css; charset=utf-8"@
    } else if e == "js"@ || e == "mjs"@ {
        "text/javascript; charset=utf-8"@
    } else if e == "json"@ {
        "application/json"@
    } else if e == "txt"@ {
        "text/plain; charset=utf-8"@
    } else if e == "csv"@ {
        "text/csv; charset=utf-8"@
    } else if e == "svg"@ {
        "image/svg+xml"@
    } else if e == "png"@ {
        "image/png"@
    } else if e == "jpg"@ || e == "jpeg"@ {
        "image/jpeg"@
    } else if e == "gif"@ {
        "image/gif"@
    } else if e == "webp"@ {
        "image/webp"@
    } else if e == "ico"@ {
        "image/x-icon"@
    } else if e == "wasm"@ {
        "application/wasm"@
    } else if e == "pdf"@ {
        "application/pdf"@
    } else {
        "application/octet-stream"@
    }
}

/// The content type of a file, by the extension of its name.
pub fn content_type_for_path(name: &str) -> (r: &'static str)
    ensures
        r@ == type_of_extension(extension_of(name@)),
{
    let e: String = match rsplit_once_text(name, '.') {
        Some((stem, ext)) => if stem.as_str().is_empty() {
            String::new()
        } else {
            ext
        },
        None => String::new(),
    };
    let e: &str = e.as_str();
    assert(e@ == extension_of(name@));
    if same(e, "html") || same(e, "htm") {
        "text/html; charset=utf-8"
    } else if same(e, "css") {
        "text/css; charset=utf-8"
    } else if same(e, "js") || same(e, "mjs") {
        "text/javascript; charset=utf-8"
    } else if same(e, "json") {
        "application/json"
    } else if same(e, "txt") {
        "text/plain; charset=utf-8"
    } else if same(e, "csv") {
        "text/csv; charset=utf-8"
    } else if same(e, "svg") {
        "image/svg+xml"
    } else if same(e, "png") {
        "image/png"
    } else if same(e, "jpg") || same(e, "jpeg") {
        "image/jpeg"
    } else if same(e, "gif") {
        "image/gif"
    } else if same(e, "webp") {
        "image/webp"
    } else if same(e, "ico") {
        "image/x-icon"
    } else if same(e, "wasm") {
        "application/wasm"
    } else if same(e, "pdf") {
        "application/pdf"
    } else {
        "application/octet-stream"
    }
}

/// What is known of a file.
#[derive(Clone, Copy, Debug, PartialEq, Eq, Structural)]
pub struct FileFacts {
    pub len: u64,
    /// When it was changed, in nanoseconds since 1970, where that is known.
    pub modified: Option<u128>,
}

/// The first second after the year 9999.
pub const FIRST_UNTOLD_SECOND: u128 = 253402300800;

/// How many nanoseconds a second has.
pub const NANOS: u128 = 1_000_000_000;

impl FileFacts {
    /// Whether the moment of the last change can be told as an HTTP date.
    pub open spec fn wf(self) -> bool {
        self.modified matches Some(t) ==> t / NANOS < FIRST_UNTOLD_SECOND
    }

    /// The second of the last change.
    pub open spec fn second(self) -> Option<nat> {
        match self.modified {
            Some(t) => Some((t / NANOS) as nat),
            None => None,
        }
    }

    /// The tag of this state of the file: its length and the moment of its last change.
    pub open spec fn tag(self) -> Option<Seq<char>> {
        match self.modified {
            Some(t) => Some(
                "\""@ + hexadecimal(self.len as nat) + "-"@ + hexadecimal(t as nat) + "\""@,
            ),
            None => None,
        }
    }

    /// The tag of this state of the file.
    pub fn etag(&self) -> (r: Option<String>)
        ensures
            crate::text::opt(r) == self.tag(),
    {
        match self.modified {
            Some(t) => {
                let len: String = to_hexadecimal(self.len as u128);
                let stamp: String = to_hexadecimal(t);
                Some(
                    "\"".to_owned().concat(len.as_str()).concat("-").concat(
                        stamp.as_str(),
                    ).concat("\""),
                )
            },
            None => None,
        }
    }

    /// The moment of the last change as an HTTP date.
    pub open spec fn date(self) -> Option<Seq<char>> {
        match self.second() {
            Some(s) => Some(http_date_text(s)),
            None => None,
        }
    }

    /// Whether the date can be the value of a header, and is read back as the moment of
    /// the last change.
    pub open spec fn is_dated(self) -> bool {
        self.date() matches Some(text) ==> is_header_value(text) && http_date_secs(text)
            == self.second()
    }

    /// The moment of the last change as an HTTP date.
    pub fn last_modified(&self) -> (r: Option<String>)
        requires
            self.wf(),
        ensures
            crate::text::opt(r) == self.date(),
            self.is_dated(),
    {
        match self.modified {
            Some(t) => Some(fmt_http_date((t / NANOS) as u64)),
            None => None,
        }
    }
}

/// The response with what lets a client ask again: that ranges are served, the tag,
/// and the moment of the last change.
pub open spec fn validated(r: ResponseView, f: FileFacts) -> ResponseView {
    let a = r.with_header("accept-ranges"@, "bytes"@);
    let b = match f.tag() {
        Some(t) => a.with_header("etag"@, t),
        None => a,
    };
    match f.date() {
        Some(text) => b.with_header("last-modified"@, text),
        None => b,
    }
}

/// Whether a response tells what lets a client ask again.
pub open spec fn tells_validators(r: ResponseView, f: FileFacts) -> bool {
    &&& values_of(r.headers, "accept-ranges"@) == seq!["bytes"@]
    &&& f.tag() matches Some(tag) ==> values_of(r.headers, "etag"@) == seq![tag]
    &&& f.date() matches Some(text) ==> values_of(r.headers, "last-modified"@) == seq![text]
}

/// The response with what lets a client ask again. What else it tells stays.
fn validators(response: Response, f: &FileFacts, date: &Option<String>) -> (r: Response)
    requires
        f.is_dated(),
        crate::text::opt(*date) == f.date(),
        room(response@.headers, 3),
    ensures
        r@ == validated(response@, *f),
        tells_validators(r@, *f),
        values_of(r@.headers, "content-length"@) == values_of(
            response@.headers,
            "content-length"@,
        ),
        values_of(r@.headers, "content-range"@) == values_of(response@.headers, "content-range"@),
{
    proof {
        lemma_room(response@.headers, 2, "accept-ranges"@, "bytes"@);
        lemma_validators_are_told(response@, *f);
    }
    let mut r: Response = response.header("accept-ranges", "bytes");
    if let Some(tag) = f.etag() {
        proof {
            lemma_room(r@.headers, 1, "etag"@, tag@);
        }
        r = r.header("etag", tag.as_str());
    }
    if let Some(date) = date {
        r = r.header("last-modified", date.as_str());
    }
    r
}

/// The names of headers that files are told with, and that they differ.
proof fn lemma_names()
    ensures
        is_header_name("accept-ranges"@),
        is_header_name("etag"@),
        is_header_name("last-modified"@),
        is_header_name("content-length"@),
        is_header_name("content-range"@),
        lower("accept-ranges"@).len() == 13 && lower("accept-ranges"@)[0] == 'a',
        lower("etag"@).len() == 4,
        lower("last-modified"@).len() == 13 && lower("last-modified"@)[0] == 'l',
        lower("content-length"@).len() == 14,
        lower("content-range"@).len() == 13 && lower("content-range"@)[0] == 'c',
{
    reveal_strlit("accept-ranges");
    reveal_strlit("etag");
    reveal_strlit("last-modified");
    reveal_strlit("content-length");
    reveal_strlit("content-range");
    lemma_plain_name("accept-ranges"@);
    lemma_plain_name("etag"@);
    lemma_plain_name("last-modified"@);
    lemma_plain_name("content-length"@);
    lemma_plain_name("content-range"@);
}

/// A tag can be the value of a header.
proof fn lemma_tag_is_value(f: FileFacts)
    requires
        f.tag() is Some,
    ensures
        is_header_value(f.tag()->0),
{
    reveal_strlit("\"");
    reveal_strlit("-");
    let tag = f.tag()->0;
    let a = hexadecimal(f.len as nat);
    let b = hexadecimal(f.modified->0 as nat);
    lemma_hexadecimal(f.len as nat);
    lemma_hexadecimal(f.modified->0 as nat);
    let n = a.len();
    assert forall|i: int| 0 <= i < tag.len() implies (#[trigger] tag[i]) as u32 >= 32 && tag[i] as u32
        != 127 || tag[i] == '\t' by {
        if 1 <= i < 1 + n {
            assert(tag[i] == a[i - 1]);
        } else if 2 + n <= i < 2 + n + b.len() {
            assert(tag[i] == b[i - 2 - n]);
        }
    }
}

/// What lets a client ask again is told, beside what was told before.
proof fn lemma_validators_are_told(r: ResponseView, f: FileFacts)
    requires
        f.is_dated(),
    ensures
        tells_validators(validated(r, f), f),
        values_of(validated(r, f).headers, "content-length"@) == values_of(
            r.headers,
            "content-length"@,
        ),
        values_of(validated(r, f).headers, "content-range"@) == values_of(
            r.headers,
            "content-range"@,
        ),
{
    lemma_names();
    reveal_strlit("bytes");
    assert(is_header_value("bytes"@));
    if f.tag() is Some {
        lemma_tag_is_value(f);
    }
}

/// A number in decimal can be part of the value of a header.
proof fn lemma_decimal_is_value(n: nat)
    ensures
        is_header_value(decimal(n)),
    decreases n,
{
    if n >= 10 {
        lemma_decimal_is_value(n / 10);
        let d = decimal(n);
        assert forall|i: int| 0 <= i < d.len() implies (#[trigger] d[i]) as u32 >= 32 && d[i] as u32
            != 127 || d[i] == '\t' by {
            if i < d.len() - 1 {
                assert(d[i] == decimal(n / 10)[i]);
            }
        }
    }
}

/// What is put together of such texts can be the value of a header.
proof fn lemma_joined_value(a: Seq<char>, b: Seq<char>)
    requires
        is_header_value(a),
        is_header_value(b),
    ensures
        is_header_value(a + b),
{
    let c = a + b;
    assert forall|i: int| 0 <= i < c.len() implies (#[trigger] c[i]) as u32 >= 32 && c[i] as u32
        != 127 || c[i] == '\t' by {
        if i < a.len() {
            assert(c[i] == a[i]);
        } else {
            assert(c[i] == b[i - a.len()]);
        }
    }
}

/// Whether a list of tags names this one, or any.
pub open spec fn lists_tag(list: Seq<char>, tag: Seq<char>) -> bool {
    exists|i: int|
        0 <= i < split(list, ',').len() && (trim(#[trigger] split(list, ',')[i]) == tag || trim(
            split(list, ',')[i],
        ) == "*"@)
}

/// Whether a list of tags names this one, or any.
pub fn tag_listed(list: &str, tag: &str) -> (r: bool)
    ensures
        r == lists_tag(list@, tag@),
{
    let parts: Vec<String> = split_text(list, ',');
    let mut i: usize = 0;
    while i < parts.len()
        invariant
            i <= parts.len(),
            views(parts@) == split(list@, ','),
            forall|j: int|
                0 <= j < i ==> trim(#[trigger] split(list@, ',')[j]) != tag@ && trim(
                    split(list@, ',')[j],
                ) != "*"@,
        decreases parts.len() - i,
    {
        assert(split(list@, ',')[i as int] == parts@[i as int]@);
        let part: String = trimmed(parts[i].as_str());
        if same(part.as_str(), tag) || same(part.as_str(), "*") {
            return true;
        }
        i += 1;
    }
    false
}

/// Whether a client already has this state of a file: by a tag that it names, else by
/// the moment that it names, which is the one that it was told or another that is not
/// before it.
pub open spec fn is_current(req: Request, f: FileFacts) -> bool {
    match req.header_of("if-none-match"@) {
        Some(list) => f.tag() matches Some(tag) && lists_tag(list, tag),
        None => match req.header_of("if-modified-since"@) {
            Some(text) => f.second() matches Some(second) && (second < FIRST_UNTOLD_SECOND && text
                == http_date_text(second) || (http_date_secs(text) matches Some(since) && second
                <= since)),
            None => false,
        },
    }
}

/// Whether a client already has this state of a file.
pub fn not_modified(req: &Request, f: &FileFacts) -> (r: bool)
    requires
        req.wf(),
    ensures
        r == is_current(*req, *f),
{
    match req.header("if-none-match") {
        Some(list) => match f.etag() {
            Some(tag) => tag_listed(list, tag.as_str()),
            None => false,
        },
        None => match req.header("if-modified-since") {
            Some(text) => match (parse_http_date(text), f.modified) {
                (Some(since), Some(t)) => t / NANOS <= since as u128,
                _ => false,
            },
            None => false,
        },
    }
}

/// What is to be done for a file that was asked for.
#[derive(Debug)]
pub enum StaticPlan {
    /// Answer this.
    Answer(Response),
    /// Send bytes of the file.
    Send(FileSlice),
}

/// Bytes of a file that are to be sent.
#[derive(Debug)]
pub struct FileSlice {
    pub start: u64,
    pub len: u64,
    /// The first and the last place, where a range was asked for.
    pub range: Option<(u64, u64)>,
    pub facts: FileFacts,
    pub content_type: &'static str,
}

/// What a request asks for of a file.
pub open spec fn asked_range(req: Request, total: nat) -> RangeParse {
    match req.header_of("range"@) {
        Some(raw) => range_of(raw, total),
        None => RangeParse::Ignored,
    }
}

/// The response that nothing has changed.
pub open spec fn unchanged_response(f: FileFacts) -> ResponseView {
    validated(ResponseView::text(""@).with_status(304), f)
}

/// The response that the range is not there.
pub open spec fn unsatisfiable_response(f: FileFacts) -> ResponseView {
    validated(
        ResponseView::text(""@).with_status(416).with_header(
            "content-range"@,
            "bytes */"@ + decimal(f.len as nat),
        ),
        f,
    )
}

impl StaticPlan {
    /// Whether this is what a request for a file is owed.
    pub open spec fn is_owed(&self, req: Request, name: Seq<char>, found: Option<FileFacts>) -> bool {
        match found {
            None => *self matches StaticPlan::Answer(r) && r@ == ResponseView::text(
                "404 Not Found"@,
            ).with_status(404),
            Some(f) => if is_current(req, f) {
                *self matches StaticPlan::Answer(r) && r@ == unchanged_response(f)
            } else {
                match asked_range(req, f.len as nat) {
                    RangeParse::Unsatisfiable => *self matches StaticPlan::Answer(r) && r@
                        == unsatisfiable_response(f),
                    RangeParse::Satisfiable(start, end) => *self matches StaticPlan::Send(slice)
                        && slice.is_slice(f, name) && slice.range == Some((start, end))
                        && slice.start == start && slice.len == end - start + 1,
                    RangeParse::Ignored => *self matches StaticPlan::Send(slice)
                        && slice.is_slice(f, name) && slice.range is None && slice.start == 0
                        && slice.len == f.len,
                }
            },
        }
    }
}

/// How a range of so many bytes is told.
pub open spec fn range_text(start: u64, end: u64, total: u64) -> Seq<char> {
    "bytes "@ + decimal(start as nat) + "-"@ + decimal(end as nat) + "/"@ + decimal(total as nat)
}

/// What tells a range can be the value of a header.
proof fn lemma_range_text_is_value(start: u64, end: u64, total: u64)
    ensures
        is_header_value(range_text(start, end, total)),
{
    reveal_strlit("bytes ");
    reveal_strlit("-");
    reveal_strlit("/");
    let a = "bytes "@ + decimal(start as nat);
    let b = a + "-"@;
    let c = b + decimal(end as nat);
    let d = c + "/"@;
    lemma_decimal_is_value(start as nat);
    lemma_decimal_is_value(end as nat);
    lemma_decimal_is_value(total as nat);
    lemma_joined_value("bytes "@, decimal(start as nat));
    lemma_joined_value(a, "-"@);
    lemma_joined_value(b, decimal(end as nat));
    lemma_joined_value(c, "/"@);
    lemma_joined_value(d, decimal(total as nat));
}

impl FileSlice {
    /// Whether the slice is one of a file.
    pub open spec fn is_slice(&self, f: FileFacts, name: Seq<char>) -> bool {
        &&& self.facts == f
        &&& f.wf()
        &&& self.content_type@ == type_of_extension(extension_of(name))
    }

    /// The response that sends the bytes, from a stream.
    pub open spec fn response(&self, stream: u64) -> ResponseView {
        let base = ResponseView {
            body: BodyView::Stream(stream),
            ..ResponseView::ok(Seq::empty(), self.content_type@)
        }.with_status(
            if self.range is Some && self.len > 0 {
                206
            } else {
                200
            },
        ).with_header("content-length"@, decimal(self.len as nat));
        validated(
            match self.range {
                Some((start, end)) => base.with_header(
                    "content-range"@,
                    range_text(start, end, self.facts.len),
                ),
                None => base,
            },
            self.facts,
        )
    }
}

/// Decides what a request for a file is owed, once it is known whether the file is
/// there. The file is known by its name.
pub fn serve_static_file(req: &Request, name: &str, found: Option<FileFacts>) -> (r: StaticPlan)
    requires
        req.wf(),
        found matches Some(f) ==> f.wf(),
    ensures
        r.is_owed(*req, name@, found),
        found matches Some(f) ==> f.is_dated(),
        r matches StaticPlan::Answer(res) ==> (found matches Some(f) ==> tells_validators(res@, f)
            && (res@.status == 416 ==> values_of(res@.headers, "content-range"@) == seq![
            "bytes */"@ + decimal(f.len as nat),
        ])),
{
    let f: FileFacts = match found {
        Some(f) => f,
        None => {
            return StaticPlan::Answer(Response::not_found());
        },
    };
    let date: Option<String> = f.last_modified();
    proof {
        lemma_room_empty(4);
        lemma_room_empty(3);
    }
    if not_modified(req, &f) {
        return StaticPlan::Answer(validators(Response::send("").status(304), &f, &date));
    }
    let asked: RangeParse = match req.header("range") {
        Some(raw) => parse_byte_range(raw, f.len),
        None => RangeParse::Ignored,
    };
    proof {
        if let Some(raw) = req.header_of("range"@) {
            law_ranges_are_within_the_file(raw, f.len);
        }
    }
    let content_type: &'static str = content_type_for_path(name);
    match asked {
        RangeParse::Unsatisfiable => {
            let total: String = to_decimal(f.len);
            let value: String = "bytes */".to_owned().concat(total.as_str());
            proof {
                lemma_room(no_headers(), 3, "content-range"@, value@);
                lemma_names();
                reveal_strlit("bytes */");
                lemma_decimal_is_value(f.len as nat);
                lemma_joined_value("bytes */"@, total@);
            }
            StaticPlan::Answer(
                validators(
                    Response::send("").status(416).header("content-range", value.as_str()),
                    &f,
                    &date,
                ),
            )
        },
        RangeParse::Satisfiable(start, end) => StaticPlan::Send(
            FileSlice {
                start,
                len: end - start + 1,
                range: Some((start, end)),
                facts: f,
                content_type,
            },
        ),
        RangeParse::Ignored => StaticPlan::Send(
            FileSlice { start: 0, len: f.len, range: None, facts: f, content_type },
        ),
    }
}

/// How a file was opened.
#[derive(Clone, Copy, Debug, PartialEq, Eq, Structural)]
pub enum Opened {
    /// It could not be opened.
    Failed,
    /// The first place could not be gone to.
    SeekFailed,
    /// Its bytes come by this stream.
    Stream(u64),
}

/// The response once the file was opened.
pub fn finish_static_file(slice: &FileSlice, opened: Opened) -> (r: Response)
    requires
        slice.facts.wf(),
    ensures
        r@ == (match opened {
            Opened::Failed => ResponseView::text("404 Not Found"@).with_status(404),
            Opened::SeekFailed => ResponseView::of_error(
                crate::error::HttpErrorView { status: 500, message: "Internal Server Error"@ },
            ),
            Opened::Stream(stream) => slice.response(stream),
        }),
        slice.facts.is_dated(),
        opened is Stream ==> {
            &&& tells_validators(r@, slice.facts)
            &&& values_of(r@.headers, "content-length"@) == seq![decimal(slice.len as nat)]
            &&& slice.range matches Some((start, end)) ==> values_of(
                r@.headers,
                "content-range"@,
            ) == seq![range_text(start, end, slice.facts.len)]
        },
{
    let date: Option<String> = slice.facts.last_modified();
    let stream: u64 = match opened {
        Opened::Failed => {
            return Response::not_found();
        },
        Opened::SeekFailed => {
            return Response::internal_server_error();
        },
        Opened::Stream(stream) => stream,
    };
    let status: u16 = if slice.range.is_some() && slice.len > 0 {
        206
    } else {
        200
    };
    let len: String = to_decimal(slice.len);
    proof {
        lemma_room_empty(5);
        lemma_room(no_headers(), 4, "content-length"@, len@);
        lemma_names();
        lemma_decimal_is_value(slice.len as nat);
    }
    let mut r: Response = Response::stream(stream).status(status).content_type(
        slice.content_type,
    ).header("content-length", len.as_str());
    if let Some((start, end)) = slice.range {
        proof {
            lemma_range_text_is_value(start, end, slice.facts.len);
        }
        let start: String = to_decimal(start);
        let end: String = to_decimal(end);
        let total: String = to_decimal(slice.facts.len);
        let value: String = "bytes ".to_owned().concat(start.as_str()).concat("-").concat(
            end.as_str(),
        ).concat("/").concat(total.as_str());
        proof {
            lemma_room(r@.headers, 3, "content-range"@, value@);
        }
        r = r.header("content-range", value.as_str());
    }
    validators(r, &slice.facts, &date)
}

/// A client that names the tag it was given, or the moment that it was told, has the
/// state of the file that these were told of.
pub proof fn law_told_validators_revalidate(req: Request, f: FileFacts)
    requires
        f.wf(),
        f.tag() is Some,
        req.header_of("if-none-match"@) == f.tag() || (req.header_of("if-none-match"@) is None
            && req.header_of("if-modified-since"@) == f.date()),
    ensures
        is_current(req, f),
{
    if req.header_of("if-none-match"@) is Some {
        let tag = f.tag()->0;
        lemma_tag(f);
        crate::text::lemma_first_index_is(tag, ',', tag.len() as int);
        assert(split(tag, ',') =~= seq![tag]);
        lemma_trim_plain(tag);
        assert(trim(split(tag, ',')[0]) == tag);
    }
}

/// A tag begins and ends with a quote, and holds no comma.
proof fn lemma_tag(f: FileFacts)
    requires
        f.tag() is Some,
    ensures
        f.tag()->0.len() > 0,
        f.tag()->0[0] == '"',
        f.tag()->0.last() == '"',
        !f.tag()->0.contains(','),
{
    reveal_strlit("\"");
    reveal_strlit("-");
    let tag = f.tag()->0;
    let a = hexadecimal(f.len as nat);
    let b = hexadecimal(f.modified->0 as nat);
    lemma_hexadecimal(f.len as nat);
    lemma_hexadecimal(f.modified->0 as nat);
    let n = a.len();
    assert forall|i: int| 0 <= i < tag.len() implies tag[i] != ',' by {
        if 1 <= i < 1 + n {
            assert(tag[i] == a[i - 1]);
        } else if 2 + n <= i < 2 + n + b.len() {
            assert(tag[i] == b[i - 2 - n]);
        }
    }
}

proof fn lemma_hexadecimal(n: nat)
    ensures
        hexadecimal(n).len() > 0,
        forall|i: int|
            0 <= i < hexadecimal(n).len() ==> #[trigger] hexadecimal(n)[i] != ',' && 32
                <= hexadecimal(n)[i] as u32 && (hexadecimal(n)[i] as u32) < 127,
    decreases n,
{
    lemma_hex_char(n % 16);
    if n < 16 {
        assert(n % 16 == n);
    } else {
        lemma_hexadecimal(n / 16);
    }
}

proof fn lemma_hex_char(d: nat)
    requires
        d < 16,
    ensures
        crate::text::hex_char(d) != ',',
        32 <= crate::text::hex_char(d) as u32,
        (crate::text::hex_char(d) as u32) < 127,
{
}

/// A text that begins and ends with a quote has no space to trim.
proof fn lemma_trim_plain(s: Seq<char>)
    requires
        s.len() > 0,
        s[0] == '"',
        s.last() == '"',
    ensures
        trim(s) == s,
{
}

/// How many bytes are to be read next of those that remain.
pub fn chunk_size(remaining: u64) -> (r: Option<usize>)
    ensures
        match r {
            None => remaining == 0,
            Some(n) => 0 < n <= 65536 && n <= remaining && (n == 65536 || n == remaining),
        },
{
    if remaining == 0 {
        None
    } else if remaining < 65536 {
        Some(remaining as usize)
    } else {
        Some(65536)
    }
}

/// How many bytes remain once some were read; nothing remains once none comes.
pub fn remaining_after(remaining: u64, read: usize) -> (r: u64)
    requires
        read <= remaining,
    ensures
        r == (if read == 0 {
            0
        } else {
            remaining - read
        }),
{
    if read == 0 {
        0
    } else {
        remaining - read as u64
    }
}

/// A number in decimal has neither white space nor separators.
proof fn lemma_decimal_plain(n: nat)
    ensures
        decimal(n).len() > 0,
        !crate::text::is_space(decimal(n)[0]),
        !crate::text::is_space(decimal(n).last()),
        !decimal(n).contains('-'),
        !decimal(n).contains(','),
        trim(decimal(n)) == decimal(n),
{
    crate::text::law_decimals_are_read_back(n, n);
    let d = decimal(n);
    assert('0' <= d[0] <= '9');
    assert('0' <= d[d.len() - 1] <= '9');
    let e = Seq::<char>::empty();
    crate::text::law_trim_takes_the_ends_off(e, d, e);
    assert(e + d + e =~= d);
}

/// What two sides of a dash ask for, as a header says it.
proof fn lemma_range_of(from: Seq<char>, to: Seq<char>, total: nat)
    requires
        from.len() + to.len() > 0,
        !from.contains('-') && !from.contains(','),
        !to.contains(','),
        from.len() > 0 ==> !crate::text::is_space(from[0]),
        to.len() > 0 ==> !crate::text::is_space(to.last()),
    ensures
        range_of("bytes="@ + from + seq!['-'] + to, total) == range_between(
            trim(from),
            trim(to),
            total,
        ),
{
    reveal_strlit("bytes=");
    let raw = "bytes="@ + from + seq!['-'] + to;
    let e = Seq::<char>::empty();
    assert(raw[0] == 'b');
    if to.len() > 0 {
        assert(raw.last() == to.last());
    } else {
        assert(raw.last() == '-');
    }
    crate::text::law_trim_takes_the_ends_off(e, raw, e);
    assert(e + raw + e =~= raw);
    let rest = from + seq!['-'] + to;
    assert(raw.take(6) =~= "bytes="@);
    assert(raw.skip(6) =~= rest);
    assert(!rest.contains(',')) by {
        assert forall|i: int| 0 <= i < rest.len() implies rest[i] != ',' by {
            if i < from.len() {
                assert(rest[i] == from[i]);
                assert(from.contains(from[i]));
            } else if i > from.len() {
                assert(rest[i] == to[i - from.len() - 1]);
                assert(to.contains(to[i - from.len() - 1]));
            }
        }
    }
    crate::text::law_split_at_each_separator(from, to, '-');
}

/// A range from one place to another is served as far as the file goes, one from a place
/// on up to its end, and the last bytes as many as there are. What begins behind the end
/// cannot be served, and what ends before it begins counts for nothing.
pub proof fn law_ranges_are_served_as_asked(start: u64, end: u64, total: u64)
    ensures
        end < start ==> range_of(
            "bytes="@ + decimal(start as nat) + seq!['-'] + decimal(end as nat),
            total as nat,
        ) == RangeParse::Ignored,
        start <= end && start >= total ==> range_of(
            "bytes="@ + decimal(start as nat) + seq!['-'] + decimal(end as nat),
            total as nat,
        ) == RangeParse::Unsatisfiable,
        start <= end && end < total ==> range_of(
            "bytes="@ + decimal(start as nat) + seq!['-'] + decimal(end as nat),
            total as nat,
        ) == RangeParse::Satisfiable(start, end),
        start < total && total <= end ==> range_of(
            "bytes="@ + decimal(start as nat) + seq!['-'] + decimal(end as nat),
            total as nat,
        ) == RangeParse::Satisfiable(start, (total - 1) as u64),
        start < total ==> range_of(
            "bytes="@ + decimal(start as nat) + seq!['-'] + Seq::<char>::empty(),
            total as nat,
        ) == RangeParse::Satisfiable(start, (total - 1) as u64),
        start >= total ==> range_of(
            "bytes="@ + decimal(start as nat) + seq!['-'] + Seq::<char>::empty(),
            total as nat,
        ) == RangeParse::Unsatisfiable,
        0 < end <= total ==> range_of(
            "bytes="@ + Seq::<char>::empty() + seq!['-'] + decimal(end as nat),
            total as nat,
        ) == RangeParse::Satisfiable((total - end) as u64, (total - 1) as u64),
        0 < total < end ==> range_of(
            "bytes="@ + Seq::<char>::empty() + seq!['-'] + decimal(end as nat),
            total as nat,
        ) == RangeParse::Satisfiable(0, (total - 1) as u64),
        end == 0 || total == 0 ==> range_of(
            "bytes="@ + Seq::<char>::empty() + seq!['-'] + decimal(end as nat),
            total as nat,
        ) == RangeParse::Unsatisfiable,
{
    let a = decimal(start as nat);
    let b = decimal(end as nat);
    let e = Seq::<char>::empty();
    lemma_decimal_plain(start as nat);
    lemma_decimal_plain(end as nat);
    crate::text::law_decimals_are_read_back(start as nat, u64::MAX as nat);
    crate::text::law_decimals_are_read_back(end as nat, u64::MAX as nat);
    crate::text::law_trim_takes_the_ends_off(e, e, e);
    assert(e + e + e =~= e);
    lemma_range_of(a, b, total as nat);
    lemma_range_of(a, e, total as nat);
    lemma_range_of(e, b, total as nat);
}

/// Other units than bytes, several ranges at once, and what has no dash count for nothing.
pub proof fn law_other_ranges_count_for_nothing(raw: Seq<char>, total: nat)
    requires
        raw.len() > 0,
        !crate::text::is_space(raw[0]),
        !crate::text::is_space(raw.last()),
    ensures
        raw.len() < 6 || raw.take(6) != "bytes="@ ==> range_of(raw, total) == RangeParse::Ignored,
        raw.contains(',') ==> range_of(raw, total) == RangeParse::Ignored,
        !raw.contains('-') ==> range_of(raw, total) == RangeParse::Ignored,
{
    reveal_strlit("bytes=");
    let e = Seq::<char>::empty();
    crate::text::law_trim_takes_the_ends_off(e, raw, e);
    assert(e + raw + e =~= raw);
    if raw.len() >= 6 && raw.take(6) == "bytes="@ {
        let rest = raw.skip(6);
        if raw.contains(',') {
            let i = choose|i: int| 0 <= i < raw.len() && raw[i] == ',';
            assert(i >= 6) by {
                if i < 6 {
                    assert(raw.take(6)[i] == "bytes="@[i]);
                }
            }
            assert(rest[i - 6] == ',');
        }
        if !raw.contains('-') {
            assert(!rest.contains('-')) by {
                if rest.contains('-') {
                    let i = choose|i: int| 0 <= i < rest.len() && rest[i] == '-';
                    assert(raw[i + 6] == '-');
                }
            }
            crate::text::law_split_at_each_separator(rest, e, '-');
        }
    }
}

/// Names below the directory, with slashes between them, lead to the file of these names;
/// a path that goes up anywhere, or begins at the root, leads nowhere.
pub proof fn law_paths_lead_to_their_names(names: Seq<Seq<char>>, path: Seq<char>, i: int)
    requires
        names.len() > 0,
        forall|k: int|
            0 <= k < names.len() ==> (#[trigger] names[k]).len() > 0 && !names[k].contains('/')
                && names[k] != "."@ && names[k] != ".."@,
    ensures
        safe_parts(crate::text::join(names, seq!['/'])) == Some(names),
        path.len() > 0 && path[0] == '/' ==> safe_parts(path) is None,
        0 <= i < split(path, '/').len() && split(path, '/')[i] == ".."@ ==> safe_parts(path)
            is None,
{
    lemma_split_join(names);
    let whole = crate::text::join(names, seq!['/']);
    assert(split(whole, '/') == names);
    lemma_named_all(names);
    assert(!names.contains(".."@)) by {
        if names.contains(".."@) {
            let k = choose|k: int| 0 <= k < names.len() && names[k] == ".."@;
            assert(names[k] != ".."@);
        }
    }
    assert(whole.len() > 0 && whole[0] != '/') by {
        lemma_join_begins(names);
        assert(names[0].contains(names[0][0]));
    }
    if 0 <= i < split(path, '/').len() && split(path, '/')[i] == ".."@ {
        assert(split(path, '/').contains(split(path, '/')[i]));
    }
}

proof fn lemma_join_begins(names: Seq<Seq<char>>)
    requires
        names.len() > 0,
        names[0].len() > 0,
    ensures
        crate::text::join(names, seq!['/']).len() > 0,
        crate::text::join(names, seq!['/'])[0] == names[0][0],
    decreases names.len(),
{
    if names.len() > 1 {
        lemma_join_begins(names.drop_last());
    }
}

proof fn lemma_named_all(names: Seq<Seq<char>>)
    requires
        forall|k: int|
            0 <= k < names.len() ==> (#[trigger] names[k]).len() > 0 && names[k] != "."@,
    ensures
        named_parts(names) == names,
    decreases names.len(),
{
    if names.len() > 0 {
        let d = names.drop_last();
        assert forall|k: int| 0 <= k < d.len() implies (#[trigger] d[k]).len() > 0 && d[k]
            != "."@ by {
            assert(d[k] == names[k]);
        }
        lemma_named_all(d);
        assert(names[names.len() - 1] == names.last());
        assert(d.push(names.last()) =~= names);
    } else {
        assert(named_parts(names) =~= names);
    }
}

proof fn lemma_split_join(names: Seq<Seq<char>>)
    requires
        names.len() > 0,
        forall|k: int| 0 <= k < names.len() ==> !(#[trigger] names[k]).contains('/'),
    ensures
        split(crate::text::join(names, seq!['/']), '/') == names,
    decreases names.len(),
{
    let first = names[0];
    let rest = names.skip(1);
    if rest.len() == 0 {
        assert(names =~= seq![first]);
        crate::text::law_split_at_each_separator(first, Seq::empty(), '/');
    } else {
        assert forall|k: int| 0 <= k < rest.len() implies !(#[trigger] rest[k]).contains('/') by {
            assert(rest[k] == names[k + 1]);
        }
        lemma_split_join(rest);
        crate::text::lemma_join_front(first, rest, seq!['/']);
        assert(names =~= seq![first] + rest);
        let tail = crate::text::join(rest, seq!['/']);
        crate::text::law_split_at_each_separator(first, tail, '/');
        assert(seq![first] + rest =~= names);
    }
}

/// Empty parts of a path, and dots alone, change nothing about where it leads.
pub proof fn law_dots_lead_nowhere_else(a: Seq<Seq<char>>, x: Seq<char>)
    ensures
        named_parts(a.push(Seq::empty())) == named_parts(a),
        named_parts(a.push("."@)) == named_parts(a),
        x.len() > 0 && x != "."@ ==> named_parts(a.push(x)) == named_parts(a).push(x),
{
    assert(a.push(Seq::empty()).drop_last() =~= a);
    assert(a.push("."@).drop_last() =~= a);
    assert(a.push(x).drop_last() =~= a);
}

/// What follows the last dot of a name is its extension, where something stands before.
pub proof fn law_extensions_follow_the_last_dot(stem: Seq<char>, ext: Seq<char>)
    requires
        !ext.contains('.'),
    ensures
        stem.len() > 0 ==> extension_of(stem + seq!['.'] + ext) == ext,
        extension_of(seq!['.'] + ext).len() == 0,
        extension_of(ext).len() == 0,
{
    crate::text::law_split_at_each_separator(ext, stem, '.');
    crate::text::law_split_at_each_separator(ext, Seq::empty(), '.');
    assert(Seq::<char>::empty() + seq!['.'] + ext =~= seq!['.'] + ext);
}

/// Files of the common kinds have the types of their kinds, and all others are bytes.
pub proof fn law_files_have_the_type_of_their_kind(e: Seq<char>)
    ensures
        e == "html"@ || e == "htm"@ ==> type_of_extension(e) == "text/html; charset=utf-8"@,
        e == "css"@ ==> type_of_extension(e) == "text/css; charset=utf-8"@,
        e == "js"@ || e == "mjs"@ ==> type_of_extension(e) == "text/javascript; charset=utf-8"@,
        e == "json"@ ==> type_of_extension(e) == "application/json"@,
        e == "txt"@ ==> type_of_extension(e) == "text/plain; charset=utf-8"@,
        e == "csv"@ ==> type_of_extension(e) == "text/csv; charset=utf-8"@,
        e == "svg"@ ==> type_of_extension(e) == "image/svg+xml"@,
        e == "png"@ ==> type_of_extension(e) == "image/png"@,
        e == "jpg"@ || e == "jpeg"@ ==> type_of_extension(e) == "image/jpeg"@,
        e == "gif"@ ==> type_of_extension(e) == "image/gif"@,
        e == "webp"@ ==> type_of_extension(e) == "image/webp"@,
        e == "ico"@ ==> type_of_extension(e) == "image/x-icon"@,
        e == "wasm"@ ==> type_of_extension(e) == "application/wasm"@,
        e == "pdf"@ ==> type_of_extension(e) == "application/pdf"@,
        e.len() < 2 || e.len() > 4 ==> type_of_extension(e) == "application/octet-stream"@,
{
    reveal_strlit("html");
    reveal_strlit("htm");
    reveal_strlit("css");
    reveal_strlit("js");
    reveal_strlit("mjs");
    reveal_strlit("json");
    reveal_strlit("txt");
    reveal_strlit("csv");
    reveal_strlit("svg");
    reveal_strlit("png");
    reveal_strlit("jpg");
    reveal_strlit("jpeg");
    reveal_strlit("gif");
    reveal_strlit("webp");
    reveal_strlit("ico");
    reveal_strlit("wasm");
    reveal_strlit("pdf");
    lemma_kinds_differ();
}

/// The names of the kinds differ.
proof fn lemma_kinds_differ()
    ensures
        "html"@[0] == 'h' && "htm"@[0] == 'h' && "css"@[1] == 's' && "css"@[0] == 'c',
        "js"@.len() == 2,
        "mjs"@[0] == 'm',
        "json"@[0] == 'j' && "json"@[1] == 's',
        "txt"@[0] == 't',
        "csv"@[0] == 'c' && "csv"@[2] == 'v' && "css"@[2] == 's',
        "svg"@[0] == 's',
        "png"@[0] == 'p' && "png"@[1] == 'n',
        "jpg"@[0] == 'j' && "jpg"@.len() == 3,
        "jpeg"@[0] == 'j' && "jpeg"@[1] == 'p',
        "gif"@[0] == 'g',
        "webp"@[0] == 'w' && "webp"@[1] == 'e',
        "ico"@[0] == 'i',
        "wasm"@[0] == 'w' && "wasm"@[1] == 'a',
        "pdf"@[0] == 'p' && "pdf"@[1] == 'd',
        "html"@.len() == 4 && "htm"@.len() == 3 && "css"@.len() == 3 && "mjs"@.len() == 3
            && "json"@.len() == 4 && "txt"@.len() == 3 && "csv"@.len() == 3 && "svg"@.len() == 3
            && "png"@.len() == 3 && "jpeg"@.len() == 4 && "gif"@.len() == 3 && "webp"@.len() == 4
            && "ico"@.len() == 3 && "wasm"@.len() == 4 && "pdf"@.len() == 3,
{
    reveal_strlit("html");
    reveal_strlit("htm");
    reveal_strlit("css");
    reveal_strlit("js");
    reveal_strlit("mjs");
    reveal_strlit("json");
    reveal_strlit("txt");
    reveal_strlit("csv");
    reveal_strlit("svg");
    reveal_strlit("png");
    reveal_strlit("jpg");
    reveal_strlit("jpeg");
    reveal_strlit("gif");
    reveal_strlit("webp");
    reveal_strlit("ico");
    reveal_strlit("wasm");
    reveal_strlit("pdf");
}

/// A list names a tag exactly where one of its parts is it, or the star.
pub proof fn law_lists_name_their_tags(a: Seq<char>, b: Seq<char>, tag: Seq<char>)
    requires
        !a.contains(','),
    ensures
        lists_tag(a, tag) <==> trim(a) == tag || trim(a) == "*"@,
        lists_tag(a + seq![','] + b, tag) <==> trim(a) == tag || trim(a) == "*"@ || lists_tag(
            b,
            tag,
        ),
{
    crate::text::law_split_at_each_separator(a, b, ',');
    assert(split(a, ',')[0] == a);
    let all = split(a + seq![','] + b, ',');
    let rest = split(b, ',');
    assert(all[0] == a);
    assert forall|i: int| 0 <= i < rest.len() implies #[trigger] rest[i] == all[i + 1] by {}
    if lists_tag(b, tag) {
        let i = choose|i: int|
            0 <= i < rest.len() && (trim(#[trigger] rest[i]) == tag || trim(rest[i]) == "*"@);
        assert(trim(all[i + 1]) == tag || trim(all[i + 1]) == "*"@);
    }
    if lists_tag(a + seq![','] + b, tag) {
        let i = choose|i: int|
            0 <= i < all.len() && (trim(#[trigger] all[i]) == tag || trim(all[i]) == "*"@);
        if i > 0 {
            assert(rest[i - 1] == all[i]);
        }
    }
}

/// Files of different length, or changed at different moments, have different tags.
pub proof fn law_tags_tell_states_apart(f: FileFacts, g: FileFacts)
    requires
        f.tag() is Some,
        f.tag() == g.tag(),
    ensures
        f.len == g.len,
        f.modified == g.modified,
{
    reveal_strlit("\"");
    reveal_strlit("-");
    assert("\""@ =~= seq!['"']);
    assert("-"@ =~= seq!['-']);
    let a = hexadecimal(f.len as nat);
    let b = hexadecimal(f.modified->0 as nat);
    let c = hexadecimal(g.len as nat);
    let d = hexadecimal(g.modified->0 as nat);
    lemma_hexadecimal_plain(f.len as nat);
    lemma_hexadecimal_plain(g.len as nat);
    let x = f.tag()->0;
    let y = g.tag()->0;
    assert(x.subrange(1, x.len() - 1) =~= a + seq!['-'] + b);
    assert(y.subrange(1, y.len() - 1) =~= c + seq!['-'] + d);
    crate::text::law_split_at_each_separator(a, b, '-');
    crate::text::law_split_at_each_separator(c, d, '-');
    crate::text::law_hexadecimals_differ(f.len as nat, g.len as nat);
    crate::text::law_hexadecimals_differ(f.modified->0 as nat, g.modified->0 as nat);
}

proof fn lemma_hexadecimal_plain(n: nat)
    ensures
        !hexadecimal(n).contains('-'),
    decreases n,
{
    let h = hexadecimal(n);
    if n >= 16 {
        lemma_hexadecimal_plain(n / 16);
        assert forall|i: int| 0 <= i < h.len() implies h[i] != '-' by {
            if i < h.len() - 1 {
                assert(h[i] == hexadecimal(n / 16)[i]);
                assert(hexadecimal(n / 16).contains(h[i]));
            }
        }
    }
}

/// A client that has the file is answered 304 without it, and one that names a tag of
/// another state, or a moment before the last change, is sent it again. Tags come before
/// moments.
pub proof fn law_stale_clients_are_sent_the_file(req: Request, f: FileFacts, plan: StaticPlan)
    requires
        f.wf(),
        plan.is_owed(req, Seq::empty(), Some(f)),
    ensures
        req.header_of("if-none-match"@) is None && req.header_of("if-modified-since"@) is None
            && req.header_of("range"@) is None ==> (plan matches StaticPlan::Send(slice)
            && slice.start == 0 && slice.len == f.len && slice.range is None),
        (req.header_of("if-none-match"@) matches Some(list) && f.tag() matches Some(tag)
            && !lists_tag(list, tag)) ==> !(plan matches StaticPlan::Answer(r) && r@.status == 304),
        (req.header_of("if-none-match"@) matches Some(list) && f.tag() matches Some(tag)
            && lists_tag(list, tag)) ==> (plan matches StaticPlan::Answer(r) && r@.status == 304
            && r@.body == BodyView::Bytes(vstd::utf8::encode_utf8(""@))),
        f.modified is None && req.header_of("if-none-match"@) is None ==> !(plan matches
            StaticPlan::Answer(r) && r@.status == 304),
{
}

/// Part of a file is sent with status 206 and its place, the whole of it with 200, and the
/// bytes are counted.
pub proof fn law_slices_tell_their_place(slice: FileSlice, stream: u64)
    ensures
        slice.response(stream).body == BodyView::Stream(stream),
        slice.range is None ==> slice.response(stream).status == 200,
        slice.range is Some && slice.len > 0 ==> slice.response(stream).status == 206,
        slice.len == 0 ==> slice.response(stream).status == 200,
        slice.response(stream).content_type == slice.content_type@,
        slice.response(stream).error is None,
{
}

/// A directory is served by its index, and anything else by itself.
pub proof fn law_directories_have_an_index(names: Seq<Seq<char>>)
    ensures
        file_names(names, false) == names,
        file_names(names, true) == names + seq!["index.html"@],
{
    assert(file_names(names, true) =~= names + seq!["index.html"@]);
}

/// Where a request names no tag, the moment that it names decides: the file is not sent
/// where its last change is not later than that, to the second, and is sent where it is
/// later, or where the moment is none.
pub proof fn law_moments_tell_who_is_current(req: Request, f: FileFacts, text: Seq<char>, t: u128)
    requires
        f.is_dated(),
        f.modified == Some(t),
        req.header_of("if-none-match"@) is None,
        req.header_of("if-modified-since"@) == Some(text),
    ensures
        http_date_secs(text) matches Some(since) ==> (is_current(req, f) <==> t as nat / 1_000_000_000
            <= since),
        http_date_secs(text) is None ==> !is_current(req, f),
{
}

/// A file that is not there is answered 404, one that the client has 304, and a range that
/// is not in it 416 with its length. The tag and the moment of the last change go along
/// with the last two.
pub proof fn law_answers_without_bytes(
    req: Request,
    name: Seq<char>,
    found: Option<FileFacts>,
    plan: StaticPlan,
)
    requires
        found matches Some(f) ==> f.is_dated(),
        plan.is_owed(req, name, found),
    ensures
        found is None ==> (plan matches StaticPlan::Answer(r) && r@.status == 404 && r@.body
            == BodyView::Bytes(vstd::utf8::encode_utf8("404 Not Found"@))),
        found matches Some(f) ==> (is_current(req, f) ==> (plan matches StaticPlan::Answer(r)
            && r@.status == 304 && values_of(r@.headers, "accept-ranges"@) == seq!["bytes"@])),
        found matches Some(f) ==> (is_current(req, f) && f.modified is Some ==> (plan matches
            StaticPlan::Answer(r) && values_of(r@.headers, "etag"@) == seq![f.tag()->0]
            && values_of(r@.headers, "last-modified"@) == seq![f.date()->0])),
        found matches Some(f) ==> (!is_current(req, f) && (req.header_of("range"@) matches Some(raw)
            && range_of(raw, f.len as nat) is Unsatisfiable) ==> (plan matches StaticPlan::Answer(r)
            && r@.status == 416 && values_of(r@.headers, "content-range"@) == seq![
            "bytes */"@ + decimal(f.len as nat),
        ])),
        found matches Some(f) ==> (!is_current(req, f) && (req.header_of("range"@) matches Some(raw)
            && range_of(raw, f.len as nat) is Ignored) ==> (plan matches StaticPlan::Send(slice)
            && slice.range is None && slice.start == 0 && slice.len == f.len && slice.facts == f)),
{
    if let Some(f) = found {
        lemma_names();
        reveal_strlit("bytes */");
        lemma_decimal_is_value(f.len as nat);
        lemma_joined_value("bytes */"@, decimal(f.len as nat));
        lemma_validators_are_told(ResponseView::text(""@).with_status(304), f);
        lemma_validators_are_told(
            ResponseView::text(""@).with_status(416).with_header(
                "content-range"@,
                "bytes */"@ + decimal(f.len as nat),
            ),
            f,
        );
    }
}

/// Bytes of a file are sent with their number, and a part of it with its first and last
/// place and the length of the whole.
pub proof fn law_slices_are_counted(slice: FileSlice, stream: u64)
    requires
        slice.facts.is_dated(),
    ensures
        values_of(slice.response(stream).headers, "content-length"@) == seq![
            decimal(slice.len as nat),
        ],
        slice.range matches Some((start, end)) ==> values_of(
            slice.response(stream).headers,
            "content-range"@,
        ) == seq![
            "bytes "@ + decimal(start as nat) + "-"@ + decimal(end as nat) + "/"@ + decimal(
                slice.facts.len as nat,
            ),
        ],
        slice.range is None ==> values_of(
            slice.response(stream).headers,
            "content-range"@,
        ).len() == 0,
        values_of(slice.response(stream).headers, "accept-ranges"@) == seq!["bytes"@],
        slice.facts.tag() matches Some(tag) ==> values_of(
            slice.response(stream).headers,
            "etag"@,
        ) == seq![tag],
{
    lemma_names();
    lemma_decimal_is_value(slice.len as nat);
    let base = ResponseView {
        body: BodyView::Stream(stream),
        ..ResponseView::ok(Seq::empty(), slice.content_type@)
    }.with_status(
        if slice.range is Some && slice.len > 0 {
            206
        } else {
            200
        },
    ).with_header("content-length"@, decimal(slice.len as nat));
    match slice.range {
        Some((start, end)) => {
            lemma_range_text_is_value(start, end, slice.facts.len);
            lemma_validators_are_told(
                base.with_header("content-range"@, range_text(start, end, slice.facts.len)),
                slice.facts,
            );
        },
        None => {
            lemma_validators_are_told(base, slice.facts);
        },
    }
}

/// The tag of a file is its length and the moment of its last change, in sixteens and in
/// quotes, with a dash between them.
pub proof fn law_tags_are_length_and_moment(f: FileFacts, t: u128)
    ensures
        f.modified == Some(t) ==> f.tag() == Some(
            seq!['"'] + hexadecimal(f.len as nat) + seq!['-'] + hexadecimal(t as nat) + seq!['"'],
        ),
        f.modified is None ==> f.tag() is None,
{
    reveal_strlit("\"");
    reveal_strlit("-");
    assert("\""@ =~= seq!['"']);
    assert("-"@ =~= seq!['-']);
}

/// What is sent of a file has the type that its name tells.
pub proof fn law_files_are_sent_with_their_type(
    req: Request,
    name: Seq<char>,
    f: FileFacts,
    plan: StaticPlan,
)
    requires
        plan.is_owed(req, name, Some(f)),
    ensures
        plan matches StaticPlan::Send(slice) ==> slice.content_type@ == type_of_extension(
            extension_of(name),
        ) && slice.facts == f,
{
}

/// The path below the directory is the parameter of that name, with its escapes taken away;
/// a plus sign stands for itself, and nothing leads to the index.
pub proof fn law_paths_below_the_directory(req: Request, path: Seq<char>)
    ensures
        req.params.lookup("path"@) matches Some(p) ==> requested_path(req) == p,
        req.params.lookup("path"@) is None ==> requested_path(req).len() == 0,
        component(path, false).len() > 0 ==> asked_path(path) == component(path, false),
        component(path, false).len() == 0 ==> asked_path(path) == "index.html"@,
{
}

} // verus!
