//! Forms that carry files.

use vstd::prelude::*;
use vstd::utf8::encode_utf8;

use crate::codec::{law_text_is_read_back, text_from_utf8_lossy, text_of};
use crate::error::{HttpError, HttpErrorView};
use crate::request::Request;
use crate::sse::{lines, lines_text};
use crate::text::{
    chars, lower, opt, piece, same, same_ignoring_case, split, split_once, split_once_text,
    split_text, to_lower, trim, trimmed, views,
};

verus! {

/// A part of a form: a field, or a file.
#[derive(Clone, Debug)]
pub struct MultipartPart {
    pub name: String,
    /// The name of the file, where the part is one.
    pub filename: Option<String>,
    pub content_type: Option<String>,
    pub data: Vec<u8>,
}

/// A part of a form as contracts speak of it.
#[verifier::ext_equal]
pub struct PartView {
    pub name: Seq<char>,
    pub filename: Option<Seq<char>>,
    pub content_type: Option<Seq<char>>,
    pub data: Seq<u8>,
}

impl View for MultipartPart {
    type V = PartView;

    open spec fn view(&self) -> PartView {
        PartView {
            name: self.name@,
            filename: opt(self.filename),
            content_type: opt(self.content_type),
            data: self.data@,
        }
    }
}

impl MultipartPart {
    /// The data as text.
    pub fn text(&self) -> (r: String)
        ensures
            r@ == text_of(self.data@),
    {
        text_from_utf8_lossy(&self.data)
    }
}

/// The view of a list of parts.
pub open spec fn part_views(parts: Seq<MultipartPart>) -> Seq<PartView> {
    Seq::new(parts.len(), |i: int| parts[i]@)
}

/// A text without the quotes at its ends.
pub open spec fn unquoted(s: Seq<char>) -> Seq<char>
    decreases s.len(),
{
    if s.len() > 0 && s[0] == '"' {
        unquoted(s.skip(1))
    } else if s.len() > 0 && s.last() == '"' {
        unquoted(s.drop_last())
    } else {
        s
    }
}

/// A text without the quotes at its ends.
pub fn trim_quotes(s: &str) -> (r: String)
    ensures
        r@ == unquoted(s@),
{
    let c: Vec<char> = chars(s);
    let mut from: usize = 0;
    let mut to: usize = c.len();
    assert(c@.subrange(0, c@.len() as int) =~= s@);
    while from < to && c[from] == '"'
        invariant
            from <= to <= c.len(),
            unquoted(c@.subrange(from as int, to as int)) == unquoted(s@),
        decreases to - from,
    {
        assert(c@.subrange(from as int, to as int).skip(1) =~= c@.subrange(from + 1, to as int));
        from += 1;
    }
    while from < to && c[to - 1] == '"'
        invariant
            from <= to <= c.len(),
            unquoted(c@.subrange(from as int, to as int)) == unquoted(s@),
            from < to ==> c@[from as int] != '"',
        decreases to - from,
    {
        assert(c@.subrange(from as int, to as int).drop_last() =~= c@.subrange(
            from as int,
            to - 1,
        ));
        to -= 1;
    }
    piece(&c, from, to)
}

/// The boundary among the parameters of a content type. A parameter without a value
/// before it leaves none.
pub open spec fn boundary_in(params: Seq<Seq<char>>) -> Option<Seq<char>>
    decreases params.len(),
{
    if params.len() == 0 {
        None
    } else {
        match split_once(params[0], '=') {
            None => None,
            Some((key, value)) => if lower(trim(key)) == lower("boundary"@) {
                Some(unquoted(trim(value)))
            } else {
                boundary_in(params.skip(1))
            },
        }
    }
}

/// The boundary that a content type names.
pub open spec fn boundary_of(content_type: Seq<char>) -> Option<Seq<char>> {
    match split_once(content_type, ';') {
        None => None,
        Some((kind, params)) => if lower(trim(kind)) == lower("multipart/form-data"@) {
            boundary_in(split(params, ';'))
        } else {
            None
        },
    }
}

/// The boundary that a content type names.
pub fn multipart_boundary(content_type: &str) -> (r: Option<String>)
    ensures
        opt(r) == boundary_of(content_type@),
{
    let (kind, params): (String, String) = match split_once_text(content_type, ';') {
        Some(both) => both,
        None => {
            return None;
        },
    };
    if !same_ignoring_case(trimmed(kind.as_str()).as_str(), "multipart/form-data") {
        return None;
    }
    let list: Vec<String> = split_text(params.as_str(), ';');
    let ghost all = views(list@);
    let mut i: usize = 0;
    assert(all.skip(0) =~= all);
    while i < list.len()
        invariant
            i <= list.len(),
            all == views(list@),
            boundary_of(content_type@) == boundary_in(all.skip(i as int)),
        decreases list.len() - i,
    {
        proof {
            assert(all.skip(i as int)[0] == list@[i as int]@);
            assert(all.skip(i as int).skip(1) =~= all.skip(i + 1));
        }
        match split_once_text(list[i].as_str(), '=') {
            None => {
                return None;
            },
            Some((key, value)) => {
                if same_ignoring_case(trimmed(key.as_str()).as_str(), "boundary") {
                    return Some(trim_quotes(trimmed(value.as_str()).as_str()));
                }
            },
        }
        i += 1;
    }
    None
}

/// Whether bytes stand at a place.
pub open spec fn stands_at(b: Seq<u8>, needle: Seq<u8>, k: int) -> bool {
    0 <= k && k + needle.len() <= b.len() && b.subrange(k, k + needle.len()) == needle
}

/// The first place at which bytes stand.
pub open spec fn first_at(b: Seq<u8>, needle: Seq<u8>) -> Option<int>
    decreases b.len(),
{
    if stands_at(b, needle, 0) {
        Some(0)
    } else if b.len() == 0 {
        None
    } else {
        match first_at(b.skip(1), needle) {
            Some(k) => Some(k + 1),
            None => None,
        }
    }
}

/// What it is to be the first place.
proof fn lemma_first_at(b: Seq<u8>, needle: Seq<u8>)
    ensures
        match first_at(b, needle) {
            Some(k) => stands_at(b, needle, k) && forall|j: int|
                0 <= j < k ==> !#[trigger] stands_at(b, needle, j),
            None => forall|j: int| !#[trigger] stands_at(b, needle, j),
        },
    decreases b.len(),
{
    if !stands_at(b, needle, 0) && b.len() > 0 {
        let t = b.skip(1);
        lemma_first_at(t, needle);
        assert forall|j: int| j >= 0 implies #[trigger] stands_at(b, needle, j + 1) == stands_at(
            t,
            needle,
            j,
        ) by {
            if j + 1 + needle.len() <= b.len() {
                assert(b.subrange(j + 1, j + 1 + needle.len()) =~= t.subrange(
                    j,
                    j + needle.len(),
                ));
            }
        }
        match first_at(t, needle) {
            Some(k) => {
                assert(stands_at(b, needle, k + 1));
                assert forall|j: int| 0 <= j < k + 1 implies !#[trigger] stands_at(
                    b,
                    needle,
                    j,
                ) by {
                    if j > 0 {
                        assert(stands_at(b, needle, (j - 1) + 1) == stands_at(t, needle, j - 1));
                    }
                }
            },
            None => {
                assert forall|j: int| !#[trigger] stands_at(b, needle, j) by {
                    if j > 0 {
                        assert(stands_at(b, needle, (j - 1) + 1) == stands_at(t, needle, j - 1));
                    }
                }
            },
        }
    }
}

/// A place that is the first is the one that is found.
proof fn lemma_first_at_is(b: Seq<u8>, needle: Seq<u8>, k: int)
    requires
        stands_at(b, needle, k),
        forall|j: int| 0 <= j < k ==> !#[trigger] stands_at(b, needle, j),
    ensures
        first_at(b, needle) == Some(k),
{
    lemma_first_at(b, needle);
    match first_at(b, needle) {
        Some(f) => {
            assert(stands_at(b, needle, f));
            if f < k {
                assert(!stands_at(b, needle, f));
            } else if k < f {
                assert(!stands_at(b, needle, k));
            }
        },
        None => {},
    }
}

/// Whether bytes stand at a place.
pub fn is_at(body: &Vec<u8>, needle: &Vec<u8>, at: usize) -> (r: bool)
    requires
        at <= body@.len(),
    ensures
        r == stands_at(body@, needle@, at as int),
{
    if needle.len() > body.len() - at {
        return false;
    }
    let mut i: usize = 0;
    while i < needle.len()
        invariant
            i <= needle.len(),
            at + needle.len() <= body.len(),
            forall|j: int| 0 <= j < i ==> body@[at + j] == #[trigger] needle@[j],
        decreases needle.len() - i,
    {
        if body[at + i] != needle[i] {
            assert(body@.subrange(at as int, at + needle.len())[i as int] != needle@[i as int]);
            return false;
        }
        i += 1;
    }
    assert(body@.subrange(at as int, at + needle.len()) =~= needle@);
    true
}

/// The first place, from one on, at which bytes stand, counted from there.
pub fn find(body: &Vec<u8>, needle: &Vec<u8>, from: usize) -> (r: Option<usize>)
    requires
        from <= body@.len(),
    ensures
        match r {
            Some(k) => first_at(body@.skip(from as int), needle@) == Some(k as int) && from + k
                + needle@.len() <= body@.len(),
            None => first_at(body@.skip(from as int), needle@) is None,
        },
{
    let ghost b = body@.skip(from as int);
    let mut k: usize = from;
    while k < body.len()
        invariant
            from <= k <= body.len(),
            b == body@.skip(from as int),
            forall|j: int| 0 <= j < k - from ==> !#[trigger] stands_at(b, needle@, j),
        decreases body.len() - k,
    {
        let here: bool = is_at(body, needle, k);
        proof {
            if k + needle.len() <= body.len() {
                assert(b.subrange(k - from, k - from + needle.len()) =~= body@.subrange(
                    k as int,
                    k + needle.len(),
                ));
            }
        }
        if here {
            proof {
                lemma_first_at_is(b, needle@, k - from);
            }
            return Some(k - from);
        }
        assert(!stands_at(b, needle@, k - from));
        k += 1;
    }
    let here: bool = is_at(body, needle, k);
    proof {
        lemma_first_at(b, needle@);
        if needle@.len() == 0 {
            assert(b.subrange(k - from, k - from) =~= needle@);
            assert(stands_at(b, needle@, k - from));
            lemma_first_at_is(b, needle@, k - from);
            assert(body@.subrange(k as int, k as int) =~= needle@);
        }
    }
    if here {
        return Some(k - from);
    }
    proof {
        if let Some(f) = first_at(b, needle@) {
            assert(stands_at(b, needle@, f));
            assert(f < k - from ==> !stands_at(b, needle@, f));
            assert(f + needle@.len() <= b.len());
        }
    }
    None
}

/// The bytes from one place to another.
pub fn bytes_between(body: &Vec<u8>, from: usize, to: usize) -> (r: Vec<u8>)
    requires
        from <= to <= body@.len(),
    ensures
        r@ == body@.subrange(from as int, to as int),
{
    let mut r: Vec<u8> = Vec::new();
    let mut i: usize = from;
    while i < to
        invariant
            from <= i <= to <= body.len(),
            r@ == body@.subrange(from as int, i as int),
        decreases to - i,
    {
        r.push(body[i]);
        assert(body@.subrange(from as int, i + 1) =~= body@.subrange(from as int, i as int).push(
            body@[i as int],
        ));
        i += 1;
    }
    r
}

/// A line end.
pub open spec fn crlf() -> Seq<u8> {
    seq![13u8, 10u8]
}

/// What ends the headers of a part.
pub open spec fn headers_end() -> Seq<u8> {
    seq![13u8, 10u8, 13u8, 10u8]
}

/// What follows the last boundary.
pub open spec fn dashes() -> Seq<u8> {
    seq![45u8, 45u8]
}

/// The bytes of a part: its headers, and its data.
pub type RawPart = (Seq<u8>, Seq<u8>);

/// The data before a boundary, without the line end that belongs to the boundary.
pub open spec fn data_before(d: Seq<u8>, n: int) -> Seq<u8> {
    if n >= 2 {
        d.take(n - 2)
    } else {
        Seq::empty()
    }
}

/// What follows a boundary.
#[verifier::ext_equal]
pub enum Section {
    /// Dashes: the boundary is the last one.
    Closed,
    /// Something that is not well formed.
    Broken,
    /// A part, and what follows the boundary behind it.
    Part(RawPart, Seq<u8>),
}

/// The bytes behind the line end of a boundary.
pub open spec fn behind_line(b: Seq<u8>) -> Seq<u8> {
    if stands_at(b, crlf(), 0) {
        b.skip(2)
    } else {
        b
    }
}

/// The part whose data begins with the given bytes.
pub open spec fn section_with(head: Seq<u8>, d: Seq<u8>, delimiter: Seq<u8>) -> Section {
    match first_at(d, delimiter) {
        Some(n) => Section::Part((head, data_before(d, n)), d.skip(n + delimiter.len())),
        None => Section::Broken,
    }
}

/// What follows a boundary: dashes, or a part with its headers, an empty line, and its
/// data, up to the next boundary.
pub open spec fn section(b: Seq<u8>, delimiter: Seq<u8>) -> Section {
    if stands_at(b, dashes(), 0) {
        Section::Closed
    } else {
        let p = behind_line(b);
        match first_at(p, headers_end()) {
            Some(h) => section_with(p.take(h), p.skip(h + 4), delimiter),
            None => Section::Broken,
        }
    }
}

/// The parts that follow a boundary, up to the last boundary. Where one of them is not
/// well formed there are no parts at all.
pub open spec fn raw_parts(b: Seq<u8>, delimiter: Seq<u8>) -> Option<Seq<RawPart>>
    decreases b.len(),
{
    match section(b, delimiter) {
        Section::Closed => Some(Seq::empty()),
        Section::Broken => None,
        Section::Part(raw, rest) => if rest.len() < b.len() {
            match raw_parts(rest, delimiter) {
                Some(list) => Some(seq![raw] + list),
                None => None,
            }
        } else {
            None
        },
    }
}

/// The value of a header line, where the line is one of that header.
pub open spec fn line_value(line: Seq<char>, header: Seq<char>) -> Option<Seq<char>> {
    match split_once(line, ':') {
        Some((name, value)) => if lower(name) == lower(header) {
            Some(trim(value))
        } else {
            None
        },
        None => None,
    }
}

/// The value of the last parameter with a name.
pub open spec fn param_in(params: Seq<Seq<char>>, key: Seq<char>) -> Option<Seq<char>>
    decreases params.len(),
{
    if params.len() == 0 {
        None
    } else {
        match split_once(params.last(), '=') {
            Some((k, v)) => if lower(trim(k)) == key {
                Some(unquoted(trim(v)))
            } else {
                param_in(params.drop_last(), key)
            },
            None => param_in(params.drop_last(), key),
        }
    }
}

/// A parameter of the disposition of a part: the last one of that name.
pub open spec fn disposition_in(list: Seq<Seq<char>>, key: Seq<char>) -> Option<Seq<char>>
    decreases list.len(),
{
    if list.len() == 0 {
        None
    } else {
        match line_value(list.last(), "content-disposition"@) {
            Some(value) => match param_in(split(value, ';'), key) {
                Some(v) => Some(v),
                None => disposition_in(list.drop_last(), key),
            },
            None => disposition_in(list.drop_last(), key),
        }
    }
}

/// The content type of a part: that of the last line that tells one.
pub open spec fn type_in(list: Seq<Seq<char>>) -> Option<Seq<char>>
    decreases list.len(),
{
    if list.len() == 0 {
        None
    } else {
        match line_value(list.last(), "content-type"@) {
            Some(value) => Some(value),
            None => type_in(list.drop_last()),
        }
    }
}

/// The part that header lines and data make. It has to have a name.
pub open spec fn part_of(list: Seq<Seq<char>>, data: Seq<u8>) -> Option<PartView> {
    match disposition_in(list, "name"@) {
        Some(name) => Some(
            PartView {
                name,
                filename: disposition_in(list, "filename"@),
                content_type: type_in(list),
                data,
            },
        ),
        None => None,
    }
}

/// The part that raw bytes make.
pub open spec fn part_of_raw(raw: RawPart) -> Option<PartView> {
    part_of(lines(text_of(raw.0)), raw.1)
}

/// The parts that raw bytes make, where all of them make one.
pub open spec fn parts_of(raw: Seq<RawPart>) -> Option<Seq<PartView>>
    decreases raw.len(),
{
    if raw.len() == 0 {
        Some(Seq::empty())
    } else {
        match parts_of(raw.drop_last()) {
            Some(list) => match part_of_raw(raw.last()) {
                Some(p) => Some(list.push(p)),
                None => None,
            },
            None => None,
        }
    }
}

/// What separates the parts.
pub open spec fn delimiter_of(boundary: Seq<char>) -> Seq<u8> {
    encode_utf8("--"@ + boundary)
}

/// The parts of a body, where it is well formed.
pub open spec fn multipart_of(body: Seq<u8>, boundary: Seq<char>) -> Option<Seq<PartView>> {
    let delimiter = delimiter_of(boundary);
    match first_at(body, delimiter) {
        Some(k) => match raw_parts(body.skip(k + delimiter.len()), delimiter) {
            Some(raw) => parts_of(raw),
            None => None,
        },
        None => None,
    }
}

/// The value of a header line, where the line is one of that header.
fn header_line(line: &str, header: &str) -> (r: Option<String>)
    ensures
        opt(r) == line_value(line@, header@),
{
    match split_once_text(line, ':') {
        Some((name, value)) => if same_ignoring_case(name.as_str(), header) {
            Some(trimmed(value.as_str()))
        } else {
            None
        },
        None => None,
    }
}

/// The value of the last parameter with a name.
fn last_param(value: &str, key: &str) -> (r: Option<String>)
    ensures
        opt(r) == param_in(split(value@, ';'), key@),
{
    let list: Vec<String> = split_text(value, ';');
    let ghost all = views(list@);
    let mut found: Option<String> = None;
    let mut i: usize = 0;
    assert(all.take(0) =~= Seq::empty());
    while i < list.len()
        invariant
            i <= list.len(),
            all == views(list@),
            opt(found) == param_in(all.take(i as int), key@),
        decreases list.len() - i,
    {
        proof {
            assert(all.take(i + 1).drop_last() =~= all.take(i as int));
            assert(all.take(i + 1).last() == list@[i as int]@);
        }
        if let Some((k, v)) = split_once_text(list[i].as_str(), '=') {
            if same(to_lower(trimmed(k.as_str()).as_str()).as_str(), key) {
                found = Some(trim_quotes(trimmed(v.as_str()).as_str()));
            }
        }
        i += 1;
    }
    assert(all.take(all.len() as int) =~= all);
    found
}

/// The part that header lines and data make.
pub fn parse_part(list: &Vec<String>, data: Vec<u8>) -> (r: Option<MultipartPart>)
    ensures
        match r {
            Some(p) => part_of(views(list@), data@) == Some(p@),
            None => part_of(views(list@), data@) is None,
        },
{
    let ghost all = views(list@);
    let mut name: Option<String> = None;
    let mut filename: Option<String> = None;
    let mut content_type: Option<String> = None;
    let mut i: usize = 0;
    assert(all.take(0) =~= Seq::empty());
    while i < list.len()
        invariant
            i <= list.len(),
            all == views(list@),
            opt(name) == disposition_in(all.take(i as int), "name"@),
            opt(filename) == disposition_in(all.take(i as int), "filename"@),
            opt(content_type) == type_in(all.take(i as int)),
        decreases list.len() - i,
    {
        proof {
            assert(all.take(i + 1).drop_last() =~= all.take(i as int));
            assert(all.take(i + 1).last() == list@[i as int]@);
        }
        if let Some(value) = header_line(list[i].as_str(), "content-disposition") {
            if let Some(v) = last_param(value.as_str(), "name") {
                name = Some(v);
            }
            if let Some(v) = last_param(value.as_str(), "filename") {
                filename = Some(v);
            }
        }
        if let Some(value) = header_line(list[i].as_str(), "content-type") {
            content_type = Some(value);
        }
        i += 1;
    }
    assert(all.take(all.len() as int) =~= all);
    match name {
        Some(name) => Some(MultipartPart { name, filename, content_type, data }),
        None => None,
    }
}

/// What was read behind a boundary: a part comes with its headers, its data, and the
/// place behind the next boundary.
enum Read {
    Closed,
    Broken,
    Part(Vec<u8>, Vec<u8>, usize),
}

/// Reads what follows a boundary.
fn read_section(body: &Vec<u8>, delimiter: &Vec<u8>, pos: usize) -> (r: Read)
    requires
        pos <= body@.len(),
    ensures
        match r {
            Read::Closed => section(body@.skip(pos as int), delimiter@) is Closed,
            Read::Broken => section(body@.skip(pos as int), delimiter@) is Broken,
            Read::Part(head, data, next) => pos < next <= body@.len() && section(
                body@.skip(pos as int),
                delimiter@,
            ) == Section::Part((head@, data@), body@.skip(next as int)),
        },
{
    let total: usize = body.len();
    let two_dashes: Vec<u8> = vec![45u8, 45u8];
    let line_end: Vec<u8> = vec![13u8, 10u8];
    let empty_line: Vec<u8> = vec![13u8, 10u8, 13u8, 10u8];
    let ghost b = body@.skip(pos as int);
    proof {
        assert(two_dashes@ =~= dashes());
        assert(line_end@ =~= crlf());
        assert(empty_line@ =~= headers_end());
        if pos + 2 <= body.len() {
            assert(b.subrange(0, 2) =~= body@.subrange(pos as int, pos + 2));
        }
    }
    if is_at(body, &two_dashes, pos) {
        return Read::Closed;
    }
    let start: usize = if is_at(body, &line_end, pos) {
        pos + 2
    } else {
        pos
    };
    let ghost p = body@.skip(start as int);
    assert(p =~= behind_line(b));
    let h: usize = match find(body, &empty_line, start) {
        Some(h) => h,
        None => {
            return Read::Broken;
        },
    };
    assert(start + h + 4 <= total);
    let data_start: usize = start + h + 4;
    let ghost d = body@.skip(data_start as int);
    assert(d =~= p.skip(h + 4));
    let n: usize = match find(body, delimiter, data_start) {
        Some(n) => n,
        None => {
            return Read::Broken;
        },
    };
    assert(data_start + n + delimiter@.len() <= total);
    let data_end: usize = if n >= 2 {
        data_start + (n - 2)
    } else {
        data_start
    };
    let head: Vec<u8> = bytes_between(body, start, start + h);
    let data: Vec<u8> = bytes_between(body, data_start, data_end);
    let next: usize = data_start + n + delimiter.len();
    proof {
        assert(head@ =~= p.take(h as int));
        assert(data@ =~= data_before(d, n as int));
        assert(body@.skip(next as int) =~= d.skip(n + delimiter@.len()));
    }
    Read::Part(head, data, next)
}

/// A part that cannot be made leaves no parts.
proof fn lemma_bad_part(done: Seq<RawPart>, rest: Seq<RawPart>)
    requires
        parts_of(done) is None,
    ensures
        parts_of(done + rest) is None,
    decreases rest.len(),
{
    if rest.len() == 0 {
        assert(done + rest =~= done);
    } else {
        lemma_bad_part(done, rest.drop_last());
        assert((done + rest).drop_last() =~= done + rest.drop_last());
    }
}

/// Whether a result is the parts of a body, or the error that it is malformed.
pub open spec fn is_parsed(
    r: Result<Vec<MultipartPart>, HttpError>,
    want: Option<Seq<PartView>>,
) -> bool {
    match want {
        Some(parts) => r matches Ok(list) && part_views(list@) == parts,
        None => r matches Err(e) && e@ == (HttpErrorView {
            status: 400,
            message: "Malformed multipart body"@,
        }),
    }
}

/// The parts of a body, by the boundary that separates them.
pub fn parse_multipart(body: &Vec<u8>, boundary: &str) -> (r: Result<
    Vec<MultipartPart>,
    HttpError,
>)
    ensures
        is_parsed(r, multipart_of(body@, boundary@)),
{
    let delimiter: Vec<u8> = "--".to_owned().concat(boundary).as_str().as_bytes_vec();
    assert(body@.skip(0) =~= body@);
    let total: usize = body.len();
    let mut pos: usize = match find(body, &delimiter, 0) {
        Some(k) => {
            assert(k + delimiter@.len() <= total);
            k + delimiter.len()
        },
        None => {
            return Err(HttpError::bad_request("Malformed multipart body"));
        },
    };
    let mut parts: Vec<MultipartPart> = Vec::new();
    let ghost mut done: Seq<RawPart> = Seq::empty();
    let ghost whole = raw_parts(body@.skip(pos as int), delimiter@);
    proof {
        if let Some(rest) = whole {
            assert(done + rest =~= rest);
        }
        assert(part_views(parts@) =~= Seq::empty());
    }
    loop
        invariant
            pos <= body.len(),
            delimiter@ == delimiter_of(boundary@),
            multipart_of(body@, boundary@) == (match whole {
                Some(raw) => parts_of(raw),
                None => None,
            }),
            whole == (match raw_parts(body@.skip(pos as int), delimiter@) {
                Some(rest) => Some(done + rest),
                None => None,
            }),
            parts_of(done) == Some(part_views(parts@)),
        decreases body.len() - pos,
    {
        match read_section(body, &delimiter, pos) {
            Read::Closed => {
                assert(done + Seq::<RawPart>::empty() =~= done);
                return Ok(parts);
            },
            Read::Broken => {
                return Err(HttpError::bad_request("Malformed multipart body"));
            },
            Read::Part(head, data, next) => {
                let list: Vec<String> = lines_text(text_from_utf8_lossy(&head).as_str());
                let ghost raw: RawPart = (head@, data@);
                let ghost after = done.push(raw);
                proof {
                    assert(after.drop_last() =~= done);
                    assert(after.last() == raw);
                    if let Some(rest) = raw_parts(body@.skip(next as int), delimiter@) {
                        assert(done + (seq![raw] + rest) =~= after + rest);
                    }
                }
                match parse_part(&list, data) {
                    Some(part) => {
                        let ghost before = part_views(parts@);
                        parts.push(part);
                        assert(part_views(parts@) =~= before.push(part@));
                    },
                    None => {
                        proof {
                            if let Some(rest) = raw_parts(body@.skip(next as int), delimiter@) {
                                lemma_bad_part(after, rest);
                            }
                        }
                        return Err(HttpError::bad_request("Malformed multipart body"));
                    },
                }
                proof {
                    done = after;
                }
                pos = next;
            },
        }
    }
}

impl Request {
    /// The parts of a form that carries files.
    pub fn multipart(&self) -> (r: Result<Vec<MultipartPart>, HttpError>)
        requires
            self.wf(),
        ensures
            match self.header_of("content-type"@) {
                None => r matches Err(e) && e@ == (HttpErrorView {
                    status: 400,
                    message: "Expected multipart/form-data"@,
                }),
                Some(t) => match boundary_of(t) {
                    None => r matches Err(e) && e@ == (HttpErrorView {
                        status: 400,
                        message: "Missing multipart boundary"@,
                    }),
                    Some(boundary) => is_parsed(r, multipart_of(self.body@, boundary)),
                },
            },
    {
        match self.header("content-type") {
            None => Err(HttpError::bad_request("Expected multipart/form-data")),
            Some(t) => match multipart_boundary(t) {
                None => Err(HttpError::bad_request("Missing multipart boundary")),
                Some(boundary) => parse_multipart(self.bytes(), boundary.as_str()),
            },
        }
    }
}

/// The bytes of parts, from behind the boundary before the first of them.
pub open spec fn assembled(raw: Seq<RawPart>, delimiter: Seq<u8>) -> Seq<u8>
    decreases raw.len(),
{
    if raw.len() == 0 {
        dashes()
    } else {
        crlf() + raw[0].0 + headers_end() + raw[0].1 + crlf() + delimiter + assembled(
            raw.skip(1),
            delimiter,
        )
    }
}

/// Whether the headers and the data of a part cannot be taken for what ends them.
pub open spec fn can_be_told(raw: RawPart, delimiter: Seq<u8>) -> bool {
    &&& first_at(raw.0 + headers_end(), headers_end()) == Some(raw.0.len() as int)
    &&& first_at(raw.1 + crlf() + delimiter, delimiter) == Some(raw.1.len() as int + 2)
}

/// The first place stays the first however the bytes go on.
proof fn lemma_first_at_extends(b: Seq<u8>, needle: Seq<u8>, more: Seq<u8>)
    requires
        first_at(b, needle) == Some(b.len() - needle.len()),
    ensures
        first_at(b + more, needle) == first_at(b, needle),
{
    lemma_first_at(b, needle);
    let k = b.len() - needle.len();
    let c = b + more;
    assert(c.subrange(k, k + needle.len()) =~= b.subrange(k, k + needle.len()));
    assert forall|j: int| 0 <= j < k implies !#[trigger] stands_at(c, needle, j) by {
        assert(c.subrange(j, j + needle.len()) =~= b.subrange(j, j + needle.len()));
        assert(!stands_at(b, needle, j));
    }
    lemma_first_at_is(c, needle, k);
}

/// What parts are put together from is what is read of them.
pub proof fn law_parts_are_read_as_written(raw: Seq<RawPart>, delimiter: Seq<u8>)
    requires
        forall|i: int| 0 <= i < raw.len() ==> can_be_told(#[trigger] raw[i], delimiter),
    ensures
        raw_parts(assembled(raw, delimiter), delimiter) == Some(raw),
    decreases raw.len(),
{
    let b = assembled(raw, delimiter);
    if raw.len() == 0 {
        assert(b.subrange(0, 2) =~= dashes());
        assert(raw =~= Seq::empty());
    } else {
        let (head, data) = raw[0];
        let rest = raw.skip(1);
        let tail = assembled(rest, delimiter);
        assert(can_be_told(raw[0], delimiter));
        assert forall|i: int| 0 <= i < rest.len() implies can_be_told(
            #[trigger] rest[i],
            delimiter,
        ) by {
            assert(rest[i] == raw[i + 1]);
        }
        law_parts_are_read_as_written(rest, delimiter);
        assert(b.subrange(0, 2) =~= crlf());
        assert(b[0] == 13u8);
        assert(dashes()[0] == 45u8);
        assert(!stands_at(b, dashes(), 0)) by {
            if b.subrange(0, 2) == dashes() {
                assert(b.subrange(0, 2)[0] == dashes()[0]);
            }
        }
        let p = b.skip(2);
        let first = head + headers_end();
        let more = data + crlf() + delimiter + tail;
        assert(p =~= first + more);
        lemma_first_at_extends(first, headers_end(), more);
        let h = head.len() as int;
        let d = p.skip(h + 4);
        let second = data + crlf() + delimiter;
        assert(d =~= second + tail);
        lemma_first_at_extends(second, delimiter, tail);
        let n = data.len() as int + 2;
        assert(d.skip(n + delimiter.len()) =~= tail);
        assert(p.take(h) =~= head);
        assert(data_before(d, n) =~= data);
        assert(raw =~= seq![(head, data)] + rest);
    }
}

/// A form that is put together from parts is read as what its parts make.
pub proof fn law_forms_are_read_as_written(raw: Seq<RawPart>, boundary: Seq<char>)
    requires
        forall|i: int|
            0 <= i < raw.len() ==> can_be_told(#[trigger] raw[i], delimiter_of(boundary)),
    ensures
        multipart_of(
            delimiter_of(boundary) + assembled(raw, delimiter_of(boundary)),
            boundary,
        ) == parts_of(raw),
{
    let delimiter = delimiter_of(boundary);
    let body = delimiter + assembled(raw, delimiter);
    assert(body.subrange(0, delimiter.len() as int) =~= delimiter);
    lemma_first_at_is(body, delimiter, 0);
    assert(body.skip(delimiter.len() as int) =~= assembled(raw, delimiter));
    law_parts_are_read_as_written(raw, delimiter);
}

/// The headers of a part are read as the text that they were written as.
pub proof fn law_part_headers_are_read_as_written(head: Seq<char>, data: Seq<u8>)
    ensures
        part_of_raw((encode_utf8(head), data)) == part_of(lines(head), data),
{
    law_text_is_read_back(head);
}

/// Where a body is read there are as many parts as sections. Each is made of its own
/// section, and has the data of that section, also where it is empty. A body is read
/// exactly where its sections are well formed and each of them has a name.
pub proof fn law_parts_are_those_of_the_sections(raw: Seq<RawPart>)
    ensures
        parts_of(raw) is Some <==> forall|i: int|
            0 <= i < raw.len() ==> part_of_raw(#[trigger] raw[i]) is Some,
        parts_of(raw) matches Some(parts) ==> {
            &&& parts.len() == raw.len()
            &&& forall|i: int|
                0 <= i < raw.len() ==> part_of_raw(raw[i]) == Some(#[trigger] parts[i])
                    && parts[i].data == raw[i].1
        },
    decreases raw.len(),
{
    if raw.len() > 0 {
        let d = raw.drop_last();
        law_parts_are_those_of_the_sections(d);
        assert(raw[raw.len() - 1] == raw.last());
        assert forall|i: int| 0 <= i < d.len() implies #[trigger] d[i] == raw[i] by {}
        if parts_of(d) is Some && part_of_raw(raw.last()) is Some {
            assert forall|i: int| 0 <= i < raw.len() implies part_of_raw(#[trigger] raw[i]) is Some by {
                if i < d.len() {
                    assert(part_of_raw(d[i]) is Some);
                }
            }
            let parts = parts_of(raw)->0;
            assert forall|i: int| 0 <= i < raw.len() implies part_of_raw(raw[i]) == Some(
                #[trigger] parts[i],
            ) && parts[i].data == raw[i].1 by {
                if i < d.len() {
                    assert(parts[i] == parts_of(d)->0[i]);
                    assert(part_of_raw(d[i]) == Some(parts_of(d)->0[i]));
                }
            }
        } else if parts_of(d) is None {
            let i = choose|i: int| 0 <= i < d.len() && part_of_raw(#[trigger] d[i]) is None;
            assert(part_of_raw(raw[i]) is None);
        }
    }
}

/// The sections of a form come back as so many parts with their data, however long or
/// short that is.
pub proof fn law_forms_keep_every_field(raw: Seq<RawPart>, boundary: Seq<char>)
    requires
        forall|i: int|
            0 <= i < raw.len() ==> can_be_told(#[trigger] raw[i], delimiter_of(boundary)),
    ensures
        multipart_of(
            delimiter_of(boundary) + assembled(raw, delimiter_of(boundary)),
            boundary,
        ) matches Some(parts) ==> parts.len() == raw.len() && forall|i: int|
            0 <= i < raw.len() ==> (#[trigger] parts[i]).data == raw[i].1,
{
    law_forms_are_read_as_written(raw, boundary);
    law_parts_are_those_of_the_sections(raw);
}

/// A text loses the quotes at its ends, and nothing else.
pub proof fn law_quotes_are_taken_off(before: Seq<char>, t: Seq<char>, after: Seq<char>)
    requires
        forall|i: int| 0 <= i < before.len() ==> #[trigger] before[i] == '"',
        forall|i: int| 0 <= i < after.len() ==> #[trigger] after[i] == '"',
        t.len() > 0 ==> t[0] != '"' && t.last() != '"',
    ensures
        unquoted(before + t + after) == t,
    decreases before.len() + after.len(),
{
    let s = before + t + after;
    if before.len() > 0 {
        assert(s[0] == before[0]);
        let d = before.skip(1);
        assert forall|i: int| 0 <= i < d.len() implies #[trigger] d[i] == '"' by {
            assert(d[i] == before[i + 1]);
        }
        assert(s.skip(1) =~= d + t + after);
        law_quotes_are_taken_off(d, t, after);
    } else if after.len() > 0 {
        let d = after.drop_last();
        assert forall|i: int| 0 <= i < d.len() implies #[trigger] d[i] == '"' by {
            assert(d[i] == after[i]);
        }
        assert(s.last() == after[after.len() - 1]);
        law_quotes_are_taken_off(before, t, d);
        if t.len() > 0 {
            assert(s[0] == t[0]);
            assert(s.drop_last() =~= before + t + d);
        } else {
            assert(s =~= after);
            assert(s[0] == '"');
            let e = after.skip(1);
            assert forall|i: int| 0 <= i < e.len() implies #[trigger] e[i] == '"' by {
                assert(e[i] == after[i + 1]);
            }
            assert(s.skip(1) =~= before + t + e);
            law_quotes_are_taken_off(before, t, e);
        }
    } else {
        assert(s =~= t);
    }
}

/// A text in quotes that has none of its own.
proof fn lemma_quoted(t: Seq<char>)
    requires
        !t.contains('"'),
    ensures
        unquoted(trim(seq!['"'] + t + seq!['"'])) == t,
{
    let q = seq!['"'];
    let s = q + t + q;
    let e = Seq::<char>::empty();
    assert(s[0] == '"' && s.last() == '"');
    crate::text::law_trim_takes_the_ends_off(e, s, e);
    assert(e + s + e =~= s);
    if t.len() > 0 {
        assert(t.contains(t[0]));
        assert(t.contains(t.last()));
    }
    law_quotes_are_taken_off(q, t, q);
}

/// Whether a text can be the value of a parameter as it is.
pub open spec fn is_plain_value(s: Seq<char>) -> bool {
    !s.contains('"') && !s.contains(';')
}

/// A parameter behind others, with its value in quotes, is the one that is found.
proof fn lemma_param_pushed(params: Seq<Seq<char>>, name: Seq<char>, v: Seq<char>, key: Seq<char>)
    requires
        name.len() > 0,
        forall|i: int| 0 <= i < name.len() ==> 'a' <= #[trigger] name[i] <= 'z',
        !v.contains('"'),
    ensures
        param_in(params.push(seq![' '] + name + seq!['=', '"'] + v + seq!['"']), key) == (if name
            == key {
            Some(v)
        } else {
            param_in(params, key)
        }),
{
    let k = seq![' '] + name;
    let q = seq!['"'] + v + seq!['"'];
    let p = seq![' '] + name + seq!['=', '"'] + v + seq!['"'];
    assert(p =~= k + seq!['='] + q);
    assert(!k.contains('=')) by {
        assert forall|i: int| 0 <= i < k.len() implies k[i] != '=' by {
            if i > 0 {
                assert(k[i] == name[i - 1]);
            }
        }
    }
    crate::text::law_split_at_each_separator(k, q, '=');
    let e = Seq::<char>::empty();
    assert('a' <= name[0] <= 'z' && 'a' <= name[name.len() - 1] <= 'z');
    crate::text::law_trim_takes_the_ends_off(seq![' '], name, e);
    assert(seq![' '] + name + e =~= k);
    assert(lower(name) =~= name);
    lemma_quoted(v);
    assert(params.push(p).drop_last() =~= params);
}

/// What a text is made of that has neither of two characters.
proof fn lemma_disposition(list: Seq<Seq<char>>, value: Seq<char>, key: Seq<char>)
    requires
        value.len() > 0,
        !crate::text::is_space(value[0]),
        !crate::text::is_space(value.last()),
    ensures
        ({
            let line = "Content-Disposition: "@ + value;
            &&& disposition_in(list.push(line), key) == (match param_in(split(value, ';'), key) {
                Some(v) => Some(v),
                None => disposition_in(list, key),
            })
            &&& type_in(list.push(line)) == type_in(list)
        }),
{
    reveal_strlit("Content-Disposition: ");
    reveal_strlit("Content-Disposition");
    reveal_strlit("content-disposition");
    reveal_strlit("content-type");
    let line = "Content-Disposition: "@ + value;
    let head = "Content-Disposition"@;
    assert(!head.contains(':'));
    assert(line =~= head + seq![':'] + (seq![' '] + value));
    crate::text::law_split_at_each_separator(head, seq![' '] + value, ':');
    let e = Seq::<char>::empty();
    crate::text::law_trim_takes_the_ends_off(seq![' '], value, e);
    assert(seq![' '] + value + e =~= seq![' '] + value);
    assert(lower(head) =~= lower("content-disposition"@));
    assert(lower(head).len() != lower("content-type"@).len());
    assert(list.push(line).drop_last() =~= list);
}

/// A line that tells a content type.
proof fn lemma_type(list: Seq<Seq<char>>, value: Seq<char>, key: Seq<char>)
    requires
        value.len() > 0,
        !crate::text::is_space(value[0]),
        !crate::text::is_space(value.last()),
    ensures
        ({
            let line = "Content-Type: "@ + value;
            &&& type_in(list.push(line)) == Some(value)
            &&& disposition_in(list.push(line), key) == disposition_in(list, key)
        }),
{
    reveal_strlit("Content-Type: ");
    reveal_strlit("Content-Type");
    reveal_strlit("content-disposition");
    reveal_strlit("content-type");
    let line = "Content-Type: "@ + value;
    let head = "Content-Type"@;
    assert(!head.contains(':'));
    assert(line =~= head + seq![':'] + (seq![' '] + value));
    crate::text::law_split_at_each_separator(head, seq![' '] + value, ':');
    let e = Seq::<char>::empty();
    crate::text::law_trim_takes_the_ends_off(seq![' '], value, e);
    assert(seq![' '] + value + e =~= seq![' '] + value);
    assert(lower(head) =~= lower("content-type"@));
    assert(lower(head).len() != lower("content-disposition"@).len());
    assert(list.push(line).drop_last() =~= list);
}

/// The disposition of a field, and of a file.
pub open spec fn field_line(name: Seq<char>) -> Seq<char> {
    "Content-Disposition: "@ + ("form-data; name=\""@ + name + "\""@)
}

/// The disposition of a file.
pub open spec fn file_line(name: Seq<char>, filename: Seq<char>) -> Seq<char> {
    "Content-Disposition: "@ + ("form-data; name=\""@ + name + "\"; filename=\""@ + filename
        + "\""@)
}

/// A field is read with the name that it was written with, and with all its data; it is no
/// file and has no type.
pub proof fn law_fields_are_read_as_written(name: Seq<char>, data: Seq<u8>)
    requires
        is_plain_value(name),
    ensures
        part_of(seq![field_line(name)], data) == Some(
            PartView { name, filename: None, content_type: None, data },
        ),
{
    reveal_strlit("form-data; name=\"");
    reveal_strlit("form-data");
    reveal_strlit("\"");
    reveal_strlit("name");
    reveal_strlit("filename");
    let value = "form-data; name=\""@ + name + "\""@;
    let none = Seq::<Seq<char>>::empty();
    let kind = "form-data"@;
    let p = seq![' '] + "name"@ + seq!['=', '"'] + name + seq!['"'];
    assert(!kind.contains(';'));
    assert(value =~= kind + seq![';'] + p);
    assert(!p.contains(';')) by {
        assert forall|i: int| 0 <= i < p.len() implies p[i] != ';' by {
            if 7 <= i < 7 + name.len() {
                assert(p[i] == name[i - 7]);
                assert(name.contains(name[i - 7]));
            }
        }
    }
    crate::text::law_split_at_each_separator(kind, p, ';');
    crate::text::law_split_at_each_separator(p, Seq::empty(), ';');
    assert(split(value, ';') =~= seq![kind].push(p));
    lemma_param_pushed(seq![kind], "name"@, name, "name"@);
    lemma_param_pushed(seq![kind], "name"@, name, "filename"@);
    lemma_no_param(kind, "filename"@);
    assert("name"@.len() != "filename"@.len());
    lemma_disposition(none, value, "name"@);
    lemma_disposition(none, value, "filename"@);
    assert(none.push(field_line(name)) =~= seq![field_line(name)]);
}

/// What has no equals sign is no parameter.
proof fn lemma_no_param(kind: Seq<char>, key: Seq<char>)
    requires
        !kind.contains('='),
    ensures
        param_in(seq![kind], key) is None,
{
    crate::text::law_split_at_each_separator(kind, Seq::empty(), '=');
    let one = seq![kind];
    assert(one.last() == kind);
    assert(one.drop_last() =~= Seq::<Seq<char>>::empty());
    assert(param_in(one.drop_last(), key) is None);
}

/// A file is read with the name, the name of the file and the type that it was written
/// with, and with all its data.
pub proof fn law_files_are_read_as_written(
    name: Seq<char>,
    filename: Seq<char>,
    kind: Seq<char>,
    data: Seq<u8>,
)
    requires
        is_plain_value(name),
        is_plain_value(filename),
        kind.len() > 0,
        !crate::text::is_space(kind[0]),
        !crate::text::is_space(kind.last()),
    ensures
        part_of(seq![file_line(name, filename), "Content-Type: "@ + kind], data) == Some(
            PartView { name, filename: Some(filename), content_type: Some(kind), data },
        ),
{
    reveal_strlit("form-data; name=\"");
    reveal_strlit("\"; filename=\"");
    reveal_strlit("form-data");
    reveal_strlit("\"");
    reveal_strlit("name");
    reveal_strlit("filename");
    let value = "form-data; name=\""@ + name + "\"; filename=\""@ + filename + "\""@;
    let none = Seq::<Seq<char>>::empty();
    let form = "form-data"@;
    let p = seq![' '] + "name"@ + seq!['=', '"'] + name + seq!['"'];
    let f = seq![' '] + "filename"@ + seq!['=', '"'] + filename + seq!['"'];
    assert(!form.contains(';'));
    assert(value =~= form + seq![';'] + (p + seq![';'] + f));
    assert(!p.contains(';')) by {
        assert forall|i: int| 0 <= i < p.len() implies p[i] != ';' by {
            if 7 <= i < 7 + name.len() {
                assert(p[i] == name[i - 7]);
                assert(name.contains(name[i - 7]));
            }
        }
    }
    assert(!f.contains(';')) by {
        assert forall|i: int| 0 <= i < f.len() implies f[i] != ';' by {
            if 11 <= i < 11 + filename.len() {
                assert(f[i] == filename[i - 11]);
                assert(filename.contains(filename[i - 11]));
            }
        }
    }
    crate::text::law_split_at_each_separator(form, p + seq![';'] + f, ';');
    crate::text::law_split_at_each_separator(p, f, ';');
    crate::text::law_split_at_each_separator(f, Seq::empty(), ';');
    assert(split(value, ';') =~= seq![form].push(p).push(f));
    assert("name"@.len() != "filename"@.len());
    lemma_param_pushed(seq![form], "name"@, name, "name"@);
    lemma_param_pushed(seq![form].push(p), "filename"@, filename, "name"@);
    lemma_param_pushed(seq![form].push(p), "filename"@, filename, "filename"@);
    let first = none.push(file_line(name, filename));
    lemma_disposition(none, value, "name"@);
    lemma_disposition(none, value, "filename"@);
    lemma_type(first, kind, "name"@);
    lemma_type(first, kind, "filename"@);
    assert(first.push("Content-Type: "@ + kind) =~= seq![
        file_line(name, filename),
        "Content-Type: "@ + kind,
    ]);
}

/// A content type of forms names its boundary, in quotes or without; others name none.
pub proof fn law_boundaries_are_read_as_written(b: Seq<char>, other: Seq<char>, more: Seq<char>)
    requires
        is_plain_value(b),
        b.len() > 0,
        !crate::text::is_space(b[0]),
        !crate::text::is_space(b.last()),
        !other.contains(';'),
        lower(trim(other)) != "multipart/form-data"@,
    ensures
        boundary_of("multipart/form-data; boundary="@ + b) == Some(b),
        boundary_of("multipart/form-data; boundary="@ + (seq!['"'] + b + seq!['"'])) == Some(b),
        boundary_of("multipart/form-data"@) is None,
        boundary_of(other + seq![';'] + more) is None,
{
    reveal_strlit("multipart/form-data; boundary=");
    reveal_strlit("multipart/form-data");
    reveal_strlit("boundary");
    let kind = "multipart/form-data"@;
    let e = Seq::<char>::empty();
    assert(!kind.contains(';'));
    crate::text::law_trim_takes_the_ends_off(e, kind, e);
    assert(e + kind + e =~= kind);
    assert(lower(kind) =~= kind);
    crate::text::law_split_at_each_separator(kind, e, ';');
    crate::text::law_split_at_each_separator(other, more, ';');
    let q = seq!['"'] + b + seq!['"'];
    lemma_quoted(b);
    crate::text::law_trim_takes_the_ends_off(e, b, e);
    assert(e + b + e =~= b);
    assert(b.contains(b[0]) && b.contains(b.last()));
    law_quotes_are_taken_off(e, b, e);
    lemma_boundary(b);
    assert(!q.contains(';')) by {
        assert forall|i: int| 0 <= i < q.len() implies q[i] != ';' by {
            if 1 <= i < 1 + b.len() {
                assert(q[i] == b[i - 1]);
                assert(b.contains(b[i - 1]));
            }
        }
    }
    lemma_boundary(q);
}

proof fn lemma_boundary(v: Seq<char>)
    requires
        !v.contains(';'),
    ensures
        boundary_of("multipart/form-data; boundary="@ + v) == Some(unquoted(trim(v))),
{
    reveal_strlit("multipart/form-data; boundary=");
    reveal_strlit("multipart/form-data");
    reveal_strlit("boundary");
    let kind = "multipart/form-data"@;
    let k = seq![' '] + "boundary"@;
    let p = k + seq!['='] + v;
    let e = Seq::<char>::empty();
    let whole = "multipart/form-data; boundary="@ + v;
    assert(!kind.contains(';'));
    assert(whole =~= kind + seq![';'] + p);
    assert(!p.contains(';')) by {
        assert forall|i: int| 0 <= i < p.len() implies p[i] != ';' by {
            if i >= 10 {
                assert(p[i] == v[i - 10]);
                assert(v.contains(v[i - 10]));
            }
        }
    }
    assert(!k.contains('='));
    crate::text::law_split_at_each_separator(kind, p, ';');
    crate::text::law_split_at_each_separator(p, e, ';');
    crate::text::law_split_at_each_separator(k, v, '=');
    crate::text::law_trim_takes_the_ends_off(e, kind, e);
    assert(e + kind + e =~= kind);
    crate::text::law_trim_takes_the_ends_off(seq![' '], "boundary"@, e);
    assert(seq![' '] + "boundary"@ + e =~= k);
    assert(split(p, ';')[0] == p);
}

/// A section begins on a new line with its headers, an empty line follows, then its data,
/// and a new line with the boundary; two more dashes end the form.
pub proof fn law_sections_have_their_shape(raw: RawPart, more: Seq<RawPart>, b: Seq<char>)
    ensures
        delimiter_of(b) == encode_utf8(seq!['-', '-'] + b),
        assembled(Seq::empty(), delimiter_of(b)) == seq![45u8, 45u8],
        assembled(seq![raw] + more, delimiter_of(b)) == seq![13u8, 10u8] + raw.0 + seq![
            13u8,
            10u8,
            13u8,
            10u8,
        ] + raw.1 + seq![13u8, 10u8] + delimiter_of(b) + assembled(more, delimiter_of(b)),
{
    reveal_strlit("--");
    assert("--"@ =~= seq!['-', '-']);
    assert((seq![raw] + more).skip(1) =~= more);
    assert((seq![raw] + more)[0] == raw);
}

/// A body in which the boundary stands nowhere is no form, and what is no form is answered
/// 400.
pub proof fn law_bodies_without_boundary_are_refused(
    body: Seq<u8>,
    b: Seq<char>,
    r: Result<Vec<MultipartPart>, HttpError>,
)
    requires
        is_parsed(r, multipart_of(body, b)),
        forall|k: int|
            0 <= k && k + delimiter_of(b).len() <= body.len() ==> #[trigger] body.subrange(
                k,
                k + delimiter_of(b).len(),
            ) != delimiter_of(b),
    ensures
        r matches Err(e) && e.status == 400 && e.message@ == "Malformed multipart body"@,
{
    if let Some(k) = first_at(body, delimiter_of(b)) {
        lemma_first_at(body, delimiter_of(b));
        assert(stands_at(body, delimiter_of(b), k));
    }
}

} // verus!
