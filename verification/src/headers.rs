//! The header map of a response, which is the one of the `http` crate.

use vstd::prelude::*;

use crate::text::{lower, views};

verus! {

/// `http::HeaderMap`, which holds the headers of a response.
#[verifier::external_type_specification]
#[verifier::external_body]
#[verifier::reject_recursive_types(T)]
pub struct ExHeaderMap<T>(hyper::HeaderMap<T>);

/// `http::HeaderValue`, of which a header map is made.
#[verifier::external_type_specification]
#[verifier::external_body]
pub struct ExHeaderValue(hyper::header::HeaderValue);

/// What a header map holds: for each name, in lower case, its values in order, each
/// read as UTF-8.
pub uninterp spec fn header_contents(map: hyper::HeaderMap<hyper::header::HeaderValue>) -> Map<
    Seq<char>,
    Seq<Seq<char>>,
>;

/// The characters of a header name.
pub open spec fn is_name_char(c: char) -> bool {
    ||| 'a' <= c <= 'z'
    ||| 'A' <= c <= 'Z'
    ||| '0' <= c <= '9'
    ||| seq!['!', '#', '$', '%', '&', '\'', '*', '+', '-', '.', '^', '_', '`', '|', '~'].contains(
        c,
    )
}

/// Whether a text can be a header name.
pub open spec fn is_header_name(s: Seq<char>) -> bool {
    0 < s.len() <= 65535 && forall|i: int| 0 <= i < s.len() ==> is_name_char(#[trigger] s[i])
}

/// Whether a text can be a header value: no control character but the tab.
pub open spec fn is_header_value(s: Seq<char>) -> bool {
    forall|i: int|
        0 <= i < s.len() ==> (#[trigger] s[i]) as u32 >= 32 && s[i] as u32 != 127 || s[i] == '\t'
}

/// The contents of a map without headers.
pub open spec fn no_headers() -> Map<Seq<char>, Seq<Seq<char>>> {
    Map::empty()
}

/// Whether a map has so few names that another one always finds room.
pub open spec fn few(m: Map<Seq<char>, Seq<Seq<char>>>) -> bool {
    m.dom().finite() && m.dom().len() < 6000
}

/// The map with a header in the place of those of the same name, where name and value
/// are valid.
pub open spec fn with_header(
    m: Map<Seq<char>, Seq<Seq<char>>>,
    name: Seq<char>,
    value: Seq<char>,
) -> Map<Seq<char>, Seq<Seq<char>>> {
    if is_header_name(name) && is_header_value(value) {
        m.insert(lower(name), seq![value])
    } else {
        m
    }
}

/// The values of a name.
pub open spec fn values_of(m: Map<Seq<char>, Seq<Seq<char>>>, name: Seq<char>) -> Seq<Seq<char>> {
    if m.contains_key(lower(name)) {
        m[lower(name)]
    } else {
        Seq::empty()
    }
}

/// The map with one more header, where name and value are valid.
pub open spec fn with_added(
    m: Map<Seq<char>, Seq<Seq<char>>>,
    name: Seq<char>,
    value: Seq<char>,
) -> Map<Seq<char>, Seq<Seq<char>>> {
    if is_header_name(name) && is_header_value(value) {
        m.insert(lower(name), values_of(m, name).push(value))
    } else {
        m
    }
}

/// `HeaderMap::new` makes a map without headers.
#[verifier::external_body]
pub(crate) fn new_headers() -> (r: hyper::HeaderMap<hyper::header::HeaderValue>)
    ensures
        header_contents(r) == no_headers(),
{
    hyper::HeaderMap::new()
}

/// `HeaderName::from_bytes` accepts the names that consist of token characters, up to
/// 65535 of them.
#[verifier::external_body]
pub(crate) fn valid_header_name(name: &str) -> (r: bool)
    ensures
        r == is_header_name(name@),
{
    hyper::header::HeaderName::from_bytes(name.as_bytes()).is_ok()
}

/// `HeaderValue::from_str` accepts the values without control characters but the tab.
#[verifier::external_body]
pub(crate) fn valid_header_value(value: &str) -> (r: bool)
    ensures
        r == is_header_value(value@),
{
    hyper::header::HeaderValue::from_str(value).is_ok()
}

/// `HeaderMap::try_insert` puts a value in the place of those of the same name, unless
/// the map has no room for another name. It has room while it has few names.
#[verifier::external_body]
pub(crate) fn try_insert_header(
    map: &mut hyper::HeaderMap<hyper::header::HeaderValue>,
    name: &str,
    value: &str,
) -> (stored: bool)
    requires
        is_header_name(name@),
        is_header_value(value@),
    ensures
        few(header_contents(*old(map))) ==> stored,
        header_contents(*final(map)) == (if stored {
            header_contents(*old(map)).insert(lower(name@), seq![value@])
        } else {
            header_contents(*old(map))
        }),
{
    let name = hyper::header::HeaderName::from_bytes(name.as_bytes()).unwrap();
    let value = hyper::header::HeaderValue::from_str(value).unwrap();
    map.try_insert(name, value).is_ok()
}

/// `HeaderMap::try_append` puts a value after those of the same name, unless the map
/// has no room for another name. It has room while it has few names.
#[verifier::external_body]
pub(crate) fn try_append_header(
    map: &mut hyper::HeaderMap<hyper::header::HeaderValue>,
    name: &str,
    value: &str,
) -> (stored: bool)
    requires
        is_header_name(name@),
        is_header_value(value@),
    ensures
        few(header_contents(*old(map))) ==> stored,
        header_contents(*final(map)) == (if stored {
            header_contents(*old(map)).insert(
                lower(name@),
                values_of(header_contents(*old(map)), name@).push(value@),
            )
        } else {
            header_contents(*old(map))
        }),
{
    let name = hyper::header::HeaderName::from_bytes(name.as_bytes()).unwrap();
    let value = hyper::header::HeaderValue::from_str(value).unwrap();
    map.try_append(name, value).is_ok()
}

/// `HeaderMap::get_all` gives the values of a name, whatever the case of its letters.
#[verifier::external_body]
pub(crate) fn get_header_values(
    map: &hyper::HeaderMap<hyper::header::HeaderValue>,
    name: &str,
) -> (r: Vec<String>)
    requires
        is_header_name(name@),
    ensures
        views(r@) == values_of(header_contents(*map), name@),
{
    map.get_all(name).iter().map(|v| String::from_utf8_lossy(v.as_bytes()).into_owned()).collect()
}

/// A header is found under its name, whatever the case of its letters: setting it puts
/// its value in the place of all others, adding it puts it behind them, and both leave
/// other headers alone. What cannot be a header changes nothing.
pub proof fn law_headers_are_found_by_their_names(
    m: Map<Seq<char>, Seq<Seq<char>>>,
    name: Seq<char>,
    value: Seq<char>,
    other: Seq<char>,
)
    ensures
        is_header_name(name) && is_header_value(value) && lower(other) == lower(name) ==> values_of(
            with_header(m, name, value),
            other,
        ) == seq![value] && values_of(with_added(m, name, value), other) == values_of(
            m,
            other,
        ).push(value),
        lower(other) != lower(name) ==> values_of(with_header(m, name, value), other) == values_of(
            m,
            other,
        ) && values_of(with_added(m, name, value), other) == values_of(m, other),
        !is_header_name(name) || !is_header_value(value) ==> with_header(m, name, value) == m
            && with_added(m, name, value) == m,
        values_of(no_headers(), name) == Seq::<Seq<char>>::empty(),
{
}

/// Names of headers are made of letters, digits and a few marks, and values have no
/// control character but the tab.
pub proof fn law_line_ends_are_in_no_header(s: Seq<char>)
    ensures
        s.len() == 0 ==> !is_header_name(s),
        s.contains('\n') || s.contains('\r') || s.contains('\0') ==> !is_header_value(s),
        s.contains('\n') || s.contains('\r') || s.contains(' ') || s.contains(':') || s.contains(
            ',',
        ) ==> !is_header_name(s),
        (forall|i: int| 0 <= i < s.len() ==> 32 <= (#[trigger] s[i]) as u32 && (s[i] as u32) < 127)
            ==> is_header_value(s),
{
    let marks = seq!['!', '#', '$', '%', '&', '\'', '*', '+', '-', '.', '^', '_', '`', '|', '~'];
    assert forall|c: char|
        c == '\n' || c == '\r' || c == ' ' || c == ':' || c == ',' || c
            == '\0' implies !#[trigger] is_name_char(c) by {
        assert forall|i: int| 0 <= i < marks.len() implies marks[i] != c by {}
        assert(!marks.contains(c));
    }
    if is_header_value(s) {
        assert forall|i: int| 0 <= i < s.len() implies s[i] != '\n' && s[i] != '\r' && s[i]
            != '\0' by {
            let c = s[i];
            assert(c as u32 >= 32 && c as u32 != 127 || c == '\t');
        }
    }
    if is_header_name(s) {
        assert forall|i: int| 0 <= i < s.len() implies s[i] != '\n' && s[i] != '\r' && s[i] != ' '
            && s[i] != ':' && s[i] != ',' by {
            assert(is_name_char(s[i]));
        }
    }
}

/// Letters, digits, dashes and underscores make names of headers, in any order.
pub proof fn law_names_of_headers(s: Seq<char>)
    requires
        0 < s.len() <= 65535,
        forall|i: int|
            0 <= i < s.len() ==> 'a' <= #[trigger] s[i] <= 'z' || 'A' <= s[i] <= 'Z' || '0' <= s[i]
                <= '9' || s[i] == '-' || s[i] == '_',
    ensures
        is_header_name(s),
{
    let marks = seq!['!', '#', '$', '%', '&', '\'', '*', '+', '-', '.', '^', '_', '`', '|', '~'];
    assert(marks[8] == '-' && marks[11] == '_');
    assert(marks.contains('-') && marks.contains('_'));
}

} // verus!
