//! Text operations over sequences of characters.
//!
//! Every function states its result over the view of a string, a `Seq<char>`.

use vstd::prelude::*;

verus! {

/// `String::push` appends one character to the string.
pub assume_specification[ String::push ](s: &mut String, c: char)
    ensures
        final(s)@ == old(s)@.push(c),
;

/// The views of a sequence of strings.
pub open spec fn views(v: Seq<String>) -> Seq<Seq<char>> {
    Seq::new(v.len(), |i: int| v[i]@)
}

/// The views of a sequence of pairs of strings.
pub open spec fn pairs(v: Seq<(String, String)>) -> Seq<(Seq<char>, Seq<char>)> {
    Seq::new(v.len(), |i: int| (v[i].0@, v[i].1@))
}

/// The view of an optional string.
pub open spec fn opt(v: Option<String>) -> Option<Seq<char>> {
    match v {
        Some(s) => Some(s@),
        None => None,
    }
}

/// The characters with the Unicode property `White_Space`.
pub open spec fn is_space(c: char) -> bool {
    let n = c as u32;
    ||| 0x9 <= n <= 0xd
    ||| n == 0x20
    ||| n == 0x85
    ||| n == 0xa0
    ||| n == 0x1680
    ||| 0x2000 <= n <= 0x200a
    ||| n == 0x2028
    ||| n == 0x2029
    ||| n == 0x202f
    ||| n == 0x205f
    ||| n == 0x3000
}

/// An ASCII upper case letter in lower case; every other character as it is.
pub open spec fn lower_char(c: char) -> char {
    if 'A' <= c <= 'Z' {
        (c as u8 + 32) as char
    } else {
        c
    }
}

/// An ASCII lower case letter in upper case; every other character as it is.
pub open spec fn upper_char(c: char) -> char {
    if 'a' <= c <= 'z' {
        (c as u8 - 32) as char
    } else {
        c
    }
}

/// `s` with its ASCII letters in lower case.
pub open spec fn lower(s: Seq<char>) -> Seq<char> {
    Seq::new(s.len(), |i: int| lower_char(s[i]))
}

/// `s` with its ASCII letters in upper case.
pub open spec fn upper(s: Seq<char>) -> Seq<char> {
    Seq::new(s.len(), |i: int| upper_char(s[i]))
}

/// `s` without the white space at its start.
pub open spec fn trim_start(s: Seq<char>) -> Seq<char>
    decreases s.len(),
{
    if s.len() > 0 && is_space(s[0]) {
        trim_start(s.skip(1))
    } else {
        s
    }
}

/// `s` without the white space at its end.
pub open spec fn trim_end(s: Seq<char>) -> Seq<char>
    decreases s.len(),
{
    if s.len() > 0 && is_space(s.last()) {
        trim_end(s.drop_last())
    } else {
        s
    }
}

/// `s` without the white space at both its ends.
pub open spec fn trim(s: Seq<char>) -> Seq<char> {
    trim_end(trim_start(s))
}

/// The position of the first `c` in `s`, or the length of `s` if there is none.
pub open spec fn first_index(s: Seq<char>, c: char) -> int
    decreases s.len(),
{
    if s.len() == 0 || s[0] == c {
        0
    } else {
        1 + first_index(s.skip(1), c)
    }
}

/// The position of the last `c` in `s`, or -1 if there is none.
pub open spec fn last_index(s: Seq<char>, c: char) -> int
    decreases s.len(),
{
    if s.len() == 0 {
        -1
    } else if s.last() == c {
        s.len() - 1
    } else {
        last_index(s.drop_last(), c)
    }
}

/// The parts of `s` between the occurrences of `c`.
pub open spec fn split(s: Seq<char>, c: char) -> Seq<Seq<char>>
    decreases s.len(),
{
    let i = first_index(s, c);
    if 0 <= i < s.len() {
        seq![s.take(i)] + split(s.skip(i + 1), c)
    } else {
        seq![s]
    }
}

/// What stands before and after the first `c`.
pub open spec fn split_once(s: Seq<char>, c: char) -> Option<(Seq<char>, Seq<char>)> {
    let i = first_index(s, c);
    if i < s.len() {
        Some((s.take(i), s.skip(i + 1)))
    } else {
        None
    }
}

/// What stands before and after the last `c`.
pub open spec fn rsplit_once(s: Seq<char>, c: char) -> Option<(Seq<char>, Seq<char>)> {
    let i = last_index(s, c);
    if i >= 0 {
        Some((s.take(i), s.skip(i + 1)))
    } else {
        None
    }
}

/// The parts with `sep` between each two of them.
pub open spec fn join(parts: Seq<Seq<char>>, sep: Seq<char>) -> Seq<char>
    decreases parts.len(),
{
    if parts.len() == 0 {
        Seq::empty()
    } else if parts.len() == 1 {
        parts[0]
    } else {
        join(parts.drop_last(), sep) + sep + parts.last()
    }
}

/// The digit that stands for `d`, below ten.
pub open spec fn digit_char(d: nat) -> char {
    (48 + d) as u8 as char
}

/// `n` in decimal, without leading zeros.
pub open spec fn decimal(n: nat) -> Seq<char>
    decreases n,
{
    if n < 10 {
        seq![digit_char(n)]
    } else {
        decimal(n / 10).push(digit_char(n % 10))
    }
}

/// The digit that stands for `d`, below sixteen, in lower case.
pub open spec fn hex_char(d: nat) -> char {
    if d < 10 {
        (48 + d) as u8 as char
    } else {
        (87 + d) as u8 as char
    }
}

/// `n` in hexadecimal, without leading zeros.
pub open spec fn hexadecimal(n: nat) -> Seq<char>
    decreases n,
{
    if n < 16 {
        seq![hex_char(n)]
    } else {
        hexadecimal(n / 16).push(hex_char(n % 16))
    }
}

/// The two hexadecimal digits of a byte.
pub open spec fn hex_byte(b: u8) -> Seq<char> {
    seq![hex_char((b / 16) as nat), hex_char((b % 16) as nat)]
}

/// The bytes in hexadecimal, two digits each.
pub open spec fn hex_text(b: Seq<u8>) -> Seq<char>
    decreases b.len(),
{
    if b.len() == 0 {
        Seq::empty()
    } else {
        hex_text(b.drop_last()) + hex_byte(b.last())
    }
}

/// Bytes have two hexadecimal digits each.
pub proof fn lemma_hex_text_len(b: Seq<u8>)
    ensures
        hex_text(b).len() == 2 * b.len(),
    decreases b.len(),
{
    if b.len() > 0 {
        lemma_hex_text_len(b.drop_last());
    }
}

/// Whether every character is an ASCII digit.
pub open spec fn all_digits(s: Seq<char>) -> bool {
    forall|i: int| 0 <= i < s.len() ==> '0' <= #[trigger] s[i] <= '9'
}

/// The number that a sequence of decimal digits stands for.
pub open spec fn digits_value(s: Seq<char>) -> nat
    decreases s.len(),
{
    if s.len() == 0 {
        0
    } else {
        10 * digits_value(s.drop_last()) + (s.last() as nat - 48) as nat
    }
}

/// What is left of `s` once a leading plus sign is taken off.
pub open spec fn unsigned_digits(s: Seq<char>) -> Seq<char> {
    if s.len() > 0 && s[0] == '+' {
        s.skip(1)
    } else {
        s
    }
}

/// The unsigned number that `s` writes out in decimal, where it is at most `max`:
/// digits, at least one of them, with an optional plus sign before them.
pub open spec fn parsed(s: Seq<char>, max: nat) -> Option<nat> {
    let d = unsigned_digits(s);
    if d.len() > 0 && all_digits(d) && digits_value(d) <= max {
        Some(digits_value(d))
    } else {
        None
    }
}

/// Whether `a` comes before `b` in the order of their characters.
pub open spec fn before(a: Seq<char>, b: Seq<char>) -> bool
    decreases a.len(),
{
    if b.len() == 0 {
        false
    } else if a.len() == 0 {
        true
    } else if a[0] == b[0] {
        before(a.skip(1), b.skip(1))
    } else {
        a[0] < b[0]
    }
}

/// The characters of `s`.
pub fn chars(s: &str) -> (v: Vec<char>)
    ensures
        v@ == s@,
{
    let mut v: Vec<char> = Vec::new();
    for c in it: s.chars()
        invariant
            v@ == s@.take(it.index()),
            it.seq() == s@,
    {
        v.push(c);
        proof {
            assert(s@.take(it.index() + 1) =~= s@.take(it.index()).push(c));
        }
    }
    assert(s@.take(s@.len() as int) =~= s@);
    v
}

/// The string of the characters from `from` up to `to`.
pub fn piece(v: &Vec<char>, from: usize, to: usize) -> (s: String)
    requires
        from <= to <= v.len(),
    ensures
        s@ == v@.subrange(from as int, to as int),
{
    let mut s: String = String::new();
    let mut i: usize = from;
    while i < to
        invariant
            from <= i <= to <= v.len(),
            s@ == v@.subrange(from as int, i as int),
        decreases to - i,
    {
        s.push(v[i]);
        proof {
            assert(v@.subrange(from as int, i + 1) =~= v@.subrange(from as int, i as int).push(
                v@[i as int],
            ));
        }
        i += 1;
    }
    s
}

/// The string of the characters.
pub fn string(v: &Vec<char>) -> (s: String)
    ensures
        s@ == v@,
{
    let s: String = piece(v, 0, v.len());
    assert(v@.subrange(0, v@.len() as int) =~= v@);
    s
}

/// Whether two strings hold the same characters.
pub fn same(a: &str, b: &str) -> (r: bool)
    ensures
        r == (a@ == b@),
{
    let x: Vec<char> = chars(a);
    let y: Vec<char> = chars(b);
    if x.len() != y.len() {
        return false;
    }
    let mut i: usize = 0;
    while i < x.len()
        invariant
            i <= x.len(),
            x.len() == y.len(),
            x@ == a@,
            y@ == b@,
            x@.take(i as int) == y@.take(i as int),
        decreases x.len() - i,
    {
        if x[i] != y[i] {
            assert(a@[i as int] != b@[i as int]);
            return false;
        }
        assert(x@.take(i + 1) =~= x@.take(i as int).push(x@[i as int]));
        assert(y@.take(i + 1) =~= y@.take(i as int).push(y@[i as int]));
        i += 1;
    }
    assert(x@.take(x@.len() as int) =~= x@);
    assert(y@.take(y@.len() as int) =~= y@);
    true
}


/// Whether a character is white space.
pub fn space(c: char) -> (r: bool)
    ensures
        r == is_space(c),
{
    let n: u32 = c as u32;
    (0x9 <= n && n <= 0xd) || n == 0x20 || n == 0x85 || n == 0xa0 || n == 0x1680 || (0x2000 <= n
        && n <= 0x200a) || n == 0x2028 || n == 0x2029 || n == 0x202f || n == 0x205f || n == 0x3000
}

/// An ASCII letter in lower case.
pub fn to_lower_char(c: char) -> (r: char)
    ensures
        r == lower_char(c),
{
    if 'A' <= c && c <= 'Z' {
        (c as u8 + 32) as char
    } else {
        c
    }
}

/// An ASCII letter in upper case.
pub fn to_upper_char(c: char) -> (r: char)
    ensures
        r == upper_char(c),
{
    if 'a' <= c && c <= 'z' {
        (c as u8 - 32) as char
    } else {
        c
    }
}

/// The text with its ASCII letters in lower case.
pub fn to_lower(s: &str) -> (r: String)
    ensures
        r@ == lower(s@),
{
    let v: Vec<char> = chars(s);
    let mut r: String = String::new();
    let mut i: usize = 0;
    while i < v.len()
        invariant
            i <= v.len(),
            v@ == s@,
            r@ == lower(s@).take(i as int),
        decreases v.len() - i,
    {
        r.push(to_lower_char(v[i]));
        i += 1;
        assert(lower(s@).take(i as int) =~= lower(s@).take(i - 1).push(lower(s@)[i - 1]));
    }
    assert(lower(s@).take(v@.len() as int) =~= lower(s@));
    r
}

/// The text with its ASCII letters in upper case.
pub fn to_upper(s: &str) -> (r: String)
    ensures
        r@ == upper(s@),
{
    let v: Vec<char> = chars(s);
    let mut r: String = String::new();
    let mut i: usize = 0;
    while i < v.len()
        invariant
            i <= v.len(),
            v@ == s@,
            r@ == upper(s@).take(i as int),
        decreases v.len() - i,
    {
        r.push(to_upper_char(v[i]));
        i += 1;
        assert(upper(s@).take(i as int) =~= upper(s@).take(i - 1).push(upper(s@)[i - 1]));
    }
    assert(upper(s@).take(v@.len() as int) =~= upper(s@));
    r
}

/// Whether two texts are the same but for the case of their ASCII letters.
pub fn same_ignoring_case(a: &str, b: &str) -> (r: bool)
    ensures
        r == (lower(a@) == lower(b@)),
{
    let x: String = to_lower(a);
    let y: String = to_lower(b);
    same(x.as_str(), y.as_str())
}

/// The text without the white space at both its ends.
pub fn trimmed(s: &str) -> (r: String)
    ensures
        r@ == trim(s@),
{
    let v: Vec<char> = chars(s);
    let mut from: usize = 0;
    assert(v@.skip(0) =~= s@);
    while from < v.len() && space(v[from])
        invariant
            from <= v.len(),
            v@ == s@,
            trim_start(s@) == trim_start(v@.skip(from as int)),
        decreases v.len() - from,
    {
        proof {
            assert(v@.skip(from as int)[0] == v@[from as int]);
            assert(v@.skip(from as int).skip(1) =~= v@.skip(from + 1));
        }
        from += 1;
    }
    proof {
        assert(trim_start(v@.skip(from as int)) == v@.skip(from as int)) by {
            if from < v.len() {
                assert(v@.skip(from as int)[0] == v@[from as int]);
            }
        }
        assert(s@.skip(from as int) =~= v@.subrange(from as int, v@.len() as int));
    }
    let mut to: usize = v.len();
    while to > from && space(v[to - 1])
        invariant
            from <= to <= v.len(),
            trim_end(trim_start(s@)) == trim_end(v@.subrange(from as int, to as int)),
        decreases to,
    {
        proof {
            let w = v@.subrange(from as int, to as int);
            assert(w.last() == v@[to - 1]);
            assert(w.drop_last() =~= v@.subrange(from as int, to - 1));
        }
        to -= 1;
    }
    proof {
        let w = v@.subrange(from as int, to as int);
        assert(trim_end(w) == w) by {
            if to > from {
                assert(w.last() == v@[to - 1]);
            }
        }
    }
    piece(&v, from, to)
}

/// `first_index` is the position of an occurrence with none before it, or the length.
pub proof fn lemma_first_index(s: Seq<char>, c: char)
    ensures
        0 <= first_index(s, c) <= s.len(),
        first_index(s, c) < s.len() ==> s[first_index(s, c)] == c,
        forall|i: int| 0 <= i < first_index(s, c) ==> s[i] != c,
    decreases s.len(),
{
    if s.len() > 0 && s[0] != c {
        lemma_first_index(s.skip(1), c);
        assert forall|i: int| 0 <= i < first_index(s, c) implies s[i] != c by {
            if i > 0 {
                assert(s.skip(1)[i - 1] == s[i]);
            }
        }
    }
}

/// `first_index` is the only position of an occurrence with none before it.
pub proof fn lemma_first_index_is(s: Seq<char>, c: char, k: int)
    requires
        0 <= k <= s.len(),
        k < s.len() ==> s[k] == c,
        forall|i: int| 0 <= i < k ==> s[i] != c,
    ensures
        first_index(s, c) == k,
{
    lemma_first_index(s, c);
    let f = first_index(s, c);
    if f < k {
        assert(s[f] != c);
    }
}

/// `last_index` is the position of an occurrence with none after it, or -1.
pub proof fn lemma_last_index(s: Seq<char>, c: char)
    ensures
        -1 <= last_index(s, c) < s.len(),
        last_index(s, c) >= 0 ==> s[last_index(s, c)] == c,
        forall|i: int| last_index(s, c) < i < s.len() ==> s[i] != c,
    decreases s.len(),
{
    if s.len() > 0 && s.last() != c {
        lemma_last_index(s.drop_last(), c);
        assert forall|i: int| last_index(s, c) < i < s.len() implies s[i] != c by {
            if i < s.len() - 1 {
                assert(s.drop_last()[i] == s[i]);
            }
        }
    }
}

/// `last_index` is the only position of an occurrence with none after it.
pub proof fn lemma_last_index_is(s: Seq<char>, c: char, k: int)
    requires
        -1 <= k < s.len(),
        k >= 0 ==> s[k] == c,
        forall|i: int| k < i < s.len() ==> s[i] != c,
    ensures
        last_index(s, c) == k,
{
    lemma_last_index(s, c);
    let f = last_index(s, c);
    if f > k {
        assert(s[f] != c);
    }
}

/// The position of the first `c` at or after `from`, or the length.
pub fn find_char(v: &Vec<char>, c: char, from: usize) -> (k: usize)
    requires
        from <= v.len(),
    ensures
        k == from + first_index(v@.skip(from as int), c),
        from <= k <= v.len(),
{
    let mut i: usize = from;
    while i < v.len() && v[i] != c
        invariant
            from <= i <= v.len(),
            forall|j: int| from <= j < i ==> v@[j] != c,
        decreases v.len() - i,
    {
        i += 1;
    }
    proof {
        let w = v@.skip(from as int);
        assert forall|j: int| 0 <= j < i - from implies w[j] != c by {
            assert(w[j] == v@[from + j]);
        }
        lemma_first_index_is(w, c, i - from);
    }
    i
}

/// The parts between the occurrences of `c`.
pub fn split_text(s: &str, c: char) -> (r: Vec<String>)
    ensures
        views(r@) == split(s@, c),
        r.len() >= 1,
{
    let v: Vec<char> = chars(s);
    let mut r: Vec<String> = Vec::new();
    let mut from: usize = 0;
    let mut more: bool = true;
    assert(v@.skip(0) =~= v@);
    assert(views(r@) + split(v@, c) =~= split(v@, c));
    while more
        invariant
            from <= v.len(),
            v@ == s@,
            more ==> views(r@) + split(v@.skip(from as int), c) == split(s@, c),
            !more ==> views(r@) == split(s@, c) && r.len() >= 1,
        decreases v.len() - from + (if more { 1int } else { 0 }),
    {
        let k: usize = find_char(&v, c, from);
        let ghost w = v@.skip(from as int);
        let part: String = piece(&v, from, k);
        let ghost old_r = r@;
        r.push(part);
        proof {
            assert(views(r@) =~= views(old_r).push(part@));
        }
        if k < v.len() {
            proof {
                assert(part@ =~= w.take(k - from));
                assert(w.skip(k - from + 1) =~= v@.skip(k + 1));
                assert(views(old_r) + (seq![part@] + split(v@.skip(k + 1), c)) =~= views(r@)
                    + split(v@.skip(k + 1), c));
            }
            from = k + 1;
        } else {
            proof {
                assert(part@ =~= w);
                assert(views(old_r) + seq![part@] =~= views(r@));
            }
            more = false;
        }
    }
    r
}

/// What stands before and after the first `c`.
pub fn split_once_text(s: &str, c: char) -> (r: Option<(String, String)>)
    ensures
        match r {
            Some(p) => split_once(s@, c) == Some((p.0@, p.1@)),
            None => split_once(s@, c) is None,
        },
{
    let v: Vec<char> = chars(s);
    let k: usize = find_char(&v, c, 0);
    assert(v@.skip(0) =~= v@);
    if k < v.len() {
        let a: String = piece(&v, 0, k);
        let b: String = piece(&v, k + 1, v.len());
        assert(a@ =~= s@.take(k as int));
        assert(b@ =~= s@.skip(k + 1));
        Some((a, b))
    } else {
        None
    }
}

/// What stands before and after the last `c`.
pub fn rsplit_once_text(s: &str, c: char) -> (r: Option<(String, String)>)
    ensures
        match r {
            Some(p) => rsplit_once(s@, c) == Some((p.0@, p.1@)),
            None => rsplit_once(s@, c) is None,
        },
{
    let v: Vec<char> = chars(s);
    let mut i: usize = v.len();
    while i > 0 && v[i - 1] != c
        invariant
            i <= v.len(),
            forall|j: int| i <= j < v.len() ==> v@[j] != c,
        decreases i,
    {
        i -= 1;
    }
    proof {
        lemma_last_index_is(v@, c, i - 1);
    }
    if i > 0 {
        let a: String = piece(&v, 0, i - 1);
        let b: String = piece(&v, i, v.len());
        assert(a@ =~= s@.take(i - 1));
        assert(b@ =~= s@.skip(i as int));
        Some((a, b))
    } else {
        None
    }
}

/// The parts with `sep` between each two of them.
pub fn join_texts(parts: &Vec<String>, sep: &str) -> (r: String)
    ensures
        r@ == join(views(parts@), sep@),
{
    let mut r: String = String::new();
    let mut i: usize = 0;
    while i < parts.len()
        invariant
            i <= parts.len(),
            r@ == join(views(parts@).take(i as int), sep@),
        decreases parts.len() - i,
    {
        let ghost whole = views(parts@);
        if i > 0 {
            r.append(sep);
        }
        r.append(parts[i].as_str());
        proof {
            assert(whole.take(i + 1).drop_last() =~= whole.take(i as int));
            assert(whole.take(i + 1).last() == parts@[i as int]@);
            if i == 0 {
                assert(whole.take(0) =~= Seq::empty());
                assert(r@ =~= parts@[0]@);
            }
        }
        i += 1;
    }
    assert(views(parts@).take(parts@.len() as int) =~= views(parts@));
    r
}

/// Whether `s` starts with `p`.
pub fn starts_with(s: &str, p: &str) -> (r: bool)
    ensures
        r == p@.is_prefix_of(s@),
{
    let x: Vec<char> = chars(s);
    let y: Vec<char> = chars(p);
    if y.len() > x.len() {
        return false;
    }
    let mut i: usize = 0;
    while i < y.len()
        invariant
            i <= y.len() <= x.len(),
            x@ == s@,
            y@ == p@,
            forall|j: int| 0 <= j < i ==> x@[j] == y@[j],
        decreases y.len() - i,
    {
        if x[i] != y[i] {
            proof {
                assert(x@.subrange(0, y@.len() as int)[i as int] == x@[i as int]);
            }
            return false;
        }
        i += 1;
    }
    assert(p@ =~= s@.subrange(0, p@.len() as int));
    true
}

/// What follows `p` in `s`, where `s` starts with `p`.
pub fn after_prefix(s: &str, p: &str) -> (r: Option<String>)
    ensures
        match r {
            Some(rest) => p@.is_prefix_of(s@) && rest@ == s@.skip(p@.len() as int),
            None => !p@.is_prefix_of(s@),
        },
{
    if starts_with(s, p) {
        let v: Vec<char> = chars(s);
        let n: usize = chars(p).len();
        let rest: String = piece(&v, n, v.len());
        assert(rest@ =~= s@.skip(p@.len() as int));
        Some(rest)
    } else {
        None
    }
}

/// Whether a list of strings holds one with the characters of `s`.
pub fn contains_text(list: &Vec<String>, s: &str) -> (r: bool)
    ensures
        r == views(list@).contains(s@),
{
    let mut i: usize = 0;
    while i < list.len()
        invariant
            i <= list.len(),
            forall|j: int| 0 <= j < i ==> (#[trigger] list@[j])@ != s@,
        decreases list.len() - i,
    {
        if same(list[i].as_str(), s) {
            assert(views(list@)[i as int] == s@);
            return true;
        }
        i += 1;
    }
    assert forall|j: int| 0 <= j < list@.len() implies views(list@)[j] != s@ by {
        assert(list@[j]@ != s@);
    }
    false
}

/// A number in decimal.
pub fn to_decimal(n: u64) -> (r: String)
    ensures
        r@ == decimal(n as nat),
    decreases n,
{
    if n < 10 {
        let mut r: String = String::new();
        r.push((48u8 + n as u8) as char);
        assert(r@ =~= seq![digit_char(n as nat)]);
        r
    } else {
        let mut r: String = to_decimal(n / 10);
        r.push((48u8 + (n % 10) as u8) as char);
        r
    }
}

/// A wide number in decimal.
pub fn to_decimal_wide(n: u128) -> (r: String)
    ensures
        r@ == decimal(n as nat),
    decreases n,
{
    if n < 10 {
        let mut r: String = String::new();
        r.push((48u8 + n as u8) as char);
        assert(r@ =~= seq![digit_char(n as nat)]);
        r
    } else {
        let mut r: String = to_decimal_wide(n / 10);
        r.push((48u8 + (n % 10) as u8) as char);
        r
    }
}

/// The digit for a value below sixteen.
pub fn to_hex_char(d: u8) -> (c: char)
    requires
        d < 16,
    ensures
        c == hex_char(d as nat),
{
    if d < 10 {
        (48u8 + d) as char
    } else {
        (87u8 + d) as char
    }
}

/// A number in hexadecimal.
pub fn to_hexadecimal(n: u128) -> (r: String)
    ensures
        r@ == hexadecimal(n as nat),
    decreases n,
{
    if n < 16 {
        let mut r: String = String::new();
        r.push(to_hex_char(n as u8));
        assert(r@ =~= seq![hex_char(n as nat)]);
        r
    } else {
        let mut r: String = to_hexadecimal(n / 16);
        r.push(to_hex_char((n % 16) as u8));
        r
    }
}

/// The bytes in hexadecimal.
pub fn to_hex(b: &Vec<u8>) -> (r: String)
    ensures
        r@ == hex_text(b@),
{
    let mut r: String = String::new();
    let mut i: usize = 0;
    while i < b.len()
        invariant
            i <= b.len(),
            r@ == hex_text(b@.take(i as int)),
        decreases b.len() - i,
    {
        let ghost before_push = r@;
        r.push(to_hex_char(b[i] / 16));
        r.push(to_hex_char(b[i] % 16));
        proof {
            assert(b@.take(i + 1).drop_last() =~= b@.take(i as int));
            assert(r@ =~= before_push + hex_byte(b@[i as int]));
        }
        i += 1;
    }
    assert(b@.take(b@.len() as int) =~= b@);
    r
}

/// The value grows with each further digit.
pub proof fn lemma_digits_value_grows(s: Seq<char>, k: int)
    requires
        all_digits(s),
        0 <= k <= s.len(),
    ensures
        digits_value(s.take(k)) <= digits_value(s),
    decreases s.len() - k,
{
    if k < s.len() {
        lemma_digits_value_grows(s, k + 1);
        assert(s.take(k + 1).drop_last() =~= s.take(k));
        assert(s.take(k + 1).last() == s[k]);
    } else {
        assert(s.take(k) =~= s);
    }
}

/// The unsigned number that the text writes out in decimal.
pub fn parse_u64(s: &str) -> (r: Option<u64>)
    ensures
        match r {
            Some(n) => parsed(s@, u64::MAX as nat) == Some(n as nat),
            None => parsed(s@, u64::MAX as nat) is None,
        },
{
    let v: Vec<char> = chars(s);
    let start: usize = if v.len() > 0 && v[0] == '+' {
        1
    } else {
        0
    };
    let ghost d = unsigned_digits(s@);
    assert(d =~= v@.skip(start as int));
    if start >= v.len() {
        return None;
    }
    let mut n: u64 = 0;
    let mut i: usize = start;
    assert(d.take(0) =~= Seq::empty());
    while i < v.len()
        invariant
            start <= i <= v.len(),
            v@ == s@,
            d == unsigned_digits(s@),
            d == v@.skip(start as int),
            d.len() > 0,
            n == digits_value(d.take(i - start)),
            forall|j: int| 0 <= j < i - start ==> '0' <= #[trigger] d[j] <= '9',
        decreases v.len() - i,
    {
        let c: char = v[i];
        assert(d[i - start] == c);
        if c < '0' || c > '9' {
            return None;
        }
        let x: u64 = (c as u8 - 48) as u64;
        proof {
            assert(d.take(i - start + 1).drop_last() =~= d.take(i - start));
            assert(d.take(i - start + 1).last() == c);
            if all_digits(d) {
                lemma_digits_value_grows(d, i - start + 1);
            }
        }
        match n.checked_mul(10) {
            Some(m) => match m.checked_add(x) {
                Some(t) => {
                    n = t;
                },
                None => {
                    return None;
                },
            },
            None => {
                return None;
            },
        }
        i += 1;
    }
    assert(d.take(d.len() as int) =~= d);
    Some(n)
}

/// Whether `a` comes before `b` in the order of their characters.
pub fn is_before(a: &str, b: &str) -> (r: bool)
    ensures
        r == before(a@, b@),
{
    let x: Vec<char> = chars(a);
    let y: Vec<char> = chars(b);
    let mut i: usize = 0;
    assert(x@.skip(0) =~= a@);
    assert(y@.skip(0) =~= b@);
    while i < x.len() && i < y.len() && x[i] == y[i]
        invariant
            i <= x.len(),
            i <= y.len(),
            before(a@, b@) == before(x@.skip(i as int), y@.skip(i as int)),
        decreases x.len() - i,
    {
        proof {
            assert(x@.skip(i as int).skip(1) =~= x@.skip(i + 1));
            assert(y@.skip(i as int).skip(1) =~= y@.skip(i + 1));
        }
        i += 1;
    }
    if i >= y.len() {
        false
    } else if i >= x.len() {
        true
    } else {
        assert(x@.skip(i as int)[0] == x@[i as int]);
        assert(y@.skip(i as int)[0] == y@[i as int]);
        x[i] < y[i]
    }
}


/// A copy of a list of strings.
pub fn copy_texts(list: &Vec<String>) -> (r: Vec<String>)
    ensures
        views(r@) == views(list@),
        r.len() == list.len(),
{
    let mut r: Vec<String> = Vec::new();
    let mut i: usize = 0;
    while i < list.len()
        invariant
            i <= list.len(),
            r.len() == i,
            forall|j: int| 0 <= j < i ==> (#[trigger] r@[j])@ == list@[j]@,
        decreases list.len() - i,
    {
        r.push(list[i].clone());
        i += 1;
    }
    assert(views(r@) =~= views(list@));
    r
}

/// A copy of an optional string.
pub fn copy_opt(s: &Option<String>) -> (r: Option<String>)
    ensures
        r == *s,
{
    match s {
        Some(t) => Some(t.clone()),
        None => None,
    }
}

/// Whether `s` holds the character `c`.
pub fn has_char(s: &str, c: char) -> (r: bool)
    ensures
        r == s@.contains(c),
{
    let v: Vec<char> = chars(s);
    let k: usize = find_char(&v, c, 0);
    proof {
        assert(v@.skip(0) =~= v@);
        lemma_first_index(v@, c);
        if k < v.len() {
            assert(s@[k as int] == c);
        }
    }
    k < v.len()
}

/// The views of a sequence of string slices.
pub open spec fn str_views(v: Seq<&str>) -> Seq<Seq<char>> {
    Seq::new(v.len(), |i: int| v[i]@)
}

/// The slices as strings of their own.
pub fn own_texts(list: &[&str]) -> (r: Vec<String>)
    ensures
        views(r@) == str_views(list@),
{
    let mut r: Vec<String> = Vec::new();
    let mut i: usize = 0;
    while i < list.len()
        invariant
            i <= list.len(),
            r.len() == i,
            forall|j: int| 0 <= j < i ==> (#[trigger] r@[j])@ == list@[j]@,
        decreases list.len() - i,
    {
        r.push(list[i].to_owned());
        i += 1;
    }
    assert(views(r@) =~= str_views(list@));
    r
}

/// A text is split at each separator: what stands before the first is the first part, and
/// what follows it is split in turn. A text without separators is one part.
pub proof fn law_split_at_each_separator(a: Seq<char>, b: Seq<char>, c: char)
    requires
        !a.contains(c),
    ensures
        split(a, c) == seq![a],
        split(a + seq![c] + b, c) == seq![a] + split(b, c),
        split_once(a, c) is None,
        split_once(a + seq![c] + b, c) == Some((a, b)),
        rsplit_once(a, c) is None,
        rsplit_once(b + seq![c] + a, c) == Some((b, a)),
{
    let s = a + seq![c] + b;
    let n = a.len() as int;
    assert forall|i: int| 0 <= i < n implies a[i] != c && s[i] != c by {
        assert(a.contains(a[i]));
        assert(s[i] == a[i]);
    }
    lemma_first_index_is(a, c, n);
    lemma_first_index_is(s, c, n);
    assert(s.take(n) =~= a);
    assert(s.skip(n + 1) =~= b);
    lemma_last_index_is(a, c, -1);
    let t = b + seq![c] + a;
    let m = b.len() as int;
    assert forall|i: int| m < i < t.len() implies t[i] != c by {
        assert(t[i] == a[i - m - 1]);
    }
    lemma_last_index_is(t, c, m);
    assert(t.take(m) =~= b);
    assert(t.skip(m + 1) =~= a);
}

/// The parts of a text, put together with the separator between them, are the text.
pub proof fn law_join_undoes_split(s: Seq<char>, c: char)
    ensures
        split(s, c).len() > 0,
        join(split(s, c), seq![c]) == s,
    decreases s.len(),
{
    lemma_first_index(s, c);
    let k = first_index(s, c);
    if k < s.len() {
        let rest = s.skip(k + 1);
        law_join_undoes_split(rest, c);
        lemma_join_front(s.take(k), split(rest, c), seq![c]);
        assert(s =~= s.take(k) + seq![c] + rest);
    } else {
        assert(split(s, c) =~= seq![s]);
    }
}

/// A part in front of others is put together with them by one separator.
pub proof fn lemma_join_front(x: Seq<char>, parts: Seq<Seq<char>>, sep: Seq<char>)
    requires
        parts.len() > 0,
    ensures
        join(seq![x] + parts, sep) == x + sep + join(parts, sep),
    decreases parts.len(),
{
    let all = seq![x] + parts;
    if parts.len() == 1 {
        assert(all.drop_last() =~= seq![x]);
        assert(join(all.drop_last(), sep) == x);
        assert(all.last() == parts[0]);
    } else {
        let d = parts.drop_last();
        lemma_join_front(x, d, sep);
        assert(all.drop_last() =~= seq![x] + d);
        assert(all.last() == parts.last());
        assert(join(all, sep) =~= x + sep + join(parts, sep));
    }
}

/// Texts are put together with the separator between each two of them, and nothing else.
pub proof fn law_join_puts_separators_between(parts: Seq<Seq<char>>, x: Seq<char>, sep: Seq<char>)
    ensures
        join(Seq::<Seq<char>>::empty(), sep) == Seq::<char>::empty(),
        join(seq![x], sep) == x,
        parts.len() > 0 ==> join(parts.push(x), sep) == join(parts, sep) + sep + x,
        parts.len() > 0 ==> join(seq![x] + parts, sep) == x + sep + join(parts, sep),
{
    assert(parts.push(x).drop_last() =~= parts);
    if parts.len() > 0 {
        lemma_join_front(x, parts, sep);
    }
}

/// Trimming takes the white space off both ends, and nothing else.
pub proof fn law_trim_takes_the_ends_off(before: Seq<char>, t: Seq<char>, after: Seq<char>)
    requires
        forall|i: int| 0 <= i < before.len() ==> is_space(#[trigger] before[i]),
        forall|i: int| 0 <= i < after.len() ==> is_space(#[trigger] after[i]),
        t.len() > 0 ==> !is_space(t[0]) && !is_space(t.last()),
    ensures
        trim(before + t + after) == t,
{
    lemma_trim_start(before, t + after);
    assert(before + t + after =~= before + (t + after));
    if t.len() > 0 {
        assert((t + after)[0] == t[0]);
        lemma_trim_end(t, after);
    } else {
        assert(t + after =~= after);
        lemma_trim_start(after, Seq::empty());
        assert(after + Seq::<char>::empty() =~= after);
        assert(trim_start(after) =~= Seq::empty());
        assert(trim(before + t + after) =~= t);
    }
}

proof fn lemma_trim_start(a: Seq<char>, b: Seq<char>)
    requires
        forall|i: int| 0 <= i < a.len() ==> is_space(#[trigger] a[i]),
    ensures
        trim_start(a + b) == trim_start(b),
    decreases a.len(),
{
    if a.len() == 0 {
        assert(a + b =~= b);
    } else {
        assert((a + b)[0] == a[0]);
        assert((a + b).skip(1) =~= a.skip(1) + b);
        assert forall|i: int| 0 <= i < a.skip(1).len() implies is_space(#[trigger] a.skip(1)[i]) by {
            assert(a.skip(1)[i] == a[i + 1]);
        }
        lemma_trim_start(a.skip(1), b);
    }
}

proof fn lemma_trim_end(a: Seq<char>, b: Seq<char>)
    requires
        forall|i: int| 0 <= i < b.len() ==> is_space(#[trigger] b[i]),
        a.len() > 0,
        !is_space(a.last()),
    ensures
        trim_end(a + b) == a,
    decreases b.len(),
{
    if b.len() == 0 {
        assert(a + b =~= a);
    } else {
        assert((a + b).last() == b[b.len() - 1]);
        assert((a + b).drop_last() =~= a + b.drop_last());
        assert forall|i: int| 0 <= i < b.drop_last().len() implies is_space(
            #[trigger] b.drop_last()[i],
        ) by {
            assert(b.drop_last()[i] == b[i]);
        }
        lemma_trim_end(a, b.drop_last());
    }
}

/// Blanks, tabs and line ends are white space; what can be seen of ASCII is not.
pub proof fn law_white_space(c: char)
    ensures
        c == ' ' || c == '\t' || c == '\n' || c == '\r' ==> is_space(c),
        33 <= c as u32 && c as u32 <= 126 ==> !is_space(c),
{
}

/// Case is that of ASCII letters: each becomes its counterpart, and all else stays.
pub proof fn law_case_is_that_of_ascii(s: Seq<char>, i: int)
    requires
        0 <= i < s.len(),
    ensures
        lower(s).len() == s.len(),
        upper(s).len() == s.len(),
        'A' <= s[i] <= 'Z' ==> lower(s)[i] as u32 == s[i] as u32 + 32,
        !('A' <= s[i] <= 'Z') ==> lower(s)[i] == s[i],
        'a' <= s[i] <= 'z' ==> upper(s)[i] as u32 == s[i] as u32 - 32,
        !('a' <= s[i] <= 'z') ==> upper(s)[i] == s[i],
        lower(upper(s)) == lower(s),
        lower(lower(s)) == lower(s),
{
    assert(lower(upper(s)) =~= lower(s));
    assert(lower(lower(s)) =~= lower(s));
}

/// A number in decimal is read as that number. It has digits only, and no zero before
/// them.
pub proof fn law_decimals_are_read_back(n: nat, max: nat)
    ensures
        all_digits(decimal(n)),
        decimal(n).len() > 0,
        digits_value(decimal(n)) == n,
        n > 0 ==> decimal(n)[0] != '0',
        n <= max ==> parsed(decimal(n), max) == Some(n),
        n > max ==> parsed(decimal(n), max) is None,
    decreases n,
{
    let d = decimal(n);
    if n < 10 {
        assert(d.drop_last() =~= Seq::empty());
        assert(d.last() as nat == 48 + n);
        assert(digits_value(d.drop_last()) == 0);
    } else {
        law_decimals_are_read_back(n / 10, max);
        assert(d.drop_last() =~= decimal(n / 10));
        assert(d.last() as nat == 48 + n % 10);
        assert(d[0] == decimal(n / 10)[0]);
        assert forall|i: int| 0 <= i < d.len() implies '0' <= #[trigger] d[i] <= '9' by {
            if i < d.len() - 1 {
                assert(d[i] == decimal(n / 10)[i]);
            }
        }
    }
    assert('0' <= d[0] <= '9');
    assert(unsigned_digits(d) == d);
}

/// Nothing but digits, with one plus sign before them at most, is read as a number.
pub proof fn law_only_digits_are_numbers(s: Seq<char>, max: nat, i: int)
    ensures
        s.len() == 0 ==> parsed(s, max) is None,
        0 <= i < s.len() && !('0' <= s[i] <= '9') && !(i == 0 && s[i] == '+') ==> parsed(s, max)
            is None,
        parsed(s, max) matches Some(n) ==> n <= max,
{
    if 0 <= i < s.len() && !('0' <= s[i] <= '9') && !(i == 0 && s[i] == '+') {
        let d = unsigned_digits(s);
        if s[0] == '+' {
            assert(d[i - 1] == s[i]);
        } else {
            assert(d[i] == s[i]);
        }
    }
}

/// Different numbers look different in hexadecimal.
pub proof fn law_hexadecimals_differ(n: nat, m: nat)
    requires
        hexadecimal(n) == hexadecimal(m),
    ensures
        n == m,
    decreases n,
{
    lemma_hexadecimal_len(n);
    lemma_hexadecimal_len(m);
    let a = hexadecimal(n);
    let b = hexadecimal(m);
    assert(a.last() == b.last());
    if n < 16 {
        if m >= 16 {
            lemma_hexadecimal_len(m / 16);
            assert(b.len() == hexadecimal(m / 16).len() + 1);
        }
    } else {
        lemma_hexadecimal_len(n / 16);
        if m < 16 {
            assert(a.len() == hexadecimal(n / 16).len() + 1);
        } else {
            assert(a.drop_last() =~= hexadecimal(n / 16));
            assert(b.drop_last() =~= hexadecimal(m / 16));
            law_hexadecimals_differ(n / 16, m / 16);
            assert(a.last() == hex_char(n % 16));
            assert(b.last() == hex_char(m % 16));
        }
    }
}

proof fn lemma_hexadecimal_len(n: nat)
    ensures
        hexadecimal(n).len() > 0,
{
}

/// Bytes are written as two hexadecimal digits each, in small letters.
pub proof fn law_bytes_have_two_digits(b: Seq<u8>, i: int)
    requires
        0 <= i < b.len(),
    ensures
        hex_text(b).len() == 2 * b.len(),
        hex_text(b)[2 * i] as nat == (if b[i] / 16 < 10 {
            48 + b[i] / 16
        } else {
            87 + b[i] / 16
        }),
        hex_text(b)[2 * i + 1] as nat == (if b[i] % 16 < 10 {
            48 + b[i] % 16
        } else {
            87 + b[i] % 16
        }),
    decreases b.len(),
{
    lemma_hex_text_len(b);
    lemma_hex_text_len(b.drop_last());
    if i < b.len() - 1 {
        law_bytes_have_two_digits(b.drop_last(), i);
        assert(b.drop_last()[i] == b[i]);
    }
}

/// The order of texts is that of their characters: the first that differ decide, and a
/// text comes before those that go on behind it.
pub proof fn law_texts_are_ordered_by_characters(p: Seq<char>, a: Seq<char>, b: Seq<char>)
    ensures
        a.len() > 0 && b.len() > 0 && a[0] != b[0] ==> (before(p + a, p + b) <==> a[0] < b[0]),
        a.len() == 0 && b.len() > 0 ==> before(p + a, p + b),
        b.len() == 0 ==> !before(p + a, p + b),
    decreases p.len(),
{
    if p.len() == 0 {
        assert(p + a =~= a);
        assert(p + b =~= b);
    } else {
        let q = p.skip(1);
        assert((p + a).skip(1) =~= q + a);
        assert((p + b).skip(1) =~= q + b);
        law_texts_are_ordered_by_characters(q, a, b);
    }
}

/// Bytes are written in numerals and small letters.
pub proof fn lemma_hex_text_chars(b: Seq<u8>)
    ensures
        forall|i: int| 0 <= i < hex_text(b).len() ==> '0' <= #[trigger] hex_text(b)[i] <= 'f',
    decreases b.len(),
{
    if b.len() > 0 {
        let d = b.drop_last();
        lemma_hex_text_chars(d);
        let h = hex_text(b);
        let n = hex_text(d).len();
        assert forall|i: int| 0 <= i < h.len() implies '0' <= #[trigger] h[i] <= 'f' by {
            if i < n {
                assert(h[i] == hex_text(d)[i]);
            } else {
                assert(h[i] == hex_byte(b.last())[i - n]);
            }
        }
    }
}

/// The first separator parts a text where it is parted once from the front, and the last
/// one where it is parted from the back; a text without one is not parted.
pub proof fn law_texts_are_parted_once(a: Seq<char>, b: Seq<char>, c: char)
    ensures
        !a.contains(c) ==> split_once(a + seq![c] + b, c) == Some((a, b)),
        !b.contains(c) ==> rsplit_once(a + seq![c] + b, c) == Some((a, b)),
        !a.contains(c) ==> split_once(a, c) is None && rsplit_once(a, c) is None,
{
    let s = a + seq![c] + b;
    let k = a.len() as int;
    assert(s[k] == c);
    assert(s.take(k) =~= a);
    assert(s.skip(k + 1) =~= b);
    if !a.contains(c) {
        assert forall|i: int| 0 <= i < k implies #[trigger] s[i] != c by {
            assert(s[i] == a[i]);
            assert(a.contains(a[i]));
        }
        lemma_first_index_is(s, c, k);
        lemma_first_index(a, c);
        lemma_last_index(a, c);
        if first_index(a, c) < a.len() {
            assert(a.contains(a[first_index(a, c)]));
        }
        if last_index(a, c) >= 0 {
            assert(a.contains(a[last_index(a, c)]));
        }
    }
    if !b.contains(c) {
        assert forall|i: int| k < i < s.len() implies #[trigger] s[i] != c by {
            assert(s[i] == b[i - k - 1]);
            assert(b.contains(b[i - k - 1]));
        }
        lemma_last_index_is(s, c, k);
    }
}

} // verus!
