//! Patterns of paths.

use vstd::prelude::*;

use crate::text::{
    chars, first_index, join, join_texts, law_split_at_each_separator, lemma_first_index,
    lemma_first_index_is, piece, same, split, split_text, views,
};
use crate::text_map::TextMap;

verus! {

/// A part of a pattern.
#[derive(Debug)]
pub enum Segment {
    /// This text.
    Static(String),
    /// Any text, which is captured under a name.
    Param(String),
    /// The rest of the path, which is captured under a name.
    Wildcard(String),
}

/// A part of a pattern as contracts speak of it.
#[verifier::ext_equal]
pub enum SegmentView {
    Static(Seq<char>),
    Param(Seq<char>),
    Wildcard(Seq<char>),
}

impl View for Segment {
    type V = SegmentView;

    open spec fn view(&self) -> SegmentView {
        match *self {
            Segment::Static(t) => SegmentView::Static(t@),
            Segment::Param(n) => SegmentView::Param(n@),
            Segment::Wildcard(n) => SegmentView::Wildcard(n@),
        }
    }
}

/// The view of a pattern.
pub open spec fn pattern_view(p: Seq<Segment>) -> Seq<SegmentView> {
    Seq::new(p.len(), |i: int| p[i]@)
}

/// The parts that are not empty.
pub open spec fn nonempty(parts: Seq<Seq<char>>) -> Seq<Seq<char>>
    decreases parts.len(),
{
    if parts.len() == 0 {
        Seq::empty()
    } else if parts.last().len() > 0 {
        nonempty(parts.drop_last()).push(parts.last())
    } else {
        nonempty(parts.drop_last())
    }
}

/// The parts of a path between its slashes. Slashes that follow each other, and those
/// at the ends, count for nothing.
pub open spec fn segments_of(path: Seq<char>) -> Seq<Seq<char>> {
    nonempty(split(path, '/'))
}

/// The parts of a path between its slashes.
pub fn path_segments(path: &str) -> (r: Vec<String>)
    ensures
        views(r@) == segments_of(path@),
{
    let parts: Vec<String> = split_text(path, '/');
    let mut r: Vec<String> = Vec::new();
    let mut i: usize = 0;
    assert(views(parts@).take(0) =~= Seq::empty());
    assert(views(r@) =~= Seq::empty());
    while i < parts.len()
        invariant
            i <= parts.len(),
            views(r@) == nonempty(views(parts@).take(i as int)),
        decreases parts.len() - i,
    {
        let ghost before = r@;
        proof {
            let all = views(parts@).take(i + 1);
            assert(all.drop_last() =~= views(parts@).take(i as int));
            assert(all.last() == parts@[i as int]@);
        }
        if !parts[i].as_str().is_empty() {
            r.push(parts[i].clone());
            assert(views(r@) =~= views(before).push(parts@[i as int]@));
        }
        i += 1;
    }
    assert(views(parts@).take(parts@.len() as int) =~= views(parts@));
    r
}

/// The part of a pattern that a text spells: a colon begins a name, a star begins the
/// name of the rest, which is `path` where none follows.
pub open spec fn segment_of(text: Seq<char>) -> SegmentView {
    if text.len() > 0 && text[0] == ':' {
        SegmentView::Param(text.skip(1))
    } else if text.len() > 0 && text[0] == '*' {
        if text.len() == 1 {
            SegmentView::Wildcard("path"@)
        } else {
            SegmentView::Wildcard(text.skip(1))
        }
    } else {
        SegmentView::Static(text)
    }
}

/// The pattern that a path spells.
pub open spec fn pattern_of(path: Seq<char>) -> Seq<SegmentView> {
    Seq::new(segments_of(path).len(), |i: int| segment_of(segments_of(path)[i]))
}

/// The part of a pattern that a text spells.
pub fn parse_segment(text: &str) -> (r: Segment)
    ensures
        r@ == segment_of(text@),
{
    let c: Vec<char> = chars(text);
    if c.len() > 0 && c[0] == ':' {
        let name: String = piece(&c, 1, c.len());
        assert(c@.subrange(1, c@.len() as int) =~= text@.skip(1));
        Segment::Param(name)
    } else if c.len() > 0 && c[0] == '*' {
        if c.len() == 1 {
            Segment::Wildcard("path".to_owned())
        } else {
            let name: String = piece(&c, 1, c.len());
            assert(c@.subrange(1, c@.len() as int) =~= text@.skip(1));
            Segment::Wildcard(name)
        }
    } else {
        Segment::Static(text.to_owned())
    }
}

/// The pattern that a path spells.
pub fn parse_pattern(path: &str) -> (r: Vec<Segment>)
    ensures
        pattern_view(r@) == pattern_of(path@),
{
    let parts: Vec<String> = path_segments(path);
    let mut r: Vec<Segment> = Vec::new();
    let mut i: usize = 0;
    while i < parts.len()
        invariant
            i <= parts.len(),
            r@.len() == i,
            views(parts@) == segments_of(path@),
            forall|j: int| 0 <= j < i ==> (#[trigger] r@[j])@ == segment_of(segments_of(path@)[j]),
        decreases parts.len() - i,
    {
        assert(segments_of(path@)[i as int] == parts@[i as int]@);
        r.push(parse_segment(parts[i].as_str()));
        i += 1;
    }
    assert(parts@.len() == views(parts@).len());
    assert(pattern_view(r@) =~= pattern_of(path@));
    r
}

/// Whether one part of a path fits one part of a pattern.
pub open spec fn fits_part(p: SegmentView, s: Seq<char>) -> bool {
    match p {
        SegmentView::Static(t) => t == s,
        SegmentView::Param(_) => true,
        SegmentView::Wildcard(_) => false,
    }
}

/// Whether the pattern takes in the rest of a path at its end.
pub open spec fn open_ended(p: Seq<SegmentView>) -> bool {
    p.len() > 0 && p.last() is Wildcard
}

/// Whether a path fits a pattern: part by part, but for the rest that a last star takes
/// in, which may be nothing. A star that is not the last part fits nothing.
pub open spec fn fits(p: Seq<SegmentView>, s: Seq<Seq<char>>) -> bool {
    if open_ended(p) {
        &&& p.len() <= s.len() + 1
        &&& forall|i: int| 0 <= i < p.len() - 1 ==> fits_part(#[trigger] p[i], s[i])
    } else {
        &&& p.len() == s.len()
        &&& forall|i: int| 0 <= i < p.len() ==> fits_part(#[trigger] p[i], s[i])
    }
}

/// What a path that fits a pattern captures under a name: the last part of that name.
pub open spec fn captured(
    p: Seq<SegmentView>,
    s: Seq<Seq<char>>,
    name: Seq<char>,
) -> Option<Seq<char>>
    decreases p.len(),
{
    if p.len() == 0 {
        None
    } else if p.last() == SegmentView::Param(name) {
        Some(s[p.len() - 1])
    } else if p.last() == SegmentView::Wildcard(name) {
        Some(join(s.skip(p.len() - 1), "/"@))
    } else {
        captured(p.drop_last(), s, name)
    }
}

/// What a path captures, where it fits a pattern.
pub fn match_pattern(pattern: &Vec<Segment>, segments: &Vec<String>) -> (r: Option<TextMap>)
    ensures
        r is Some == fits(pattern_view(pattern@), views(segments@)),
        r matches Some(params) ==> params.wf() && forall|n: Seq<char>| #[trigger]
            params.lookup(n) == captured(pattern_view(pattern@), views(segments@), n),
{
    let mut params: TextMap = TextMap::new();
    let mut i: usize = 0;
    let ghost p = pattern_view(pattern@);
    let ghost s = views(segments@);
    assert(p.take(0) =~= Seq::empty());
    while i < pattern.len()
        invariant
            i <= pattern.len(),
            i <= segments.len(),
            p == pattern_view(pattern@),
            s == views(segments@),
            params.wf(),
            forall|j: int| 0 <= j < i ==> fits_part(#[trigger] p[j], s[j]),
            forall|n: Seq<char>| #[trigger]
                params.lookup(n) == captured(p.take(i as int), s, n),
        decreases pattern.len() - i,
    {
        proof {
            assert(p[i as int] == pattern@[i as int]@);
            assert(p.take(i + 1).drop_last() =~= p.take(i as int));
            assert(p.take(i + 1).last() == p[i as int]);
        }
        match &pattern[i] {
            Segment::Wildcard(name) => {
                if i + 1 != pattern.len() {
                    proof {
                        if open_ended(p) {
                            assert(!fits_part(p[i as int], s[i as int]));
                        }
                    }
                    return None;
                }
                let rest: String = join_texts(&texts_from(segments, i), "/");
                params.insert(name.clone(), rest);
                assert(p.take(i + 1) =~= p);
                return Some(params);
            },
            Segment::Static(text) => {
                if i >= segments.len() || !same(text.as_str(), segments[i].as_str()) {
                    proof {
                        if i < segments.len() {
                            assert(!fits_part(p[i as int], s[i as int]));
                        }
                    }
                    return None;
                }
                assert(s[i as int] == segments@[i as int]@);
            },
            Segment::Param(name) => {
                if i >= segments.len() {
                    return None;
                }
                params.insert(name.clone(), segments[i].clone());
                assert(s[i as int] == segments@[i as int]@);
            },
        }
        i += 1;
    }
    proof {
        assert(p.take(p.len() as int) =~= p);
        if open_ended(p) {
            assert(fits_part(p[p.len() - 1], s[p.len() - 1]));
        }
    }
    if i != segments.len() {
        return None;
    }
    Some(params)
}

/// The texts of a list from a place on.
pub fn texts_from(list: &Vec<String>, from: usize) -> (r: Vec<String>)
    requires
        from <= list@.len(),
    ensures
        views(r@) == views(list@).skip(from as int),
{
    let mut r: Vec<String> = Vec::new();
    let mut i: usize = from;
    while i < list.len()
        invariant
            from <= i <= list.len(),
            r@.len() == i - from,
            forall|j: int| 0 <= j < i - from ==> (#[trigger] r@[j])@ == list@[from + j]@,
        decreases list.len() - i,
    {
        r.push(list[i].clone());
        i += 1;
    }
    assert(views(r@) =~= views(list@).skip(from as int));
    r
}

/// The text of a part of a pattern.
pub open spec fn segment_text(p: SegmentView) -> Seq<char> {
    match p {
        SegmentView::Static(t) => t,
        SegmentView::Param(n) => ":"@ + n,
        SegmentView::Wildcard(n) => "*"@ + n,
    }
}

/// The text of the parts of a pattern, each behind a slash.
pub open spec fn parts_text(p: Seq<SegmentView>) -> Seq<char>
    decreases p.len(),
{
    if p.len() == 0 {
        Seq::empty()
    } else {
        parts_text(p.drop_last()) + "/"@ + segment_text(p.last())
    }
}

/// The text of a pattern, which is a slash where it has no parts.
pub open spec fn pattern_text(p: Seq<SegmentView>) -> Seq<char> {
    if p.len() == 0 {
        "/"@
    } else {
        parts_text(p)
    }
}

/// The text of a pattern.
pub fn render_pattern(pattern: &Vec<Segment>) -> (r: String)
    ensures
        r@ == pattern_text(pattern_view(pattern@)),
{
    if pattern.len() == 0 {
        return "/".to_owned();
    }
    let mut r: String = String::new();
    let mut i: usize = 0;
    let ghost p = pattern_view(pattern@);
    assert(p.take(0) =~= Seq::empty());
    while i < pattern.len()
        invariant
            i <= pattern.len(),
            p == pattern_view(pattern@),
            r@ == parts_text(p.take(i as int)),
        decreases pattern.len() - i,
    {
        proof {
            assert(p[i as int] == pattern@[i as int]@);
            assert(p.take(i + 1).drop_last() =~= p.take(i as int));
            assert(p.take(i + 1).last() == p[i as int]);
        }
        let ghost before = r@;
        r.append("/");
        match &pattern[i] {
            Segment::Static(t) => {
                r.append(t.as_str());
            },
            Segment::Param(n) => {
                r.append(":");
                r.append(n.as_str());
                assert(r@ =~= before + "/"@ + (":"@ + n@));
            },
            Segment::Wildcard(n) => {
                r.append("*");
                r.append(n.as_str());
                assert(r@ =~= before + "/"@ + ("*"@ + n@));
            },
        }
        i += 1;
    }
    assert(p.take(p.len() as int) =~= p);
    r
}

/// A path without the slashes at its end.
pub open spec fn without_last_slashes(s: Seq<char>) -> Seq<char>
    decreases s.len(),
{
    if s.len() > 0 && s.last() == '/' {
        without_last_slashes(s.drop_last())
    } else {
        s
    }
}

/// A path without the slashes at its beginning.
pub open spec fn without_first_slashes(s: Seq<char>) -> Seq<char>
    decreases s.len(),
{
    if s.len() > 0 && s[0] == '/' {
        without_first_slashes(s.skip(1))
    } else {
        s
    }
}

/// A path without the slashes at its end.
pub fn strip_last_slashes(s: &str) -> (r: String)
    ensures
        r@ == without_last_slashes(s@),
{
    let c: Vec<char> = chars(s);
    let mut n: usize = c.len();
    assert(s@.take(n as int) =~= s@);
    while n > 0 && c[n - 1] == '/'
        invariant
            n <= c.len(),
            c@ == s@,
            without_last_slashes(s@.take(n as int)) == without_last_slashes(s@),
        decreases n,
    {
        assert(s@.take(n as int).drop_last() =~= s@.take(n - 1));
        n = n - 1;
    }
    let r: String = piece(&c, 0, n);
    assert(c@.subrange(0, n as int) =~= s@.take(n as int));
    r
}

/// A path without the slashes at its beginning.
pub fn strip_first_slashes(s: &str) -> (r: String)
    ensures
        r@ == without_first_slashes(s@),
{
    let c: Vec<char> = chars(s);
    let mut n: usize = 0;
    assert(s@.skip(0) =~= s@);
    while n < c.len() && c[n] == '/'
        invariant
            n <= c.len(),
            c@ == s@,
            without_first_slashes(s@.skip(n as int)) == without_first_slashes(s@),
        decreases c.len() - n,
    {
        assert(s@.skip(n as int).skip(1) =~= s@.skip(n + 1));
        n = n + 1;
    }
    let r: String = piece(&c, n, c.len());
    assert(c@.subrange(n as int, c@.len() as int) =~= s@.skip(n as int));
    r
}

/// Two paths put together with one slash between them.
pub open spec fn joined_paths(prefix: Seq<char>, suffix: Seq<char>) -> Seq<char> {
    let p = without_last_slashes(prefix);
    let s = without_first_slashes(suffix);
    if p.len() == 0 {
        "/"@ + s
    } else if s.len() == 0 {
        p
    } else {
        p + "/"@ + s
    }
}

/// Two paths put together with one slash between them.
pub fn join_paths(prefix: &str, suffix: &str) -> (r: String)
    ensures
        r@ == joined_paths(prefix@, suffix@),
{
    let p: String = strip_last_slashes(prefix);
    let s: String = strip_first_slashes(suffix);
    if p.as_str().is_empty() {
        "/".to_owned().concat(s.as_str())
    } else if s.as_str().is_empty() {
        p
    } else {
        p.concat("/").concat(s.as_str())
    }
}

/// A part behind a separator is the last part.
proof fn lemma_split_push(a: Seq<char>, b: Seq<char>, c: char)
    requires
        !b.contains(c),
    ensures
        split(a + seq![c] + b, c) == split(a, c).push(b),
    decreases a.len(),
{
    let s = a + seq![c] + b;
    lemma_first_index(a, c);
    let k = first_index(a, c);
    if k < a.len() {
        let t = a.skip(k + 1);
        assert forall|i: int| 0 <= i < k implies s[i] != c by {
            assert(s[i] == a[i]);
        }
        assert(s[k] == a[k]);
        lemma_first_index_is(s, c, k);
        assert(s.skip(k + 1) =~= t + seq![c] + b);
        assert(s.take(k) =~= a.take(k));
        lemma_split_push(t, b, c);
        assert(split(s, c) =~= split(a, c).push(b));
    } else {
        let n = a.len() as int;
        assert forall|i: int| 0 <= i < n implies s[i] != c by {
            assert(s[i] == a[i]);
        }
        assert(s[n] == c);
        lemma_first_index_is(s, c, n);
        assert(s.take(n) =~= a);
        assert(s.skip(n + 1) =~= b);
        assert forall|i: int| 0 <= i < b.len() implies b[i] != c by {
            assert(b.contains(b[i]));
        }
        lemma_first_index_is(b, c, b.len() as int);
        assert(split(b, c) =~= seq![b]);
        assert(split(a, c) =~= seq![a]);
        assert(split(s, c) =~= seq![a, b]);
        assert(split(a, c).push(b) =~= seq![a, b]);
    }
}

/// The parts of a path are not empty and hold no slash.
pub proof fn lemma_segments(path: Seq<char>)
    ensures
        forall|i: int|
            0 <= i < segments_of(path).len() ==> (#[trigger] segments_of(path)[i]).len() > 0
                && !segments_of(path)[i].contains('/'),
{
    crate::static_files::lemma_split_parts(path, '/');
    lemma_nonempty(split(path, '/'));
    assert forall|i: int| 0 <= i < segments_of(path).len() implies (
    #[trigger] segments_of(path)[i]).len() > 0 && !segments_of(path)[i].contains('/') by {
        let j = choose|j: int|
            0 <= j < split(path, '/').len() && split(path, '/')[j] == segments_of(path)[i];
        assert(!split(path, '/')[j].contains('/'));
    }
}

proof fn lemma_nonempty(parts: Seq<Seq<char>>)
    ensures
        forall|i: int|
            0 <= i < nonempty(parts).len() ==> (#[trigger] nonempty(parts)[i]).len() > 0
                && exists|j: int| 0 <= j < parts.len() && parts[j] == nonempty(parts)[i],
    decreases parts.len(),
{
    if parts.len() > 0 {
        let d = parts.drop_last();
        lemma_nonempty(d);
        let n = nonempty(parts);
        assert forall|i: int| 0 <= i < n.len() implies (#[trigger] n[i]).len() > 0 && exists|j: int|
            0 <= j < parts.len() && parts[j] == n[i] by {
            if i < nonempty(d).len() {
                assert(n[i] == nonempty(d)[i]);
                let j = choose|j: int| 0 <= j < d.len() && d[j] == nonempty(d)[i];
                assert(parts[j] == n[i]);
            } else {
                assert(parts[parts.len() - 1] == n[i]);
            }
        }
    }
}

/// A part that is empty counts for nothing.
proof fn lemma_nonempty_one(e: Seq<char>)
    requires
        e.len() == 0,
    ensures
        nonempty(seq![e]) == Seq::<Seq<char>>::empty(),
{
    let one = seq![e];
    assert(one.last() == e);
    assert(one.drop_last() =~= Seq::<Seq<char>>::empty());
    assert(nonempty(one.drop_last()) =~= Seq::empty());
}

/// Whether a part of a pattern can be read back from its text.
spec fn spelled(p: SegmentView) -> bool {
    segment_text(p).len() > 0 && !segment_text(p).contains('/') && segment_of(segment_text(p)) == p
}

proof fn lemma_spelled(t: Seq<char>)
    requires
        t.len() > 0,
        !t.contains('/'),
    ensures
        spelled(segment_of(t)),
{
    reveal_strlit(":");
    reveal_strlit("*");
    reveal_strlit("path");
    let text = segment_text(segment_of(t));
    if t[0] == ':' {
        assert(text =~= t);
    } else if t[0] == '*' && t.len() == 1 {
        assert(text =~= seq!['*', 'p', 'a', 't', 'h']);
        assert(text.skip(1) =~= "path"@);
    } else if t[0] == '*' {
        assert(text =~= t);
    }
}

proof fn lemma_parts_text(p: Seq<SegmentView>)
    requires
        forall|i: int| 0 <= i < p.len() ==> spelled(#[trigger] p[i]),
    ensures
        segments_of(parts_text(p)) == Seq::new(p.len(), |i: int| segment_text(p[i])),
    decreases p.len(),
{
    reveal_strlit("/");
    let want = Seq::new(p.len(), |i: int| segment_text(p[i]));
    if p.len() == 0 {
        let e = Seq::<char>::empty();
        lemma_first_index_is(e, '/', 0);
        assert(split(e, '/') =~= seq![e]);
        lemma_nonempty_one(e);
        assert(want =~= Seq::empty());
    } else {
        let d = p.drop_last();
        assert forall|i: int| 0 <= i < d.len() implies spelled(#[trigger] d[i]) by {
            assert(d[i] == p[i]);
        }
        lemma_parts_text(d);
        let last = segment_text(p.last());
        assert(spelled(p[p.len() - 1]));
        assert("/"@ =~= seq!['/']);
        lemma_split_push(parts_text(d), last, '/');
        let parts = split(parts_text(d), '/').push(last);
        assert(parts.drop_last() =~= split(parts_text(d), '/'));
        assert(want =~= Seq::new(d.len(), |i: int| segment_text(d[i])).push(last));
    }
}

/// The path that is told of a route spells the very pattern of the route.
pub proof fn law_told_paths_spell_their_patterns(path: Seq<char>)
    ensures
        pattern_of(pattern_text(pattern_of(path))) == pattern_of(path),
{
    let p = pattern_of(path);
    lemma_segments(path);
    assert forall|i: int| 0 <= i < p.len() implies spelled(#[trigger] p[i]) by {
        lemma_spelled(segments_of(path)[i]);
    }
    lemma_parts_text(p);
    if p.len() == 0 {
        reveal_strlit("/");
        let e = Seq::<char>::empty();
        lemma_first_index_is(e, '/', 0);
        assert(split(e, '/') =~= seq![e]);
        lemma_split_push(e, e, '/');
        assert("/"@ =~= e + seq!['/'] + e);
        let parts = seq![e].push(e);
        assert(parts.drop_last() =~= seq![e]);
        lemma_nonempty_one(e);
        assert(nonempty(parts) =~= Seq::empty());
        assert(pattern_of("/"@) =~= p);
    } else {
        assert(pattern_of(parts_text(p)) =~= p);
    }
}

/// A slash at the end of a path counts for nothing.
pub proof fn law_last_slash_counts_for_nothing(path: Seq<char>)
    ensures
        segments_of(path.push('/')) == segments_of(path),
{
    lemma_split_push(path, Seq::empty(), '/');
    assert(path.push('/') =~= path + seq!['/'] + Seq::<char>::empty());
    let parts = split(path, '/').push(Seq::empty());
    assert(parts.drop_last() =~= split(path, '/'));
}

/// Without the slashes at its end a path has the same parts.
pub proof fn lemma_without_last_slashes(path: Seq<char>)
    ensures
        segments_of(without_last_slashes(path)) == segments_of(path),
        without_last_slashes(path).len() > 0 ==> without_last_slashes(path).last() != '/',
    decreases path.len(),
{
    if path.len() > 0 && path.last() == '/' {
        lemma_without_last_slashes(path.drop_last());
        law_last_slash_counts_for_nothing(path.drop_last());
        assert(path.drop_last().push('/') =~= path);
    }
}

/// A slash parts a path: the parts before it and those behind it are those of the whole.
/// Where there is no slash there is one part, and none where there is nothing.
pub proof fn law_slashes_part_paths(a: Seq<char>, b: Seq<char>)
    ensures
        segments_of(a + seq!['/'] + b) == segments_of(a) + segments_of(b),
        !a.contains('/') && a.len() > 0 ==> segments_of(a) == seq![a],
        a.len() == 0 ==> segments_of(a) == Seq::<Seq<char>>::empty(),
    decreases a.len(),
{
    let s = a + seq!['/'] + b;
    lemma_first_index(a, '/');
    let k = first_index(a, '/');
    if k < a.len() {
        let head = a.take(k);
        let rest = a.skip(k + 1);
        assert forall|i: int| 0 <= i < head.len() implies head[i] != '/' by {}
        assert(!head.contains('/'));
        law_split_at_each_separator(head, rest, '/');
        law_split_at_each_separator(head, rest + seq!['/'] + b, '/');
        assert(a =~= head + seq!['/'] + rest);
        assert(s =~= head + seq!['/'] + (rest + seq!['/'] + b));
        law_slashes_part_paths(rest, b);
        lemma_nonempty_add(seq![head], split(rest, '/'));
        lemma_nonempty_add(seq![head], split(rest + seq!['/'] + b, '/'));
        assert(segments_of(s) =~= segments_of(a) + segments_of(b));
        assert(a.contains('/')) by {
            assert(a[k] == '/');
        }
    } else {
        assert forall|i: int| 0 <= i < a.len() implies a[i] != '/' by {}
        assert(!a.contains('/'));
        law_split_at_each_separator(a, b, '/');
        lemma_nonempty_add(seq![a], split(b, '/'));
        let one = seq![a];
        assert(one.drop_last() =~= Seq::<Seq<char>>::empty());
        assert(one.last() == a);
        assert(nonempty(one.drop_last()) =~= Seq::empty());
        if a.len() > 0 {
            assert(nonempty(one) =~= seq![a]);
        }
    }
}

proof fn lemma_nonempty_add(a: Seq<Seq<char>>, b: Seq<Seq<char>>)
    ensures
        nonempty(a + b) == nonempty(a) + nonempty(b),
    decreases b.len(),
{
    if b.len() == 0 {
        assert(a + b =~= a);
        assert(nonempty(a) + nonempty(b) =~= nonempty(a));
    } else {
        assert((a + b).drop_last() =~= a + b.drop_last());
        assert((a + b).last() == b.last());
        lemma_nonempty_add(a, b.drop_last());
        assert(nonempty(a + b) =~= nonempty(a) + nonempty(b));
    }
}

/// A colon before a name makes it stand for any one part, a star for the rest, which is
/// called `path` where it has no name. All else stands for itself.
pub proof fn law_marks_make_names(text: Seq<char>)
    ensures
        segment_of(seq![':'] + text) == SegmentView::Param(text),
        text.len() > 0 ==> segment_of(seq!['*'] + text) == SegmentView::Wildcard(text),
        segment_of(seq!['*']) == SegmentView::Wildcard("path"@),
        text.len() == 0 || (text[0] != ':' && text[0] != '*') ==> segment_of(text)
            == SegmentView::Static(text),
{
    assert((seq![':'] + text).skip(1) =~= text);
    assert((seq!['*'] + text).skip(1) =~= text);
}

/// A path fits a pattern without a star exactly where it has as many parts, and each is
/// the same as its counterpart unless that is a name. Before a star at the end the parts
/// fit in the same way, and there may be any number behind them, also none. A star
/// anywhere else fits nothing.
pub proof fn law_paths_fit_part_by_part(p: Seq<SegmentView>, s: Seq<Seq<char>>, name: Seq<char>)
    ensures
        (forall|i: int| 0 <= i < p.len() ==> !((#[trigger] p[i]) is Wildcard)) ==> (fits(p, s)
            <==> p.len() == s.len() && forall|i: int|
            0 <= i < p.len() ==> (#[trigger] p[i] matches SegmentView::Static(t) ==> t == s[i])),
        (forall|i: int| 0 <= i < p.len() ==> !((#[trigger] p[i]) is Wildcard)) ==> (fits(
            p.push(SegmentView::Wildcard(name)),
            s,
        ) <==> p.len() <= s.len() && forall|i: int|
            0 <= i < p.len() ==> (#[trigger] p[i] matches SegmentView::Static(t) ==> t == s[i])),
        (exists|i: int| 0 <= i < p.len() - 1 && (#[trigger] p[i]) is Wildcard) ==> !fits(p, s),
{
    let q = p.push(SegmentView::Wildcard(name));
    assert forall|i: int| 0 <= i < p.len() implies q[i] == #[trigger] p[i] by {}
    if forall|i: int| 0 <= i < p.len() ==> !((#[trigger] p[i]) is Wildcard) {
        if p.len() > 0 {
            assert(!(p[p.len() - 1] is Wildcard));
        }
        if fits(p, s) {
            assert forall|i: int| 0 <= i < p.len() implies (#[trigger] p[i] matches
                SegmentView::Static(t) ==> t == s[i]) by {
                assert(fits_part(p[i], s[i]));
            }
        }
        if fits(q, s) {
            assert forall|i: int| 0 <= i < p.len() implies (#[trigger] p[i] matches
                SegmentView::Static(t) ==> t == s[i]) by {
                assert(fits_part(q[i], s[i]));
            }
        }
        if p.len() == s.len() && forall|i: int|
            0 <= i < p.len() ==> (#[trigger] p[i] matches SegmentView::Static(t) ==> t == s[i]) {
            assert forall|i: int| 0 <= i < p.len() implies fits_part(#[trigger] p[i], s[i]) by {}
        }
        if p.len() <= s.len() && forall|i: int|
            0 <= i < p.len() ==> (#[trigger] p[i] matches SegmentView::Static(t) ==> t == s[i]) {
            assert forall|i: int| 0 <= i < q.len() - 1 implies fits_part(#[trigger] q[i], s[i]) by {
                assert(q[i] == p[i]);
            }
        }
    }
    if exists|i: int| 0 <= i < p.len() - 1 && (#[trigger] p[i]) is Wildcard {
        let i = choose|i: int| 0 <= i < p.len() - 1 && (#[trigger] p[i]) is Wildcard;
        assert(!fits_part(p[i], s[i]));
    }
}

/// The name of a part of a pattern, where it has one.
pub open spec fn name_of(p: SegmentView) -> Option<Seq<char>> {
    match p {
        SegmentView::Static(_) => None,
        SegmentView::Param(n) => Some(n),
        SegmentView::Wildcard(n) => Some(n),
    }
}

/// Under each name of a pattern the part of the path at its place is captured, under that
/// of a star the rest with its slashes, and under any other name nothing. Where a name is
/// there twice, the last place counts.
pub proof fn law_names_capture_their_parts(
    p: Seq<SegmentView>,
    s: Seq<Seq<char>>,
    name: Seq<char>,
    k: int,
)
    ensures
        (forall|i: int| 0 <= i < p.len() ==> name_of(#[trigger] p[i]) != Some(name)) ==> captured(
            p,
            s,
            name,
        ) is None,
        0 <= k < p.len() && name_of(p[k]) == Some(name) && (forall|i: int|
            k < i < p.len() ==> name_of(#[trigger] p[i]) != Some(name)) ==> {
            &&& p[k] is Param ==> captured(p, s, name) == Some(s[k])
            &&& p[k] is Wildcard ==> captured(p, s, name) == Some(join(s.skip(k), "/"@))
        },
    decreases p.len(),
{
    if p.len() > 0 {
        let d = p.drop_last();
        law_names_capture_their_parts(d, s, name, k);
        assert(p[p.len() - 1] == p.last());
        assert forall|i: int| 0 <= i < d.len() implies #[trigger] d[i] == p[i] by {}
        if forall|i: int| 0 <= i < p.len() ==> name_of(#[trigger] p[i]) != Some(name) {
            assert forall|i: int| 0 <= i < d.len() implies name_of(#[trigger] d[i]) != Some(
                name,
            ) by {
                assert(name_of(p[i]) != Some(name));
            }
            assert(name_of(p[p.len() - 1]) != Some(name));
        }
        if 0 <= k < p.len() && name_of(p[k]) == Some(name) && (forall|i: int|
            k < i < p.len() ==> name_of(#[trigger] p[i]) != Some(name)) {
            if k < d.len() {
                assert forall|i: int| k < i < d.len() implies name_of(#[trigger] d[i]) != Some(
                    name,
                ) by {
                    assert(name_of(p[i]) != Some(name));
                }
                assert(name_of(p[p.len() - 1]) != Some(name));
            }
        }
    }
}

/// Two paths are put together with exactly one slash between them, however many there
/// were, and so are the patterns that they spell.
pub proof fn law_joined_paths_spell_joined_patterns(prefix: Seq<char>, suffix: Seq<char>)
    ensures
        segments_of(joined_paths(prefix, suffix)) == segments_of(prefix) + segments_of(suffix),
        pattern_of(joined_paths(prefix, suffix)) == pattern_of(prefix) + pattern_of(suffix),
{
    let p = without_last_slashes(prefix);
    let s = without_first_slashes(suffix);
    reveal_strlit("/");
    lemma_without_last_slashes(prefix);
    lemma_without_first_slashes(suffix);
    law_slashes_part_paths(p, s);
    let e = Seq::<char>::empty();
    law_slashes_part_paths(e, s);
    law_slashes_part_paths(p, e);
    law_slashes_part_paths(s, e);
    assert("/"@ =~= seq!['/']);
    if p.len() == 0 {
        assert("/"@ + s =~= e + seq!['/'] + s);
        assert(segments_of(joined_paths(prefix, suffix)) =~= segments_of(prefix) + segments_of(
            suffix,
        ));
    } else if s.len() == 0 {
        assert(s =~= e);
        assert(segments_of(joined_paths(prefix, suffix)) =~= segments_of(prefix) + segments_of(
            suffix,
        ));
    }
    assert(pattern_of(joined_paths(prefix, suffix)) =~= pattern_of(prefix) + pattern_of(suffix));
}

proof fn lemma_without_first_slashes(path: Seq<char>)
    ensures
        segments_of(without_first_slashes(path)) == segments_of(path),
    decreases path.len(),
{
    if path.len() > 0 && path[0] == '/' {
        let rest = path.skip(1);
        lemma_without_first_slashes(rest);
        let e = Seq::<char>::empty();
        law_slashes_part_paths(e, rest);
        assert(path =~= e + seq!['/'] + rest);
        assert(segments_of(path) =~= segments_of(rest));
    }
}

} // verus!
