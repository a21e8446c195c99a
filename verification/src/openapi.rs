//! A description of the routes, for tools that read OpenAPI.

use vstd::prelude::*;

use crate::json::{
    add_member, has_member, items, members, single, single_member, text, text_list, texts,
    JsonValue, JsonView,
};
use crate::pattern::{
    path_segments, segments_of, strip_first_slashes, strip_last_slashes, without_first_slashes,
    without_last_slashes,
};
use crate::response::{Response, ResponseView};
use crate::router::{RouteHandle, RouteInfo, RouteInfoView, RouteKind, RouteView};
use crate::server::App;
use crate::text::{
    chars, copy_opt, copy_texts, lower, opt, piece, same, to_lower, views,
};

verus! {

/// The name in a part of a path that stands for something, where it is one.
pub open spec fn placeholder(segment: Seq<char>) -> Option<Seq<char>> {
    if segment.len() > 0 && (segment[0] == ':' || segment[0] == '*') {
        Some(segment.skip(1))
    } else {
        None
    }
}

/// A part of a path as OpenAPI writes it.
pub open spec fn told_segment(segment: Seq<char>) -> Seq<char> {
    match placeholder(segment) {
        Some(name) => "{"@ + name + "}"@,
        None => segment,
    }
}

/// The parts of a path as OpenAPI writes them, each behind a slash.
pub open spec fn told_segments(segments: Seq<Seq<char>>) -> Seq<char>
    decreases segments.len(),
{
    if segments.len() == 0 {
        Seq::empty()
    } else {
        told_segments(segments.drop_last()) + "/"@ + told_segment(segments.last())
    }
}

/// The names in a path.
pub open spec fn names_in(segments: Seq<Seq<char>>) -> Seq<Seq<char>>
    decreases segments.len(),
{
    if segments.len() == 0 {
        Seq::empty()
    } else {
        match placeholder(segments.last()) {
            Some(name) => names_in(segments.drop_last()).push(name),
            None => names_in(segments.drop_last()),
        }
    }
}

/// A path as OpenAPI writes it.
pub open spec fn told_path(pattern: Seq<char>) -> Seq<char> {
    if segments_of(pattern).len() == 0 {
        "/"@
    } else {
        told_segments(segments_of(pattern))
    }
}

/// A path as OpenAPI writes it, and the names in it.
pub fn openapi_path(pattern: &str) -> (r: (String, Vec<String>))
    ensures
        r.0@ == told_path(pattern@),
        views(r.1@) == names_in(segments_of(pattern@)),
{
    let segments: Vec<String> = path_segments(pattern);
    let ghost all = views(segments@);
    let mut path: String = String::new();
    let mut params: Vec<String> = Vec::new();
    let mut i: usize = 0;
    assert(all.take(0) =~= Seq::empty());
    assert(views(params@) =~= Seq::empty());
    while i < segments.len()
        invariant
            i <= segments.len(),
            all == views(segments@),
            path@ == told_segments(all.take(i as int)),
            views(params@) == names_in(all.take(i as int)),
        decreases segments.len() - i,
    {
        let ghost before = path@;
        let ghost names = views(params@);
        proof {
            assert(all.take(i + 1).drop_last() =~= all.take(i as int));
            assert(all.take(i + 1).last() == segments@[i as int]@);
        }
        path.append("/");
        let c: Vec<char> = chars(segments[i].as_str());
        if c.len() > 0 && (c[0] == ':' || c[0] == '*') {
            let name: String = piece(&c, 1, c.len());
            assert(name@ =~= segments@[i as int]@.skip(1));
            path.append("{");
            path.append(name.as_str());
            path.append("}");
            assert(path@ =~= before + "/"@ + ("{"@ + name@ + "}"@));
            params.push(name);
            assert(views(params@) =~= names.push(segments@[i as int]@.skip(1)));
        } else {
            path.append(segments[i].as_str());
        }
        i += 1;
    }
    assert(all.take(all.len() as int) =~= all);
    if segments.len() == 0 {
        path.append("/");
        assert(path@ =~= "/"@);
    }
    (path, params)
}

/// What is told of a route under its path and method.
#[derive(Debug)]
pub struct Operation {
    pub summary: Option<String>,
    pub description: Option<String>,
    pub tags: Vec<String>,
    /// The names in the path.
    pub parameters: Vec<String>,
}

/// What is told of a route, as contracts speak of it.
#[verifier::ext_equal]
pub struct OperationView {
    pub summary: Option<Seq<char>>,
    pub description: Option<Seq<char>>,
    pub tags: Seq<Seq<char>>,
    pub parameters: Seq<Seq<char>>,
}

impl View for Operation {
    type V = OperationView;

    open spec fn view(&self) -> OperationView {
        OperationView {
            summary: opt(self.summary),
            description: opt(self.description),
            tags: views(self.tags@),
            parameters: views(self.parameters@),
        }
    }
}

/// An operation with its path and its method, in small letters.
#[derive(Debug)]
pub struct Entry {
    pub path: String,
    pub method: String,
    pub operation: Operation,
}

/// A description of the routes.
#[derive(Debug)]
pub struct Document {
    pub title: String,
    pub version: String,
    pub entries: Vec<Entry>,
}

/// The operation of a route.
pub open spec fn operation_of(route: RouteInfoView) -> OperationView {
    OperationView {
        summary: route.summary,
        description: route.description,
        tags: route.tags,
        parameters: names_in(segments_of(route.path)),
    }
}

/// The operation at a path and a method: that of the last route there. Routes for all
/// methods are not told.
pub open spec fn told_in(
    routes: Seq<RouteInfoView>,
    path: Seq<char>,
    method: Seq<char>,
) -> Option<OperationView>
    decreases routes.len(),
{
    if routes.len() == 0 {
        None
    } else {
        let r = routes.last();
        if r.method != "*"@ && told_path(r.path) == path && lower(r.method) == method {
            Some(operation_of(r))
        } else {
            told_in(routes.drop_last(), path, method)
        }
    }
}

/// The view of a list of routes.
pub open spec fn infos(routes: Seq<RouteInfo>) -> Seq<RouteInfoView> {
    Seq::new(routes.len(), |i: int| routes[i]@)
}

impl Document {
    /// Whether an entry is that of a path and a method.
    pub open spec fn at(&self, i: int, path: Seq<char>, method: Seq<char>) -> bool {
        0 <= i < self.entries@.len() && self.entries@[i].path@ == path && self.entries@[i].method@
            == method
    }

    /// Whether each path has each method once.
    pub open spec fn wf(&self) -> bool {
        forall|i: int, j: int|
            0 <= i < j < self.entries@.len() ==> !((#[trigger] self.entries@[i]).path@ == (
            #[trigger] self.entries@[j]).path@ && self.entries@[i].method@
                == self.entries@[j].method@)
    }

    /// The operation at a path and a method.
    pub open spec fn lookup(&self, path: Seq<char>, method: Seq<char>) -> Option<OperationView> {
        if exists|i: int| self.at(i, path, method) {
            Some(self.entries@[choose|i: int| self.at(i, path, method)].operation@)
        } else {
            None
        }
    }

    proof fn lemma_at(&self, i: int, path: Seq<char>, method: Seq<char>)
        requires
            self.wf(),
            self.at(i, path, method),
        ensures
            self.lookup(path, method) == Some(self.entries@[i].operation@),
    {
        let k = choose|k: int| self.at(k, path, method);
        assert(self.at(k, path, method));
        assert(k == i);
    }

    /// Puts an operation at a path and a method.
    fn put(&mut self, path: String, method: String, operation: Operation)
        requires
            old(self).wf(),
        ensures
            final(self).wf(),
            final(self).title == old(self).title,
            final(self).version == old(self).version,
            forall|p: Seq<char>, m: Seq<char>| #[trigger]
                final(self).lookup(p, m) == (if p == path@ && m == method@ {
                    Some(operation@)
                } else {
                    old(self).lookup(p, m)
                }),
    {
        let ghost was = *self;
        let ghost p0 = path@;
        let ghost m0 = method@;
        let ghost o0 = operation@;
        let mut k: usize = 0;
        while k < self.entries.len() && !(same(self.entries[k].path.as_str(), path.as_str())
            && same(self.entries[k].method.as_str(), method.as_str()))
            invariant
                k <= self.entries.len(),
                *self == was,
                p0 == path@,
                m0 == method@,
                forall|i: int| 0 <= i < k ==> !#[trigger] was.at(i, p0, m0),
            decreases self.entries.len() - k,
        {
            k += 1;
        }
        if k < self.entries.len() {
            self.entries[k].operation = operation;
        } else {
            self.entries.push(Entry { path, method, operation });
        }
        proof {
            let now = *self;
            assert forall|i: int| 0 <= i < was.entries@.len() implies (
            #[trigger] now.entries@[i]).path@ == was.entries@[i].path@ && now.entries@[i].method@
                == was.entries@[i].method@ && (i != k ==> now.entries@[i] == was.entries@[i]) by {}
            assert(now.entries@[k as int].operation@ == o0);
            assert(now.at(k as int, p0, m0));
            assert forall|i: int, j: int| 0 <= i < j < now.entries@.len() implies !((
            #[trigger] now.entries@[i]).path@ == (#[trigger] now.entries@[j]).path@
                && now.entries@[i].method@ == now.entries@[j].method@) by {
                if j < was.entries@.len() {
                    assert(!(was.entries@[i].path@ == was.entries@[j].path@
                        && was.entries@[i].method@ == was.entries@[j].method@));
                } else {
                    assert(!was.at(i, p0, m0));
                }
            }
            assert forall|p: Seq<char>, m: Seq<char>| #[trigger]
                now.lookup(p, m) == (if p == p0 && m == m0 {
                    Some(o0)
                } else {
                    was.lookup(p, m)
                }) by {
                if p == p0 && m == m0 {
                    now.lemma_at(k as int, p, m);
                } else if exists|i: int| was.at(i, p, m) {
                    let i = choose|i: int| was.at(i, p, m);
                    was.lemma_at(i, p, m);
                    assert(i != k);
                    assert(now.at(i, p, m));
                    now.lemma_at(i, p, m);
                } else {
                    assert forall|i: int| !now.at(i, p, m) by {
                        assert(!was.at(i, p, m));
                    }
                }
            }
        }
    }
}

/// A description of routes. Routes for all methods are not told.
pub fn build_document(title: &str, version: &str, routes: &Vec<RouteInfo>) -> (r: Document)
    ensures
        r.wf(),
        r.title@ == title@,
        r.version@ == version@,
        forall|p: Seq<char>, m: Seq<char>| #[trigger]
            r.lookup(p, m) == told_in(infos(routes@), p, m),
{
    let ghost all = infos(routes@);
    let mut r: Document = Document {
        title: title.to_owned(),
        version: version.to_owned(),
        entries: Vec::new(),
    };
    let mut i: usize = 0;
    assert(all.take(0) =~= Seq::empty());
    while i < routes.len()
        invariant
            i <= routes.len(),
            all == infos(routes@),
            r.wf(),
            r.title@ == title@,
            r.version@ == version@,
            forall|p: Seq<char>, m: Seq<char>| #[trigger]
                r.lookup(p, m) == told_in(all.take(i as int), p, m),
        decreases routes.len() - i,
    {
        let route: &RouteInfo = &routes[i];
        proof {
            assert(all.take(i + 1).drop_last() =~= all.take(i as int));
            assert(all.take(i + 1).last() == route@);
        }
        if !same(route.method.as_str(), "*") {
            let (path, parameters): (String, Vec<String>) = openapi_path(route.path.as_str());
            let operation: Operation = Operation {
                summary: copy_opt(&route.summary),
                description: copy_opt(&route.description),
                tags: copy_texts(&route.tags),
                parameters,
            };
            assert(operation@ =~= operation_of(route@));
            r.put(path, to_lower(route.method.as_str()), operation);
        }
        i += 1;
    }
    assert(all.take(all.len() as int) =~= all);
    r
}

/// A name in a path, as a description tells it: it is a text, and must be given.
pub open spec fn parameter_json(name: Seq<char>) -> JsonView {
    JsonView::Object(
        Map::empty().insert("name"@, JsonView::Text(name)).insert(
            "in"@,
            JsonView::Text("path"@),
        ).insert("required"@, JsonView::Bool(true)).insert(
            "schema"@,
            single("type"@, JsonView::Text("string"@)),
        ),
    )
}

/// The names in a path, as a description tells them.
pub open spec fn parameters_json(names: Seq<Seq<char>>) -> Seq<JsonView> {
    Seq::new(names.len(), |i: int| parameter_json(names[i]))
}

/// Members with one more, where there is one.
pub open spec fn with_member(
    m: Map<Seq<char>, JsonView>,
    name: Seq<char>,
    value: Option<JsonView>,
) -> Map<Seq<char>, JsonView> {
    match value {
        Some(v) => m.insert(name, v),
        None => m,
    }
}

/// An optional text as a value.
pub open spec fn opt_text(s: Option<Seq<char>>) -> Option<JsonView> {
    match s {
        Some(t) => Some(JsonView::Text(t)),
        None => None,
    }
}

/// A list as a value, unless it is empty.
pub open spec fn opt_list(list: Seq<JsonView>) -> Option<JsonView> {
    if list.len() == 0 {
        None
    } else {
        Some(JsonView::List(list))
    }
}

/// An operation, as a description tells it. What is not there is left out, but for the
/// one response.
pub open spec fn operation_json(op: OperationView) -> JsonView {
    let a = with_member(Map::empty(), "summary"@, opt_text(op.summary));
    let b = with_member(a, "description"@, opt_text(op.description));
    let c = with_member(b, "tags"@, opt_list(texts(op.tags)));
    let d = with_member(c, "parameters"@, opt_list(parameters_json(op.parameters)));
    JsonView::Object(
        d.insert("responses"@, single("200"@, single("description"@, JsonView::Text("OK"@)))),
    )
}

impl Document {
    /// Whether there is an operation at a path.
    pub open spec fn has_path(&self, path: Seq<char>) -> bool {
        exists|m: Seq<char>| #[trigger] self.lookup(path, m) is Some
    }

    /// The operations at a path by their methods.
    pub open spec fn methods_json(&self, path: Seq<char>) -> Map<Seq<char>, JsonView> {
        Map::new(
            |m: Seq<char>| self.lookup(path, m) is Some,
            |m: Seq<char>| operation_json(self.lookup(path, m)->0),
        )
    }

    /// The operations by their paths and methods.
    pub open spec fn paths_json(&self) -> Map<Seq<char>, JsonView> {
        Map::new(
            |p: Seq<char>| self.has_path(p),
            |p: Seq<char>| JsonView::Object(self.methods_json(p)),
        )
    }

    /// The description in the form of OpenAPI.
    pub open spec fn json(&self) -> JsonView {
        JsonView::Object(
            Map::empty().insert("openapi"@, JsonView::Text("3.0.3"@)).insert(
                "info"@,
                JsonView::Object(
                    Map::empty().insert("title"@, JsonView::Text(self.title@)).insert(
                        "version"@,
                        JsonView::Text(self.version@),
                    ),
                ),
            ).insert("paths"@, JsonView::Object(self.paths_json())),
        )
    }
}

/// A name in a path, as a description tells it.
fn told_parameter(name: &str) -> (r: JsonValue)
    ensures
        r@ == parameter_json(name@),
{
    let mut list: Vec<(String, JsonValue)> = Vec::new();
    add_member(&mut list, "name", text(name));
    add_member(&mut list, "in", text("path"));
    add_member(&mut list, "required", JsonValue::Bool(true));
    add_member(&mut list, "schema", single_member("type", text("string")));
    JsonValue::Object(list)
}

/// The names in a path, as a description tells them.
fn told_parameters(names: &Vec<String>) -> (r: JsonValue)
    ensures
        r@ == JsonView::List(parameters_json(views(names@))),
{
    let ghost all = parameters_json(views(names@));
    let mut r: Vec<JsonValue> = Vec::new();
    let mut i: usize = 0;
    assert(items(r@) =~= all.take(0));
    while i < names.len()
        invariant
            i <= names.len(),
            all == parameters_json(views(names@)),
            items(r@) == all.take(i as int),
        decreases names.len() - i,
    {
        let ghost was = r@;
        r.push(told_parameter(names[i].as_str()));
        proof {
            assert(r@.drop_last() =~= was);
            assert(all.take(i + 1) =~= all.take(i as int).push(all[i as int]));
        }
        i += 1;
    }
    assert(all.take(names@.len() as int) =~= all);
    JsonValue::List(r)
}

/// An operation, as a description tells it.
pub fn told_operation(op: &Operation) -> (r: JsonValue)
    ensures
        r@ == operation_json(op@),
{
    let mut list: Vec<(String, JsonValue)> = Vec::new();
    if let Some(summary) = &op.summary {
        add_member(&mut list, "summary", text(summary.as_str()));
    }
    if let Some(description) = &op.description {
        add_member(&mut list, "description", text(description.as_str()));
    }
    if op.tags.len() > 0 {
        add_member(&mut list, "tags", text_list(&op.tags));
    }
    if op.parameters.len() > 0 {
        add_member(&mut list, "parameters", told_parameters(&op.parameters));
    }
    let ok: JsonValue = single_member("description", text("OK"));
    add_member(&mut list, "responses", single_member("200", ok));
    JsonValue::Object(list)
}

/// The operations at a path by their methods.
fn told_methods_at(document: &Document, path: &str) -> (r: JsonValue)
    requires
        document.wf(),
    ensures
        r@ == JsonView::Object(document.methods_json(path@)),
{
    let mut list: Vec<(String, JsonValue)> = Vec::new();
    let mut i: usize = 0;
    while i < document.entries.len()
        invariant
            i <= document.entries.len(),
            document.wf(),
            forall|m: Seq<char>| #[trigger]
                members(list@).dom().contains(m) <==> exists|k: int|
                    k < i && #[trigger] document.at(k, path@, m),
            forall|m: Seq<char>| #[trigger]
                members(list@).dom().contains(m) ==> members(list@)[m] == operation_json(
                    document.lookup(path@, m)->0,
                ),
        decreases document.entries.len() - i,
    {
        let ghost was = members(list@);
        let entry: &Entry = &document.entries[i];
        if same(entry.path.as_str(), path) {
            add_member(&mut list, entry.method.as_str(), told_operation(&entry.operation));
            proof {
                assert(document.at(i as int, path@, entry.method@));
                document.lemma_at(i as int, path@, entry.method@);
            }
        }
        proof {
            assert forall|m: Seq<char>| #[trigger]
                members(list@).dom().contains(m) <==> exists|k: int|
                    k < i + 1 && #[trigger] document.at(k, path@, m) by {
                if members(list@).dom().contains(m) {
                    if was.dom().contains(m) {
                        let k = choose|k: int| k < i && #[trigger] document.at(k, path@, m);
                        assert(k < i + 1 && document.at(k, path@, m));
                    } else {
                        assert(document.at(i as int, path@, m));
                    }
                }
                if exists|k: int| k < i + 1 && #[trigger] document.at(k, path@, m) {
                    let k = choose|k: int| k < i + 1 && #[trigger] document.at(k, path@, m);
                    if k < i {
                        assert(was.dom().contains(m));
                    }
                }
            }
        }
        i += 1;
    }
    proof {
        let all = document.methods_json(path@);
        assert forall|m: Seq<char>| members(list@).dom().contains(m) <==> #[trigger]
            all.dom().contains(m) by {
            if document.lookup(path@, m) is Some {
                let k = choose|k: int| document.at(k, path@, m);
                assert(k < i && document.at(k, path@, m));
            }
        }
        assert(members(list@) =~= all);
    }
    JsonValue::Object(list)
}

/// The description in the form of OpenAPI.
pub fn document_json(document: &Document) -> (r: JsonValue)
    requires
        document.wf(),
    ensures
        r@ == document.json(),
{
    let mut paths: Vec<(String, JsonValue)> = Vec::new();
    let mut i: usize = 0;
    while i < document.entries.len()
        invariant
            i <= document.entries.len(),
            document.wf(),
            forall|p: Seq<char>| #[trigger]
                members(paths@).dom().contains(p) <==> exists|k: int|
                    0 <= k < i && (#[trigger] document.entries@[k]).path@ == p,
            forall|p: Seq<char>| #[trigger]
                members(paths@).dom().contains(p) ==> members(paths@)[p] == JsonView::Object(
                    document.methods_json(p),
                ),
        decreases document.entries.len() - i,
    {
        let ghost was = members(paths@);
        let entry: &Entry = &document.entries[i];
        if !has_member(&paths, entry.path.as_str()) {
            let methods: JsonValue = told_methods_at(document, entry.path.as_str());
            add_member(&mut paths, entry.path.as_str(), methods);
        }
        proof {
            assert forall|p: Seq<char>| #[trigger]
                members(paths@).dom().contains(p) <==> exists|k: int|
                    0 <= k < i + 1 && (#[trigger] document.entries@[k]).path@ == p by {
                if members(paths@).dom().contains(p) {
                    if was.dom().contains(p) {
                        let k = choose|k: int|
                            0 <= k < i && (#[trigger] document.entries@[k]).path@ == p;
                        assert(0 <= k < i + 1 && document.entries@[k].path@ == p);
                    } else {
                        assert(document.entries@[i as int].path@ == p);
                    }
                }
                if exists|k: int| 0 <= k < i + 1 && (#[trigger] document.entries@[k]).path@ == p {
                    let k = choose|k: int|
                        0 <= k < i + 1 && (#[trigger] document.entries@[k]).path@ == p;
                    if k < i {
                        assert(was.dom().contains(p));
                    }
                }
            }
        }
        i += 1;
    }
    proof {
        let all = document.paths_json();
        assert forall|p: Seq<char>| members(paths@).dom().contains(p) <==> #[trigger]
            all.dom().contains(p) by {
            if members(paths@).dom().contains(p) {
                let k = choose|k: int| 0 <= k < i && (#[trigger] document.entries@[k]).path@ == p;
                assert(document.at(k, p, document.entries@[k].method@));
                document.lemma_at(k, p, document.entries@[k].method@);
                assert(document.lookup(p, document.entries@[k].method@) is Some);
            }
            if document.has_path(p) {
                let m = choose|m: Seq<char>| #[trigger] document.lookup(p, m) is Some;
                let k = choose|k: int| document.at(k, p, m);
                assert(document.at(k, p, m));
                assert(0 <= k < i && document.entries@[k].path@ == p);
            }
        }
        assert(members(paths@) =~= all);
    }
    let mut info: Vec<(String, JsonValue)> = Vec::new();
    add_member(&mut info, "title", text(document.title.as_str()));
    add_member(&mut info, "version", text(document.version.as_str()));
    let mut whole: Vec<(String, JsonValue)> = Vec::new();
    add_member(&mut whole, "openapi", text("3.0.3"));
    add_member(&mut whole, "info", JsonValue::Object(info));
    add_member(&mut whole, "paths", JsonValue::Object(paths));
    JsonValue::Object(whole)
}

/// The page that shows a description, as contracts speak of it.
pub open spec fn page_text(title: Seq<char>, spec_url: Seq<char>) -> Seq<char> {
    "<!DOCTYPE html>\n<html lang=\"es\">\n<head>\n  <meta charset=\"utf-8\" />\n  <meta name=\"viewport\" content=\"width=device-width, initial-scale=1\" />\n  <title>"@
        + title
        + " — API docs</title>\n  <link rel=\"stylesheet\" href=\"https://unpkg.com/swagger-ui-dist@5/swagger-ui.css\" />\n</head>\n<body>\n  <div id=\"swagger-ui\"></div>\n  <script src=\"https://unpkg.com/swagger-ui-dist@5/swagger-ui-bundle.js\"></script>\n  <script>\n    window.onload = () => {\n      SwaggerUIBundle({ url: \""@
        + spec_url
        + "\", dom_id: \"#swagger-ui\" });\n    };\n  </script>\n</body>\n</html>\n"@
}

/// The page that shows the description at an address.
pub fn swagger_ui_html(title: &str, spec_url: &str) -> (r: String)
    ensures
        r@ == page_text(title@, spec_url@),
{
    "<!DOCTYPE html>\n<html lang=\"es\">\n<head>\n  <meta charset=\"utf-8\" />\n  <meta name=\"viewport\" content=\"width=device-width, initial-scale=1\" />\n  <title>".to_owned().concat(
        title,
    ).concat(
        " — API docs</title>\n  <link rel=\"stylesheet\" href=\"https://unpkg.com/swagger-ui-dist@5/swagger-ui.css\" />\n</head>\n<body>\n  <div id=\"swagger-ui\"></div>\n  <script src=\"https://unpkg.com/swagger-ui-dist@5/swagger-ui-bundle.js\"></script>\n  <script>\n    window.onload = () => {\n      SwaggerUIBundle({ url: \"",
    ).concat(spec_url).concat(
        "\", dom_id: \"#swagger-ui\" });\n    };\n  </script>\n</body>\n</html>\n",
    )
}

/// The response that carries the page.
pub fn page_response(html: &str) -> (r: Response)
    ensures
        r@ == (ResponseView {
            content_type: "text/html; charset=utf-8"@,
            ..ResponseView::text(html@)
        }),
{
    Response::send(html).content_type("text/html; charset=utf-8")
}

/// The path of the page below a prefix.
pub open spec fn page_path(prefix: Seq<char>) -> Seq<char> {
    "/"@ + without_last_slashes(without_first_slashes(prefix))
}

/// The path of the description below a prefix.
pub open spec fn document_path(prefix: Seq<char>) -> Seq<char> {
    without_last_slashes(page_path(prefix)) + "/openapi.json"@
}

/// The paths of the page and of the description below a prefix.
pub fn docs_paths(prefix: &str) -> (r: (String, String))
    ensures
        r.0@ == page_path(prefix@),
        r.1@ == document_path(prefix@),
{
    let bare: String = strip_last_slashes(strip_first_slashes(prefix).as_str());
    let page: String = "/".to_owned().concat(bare.as_str());
    let document: String = strip_last_slashes(page.as_str()).concat("/openapi.json");
    (page, document)
}

impl App {
    /// A description of the routes so far.
    pub fn openapi(&self, title: &str, version: &str) -> (r: Document)
        ensures
            r.wf(),
            r.title@ == title@,
            r.version@ == version@,
            forall|p: Seq<char>, m: Seq<char>| #[trigger]
                r.lookup(p, m) == told_in(
                    Seq::new(self.router@.routes.len(), |i: int| self.router@.routes[i].info()),
                    p,
                    m,
                ),
    {
        let routes: Vec<RouteInfo> = self.routes();
        assert(infos(routes@) =~= Seq::new(
            self.router@.routes.len(),
            |i: int| self.router@.routes[i].info(),
        ));
        build_document(title, version, &routes)
    }

    /// Serves the description of the routes so far, and the page that shows it, below a
    /// prefix. Gives the description and the page, for the two handlers to send.
    pub fn serve_docs(
        &mut self,
        prefix: &str,
        title: &str,
        version: &str,
        document_handler: u64,
        page_handler: u64,
    ) -> (r: (Document, String))
        requires
            old(self).wf(),
        ensures
            final(self).wf(),
            r.0.wf(),
            r.0.title@ == title@,
            r.0.version@ == version@,
            forall|p: Seq<char>, m: Seq<char>| #[trigger]
                r.0.lookup(p, m) == told_in(
                    Seq::new(
                        old(self).router@.routes.len(),
                        |i: int| old(self).router@.routes[i].info(),
                    ),
                    p,
                    m,
                ),
            r.1@ == page_text(title@, document_path(prefix@)),
            final(self).router@ == old(self).router@.with_route(
                RouteView::plain(
                    "GET"@,
                    document_path(prefix@),
                    document_handler,
                    RouteKind::Http,
                ),
            ).with_route(
                RouteView::plain("GET"@, page_path(prefix@), page_handler, RouteKind::Http),
            ),
            *final(self) == (App { router: final(self).router, ..*old(self) }),
    {
        let document: Document = self.openapi(title, version);
        let (page, url): (String, String) = docs_paths(prefix);
        let html: String = swagger_ui_html(title, url.as_str());
        let _first: RouteHandle<'_> = self.get(url.as_str(), document_handler);
        let _second: RouteHandle<'_> = self.get(page.as_str(), page_handler);
        (document, html)
    }
}

/// A text with spaces behind it, up to a width.
pub open spec fn padded(s: Seq<char>, width: nat) -> Seq<char>
    decreases width - s.len(),
{
    if s.len() >= width {
        s
    } else {
        padded(s.push(' '), width)
    }
}

/// A route on one line: its method, up to seven wide, and its path.
pub fn route_line(route: &RouteInfo) -> (r: String)
    ensures
        r@ == padded(route@.method, 7) + " "@ + route@.path,
{
    let mut method: String = route.method.clone();
    let mut n: usize = chars(method.as_str()).len();
    while n < 7
        invariant
            n == method@.len(),
            padded(method@, 7) == padded(route@.method, 7),
        decreases 7 - n,
    {
        method.push(' ');
        n += 1;
    }
    method.concat(" ").concat(route.path.as_str())
}

/// Paths are told with their names in braces, and the names are told in their order.
pub proof fn law_paths_are_told_with_braces(
    segments: Seq<Seq<char>>,
    name: Seq<char>,
    text: Seq<char>,
)
    requires
        text.len() > 0,
        text[0] != ':' && text[0] != '*',
    ensures
        told_segments(segments.push(seq![':'] + name)) == told_segments(segments) + seq!['/', '{']
            + name + seq!['}'],
        told_segments(segments.push(seq!['*'] + name)) == told_segments(segments) + seq!['/', '{']
            + name + seq!['}'],
        told_segments(segments.push(text)) == told_segments(segments) + seq!['/'] + text,
        told_segments(Seq::empty()) == Seq::<char>::empty(),
        names_in(segments.push(seq![':'] + name)) == names_in(segments).push(name),
        names_in(segments.push(seq!['*'] + name)) == names_in(segments).push(name),
        names_in(segments.push(text)) == names_in(segments),
        names_in(Seq::empty()).len() == 0,
        forall|p: Seq<char>|
            segments_of(p).len() == 0 ==> #[trigger] told_path(p) == seq!['/'],
        forall|p: Seq<char>|
            segments_of(p).len() > 0 ==> #[trigger] told_path(p) == told_segments(segments_of(p)),
{
    reveal_strlit("/");
    reveal_strlit("{");
    reveal_strlit("}");
    let a = seq![':'] + name;
    let b = seq!['*'] + name;
    assert(a.skip(1) =~= name);
    assert(b.skip(1) =~= name);
    assert(segments.push(a).drop_last() =~= segments);
    assert(segments.push(b).drop_last() =~= segments);
    assert(segments.push(text).drop_last() =~= segments);
    assert(told_segments(segments.push(a)) =~= told_segments(segments) + seq!['/', '{'] + name
        + seq!['}']);
    assert(told_segments(segments.push(b)) =~= told_segments(segments) + seq!['/', '{'] + name
        + seq!['}']);
    assert(told_segments(segments.push(text)) =~= told_segments(segments) + seq!['/'] + text);
    assert("/"@ =~= seq!['/']);
}

/// A route is told under its path and its method in small letters, with what it says of
/// itself and the names in its path; one for all methods is not told. Of two routes at one
/// place the last is told.
pub proof fn law_routes_are_told_at_their_place(
    routes: Seq<RouteInfoView>,
    r: RouteInfoView,
    path: Seq<char>,
    method: Seq<char>,
)
    ensures
        told_in(Seq::empty(), path, method) is None,
        r.method != "*"@ && told_path(r.path) == path && lower(r.method) == method ==> told_in(
            routes.push(r),
            path,
            method,
        ) == Some(
            OperationView {
                summary: r.summary,
                description: r.description,
                tags: r.tags,
                parameters: names_in(segments_of(r.path)),
            },
        ),
        r.method == "*"@ || told_path(r.path) != path || lower(r.method) != method ==> told_in(
            routes.push(r),
            path,
            method,
        ) == told_in(routes, path, method),
{
    assert(routes.push(r).drop_last() =~= routes);
}

/// The members of an object, as contracts speak of them.
pub open spec fn member(j: JsonView, name: Seq<char>) -> Option<JsonView> {
    match j {
        JsonView::Object(m) => if m.contains_key(name) {
            Some(m[name])
        } else {
            None
        },
        _ => None,
    }
}

/// A description has its version, its title, and its operations by path and by method.
pub proof fn law_descriptions_have_their_shape(d: Document, path: Seq<char>, method: Seq<char>)
    ensures
        member(d.json(), "openapi"@) == Some(JsonView::Text("3.0.3"@)),
        member(d.json(), "info"@) matches Some(info) && member(info, "title"@) == Some(
            JsonView::Text(d.title@),
        ) && member(info, "version"@) == Some(JsonView::Text(d.version@)),
        member(d.json(), "paths"@) matches Some(paths) && {
            &&& d.lookup(path, method) matches Some(op) ==> (member(paths, path) matches Some(at)
                && member(at, method) == Some(operation_json(op)))
            &&& d.lookup(path, method) is None ==> (member(paths, path) matches Some(at) ==> member(
                at,
                method,
            ) is None)
            &&& (forall|m: Seq<char>| #[trigger] d.lookup(path, m) is None) ==> member(paths, path)
                is None
        },
{
    reveal_strlit("openapi");
    reveal_strlit("info");
    reveal_strlit("paths");
    reveal_strlit("title");
    reveal_strlit("version");
    assert("openapi"@.len() == 7 && "info"@.len() == 4 && "paths"@.len() == 5);
    assert("title"@.len() == 5 && "version"@.len() == 7);
    if d.lookup(path, method) is Some {
        assert(d.has_path(path));
    }
}

/// An operation tells what was said of its route, and only that, the names in its path as
/// texts that must be given, and one response.
pub proof fn law_operations_tell_what_was_said(op: OperationView, i: int)
    ensures
        op.summary matches Some(s) ==> member(operation_json(op), "summary"@) == Some(
            JsonView::Text(s),
        ),
        op.summary is None ==> member(operation_json(op), "summary"@) is None,
        op.description matches Some(s) ==> member(operation_json(op), "description"@) == Some(
            JsonView::Text(s),
        ),
        op.description is None ==> member(operation_json(op), "description"@) is None,
        op.tags.len() == 0 ==> member(operation_json(op), "tags"@) is None,
        op.tags.len() > 0 ==> (member(operation_json(op), "tags"@) matches Some(
            JsonView::List(list),
        ) && list.len() == op.tags.len() && (0 <= i < op.tags.len() ==> list[i] == JsonView::Text(
            op.tags[i],
        ))),
        op.parameters.len() == 0 ==> member(operation_json(op), "parameters"@) is None,
        op.parameters.len() > 0 ==> (member(operation_json(op), "parameters"@) matches Some(
            JsonView::List(list),
        ) && list.len() == op.parameters.len() && (0 <= i < op.parameters.len() ==> {
            &&& member(list[i], "name"@) == Some(JsonView::Text(op.parameters[i]))
            &&& member(list[i], "in"@) == Some(JsonView::Text("path"@))
            &&& member(list[i], "required"@) == Some(JsonView::Bool(true))
            &&& member(list[i], "schema"@) matches Some(schema) && member(schema, "type"@) == Some(
                JsonView::Text("string"@),
            )
        })),
        member(operation_json(op), "responses"@) matches Some(all) && (member(all, "200"@) matches
            Some(ok) && member(ok, "description"@) == Some(JsonView::Text("OK"@))),
{
    reveal_strlit("summary");
    reveal_strlit("description");
    reveal_strlit("tags");
    reveal_strlit("parameters");
    reveal_strlit("responses");
    reveal_strlit("name");
    reveal_strlit("in");
    reveal_strlit("required");
    reveal_strlit("schema");
    assert("summary"@.len() == 7 && "description"@.len() == 11 && "tags"@.len() == 4
        && "parameters"@.len() == 10 && "responses"@.len() == 9);
    assert("name"@.len() == 4 && "in"@.len() == 2 && "required"@.len() == 8 && "schema"@.len()
        == 6);
}

/// The description and the page that shows it stand below one prefix, whatever slashes it
/// was given with.
pub proof fn law_docs_stand_below_their_prefix(prefix: Seq<char>)
    requires
        prefix.len() > 0,
        prefix[0] != '/',
        prefix.last() != '/',
    ensures
        page_path(prefix) == seq!['/'] + prefix,
        page_path(seq!['/'] + prefix) == seq!['/'] + prefix,
        page_path(prefix + seq!['/']) == seq!['/'] + prefix,
        document_path(prefix) == seq!['/'] + prefix + "/openapi.json"@,
        document_path(seq!['/'] + prefix) == seq!['/'] + prefix + "/openapi.json"@,
{
    reveal_strlit("/");
    assert("/"@ =~= seq!['/']);
    let a = seq!['/'] + prefix;
    let b = prefix + seq!['/'];
    assert(a.skip(1) =~= prefix);
    assert(b.drop_last() =~= prefix);
    assert(a.last() == prefix.last());
    assert(b[0] == prefix[0]);
}

/// A route is told on one line, with its method seven wide and its path behind it.
pub proof fn law_short_methods_are_filled_up(s: Seq<char>)
    ensures
        s.len() >= 7 ==> padded(s, 7) == s,
        s.len() < 7 ==> padded(s, 7).len() == 7 && padded(s, 7).take(s.len() as int) == s,
        forall|i: int| s.len() <= i < padded(s, 7).len() ==> #[trigger] padded(s, 7)[i] == ' ',
    decreases 7 - s.len(),
{
    if s.len() < 7 {
        law_short_methods_are_filled_up(s.push(' '));
        let p = padded(s, 7);
        assert(p == padded(s.push(' '), 7));
        if s.len() + 1 < 7 {
            assert(p.take(s.len() as int + 1) == s.push(' '));
        } else {
            assert(p == s.push(' '));
        }
        assert(p.take(s.len() as int) =~= s) by {
            assert forall|i: int| 0 <= i < s.len() implies p[i] == s[i] by {
                if s.len() + 1 < 7 {
                    assert(p.take(s.len() as int + 1)[i] == s.push(' ')[i]);
                }
            }
        }
        assert forall|i: int| s.len() <= i < p.len() implies #[trigger] p[i] == ' ' by {
            if i == s.len() && s.len() + 1 < 7 {
                assert(p.take(s.len() as int + 1)[i] == s.push(' ')[i]);
            }
        }
    }
}

} // verus!
