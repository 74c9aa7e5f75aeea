//! OpenAPI 3.0 document generation.
//!
//! Declare the API surface with a builder; the server serves the JSON
//! document and a Swagger UI page. Schemas of payload types come from
//! their JSON schema, handed to [`PathDoc::query_schema`],
//! [`PathDoc::body_schema`] and [`PathDoc::resp_schema`].

use vstd::prelude::*;

use crate::extract::ascii_lower;
use crate::json::{
    fields_view, items_view, json_clone, lemma_array_view, lemma_obj_get_set, lemma_object_view, obj_get,
    obj_get_field, obj_set, obj_set_field, Json, JsonValue,
};
use crate::resp::{int_text, push_i64};
use crate::sse::opt_text;
use crate::text::{chars_to_string, str_chars};

verus! {

/// The `Resp` envelope shape wrapping a data schema.
pub open spec fn envelope_model(data: Json) -> Json {
    Json::Object(
        seq![
            ("type"@, Json::Str("object"@)),
            (
                "properties"@,
                Json::Object(
                    seq![
                        (
                            "code"@,
                            Json::Object(
                                seq![
                                    ("type"@, Json::Str("integer"@)),
                                    ("description"@, Json::Str("0 = success"@)),
                                ],
                            ),
                        ),
                        ("msg"@, Json::Object(seq![("type"@, Json::Str("string"@))])),
                        ("data"@, data),
                    ],
                ),
            ),
            ("required"@, Json::Array(seq![Json::Str("code"@), Json::Str("msg"@)])),
        ],
    )
}

/// The types of a schema's `type` list other than `"null"`.
pub open spec fn non_null(ts: Seq<Json>) -> Seq<Json>
    decreases ts.len(),
{
    if ts.len() == 0 {
        Seq::empty()
    } else if ts.last() == Json::Str("null"@) {
        non_null(ts.drop_last())
    } else {
        non_null(ts.drop_last()).push(ts.last())
    }
}

/// A schema whose `type` is a list with `"null"` and exactly one other
/// type gets that one type (the field becomes absent and non-required
/// instead of nullable); any other schema is unchanged.
pub open spec fn strip_null_model(schema: Json) -> Json {
    match schema {
        Json::Object(fs) => match obj_get(fs, "type"@) {
            Some(Json::Array(ts)) => if non_null(ts).len() == 1 {
                Json::Object(obj_set(fs, "type"@, non_null(ts)[0]))
            } else {
                schema
            },
            _ => schema,
        },
        _ => schema,
    }
}

/// One parameter entry of an operation.
pub open spec fn param_model(name: Seq<char>, place: Seq<char>, required: bool, schema: Json) -> Json {
    Json::Object(
        seq![
            ("name"@, Json::Str(name)),
            ("in"@, Json::Str(place)),
            ("required"@, Json::Bool(required)),
            ("schema"@, schema),
        ],
    )
}

/// A declared path parameter: a required string.
pub open spec fn path_param_model(name: Seq<char>, description: Seq<char>) -> Json {
    Json::Object(
        seq![
            ("name"@, Json::Str(name)),
            ("in"@, Json::Str("path"@)),
            ("required"@, Json::Bool(true)),
            ("schema"@, Json::Object(seq![("type"@, Json::Str("string"@))])),
            ("description"@, Json::Str(description)),
        ],
    )
}

/// The value of a field of an object, `None` for anything else.
pub open spec fn get_field(v: Json, k: Seq<char>) -> Option<Json> {
    match v {
        Json::Object(fs) => obj_get(fs, k),
        _ => None,
    }
}

/// Whether a schema's `required` list names `name`.
pub open spec fn required_names(required: Option<Json>, name: Seq<char>) -> bool {
    match required {
        Some(Json::Array(r)) => exists|j: int| 0 <= j < r.len() && #[trigger] r[j] == Json::Str(name),
        _ => false,
    }
}

/// The query parameters a struct's JSON schema declares: one per
/// property, in order, required when the schema lists it as required, its
/// schema with `null` stripped.
pub open spec fn query_params_model(schema: Json) -> Seq<Json> {
    let props = match get_field(schema, "properties"@) {
        Some(p) => p,
        None => Json::Object(Seq::empty()),
    };
    let required = get_field(schema, "required"@);
    match props {
        Json::Object(ps) => Seq::new(
            ps.len(),
            |i: int|
                param_model(
                    ps[i].0,
                    "query"@,
                    required_names(required, ps[i].0),
                    strip_null_model(ps[i].1),
                ),
        ),
        _ => Seq::empty(),
    }
}

/// One declared operation, as text and JSON models.
pub struct PathDocView {
    /// The method name as given (`GET`).
    pub method: Seq<char>,
    /// The route pattern.
    pub path: Seq<char>,
    /// One-line summary.
    pub summary: Option<Seq<char>>,
    /// Longer description.
    pub description: Option<Seq<char>>,
    /// The tag that groups the operation.
    pub tag: Option<Seq<char>>,
    /// Declared parameters.
    pub params: Seq<Json>,
    /// The request body schema.
    pub request_schema: Option<Json>,
    /// Declared responses: status, description, schema.
    pub responses: Seq<(i64, Seq<char>, Option<Json>)>,
}

/// A declaration with nothing but its method and path.
pub open spec fn fresh_doc(method: Seq<char>, path: Seq<char>) -> PathDocView {
    PathDocView {
        method,
        path,
        summary: None,
        description: None,
        tag: None,
        params: Seq::empty(),
        request_schema: None,
        responses: Seq::empty(),
    }
}

/// The model of an optional value.
pub open spec fn opt_json(o: Option<JsonValue>) -> Option<Json> {
    match o {
        Some(v) => Some(v@),
        None => None,
    }
}

/// The JSON wrapping of a schema as `application/json` content.
pub open spec fn json_content_model(schema: Json) -> Json {
    Json::Object(seq![("application/json"@, Json::Object(seq![("schema"@, schema)]))])
}

/// One response entry.
pub open spec fn response_model(description: Seq<char>, schema: Option<Json>) -> Json {
    let base = seq![("description"@, Json::Str(description))];
    match schema {
        Some(s) => Json::Object(obj_set(base, "content"@, json_content_model(s))),
        None => Json::Object(base),
    }
}

/// The `responses` object: keyed by status text, a later declaration of a
/// status replacing an earlier one.
pub open spec fn responses_model(rs: Seq<(i64, Seq<char>, Option<Json>)>) -> Seq<(Seq<char>, Json)>
    decreases rs.len(),
{
    if rs.len() == 0 {
        Seq::empty()
    } else {
        obj_set(
            responses_model(rs.drop_last()),
            int_text(rs.last().0),
            response_model(rs.last().1, rs.last().2),
        )
    }
}

/// `fs` with `k` set to `v` when `o` holds a value.
pub open spec fn set_if(fs: Seq<(Seq<char>, Json)>, k: Seq<char>, o: Option<Json>) -> Seq<(Seq<char>, Json)> {
    match o {
        Some(v) => obj_set(fs, k, v),
        None => fs,
    }
}

/// The text as a JSON string, when present.
pub open spec fn opt_str(o: Option<Seq<char>>) -> Option<Json> {
    match o {
        Some(s) => Some(Json::Str(s)),
        None => None,
    }
}

/// The operation object of a declaration.
pub open spec fn operation_model(d: PathDocView) -> Json {
    let f1 = set_if(Seq::empty(), "summary"@, opt_str(d.summary));
    let f2 = set_if(f1, "description"@, opt_str(d.description));
    let f3 = set_if(
        f2,
        "tags"@,
        match d.tag {
            Some(t) => Some(Json::Array(seq![Json::Str(t)])),
            None => None,
        },
    );
    let f4 = set_if(
        f3,
        "parameters"@,
        if d.params.len() > 0 {
            Some(Json::Array(d.params))
        } else {
            None
        },
    );
    let f5 = set_if(
        f4,
        "requestBody"@,
        match d.request_schema {
            Some(s) => Some(
                Json::Object(
                    seq![("required"@, Json::Bool(true)), ("content"@, json_content_model(s))],
                ),
            ),
            None => None,
        },
    );
    Json::Object(obj_set(f5, "responses"@, Json::Object(responses_model(d.responses))))
}

proof fn lemma_set_if_get(fs: Seq<(Seq<char>, Json)>, k: Seq<char>, o: Option<Json>, k2: Seq<char>)
    ensures
        k2 != k ==> obj_get(set_if(fs, k, o), k2) == obj_get(fs, k2),
        o is Some ==> obj_get(set_if(fs, k, o), k) == o,
{
    if o is Some {
        lemma_obj_get_set(fs, k, o->0, k2);
    }
}

/// The operation object of a declaration carries what was declared: its
/// summary and description as JSON strings (absent when not declared), its
/// tag in a one-element `tags` list, and its `responses` object.
pub proof fn lemma_operation_fields(d: PathDocView)
    ensures
        get_field(operation_model(d), "summary"@) == opt_str(d.summary),
        get_field(operation_model(d), "description"@) == opt_str(d.description),
        get_field(operation_model(d), "tags"@) == match d.tag {
            Some(t) => Some(Json::Array(seq![Json::Str(t)])),
            None => None,
        },
        get_field(operation_model(d), "responses"@) == Some(
            Json::Object(responses_model(d.responses)),
        ),
{
    reveal_strlit("summary");
    reveal_strlit("description");
    reveal_strlit("tags");
    reveal_strlit("parameters");
    reveal_strlit("requestBody");
    reveal_strlit("responses");
    let sm = "summary"@;
    let de = "description"@;
    let tg = "tags"@;
    let pa = "parameters"@;
    let rb = "requestBody"@;
    let rs = "responses"@;
    assert(sm != de && sm != tg && sm != pa && sm != rb && sm != rs) by {
        assert(sm.len() != de.len() && sm.len() != tg.len() && sm.len() != pa.len());
        assert(sm.len() != rb.len() && sm.len() != rs.len());
    }
    assert(de != tg && de != pa && de != rb && de != rs) by {
        assert(de.len() != tg.len() && de.len() != pa.len() && de.len() != rs.len());
        assert(de[0] != rb[0]);
    }
    assert(tg != pa && tg != rb && tg != rs) by {
        assert(tg.len() != pa.len() && tg.len() != rb.len() && tg.len() != rs.len());
    }
    let tags = match d.tag {
        Some(t) => Some(Json::Array(seq![Json::Str(t)])),
        None => None,
    };
    let params = if d.params.len() > 0 {
        Some(Json::Array(d.params))
    } else {
        None
    };
    let body = match d.request_schema {
        Some(sc) => Some(
            Json::Object(seq![("required"@, Json::Bool(true)), ("content"@, json_content_model(sc))]),
        ),
        None => None,
    };
    let f0 = Seq::<(Seq<char>, Json)>::empty();
    let f1 = set_if(f0, sm, opt_str(d.summary));
    let f2 = set_if(f1, de, opt_str(d.description));
    let f3 = set_if(f2, tg, tags);
    let f4 = set_if(f3, pa, params);
    let f5 = set_if(f4, rb, body);
    let resp = Json::Object(responses_model(d.responses));
    assert(operation_model(d) == Json::Object(obj_set(f5, rs, resp)));
    lemma_obj_get_set(f5, rs, resp, sm);
    lemma_obj_get_set(f5, rs, resp, de);
    lemma_obj_get_set(f5, rs, resp, tg);
    lemma_set_if_get(f4, rb, body, sm);
    lemma_set_if_get(f4, rb, body, de);
    lemma_set_if_get(f4, rb, body, tg);
    lemma_set_if_get(f3, pa, params, sm);
    lemma_set_if_get(f3, pa, params, de);
    lemma_set_if_get(f3, pa, params, tg);
    lemma_set_if_get(f2, tg, tags, sm);
    lemma_set_if_get(f2, tg, tags, de);
    lemma_set_if_get(f2, tg, tags, tg);
    lemma_set_if_get(f1, de, opt_str(d.description), sm);
    lemma_set_if_get(f1, de, opt_str(d.description), de);
    lemma_set_if_get(f0, sm, opt_str(d.summary), sm);
    lemma_set_if_get(f0, sm, opt_str(d.summary), de);
    assert(obj_get(f0, de) is None);
    assert(obj_get(f0, sm) is None);
    assert(obj_get(f1, tg) is None) by {
        lemma_set_if_get(f0, sm, opt_str(d.summary), tg);
    }
    assert(obj_get(f2, tg) is None) by {
        lemma_set_if_get(f1, de, opt_str(d.description), tg);
    }
}

/// The key of a method in a path item: its name in lower case.
pub open spec fn method_key(m: Seq<char>) -> Seq<char> {
    Seq::new(m.len(), |i: int| ascii_lower(m[i]))
}

/// The `paths` object of a document: each declaration's operation under
/// its path and method key, later declarations replacing earlier ones.
pub open spec fn paths_model(docs: Seq<PathDocView>) -> Seq<(Seq<char>, Json)>
    decreases docs.len(),
{
    if docs.len() == 0 {
        Seq::empty()
    } else {
        let prev = paths_model(docs.drop_last());
        let d = docs.last();
        let item = match obj_get(prev, d.path) {
            Some(Json::Object(fs)) => fs,
            _ => Seq::empty(),
        };
        obj_set(prev, d.path, Json::Object(obj_set(item, method_key(d.method), operation_model(d))))
    }
}

/// The API document, as text and declarations.
pub struct OpenApiView {
    /// The API title.
    pub title: Seq<char>,
    /// The API version.
    pub version: Seq<char>,
    /// The API description.
    pub description: Option<Seq<char>>,
    /// The declared operations, in order.
    pub paths: Seq<PathDocView>,
}

/// The OpenAPI 3.0 document.
pub open spec fn document_model(d: OpenApiView) -> Json {
    let info = set_if(
        seq![("title"@, Json::Str(d.title)), ("version"@, Json::Str(d.version))],
        "description"@,
        opt_str(d.description),
    );
    Json::Object(
        seq![
            ("openapi"@, Json::Str("3.0.3"@)),
            ("info"@, Json::Object(info)),
            ("paths"@, Json::Object(paths_model(d.paths))),
        ],
    )
}

/// The API document: title, version, and a list of declared paths.
pub struct OpenApi {
    title: String,
    version: String,
    description: Option<String>,
    paths: Vec<PathDoc>,
}

/// One declared operation: `PathDoc::get("/users/{id}")...`.
pub struct PathDoc {
    method: &'static str,
    path: String,
    summary: Option<String>,
    description: Option<String>,
    tag: Option<String>,
    params: Vec<JsonValue>,
    request_schema: Option<JsonValue>,
    responses: Vec<(i64, String, Option<JsonValue>)>,
}

/// The model of each declared response.
pub open spec fn responses_view(rs: Seq<(i64, String, Option<JsonValue>)>) -> Seq<
    (i64, Seq<char>, Option<Json>),
> {
    Seq::new(rs.len(), |i: int| (rs[i].0, rs[i].1@, opt_json(rs[i].2)))
}

impl View for PathDoc {
    type V = PathDocView;

    closed spec fn view(&self) -> PathDocView {
        PathDocView {
            method: self.method@,
            path: self.path@,
            summary: opt_text(self.summary),
            description: opt_text(self.description),
            tag: opt_text(self.tag),
            params: items_view(self.params@),
            request_schema: opt_json(self.request_schema),
            responses: responses_view(self.responses@),
        }
    }
}

/// The model of each declaration.
pub open spec fn docs_view(v: Seq<PathDoc>) -> Seq<PathDocView> {
    Seq::new(v.len(), |i: int| v[i]@)
}

impl View for OpenApi {
    type V = OpenApiView;

    closed spec fn view(&self) -> OpenApiView {
        OpenApiView {
            title: self.title@,
            version: self.version@,
            description: opt_text(self.description),
            paths: docs_view(self.paths@),
        }
    }
}

/// A string value.
fn jstr(text: &str) -> (v: JsonValue)
    ensures
        v@ == Json::Str(text@),
{
    JsonValue::Str(text.to_owned())
}

/// An object value.
fn jobj(fields: Vec<(String, JsonValue)>) -> (v: JsonValue)
    ensures
        v@ == Json::Object(fields_view(fields@)),
{
    proof {
        lemma_object_view(fields);
    }
    JsonValue::Object(fields)
}

/// An array value.
fn jarr(items: Vec<JsonValue>) -> (v: JsonValue)
    ensures
        v@ == Json::Array(items_view(items@)),
{
    proof {
        lemma_array_view(items);
    }
    JsonValue::Array(items)
}

/// One field.
fn jfield(k: &str, v: JsonValue) -> (f: (String, JsonValue))
    ensures
        f.0@ == k@,
        f.1 == v,
{
    (k.to_owned(), v)
}

/// The `Resp` envelope shape wrapping a data schema.
pub fn envelope(data: JsonValue) -> (r: JsonValue)
    ensures
        r@ == envelope_model(data@),
{
    let ghost d = data@;
    let code = jobj(vec![jfield("type", jstr("integer")), jfield("description", jstr("0 = success"))]);
    let ghost code_v = code@;
    assert(code_v == Json::Object(
        seq![("type"@, Json::Str("integer"@)), ("description"@, Json::Str("0 = success"@))],
    )) by {
        assert(code_v->Object_0 =~= seq![("type"@, Json::Str("integer"@)), ("description"@, Json::Str("0 = success"@))]);
    }
    let msg = jobj(vec![jfield("type", jstr("string"))]);
    let ghost msg_v = msg@;
    assert(msg_v == Json::Object(seq![("type"@, Json::Str("string"@))])) by {
        assert(msg_v->Object_0 =~= seq![("type"@, Json::Str("string"@))]);
    }
    let props = jobj(vec![jfield("code", code), jfield("msg", msg), jfield("data", data)]);
    let ghost props_v = props@;
    assert(props_v->Object_0 =~= seq![("code"@, code_v), ("msg"@, msg_v), ("data"@, d)]);
    let required = jarr(vec![jstr("code"), jstr("msg")]);
    let ghost req_v = required@;
    assert(req_v->Array_0 =~= seq![Json::Str("code"@), Json::Str("msg"@)]);
    let r = jobj(vec![jfield("type", jstr("object")), jfield("properties", props), jfield("required", required)]);
    assert(r@->Object_0 =~= envelope_model(d)->Object_0);
    r
}

/// The types of a `type` list other than `"null"`.
fn non_null_types(ts: &Vec<JsonValue>) -> (r: Vec<JsonValue>)
    ensures
        items_view(r@) == non_null(items_view(ts@)),
{
    let ghost all = items_view(ts@);
    let mut out: Vec<JsonValue> = Vec::new();
    let mut i: usize = 0;
    assert(all.subrange(0, 0) =~= Seq::<Json>::empty());
    while i < ts.len()
        invariant
            all == items_view(ts@),
            i <= ts@.len(),
            items_view(out@) == non_null(all.subrange(0, i as int)),
        decreases ts@.len() - i,
    {
        let ghost pre = all.subrange(0, i + 1);
        assert(pre.drop_last() =~= all.subrange(0, i as int));
        assert(pre.last() == ts@[i as int]@);
        let is_null = match &ts[i] {
            JsonValue::Str(s) => crate::chars::str_eq(s.as_str(), "null"),
            _ => false,
        };
        assert(is_null == (ts@[i as int]@ == Json::Str("null"@)));
        if !is_null {
            let ghost prev = out@;
            out.push(json_clone(&ts[i]));
            assert(items_view(out@) =~= items_view(prev).push(ts@[i as int]@));
        }
        i = i + 1;
    }
    assert(all.subrange(0, ts@.len() as int) =~= all);
    out
}

/// schemars marks optional fields with a `null` type entry; OpenAPI
/// prefers absent and non-required.
pub fn strip_null(schema: &JsonValue) -> (r: JsonValue)
    ensures
        r@ == strip_null_model(schema@),
{
    match schema {
        JsonValue::Object(fs) => {
            proof {
                lemma_object_view(*fs);
            }
            match obj_get_field(fs, "type") {
                Some(JsonValue::Array(ts)) => {
                    proof {
                        lemma_array_view(*ts);
                    }
                    let kept = non_null_types(ts);
                    if kept.len() == 1 {
                        let mut out = clone_fields(fs);
                        let t = json_clone(&kept[0]);
                        obj_set_field(&mut out, "type".to_owned(), t);
                        jobj(out)
                    } else {
                        json_clone(schema)
                    }
                },
                _ => json_clone(schema),
            }
        },
        _ => json_clone(schema),
    }
}

/// A copy of an object's fields.
fn clone_fields(fs: &Vec<(String, JsonValue)>) -> (r: Vec<(String, JsonValue)>)
    ensures
        fields_view(r@) == fields_view(fs@),
{
    let mut out: Vec<(String, JsonValue)> = Vec::new();
    let mut i: usize = 0;
    while i < fs.len()
        invariant
            i <= fs@.len(),
            out@.len() == i,
            forall|j: int|
                0 <= j < i ==> (#[trigger] out@[j]).0@ == fs@[j].0@ && out@[j].1@ == fs@[j].1@,
        decreases fs@.len() - i,
    {
        out.push((fs[i].0.clone(), json_clone(&fs[i].1)));
        i = i + 1;
    }
    assert(fields_view(out@) =~= fields_view(fs@));
    out
}

/// The method name in lower case.
fn lower_name(m: &str) -> (r: String)
    ensures
        r@ == method_key(m@),
{
    let cs = str_chars(m);
    let mut out: Vec<char> = Vec::new();
    let mut i: usize = 0;
    while i < cs.len()
        invariant
            cs@ == m@,
            i <= cs@.len(),
            out@ =~= Seq::new(i as nat, |j: int| ascii_lower(cs@[j])),
        decreases cs@.len() - i,
    {
        let c = cs[i];
        let l = if 'A' <= c && c <= 'Z' {
            let b = (c as u32 + 32) as u8;
            b as char
        } else {
            c
        };
        assert(l == ascii_lower(c));
        out.push(l);
        i = i + 1;
    }
    chars_to_string(out.as_slice())
}

impl PathDoc {
    /// Declare an operation for `method` at `path`.
    pub fn new(method: &'static str, path: String) -> (d: PathDoc)
        ensures
            d@ == fresh_doc(method@, path@),
    {
        let d = PathDoc {
            method,
            path,
            summary: None,
            description: None,
            tag: None,
            params: Vec::new(),
            request_schema: None,
            responses: Vec::new(),
        };
        assert(d@.params =~= Seq::<Json>::empty());
        assert(d@.responses =~= Seq::<(i64, Seq<char>, Option<Json>)>::empty());
        d
    }

    /// Declare a `GET` operation.
    pub fn get(path: String) -> (d: PathDoc)
        ensures
            d@ == fresh_doc("GET"@, path@),
    {
        PathDoc::new("GET", path)
    }

    /// Declare a `POST` operation.
    pub fn post(path: String) -> (d: PathDoc)
        ensures
            d@ == fresh_doc("POST"@, path@),
    {
        PathDoc::new("POST", path)
    }

    /// Declare a `PUT` operation.
    pub fn put(path: String) -> (d: PathDoc)
        ensures
            d@ == fresh_doc("PUT"@, path@),
    {
        PathDoc::new("PUT", path)
    }

    /// Declare a `PATCH` operation.
    pub fn patch(path: String) -> (d: PathDoc)
        ensures
            d@ == fresh_doc("PATCH"@, path@),
    {
        PathDoc::new("PATCH", path)
    }

    /// Declare a `DELETE` operation.
    pub fn delete(path: String) -> (d: PathDoc)
        ensures
            d@ == fresh_doc("DELETE"@, path@),
    {
        PathDoc::new("DELETE", path)
    }
}

impl PathDoc {
    /// One-line summary (shown next to the path in Swagger UI).
    pub fn summary(self, summary: String) -> (d: PathDoc)
        ensures
            d@ == (PathDocView { summary: Some(summary@), ..self@ }),
    {
        PathDoc { summary: Some(summary), ..self }
    }

    /// Longer operation description.
    pub fn description(self, description: String) -> (d: PathDoc)
        ensures
            d@ == (PathDocView { description: Some(description@), ..self@ }),
    {
        PathDoc { description: Some(description), ..self }
    }

    /// Group the operation under a tag.
    pub fn tag(self, tag: String) -> (d: PathDoc)
        ensures
            d@ == (PathDocView { tag: Some(tag@), ..self@ }),
    {
        PathDoc { tag: Some(tag), ..self }
    }

    /// Declare a path parameter: `.path_param("id", "numeric user id")`.
    pub fn path_param(self, name: &str, description: &str) -> (d: PathDoc)
        ensures
            d@ == (PathDocView {
                params: self@.params.push(path_param_model(name@, description@)),
                ..self@
            }),
    {
        let schema = jobj(vec![jfield("type", jstr("string"))]);
        let ghost sv = schema@;
        assert(sv->Object_0 =~= seq![("type"@, Json::Str("string"@))]);
        let p = jobj(
            vec![
                jfield("name", jstr(name)),
                jfield("in", jstr("path")),
                jfield("required", JsonValue::Bool(true)),
                jfield("schema", schema),
                jfield("description", jstr(description)),
            ],
        );
        assert(p@->Object_0 =~= path_param_model(name@, description@)->Object_0);
        let mut params = self.params;
        let ghost before = params@;
        params.push(p);
        assert(items_view(params@) =~= items_view(before).push(path_param_model(name@, description@)));
        PathDoc { params, ..self }
    }

    /// Declare query parameters from a struct's JSON schema: one per
    /// property, in order. Optional (nullable) fields become non-required
    /// parameters.
    pub fn query_schema(self, schema: &JsonValue) -> (d: PathDoc)
        ensures
            d@ == (PathDocView { params: self@.params + query_params_model(schema@), ..self@ }),
    {
        let ghost sv = schema@;
        let mut params = self.params;
        let ghost before = items_view(params@);
        let (props, required): (Option<&JsonValue>, Option<&JsonValue>) = match schema {
            JsonValue::Object(fs) => {
                proof {
                    lemma_object_view(*fs);
                }
                (obj_get_field(fs, "properties"), obj_get_field(fs, "required"))
            },
            _ => (None, None),
        };
        assert(match props {
            Some(p) => get_field(sv, "properties"@) == Some(p@),
            None => get_field(sv, "properties"@) is None,
        });
        assert(match required {
            Some(r) => get_field(sv, "required"@) == Some(r@),
            None => get_field(sv, "required"@) is None,
        });
        let ghost req_v = get_field(sv, "required"@);
        let empty: Vec<(String, JsonValue)> = Vec::new();
        let ps: &Vec<(String, JsonValue)> = match props {
            Some(JsonValue::Object(ps)) => {
                proof {
                    lemma_object_view(*ps);
                }
                ps
            },
            Some(_) => {
                assert(query_params_model(sv) =~= Seq::<Json>::empty());
                assert(items_view(params@) =~= before + query_params_model(sv));
                return PathDoc { params, ..self };
            },
            None => {
                assert(fields_view(empty@) =~= Seq::<(Seq<char>, Json)>::empty());
                &empty
            },
        };
        let ghost psv = fields_view(ps@);
        assert(query_params_model(sv) =~= Seq::new(
            psv.len(),
            |i: int|
                param_model(psv[i].0, "query"@, required_names(req_v, psv[i].0), strip_null_model(psv[i].1)),
        ));
        let mut i: usize = 0;
        while i < ps.len()
            invariant
                psv == fields_view(ps@),
                i <= ps@.len(),
                match required {
                    Some(r) => req_v == Some(r@),
                    None => req_v is None,
                },
                items_view(params@) =~= before + Seq::new(
                    i as nat,
                    |j: int|
                        param_model(
                            psv[j].0,
                            "query"@,
                            required_names(req_v, psv[j].0),
                            strip_null_model(psv[j].1),
                        ),
                ),
            decreases ps@.len() - i,
        {
            let name = &ps[i].0;
            let is_required = match required {
                Some(JsonValue::Array(r)) => {
                    proof {
                        lemma_array_view(*r);
                    }
                    names_listed(r, name.as_str())
                },
                _ => false,
            };
            assert(is_required == required_names(req_v, psv[i as int].0));
            let entry = jobj(
                vec![
                    jfield("name", JsonValue::Str(name.clone())),
                    jfield("in", jstr("query")),
                    jfield("required", JsonValue::Bool(is_required)),
                    jfield("schema", strip_null(&ps[i].1)),
                ],
            );
            assert(entry@->Object_0 =~= param_model(
                psv[i as int].0,
                "query"@,
                required_names(req_v, psv[i as int].0),
                strip_null_model(psv[i as int].1),
            )->Object_0);
            let ghost prev = params@;
            params.push(entry);
            assert(items_view(params@) =~= items_view(prev).push(entry@));
            i = i + 1;
        }
        PathDoc { params, ..self }
    }

    /// Declare a JSON request body with the given schema.
    pub fn body_schema(self, schema: JsonValue) -> (d: PathDoc)
        ensures
            d@ == (PathDocView { request_schema: Some(schema@), ..self@ }),
    {
        PathDoc { request_schema: Some(schema), ..self }
    }

    /// Declare a success response whose envelope data has the given
    /// schema.
    pub fn resp_schema(self, status: u16, description: &str, schema: JsonValue) -> (d: PathDoc)
        ensures
            d@ == (PathDocView {
                responses: self@.responses.push(
                    (status as i64, description@, Some(envelope_model(schema@))),
                ),
                ..self@
            }),
    {
        let env = envelope(schema);
        let mut responses = self.responses;
        let ghost before = responses@;
        let ghost ev = env@;
        responses.push((status as i64, description.to_owned(), Some(env)));
        assert(responses_view(responses@) =~= responses_view(before).push(
            (status as i64, description@, Some(ev)),
        ));
        PathDoc { responses, ..self }
    }

    /// Declare a response without a payload (e.g. 204).
    pub fn empty_resp(self, status: u16, description: &str) -> (d: PathDoc)
        ensures
            d@ == (PathDocView {
                responses: self@.responses.push((status as i64, description@, None)),
                ..self@
            }),
    {
        let mut responses = self.responses;
        let ghost before = responses@;
        responses.push((status as i64, description.to_owned(), None));
        assert(responses_view(responses@) =~= responses_view(before).push(
            (status as i64, description@, None),
        ));
        PathDoc { responses, ..self }
    }

    /// The route pattern.
    pub fn path(&self) -> (p: &str)
        ensures
            p@ == self@.path,
    {
        self.path.as_str()
    }

    /// The operation object.
    pub fn operation_json(&self) -> (r: JsonValue)
        ensures
            r@ == operation_model(self@),
    {
        let ghost d = self@;
        let mut op: Vec<(String, JsonValue)> = Vec::new();
        assert(fields_view(op@) =~= Seq::<(Seq<char>, Json)>::empty());
        match &self.summary {
            Some(s) => obj_set_field(&mut op, "summary".to_owned(), JsonValue::Str(s.clone())),
            None => {},
        }
        assert(fields_view(op@) == set_if(Seq::empty(), "summary"@, opt_str(d.summary)));
        let ghost f1 = fields_view(op@);
        match &self.description {
            Some(s) => obj_set_field(&mut op, "description".to_owned(), JsonValue::Str(s.clone())),
            None => {},
        }
        assert(fields_view(op@) == set_if(f1, "description"@, opt_str(d.description)));
        let ghost f2 = fields_view(op@);
        match &self.tag {
            Some(t) => {
                let tags = jarr(vec![JsonValue::Str(t.clone())]);
                assert(tags@->Array_0 =~= seq![Json::Str(t@)]);
                obj_set_field(&mut op, "tags".to_owned(), tags);
            },
            None => {},
        }
        let ghost f3 = fields_view(op@);
        if self.params.len() > 0 {
            let mut items: Vec<JsonValue> = Vec::new();
            let mut i: usize = 0;
            while i < self.params.len()
                invariant
                    i <= self.params@.len(),
                    items@.len() == i,
                    forall|j: int| 0 <= j < i ==> (#[trigger] items@[j])@ == self.params@[j]@,
                decreases self.params@.len() - i,
            {
                items.push(json_clone(&self.params[i]));
                i = i + 1;
            }
            let arr = jarr(items);
            assert(arr@->Array_0 =~= d.params);
            obj_set_field(&mut op, "parameters".to_owned(), arr);
        }
        let ghost f4 = fields_view(op@);
        match &self.request_schema {
            Some(schema) => {
                let sc = json_clone(schema);
                let ghost scv = sc@;
                let inner = jobj(vec![jfield("schema", sc)]);
                assert(inner@->Object_0 =~= seq![("schema"@, scv)]);
                let content = jobj(vec![jfield("application/json", inner)]);
                assert(content@ == json_content_model(scv)) by {
                    assert(content@->Object_0 =~= json_content_model(scv)->Object_0);
                }
                let body = jobj(vec![jfield("required", JsonValue::Bool(true)), jfield("content", content)]);
                assert(body@->Object_0 =~= seq![("required"@, Json::Bool(true)), ("content"@, json_content_model(scv))]);
                obj_set_field(&mut op, "requestBody".to_owned(), body);
            },
            None => {},
        }
        let responses = responses_json(&self.responses);
        obj_set_field(&mut op, "responses".to_owned(), responses);
        jobj(op)
    }
}

/// Whether a `required` list names `name`.
fn names_listed(r: &Vec<JsonValue>, name: &str) -> (b: bool)
    ensures
        b == exists|j: int| 0 <= j < r@.len() && #[trigger] items_view(r@)[j] == Json::Str(name@),
{
    let mut i: usize = 0;
    while i < r.len()
        invariant
            i <= r@.len(),
            forall|j: int| 0 <= j < i ==> #[trigger] items_view(r@)[j] != Json::Str(name@),
        decreases r@.len() - i,
    {
        let hit = match &r[i] {
            JsonValue::Str(s) => crate::chars::str_eq(s.as_str(), name),
            _ => false,
        };
        assert(items_view(r@)[i as int] == r@[i as int]@);
        if hit {
            return true;
        }
        i = i + 1;
    }
    false
}

/// The `responses` object of an operation.
fn responses_json(rs: &Vec<(i64, String, Option<JsonValue>)>) -> (r: JsonValue)
    ensures
        r@ == Json::Object(responses_model(responses_view(rs@))),
{
    let ghost all = responses_view(rs@);
    let mut out: Vec<(String, JsonValue)> = Vec::new();
    let mut i: usize = 0;
    assert(all.subrange(0, 0) =~= Seq::<(i64, Seq<char>, Option<Json>)>::empty());
    assert(fields_view(out@) =~= Seq::<(Seq<char>, Json)>::empty());
    while i < rs.len()
        invariant
            all == responses_view(rs@),
            i <= rs@.len(),
            fields_view(out@) == responses_model(all.subrange(0, i as int)),
        decreases rs@.len() - i,
    {
        let ghost pre = all.subrange(0, i + 1);
        assert(pre.drop_last() =~= all.subrange(0, i as int));
        let (status, description, schema) = (&rs[i].0, &rs[i].1, &rs[i].2);
        let mut entry: Vec<(String, JsonValue)> = vec![jfield("description", JsonValue::Str(description.clone()))];
        let ghost base = seq![("description"@, Json::Str(description@))];
        assert(fields_view(entry@) =~= base);
        match schema {
            Some(sc) => {
                let c = json_clone(sc);
                let ghost cv = c@;
                let inner = jobj(vec![jfield("schema", c)]);
                assert(inner@->Object_0 =~= seq![("schema"@, cv)]);
                let content = jobj(vec![jfield("application/json", inner)]);
                assert(content@ == json_content_model(cv)) by {
                    assert(content@->Object_0 =~= json_content_model(cv)->Object_0);
                }
                obj_set_field(&mut entry, "content".to_owned(), content);
            },
            None => {},
        }
        let value = jobj(entry);
        assert(value@ == response_model(description@, opt_json(*schema)));
        let mut key: Vec<char> = Vec::new();
        push_i64(&mut key, *status);
        assert(key@ =~= int_text(*status));
        obj_set_field(&mut out, chars_to_string(key.as_slice()), value);
        i = i + 1;
    }
    assert(all.subrange(0, rs@.len() as int) =~= all);
    jobj(out)
}

impl OpenApi {
    /// A document with a title and an API version.
    pub fn new(title: String, version: String) -> (d: OpenApi)
        ensures
            d@ == (OpenApiView {
                title: title@,
                version: version@,
                description: None,
                paths: Seq::empty(),
            }),
    {
        let d = OpenApi { title, version, description: None, paths: Vec::new() };
        assert(d@.paths =~= Seq::<PathDocView>::empty());
        d
    }

    /// Human-readable API description.
    pub fn description(self, description: String) -> (d: OpenApi)
        ensures
            d@ == (OpenApiView { description: Some(description@), ..self@ }),
    {
        OpenApi { description: Some(description), ..self }
    }

    /// Declare one operation.
    pub fn path(self, path: PathDoc) -> (d: OpenApi)
        ensures
            d@ == (OpenApiView { paths: self@.paths.push(path@), ..self@ }),
    {
        let mut paths = self.paths;
        let ghost before = paths@;
        let ghost pv = path@;
        paths.push(path);
        assert(docs_view(paths@) =~= docs_view(before).push(pv));
        OpenApi { paths, ..self }
    }

    /// Serialize as an OpenAPI 3.0 JSON document.
    pub fn to_json(&self) -> (r: JsonValue)
        ensures
            r@ == document_model(self@),
    {
        let ghost docs = docs_view(self.paths@);
        let mut paths: Vec<(String, JsonValue)> = Vec::new();
        let mut i: usize = 0;
        assert(docs.subrange(0, 0) =~= Seq::<PathDocView>::empty());
        assert(fields_view(paths@) =~= Seq::<(Seq<char>, Json)>::empty());
        while i < self.paths.len()
            invariant
                docs == docs_view(self.paths@),
                i <= self.paths@.len(),
                fields_view(paths@) == paths_model(docs.subrange(0, i as int)),
            decreases self.paths@.len() - i,
        {
            let ghost pre = docs.subrange(0, i + 1);
            assert(pre.drop_last() =~= docs.subrange(0, i as int));
            let doc = &self.paths[i];
            assert(pre.last() == doc@);
            let key = doc.path.clone();
            let mut item: Vec<(String, JsonValue)> = match obj_get_field(&paths, doc.path.as_str()) {
                Some(JsonValue::Object(fs)) => {
                    proof {
                        lemma_object_view(*fs);
                    }
                    clone_fields(fs)
                },
                _ => {
                    let e: Vec<(String, JsonValue)> = Vec::new();
                    assert(fields_view(e@) =~= Seq::<(Seq<char>, Json)>::empty());
                    e
                },
            };
            let op = doc.operation_json();
            obj_set_field(&mut item, lower_name(doc.method), op);
            obj_set_field(&mut paths, key, jobj(item));
            i = i + 1;
        }
        assert(docs.subrange(0, self.paths@.len() as int) =~= docs);
        let mut info: Vec<(String, JsonValue)> = vec![
            jfield("title", JsonValue::Str(self.title.clone())),
            jfield("version", JsonValue::Str(self.version.clone())),
        ];
        assert(fields_view(info@) =~= seq![
            ("title"@, Json::Str(self.title@)),
            ("version"@, Json::Str(self.version@)),
        ]);
        match &self.description {
            Some(d) => obj_set_field(&mut info, "description".to_owned(), JsonValue::Str(d.clone())),
            None => {},
        }
        let info_v = jobj(info);
        let ghost iv = info_v@;
        let paths_v = jobj(paths);
        let ghost pv = paths_v@;
        let r = jobj(
            vec![
                jfield("openapi", jstr("3.0.3")),
                jfield("info", info_v),
                jfield("paths", paths_v),
            ],
        );
        assert(r@->Object_0 =~= document_model(self@)->Object_0);
        r
    }
}

impl Default for OpenApi {
    fn default() -> (d: OpenApi)
        ensures
            d@ == (OpenApiView {
                title: Seq::empty(),
                version: Seq::empty(),
                description: None,
                paths: Seq::empty(),
            }),
    {
        let d = OpenApi::new(String::new(), String::new());
        d
    }
}

/// Every declared operation is in the document under its path and its
/// method in lower case, unless a later declaration took the same path
/// and method.
pub proof fn lemma_document_lists_operation(docs: Seq<PathDocView>, i: int)
    requires
        0 <= i < docs.len(),
        forall|j: int|
            i < j < docs.len() ==> !(#[trigger] docs[j].path == docs[i].path && method_key(docs[j].method)
                == method_key(docs[i].method)),
    ensures
        obj_get(paths_model(docs), docs[i].path) matches Some(Json::Object(fs)) && obj_get(
            fs,
            method_key(docs[i].method),
        ) == Some(operation_model(docs[i])),
    decreases docs.len(),
{
    let prev_docs = docs.drop_last();
    let prev = paths_model(prev_docs);
    let d = docs.last();
    let item = match obj_get(prev, d.path) {
        Some(Json::Object(fs)) => fs,
        _ => Seq::empty(),
    };
    let new_item = obj_set(item, method_key(d.method), operation_model(d));
    lemma_obj_get_set(prev, d.path, Json::Object(new_item), docs[i].path);
    if i == docs.len() - 1 {
        lemma_obj_get_set(item, method_key(d.method), operation_model(d), method_key(d.method));
    } else {
        assert forall|j: int| i < j < prev_docs.len() implies !(#[trigger] prev_docs[j].path
            == prev_docs[i].path && method_key(prev_docs[j].method) == method_key(
            prev_docs[i].method,
        )) by {
            assert(prev_docs[j] == docs[j] && prev_docs[i] == docs[i]);
        }
        lemma_document_lists_operation(prev_docs, i);
        assert(prev_docs[i] == docs[i]);
        if d.path == docs[i].path {
            assert(docs[docs.len() - 1] == d);
            assert(method_key(d.method) != method_key(docs[i].method));
            lemma_obj_get_set(item, method_key(d.method), operation_model(d), method_key(docs[i].method));
        }
    }
}

} // verus!
