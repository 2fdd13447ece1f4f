use vstd::prelude::*;

use crate::json::{
    arr1, array_of, items_of, json_str, obj1, obj2, obj3, obj4, object_of, pairs_of, Json, JsonView,
};
use crate::openapi::{collection_path, collection_route, detail_path, id_suffix, OpenApiOptions};
use crate::text::{owned, push_str};

verus! {

/// The type of a field in an OpenAPI schema.
#[derive(Debug, Clone, Copy, PartialEq, Eq, Structural)]
pub enum ApiFieldType {
    Integer,
    Text,
    Boolean,
    Real,
    DateTime,
}

/// A serializer field as the OpenAPI document describes it.
#[derive(Debug, Clone)]
pub struct ApiField {
    pub name: String,
    pub ty: ApiFieldType,
    pub nullable: bool,
    pub read_only: bool,
    pub write_only: bool,
    pub required: bool,
    pub has_default: bool,
    /// The model shown in place of the id, for a related field.
    pub related_model: Option<String>,
}

/// A list filter as the OpenAPI document describes it.
#[derive(Debug, Clone)]
pub struct ApiQueryFilter {
    pub name: String,
    pub ty: ApiFieldType,
    pub nullable: bool,
}

/// A model endpoint: its model, the tag of its operations, its path, its
/// fields and its filters.
#[derive(Debug, Clone)]
pub struct ApiEndpoint {
    pub model_name: String,
    pub resource: String,
    pub path: String,
    pub fields: Vec<ApiField>,
    pub filters: Vec<ApiQueryFilter>,
}

/// A JSON string.
pub open spec fn jstr(s: Seq<char>) -> JsonView {
    JsonView::Str(s)
}

/// A reference to a schema of the document.
pub open spec fn schema_ref_doc(name: Seq<char>) -> JsonView {
    JsonView::Object(seq![("$ref"@, jstr("#/components/schemas/"@ + name))])
}

pub(crate) fn schema_ref(name: &str) -> (r: Json)
    ensures r@ == schema_ref_doc(name@),
{
    let mut t = owned("#/components/schemas/");
    push_str(&mut t, name);
    obj1("$ref", Json::Str(t))
}

/// `{"type": t}`.
pub open spec fn typed(t: Seq<char>) -> JsonView {
    JsonView::Object(seq![("type"@, jstr(t))])
}

/// `{"type": t, "format": f}`.
pub open spec fn formatted(t: Seq<char>, f: Seq<char>) -> JsonView {
    JsonView::Object(seq![("type"@, jstr(t)), ("format"@, jstr(f))])
}

/// The schema of a field of type `ty`.
pub open spec fn field_schema_doc(ty: ApiFieldType, nullable: bool) -> JsonView {
    let base = match ty {
        ApiFieldType::Integer => seq![("type"@, jstr("integer"@)), ("format"@, jstr("int64"@))],
        ApiFieldType::Text => seq![("type"@, jstr("string"@))],
        ApiFieldType::Boolean => seq![("type"@, jstr("boolean"@))],
        ApiFieldType::Real => seq![("type"@, jstr("number"@)), ("format"@, jstr("double"@))],
        ApiFieldType::DateTime => seq![("type"@, jstr("string"@)), ("format"@, jstr("date-time"@))],
    };
    JsonView::Object(if nullable { base.push(("nullable"@, JsonView::Bool(true))) } else { base })
}

fn entry(k: &str, v: Json) -> (r: (String, Json))
    ensures r.0@ == k@, r.1@ == v@,
{
    (owned(k), v)
}

/// The schema of a field of type `ty`, marked nullable if it is.
pub fn field_schema(ty: ApiFieldType, nullable: bool) -> (r: Json)
    ensures r@ == field_schema_doc(ty, nullable),
{
    let mut e: Vec<(String, Json)> = Vec::new();
    match ty {
        ApiFieldType::Integer => { e.push(entry("type", json_str("integer"))); e.push(entry("format", json_str("int64"))); },
        ApiFieldType::Text => { e.push(entry("type", json_str("string"))); },
        ApiFieldType::Boolean => { e.push(entry("type", json_str("boolean"))); },
        ApiFieldType::Real => { e.push(entry("type", json_str("number"))); e.push(entry("format", json_str("double"))); },
        ApiFieldType::DateTime => { e.push(entry("type", json_str("string"))); e.push(entry("format", json_str("date-time"))); },
    }
    let ghost base = pairs_of(e@);
    if nullable {
        e.push(entry("nullable", Json::Bool(true)));
        proof { assert(pairs_of(e@) =~= base.push(("nullable"@, JsonView::Bool(true)))); }
    }
    proof {
        let expect = match ty {
            ApiFieldType::Integer => seq![("type"@, jstr("integer"@)), ("format"@, jstr("int64"@))],
            ApiFieldType::Text => seq![("type"@, jstr("string"@))],
            ApiFieldType::Boolean => seq![("type"@, jstr("boolean"@))],
            ApiFieldType::Real => seq![("type"@, jstr("number"@)), ("format"@, jstr("double"@))],
            ApiFieldType::DateTime => seq![("type"@, jstr("string"@)), ("format"@, jstr("date-time"@))],
        };
        assert(base =~= expect);
    }
    object_of(e)
}

fn int64_schema() -> (r: Json)
    ensures r@ == formatted("integer"@, "int64"@),
{
    obj2("type", json_str("integer"), "format", json_str("int64"))
}

/// A JSON response whose body follows schema `name`.
pub open spec fn json_response_ref_doc(name: Seq<char>) -> JsonView {
    JsonView::Object(seq![
        ("description"@, jstr("OK"@)),
        ("content"@, JsonView::Object(seq![("application/json"@, JsonView::Object(seq![("schema"@, schema_ref_doc(name))]))])),
    ])
}

/// A JSON response whose body follows schema `name`.
pub fn json_response_ref(name: &str) -> (r: Json)
    ensures r@ == json_response_ref_doc(name@),
{
    obj2("description", json_str("OK"), "content", obj1("application/json", obj1("schema", schema_ref(name))))
}

/// A JSON request body following schema `name`.
pub open spec fn json_request_ref_doc(name: Seq<char>, required: bool) -> JsonView {
    JsonView::Object(seq![
        ("required"@, JsonView::Bool(required)),
        ("content"@, JsonView::Object(seq![("application/json"@, JsonView::Object(seq![("schema"@, schema_ref_doc(name))]))])),
    ])
}

/// A JSON request body following schema `name`.
pub fn json_request_ref(name: &str, required: bool) -> (r: Json)
    ensures r@ == json_request_ref_doc(name@, required),
{
    obj2("required", Json::Bool(required), "content", obj1("application/json", obj1("schema", schema_ref(name))))
}

/// An error response.
pub fn error_response() -> (r: Json)
    ensures r@ == json_response_ref_doc("Error"@),
{
    json_response_ref("Error")
}

/// The schema of an error body: an object with a string `detail`.
pub open spec fn error_schema_doc() -> JsonView {
    JsonView::Object(seq![
        ("type"@, jstr("object"@)),
        ("required"@, JsonView::Array(seq![jstr("detail"@)])),
        ("properties"@, JsonView::Object(seq![("detail"@, typed("string"@))])),
    ])
}

/// The schema of an error body.
pub fn error_schema() -> (r: Json)
    ensures r@ == error_schema_doc(),
{
    obj3("type", json_str("object"), "required", arr1(json_str("detail")),
        "properties", obj1("detail", obj1("type", json_str("string"))))
}

/// The `id` path parameter.
pub open spec fn id_parameter_doc() -> JsonView {
    JsonView::Object(seq![
        ("name"@, jstr("id"@)),
        ("in"@, jstr("path"@)),
        ("required"@, JsonView::Bool(true)),
        ("schema"@, formatted("integer"@, "int64"@)),
    ])
}

/// The `id` path parameter.
pub fn id_parameter() -> (r: Json)
    ensures r@ == id_parameter_doc(),
{
    obj4("name", json_str("id"), "in", json_str("path"), "required", Json::Bool(true), "schema", int64_schema())
}

/// An optional query parameter `name` with `schema`.
pub open spec fn query_parameter_doc(name: Seq<char>, schema: JsonView) -> JsonView {
    JsonView::Object(seq![
        ("name"@, jstr(name)),
        ("in"@, jstr("query"@)),
        ("required"@, JsonView::Bool(false)),
        ("schema"@, schema),
    ])
}

/// An optional query parameter `name` with `schema`.
pub fn query_parameter(name: &str, schema: Json) -> (r: Json)
    ensures r@ == query_parameter_doc(name@, schema@),
{
    obj4("name", json_str(name), "in", json_str("query"), "required", Json::Bool(false), "schema", schema)
}

/// The parameters of a list operation: `limit`, `offset`, `ordering`, then
/// one per filter.
pub open spec fn list_parameters_doc(filters: Seq<ApiQueryFilter>) -> Seq<JsonView> {
    seq![
        query_parameter_doc("limit"@, formatted("integer"@, "int64"@)),
        query_parameter_doc("offset"@, formatted("integer"@, "int64"@)),
        query_parameter_doc("ordering"@, typed("string"@)),
    ] + Seq::new(filters.len(), |i: int| query_parameter_doc(filters[i].name@, field_schema_doc(filters[i].ty, filters[i].nullable)))
}

/// The parameters of a list operation.
pub fn list_parameters(endpoint: &ApiEndpoint) -> (r: Vec<Json>)
    ensures items_of(r@) == list_parameters_doc(endpoint.filters@),
{
    let mut r: Vec<Json> = Vec::new();
    r.push(query_parameter("limit", int64_schema()));
    r.push(query_parameter("offset", int64_schema()));
    r.push(query_parameter("ordering", obj1("type", json_str("string"))));
    let ghost head = items_of(r@);
    let ghost fs = endpoint.filters@;
    let mut i: usize = 0;
    while i < endpoint.filters.len()
        invariant
            i <= fs.len(),
            fs == endpoint.filters@,
            r@.len() == 3 + i,
            items_of(r@) == head + Seq::new(i as nat, |j: int| query_parameter_doc(fs[j].name@, field_schema_doc(fs[j].ty, fs[j].nullable))),
        decreases fs.len() - i,
    {
        let f = &endpoint.filters[i];
        let p = query_parameter(f.name.as_str(), field_schema(f.ty, f.nullable));
        let ghost before = items_of(r@);
        let ghost pv = p@;
        r.push(p);
        proof {
            assert(items_of(r@) =~= before.push(pv));
            assert(pv == query_parameter_doc(fs[i as int].name@, field_schema_doc(fs[i as int].ty, fs[i as int].nullable)));
            assert(items_of(r@) =~= head + Seq::new((i + 1) as nat, |j: int| query_parameter_doc(fs[j].name@, field_schema_doc(fs[j].ty, fs[j].nullable))));
        }
        i += 1;
    }
    proof {
        assert(head =~= seq![
            query_parameter_doc("limit"@, formatted("integer"@, "int64"@)),
            query_parameter_doc("offset"@, formatted("integer"@, "int64"@)),
            query_parameter_doc("ordering"@, typed("string"@)),
        ]);
    }
    r
}

/// The schema of a page of a list: its total count and its results.
pub open spec fn list_schema_doc(model: Seq<char>) -> JsonView {
    JsonView::Object(seq![
        ("type"@, jstr("object"@)),
        ("required"@, JsonView::Array(seq![jstr("count"@), jstr("results"@)])),
        ("properties"@, JsonView::Object(seq![
            ("count"@, formatted("integer"@, "int64"@)),
            ("results"@, JsonView::Object(seq![("type"@, jstr("array"@)), ("items"@, schema_ref_doc(model))])),
        ])),
    ])
}

/// The schema of a page of a list.
pub fn list_schema(endpoint: &ApiEndpoint) -> (r: Json)
    ensures r@ == list_schema_doc(endpoint.model_name@),
{
    let mut req: Vec<Json> = Vec::new();
    req.push(json_str("count"));
    req.push(json_str("results"));
    proof { assert(items_of(req@) =~= seq![jstr("count"@), jstr("results"@)]); }
    obj3("type", json_str("object"), "required", array_of(req),
        "properties", obj2("count", int64_schema(),
            "results", obj2("type", json_str("array"), "items", schema_ref(endpoint.model_name.as_str()))))
}

/// An object schema with `properties` and, when there are any, the
/// `required` names.
pub open spec fn object_schema_doc(properties: Seq<(Seq<char>, JsonView)>, required: Seq<Seq<char>>) -> JsonView {
    let base = seq![("type"@, jstr("object"@)), ("properties"@, JsonView::Object(properties))];
    JsonView::Object(if required.len() > 0 {
        base.push(("required"@, JsonView::Array(Seq::new(required.len(), |i: int| jstr(required[i])))))
    } else {
        base
    })
}

/// An object schema.
pub fn object_schema(properties: Vec<(String, Json)>, required: Vec<String>) -> (r: Json)
    ensures
        r@ == object_schema_doc(pairs_of(properties@), Seq::new(required@.len(), |i: int| required@[i]@)),
{
    let ghost rq = Seq::new(required@.len(), |i: int| required@[i]@);
    let ghost pp = pairs_of(properties@);
    let mut e: Vec<(String, Json)> = Vec::new();
    e.push(entry("type", json_str("object")));
    e.push(entry("properties", object_of(properties)));
    let ghost base = pairs_of(e@);
    proof { assert(base =~= seq![("type"@, jstr("object"@)), ("properties"@, JsonView::Object(pp))]); }
    if required.len() > 0 {
        let mut items: Vec<Json> = Vec::new();
        let mut i: usize = 0;
        while i < required.len()
            invariant
                i <= required@.len(),
                rq == Seq::new(required@.len(), |i: int| required@[i]@),
                items_of(items@) =~= Seq::new(i as nat, |j: int| jstr(rq[j])),
            decreases required.len() - i,
        {
            let ghost before = items_of(items@);
            items.push(Json::Str(required[i].clone()));
            proof {
                assert(items_of(items@) =~= before.push(jstr(rq[i as int])));
                assert(items_of(items@) =~= Seq::new((i + 1) as nat, |j: int| jstr(rq[j])));
            }
            i += 1;
        }
        e.push(entry("required", array_of(items)));
        proof { assert(pairs_of(e@) =~= base.push(("required"@, JsonView::Array(Seq::new(rq.len(), |i: int| jstr(rq[i])))))); }
    }
    object_of(e)
}

/// The schema of a field in a response: a related model is shown by
/// reference.
pub open spec fn response_field_schema_doc(f: ApiField) -> JsonView {
    match f.related_model {
        Some(m) => if f.nullable {
            JsonView::Object(seq![("$ref"@, jstr("#/components/schemas/"@ + m@)), ("nullable"@, JsonView::Bool(true))])
        } else {
            schema_ref_doc(m@)
        },
        None => field_schema_doc(f.ty, f.nullable),
    }
}

/// The schema of a field in a response.
pub fn response_field_schema(f: &ApiField) -> (r: Json)
    ensures r@ == response_field_schema_doc(*f),
{
    match &f.related_model {
        Some(m) => {
            if f.nullable {
                let mut t = owned("#/components/schemas/");
                push_str(&mut t, m.as_str());
                obj2("$ref", Json::Str(t), "nullable", Json::Bool(true))
            } else {
                schema_ref(m.as_str())
            }
        },
        None => field_schema(f.ty, f.nullable),
    }
}

/// Which fields a schema shows: in responses the fields that are not
/// write-only; in requests those that are not read-only.
pub open spec fn shown(f: ApiField, response: bool) -> bool {
    if response { !f.write_only } else { !f.read_only }
}

/// The properties of the first `n` fields shown.
pub open spec fn properties_doc(fields: Seq<ApiField>, response: bool, n: int) -> Seq<(Seq<char>, JsonView)>
    decreases n,
{
    if n <= 0 {
        Seq::empty()
    } else {
        let acc = properties_doc(fields, response, n - 1);
        let f = fields[n - 1];
        if shown(f, response) {
            acc.push((f.name@, if response { response_field_schema_doc(f) } else { field_schema_doc(f.ty, f.nullable) }))
        } else {
            acc
        }
    }
}

/// The names of the first `n` shown fields that must be given.
pub open spec fn required_doc(fields: Seq<ApiField>, response: bool, n: int) -> Seq<Seq<char>>
    decreases n,
{
    if n <= 0 {
        Seq::empty()
    } else {
        let acc = required_doc(fields, response, n - 1);
        let f = fields[n - 1];
        if shown(f, response) && f.required && !f.has_default { acc.push(f.name@) } else { acc }
    }
}

fn schema_parts(fields: &Vec<ApiField>, response: bool) -> (r: (Vec<(String, Json)>, Vec<String>))
    ensures
        pairs_of(r.0@) == properties_doc(fields@, response, fields@.len() as int),
        Seq::new(r.1@.len(), |i: int| r.1@[i]@) == required_doc(fields@, response, fields@.len() as int),
{
    let mut props: Vec<(String, Json)> = Vec::new();
    let mut req: Vec<String> = Vec::new();
    let mut i: usize = 0;
    while i < fields.len()
        invariant
            i <= fields@.len(),
            pairs_of(props@) == properties_doc(fields@, response, i as int),
            Seq::new(req@.len(), |j: int| req@[j]@) == required_doc(fields@, response, i as int),
        decreases fields.len() - i,
    {
        let f = &fields[i];
        let show = if response { !f.write_only } else { !f.read_only };
        if show {
            let s = if response { response_field_schema(f) } else { field_schema(f.ty, f.nullable) };
            props.push((f.name.clone(), s));
            if f.required && !f.has_default {
                req.push(f.name.clone());
            }
        }
        proof {
            assert(pairs_of(props@) =~= properties_doc(fields@, response, i + 1));
            assert(Seq::new(req@.len(), |j: int| req@[j]@) =~= required_doc(fields@, response, i + 1));
        }
        i += 1;
    }
    (props, req)
}

/// The schema of a response body.
pub fn response_schema(endpoint: &ApiEndpoint) -> (r: Json)
    ensures
        r@ == object_schema_doc(properties_doc(endpoint.fields@, true, endpoint.fields@.len() as int),
            required_doc(endpoint.fields@, true, endpoint.fields@.len() as int)),
{
    let (p, q) = schema_parts(&endpoint.fields, true);
    object_schema(p, q)
}

/// The schema of a create body.
pub fn create_schema(endpoint: &ApiEndpoint) -> (r: Json)
    ensures
        r@ == object_schema_doc(properties_doc(endpoint.fields@, false, endpoint.fields@.len() as int),
            required_doc(endpoint.fields@, false, endpoint.fields@.len() as int)),
{
    let (p, q) = schema_parts(&endpoint.fields, false);
    object_schema(p, q)
}

/// The schema of an update body: the create fields, none required.
pub fn update_schema(endpoint: &ApiEndpoint) -> (r: Json)
    ensures r@ == object_schema_doc(properties_doc(endpoint.fields@, false, endpoint.fields@.len() as int), Seq::empty()),
{
    let (p, _) = schema_parts(&endpoint.fields, false);
    let none: Vec<String> = Vec::new();
    proof { assert(Seq::new(none@.len(), |i: int| none@[i]@) =~= Seq::<Seq<char>>::empty()); }
    object_schema(p, none)
}

/// `prefix` followed by `name`.
pub open spec fn op_id(prefix: Seq<char>, name: Seq<char>) -> Seq<char> {
    prefix + name
}

fn concat(a: &str, b: &str) -> (r: String)
    ensures r@ == a@ + b@,
{
    let mut r = owned(a);
    push_str(&mut r, b);
    r
}

/// The operations on the collection path of an endpoint: list and create.
pub open spec fn collection_item_doc(model: Seq<char>, resource: Seq<char>, filters: Seq<ApiQueryFilter>) -> JsonView {
    JsonView::Object(seq![
        ("get"@, JsonView::Object(seq![
            ("operationId"@, jstr("list"@ + model)),
            ("tags"@, JsonView::Array(seq![jstr(resource)])),
            ("parameters"@, JsonView::Array(list_parameters_doc(filters))),
            ("responses"@, JsonView::Object(seq![
                ("200"@, json_response_ref_doc(model + "List"@)),
                ("400"@, json_response_ref_doc("Error"@)),
            ])),
        ])),
        ("post"@, JsonView::Object(seq![
            ("operationId"@, jstr("create"@ + model)),
            ("tags"@, JsonView::Array(seq![jstr(resource)])),
            ("requestBody"@, json_request_ref_doc(model + "Create"@, true)),
            ("responses"@, JsonView::Object(seq![
                ("201"@, json_response_ref_doc(model)),
                ("400"@, json_response_ref_doc("Error"@)),
            ])),
        ])),
    ])
}

/// The operations on the collection path of an endpoint.
pub fn collection_path_item(endpoint: &ApiEndpoint) -> (r: Json)
    ensures r@ == collection_item_doc(endpoint.model_name@, endpoint.resource@, endpoint.filters@),
{
    let m = endpoint.model_name.as_str();
    let get = obj4(
        "operationId", Json::Str(concat("list", m)),
        "tags", arr1(Json::Str(endpoint.resource.clone())),
        "parameters", array_of(list_parameters(endpoint)),
        "responses", obj2("200", json_response_ref(concat(m, "List").as_str()), "400", error_response()),
    );
    let post = obj4(
        "operationId", Json::Str(concat("create", m)),
        "tags", arr1(Json::Str(endpoint.resource.clone())),
        "requestBody", json_request_ref(concat(m, "Create").as_str(), true),
        "responses", obj2("201", json_response_ref(m), "400", error_response()),
    );
    obj2("get", get, "post", post)
}

/// The operations on the object path of an endpoint: retrieve, update and
/// delete.
pub open spec fn detail_item_doc(model: Seq<char>, resource: Seq<char>) -> JsonView {
    JsonView::Object(seq![
        ("get"@, JsonView::Object(seq![
            ("operationId"@, jstr("retrieve"@ + model)),
            ("tags"@, JsonView::Array(seq![jstr(resource)])),
            ("parameters"@, JsonView::Array(seq![id_parameter_doc()])),
            ("responses"@, JsonView::Object(seq![
                ("200"@, json_response_ref_doc(model)),
                ("404"@, json_response_ref_doc("Error"@)),
            ])),
        ])),
        ("patch"@, JsonView::Object(seq![
            ("operationId"@, jstr("update"@ + model)),
            ("tags"@, JsonView::Array(seq![jstr(resource)])),
            ("parameters"@, JsonView::Array(seq![id_parameter_doc()])),
            ("requestBody"@, json_request_ref_doc(model + "Update"@, true)),
            ("responses"@, JsonView::Object(seq![
                ("200"@, json_response_ref_doc(model)),
                ("400"@, json_response_ref_doc("Error"@)),
                ("404"@, json_response_ref_doc("Error"@)),
            ])),
        ])),
        ("delete"@, JsonView::Object(seq![
            ("operationId"@, jstr("destroy"@ + model)),
            ("tags"@, JsonView::Array(seq![jstr(resource)])),
            ("parameters"@, JsonView::Array(seq![id_parameter_doc()])),
            ("responses"@, JsonView::Object(seq![
                ("204"@, JsonView::Object(seq![("description"@, jstr("No content"@))])),
                ("404"@, json_response_ref_doc("Error"@)),
            ])),
        ])),
    ])
}

fn obj5(k0: &str, v0: Json, k1: &str, v1: Json, k2: &str, v2: Json, k3: &str, v3: Json, k4: &str, v4: Json) -> (r: Json)
    ensures r@ == JsonView::Object(seq![(k0@, v0@), (k1@, v1@), (k2@, v2@), (k3@, v3@), (k4@, v4@)]),
{
    let ghost (a, b, c, d, x) = (v0@, v1@, v2@, v3@, v4@);
    let mut e: Vec<(String, Json)> = Vec::new();
    e.push((owned(k0), v0));
    e.push((owned(k1), v1));
    e.push((owned(k2), v2));
    e.push((owned(k3), v3));
    e.push((owned(k4), v4));
    proof { assert(pairs_of(e@) =~= seq![(k0@, a), (k1@, b), (k2@, c), (k3@, d), (k4@, x)]); }
    object_of(e)
}

/// The operations on the object path of an endpoint.
pub fn detail_path_item(endpoint: &ApiEndpoint) -> (r: Json)
    ensures r@ == detail_item_doc(endpoint.model_name@, endpoint.resource@),
{
    let m = endpoint.model_name.as_str();
    let get = obj4(
        "operationId", Json::Str(concat("retrieve", m)),
        "tags", arr1(Json::Str(endpoint.resource.clone())),
        "parameters", arr1(id_parameter()),
        "responses", obj2("200", json_response_ref(m), "404", error_response()),
    );
    let patch = obj5(
        "operationId", Json::Str(concat("update", m)),
        "tags", arr1(Json::Str(endpoint.resource.clone())),
        "parameters", arr1(id_parameter()),
        "requestBody", json_request_ref(concat(m, "Update").as_str(), true),
        "responses", obj3("200", json_response_ref(m), "400", error_response(), "404", error_response()),
    );
    let delete = obj4(
        "operationId", Json::Str(concat("destroy", m)),
        "tags", arr1(Json::Str(endpoint.resource.clone())),
        "parameters", arr1(id_parameter()),
        "responses", obj2("204", obj1("description", json_str("No content")), "404", error_response()),
    );
    obj3("get", get, "patch", patch, "delete", delete)
}


/// The schemas of one endpoint: its response, create, update and list
/// bodies.
pub open spec fn endpoint_schemas_doc(e: ApiEndpoint) -> Seq<(Seq<char>, JsonView)> {
    let m = e.model_name@;
    let n = e.fields@.len() as int;
    seq![
        (m, object_schema_doc(properties_doc(e.fields@, true, n), required_doc(e.fields@, true, n))),
        (m + "Create"@, object_schema_doc(properties_doc(e.fields@, false, n), required_doc(e.fields@, false, n))),
        (m + "Update"@, object_schema_doc(properties_doc(e.fields@, false, n), Seq::empty())),
        (m + "List"@, list_schema_doc(m)),
    ]
}

/// The schemas of the document for the first `n` endpoints, in the order
/// they are inserted (a later schema of the same name replaces an earlier
/// one).
pub open spec fn schemas_doc(endpoints: Seq<ApiEndpoint>, n: int) -> Seq<(Seq<char>, JsonView)>
    decreases n,
{
    if n <= 0 {
        seq![("Error"@, error_schema_doc())]
    } else {
        schemas_doc(endpoints, n - 1) + endpoint_schemas_doc(endpoints[n - 1])
    }
}

/// The paths of the document for the first `n` endpoints, in the order
/// they are inserted.
pub open spec fn paths_doc(endpoints: Seq<ApiEndpoint>, prefix: Seq<char>, n: int) -> Seq<(Seq<char>, JsonView)>
    decreases n,
{
    if n <= 0 {
        Seq::empty()
    } else {
        let e = endpoints[n - 1];
        paths_doc(endpoints, prefix, n - 1) + seq![
            (collection_route(prefix, e.path@), collection_item_doc(e.model_name@, e.resource@, e.filters@)),
            (collection_route(prefix, e.path@) + id_suffix(), detail_item_doc(e.model_name@, e.resource@)),
        ]
    }
}

/// The OpenAPI document of `endpoints`.
pub open spec fn openapi_doc(endpoints: Seq<ApiEndpoint>, options: OpenApiOptions) -> JsonView {
    JsonView::Object(seq![
        ("openapi"@, jstr("3.0.3"@)),
        ("info"@, JsonView::Object(seq![("title"@, jstr(options.title@)), ("version"@, jstr(options.version@))])),
        ("paths"@, JsonView::Object(paths_doc(endpoints, options.api_prefix@, endpoints.len() as int))),
        ("components"@, JsonView::Object(seq![
            ("schemas"@, JsonView::Object(schemas_doc(endpoints, endpoints.len() as int))),
        ])),
    ])
}

/// The schemas of the document of `endpoints`, the error schema first.
pub fn openapi_schemas(endpoints: &Vec<ApiEndpoint>) -> (r: Vec<(String, Json)>)
    ensures pairs_of(r@) == schemas_doc(endpoints@, endpoints@.len() as int),
{
    let mut schemas: Vec<(String, Json)> = Vec::new();
    schemas.push(entry("Error", error_schema()));
    proof { assert(pairs_of(schemas@) =~= schemas_doc(endpoints@, 0)); }
    let mut i: usize = 0;
    while i < endpoints.len()
        invariant
            i <= endpoints@.len(),
            pairs_of(schemas@) == schemas_doc(endpoints@, i as int),
        decreases endpoints.len() - i,
    {
        let e = &endpoints[i];
        let m = e.model_name.as_str();
        let ghost s0 = pairs_of(schemas@);
        schemas.push((e.model_name.clone(), response_schema(e)));
        schemas.push((concat(m, "Create"), create_schema(e)));
        schemas.push((concat(m, "Update"), update_schema(e)));
        schemas.push((concat(m, "List"), list_schema(e)));
        proof { assert(pairs_of(schemas@) =~= s0 + endpoint_schemas_doc(endpoints@[i as int])); }
        i += 1;
    }
    schemas
}

/// The paths of the document of `endpoints` under `api_prefix`: the
/// collection and object path of each endpoint.
pub fn openapi_paths(endpoints: &Vec<ApiEndpoint>, api_prefix: &str) -> (r: Vec<(String, Json)>)
    ensures pairs_of(r@) == paths_doc(endpoints@, api_prefix@, endpoints@.len() as int),
{
    let mut paths: Vec<(String, Json)> = Vec::new();
    proof { assert(pairs_of(paths@) =~= paths_doc(endpoints@, api_prefix@, 0)); }
    let mut i: usize = 0;
    while i < endpoints.len()
        invariant
            i <= endpoints@.len(),
            pairs_of(paths@) == paths_doc(endpoints@, api_prefix@, i as int),
        decreases endpoints.len() - i,
    {
        let e = &endpoints[i];
        paths.push((collection_path(api_prefix, e.path.as_str()), collection_path_item(e)));
        paths.push((detail_path(api_prefix, e.path.as_str()), detail_path_item(e)));
        proof {
            assert(pairs_of(paths@) =~= paths_doc(endpoints@, api_prefix@, i + 1));
        }
        i += 1;
    }
    paths
}

/// The OpenAPI 3.0.3 document of `endpoints`: for each one, its collection
/// and object paths and its four schemas, besides the error schema.
pub fn openapi_json(endpoints: &Vec<ApiEndpoint>, options: OpenApiOptions) -> (r: Json)
    ensures r@ == openapi_doc(endpoints@, options),
{
    let schemas = openapi_schemas(endpoints);
    let paths = openapi_paths(endpoints, options.api_prefix.as_str());
    let info = obj2("title", Json::Str(options.title), "version", Json::Str(options.version));
    obj4("openapi", json_str("3.0.3"), "info", info, "paths", object_of(paths),
        "components", obj1("schemas", object_of(schemas)))
}

/// `f` is named `name`.
pub open spec fn named(f: ApiField, name: Seq<char>) -> bool {
    f.name@ == name
}

/// Some field among the first `n` must be sent and is named `name`.
pub open spec fn listed_field(fields: Seq<ApiField>, response: bool, n: int, name: Seq<char>) -> bool {
    exists|i: int| 0 <= i < n && must_give(#[trigger] fields[i], response) && named(fields[i], name)
}

/// A field a schema must be sent: shown, required, and without a default.
pub open spec fn must_give(f: ApiField, response: bool) -> bool {
    shown(f, response) && f.required && !f.has_default
}

/// Law: the names a schema lists as required are exactly those of its
/// shown fields that must be given and have no default: every listed name
/// is such a field's, and every such field is listed. A field with a
/// default is never required unless another field of the same name is.
pub proof fn law_required_fields_have_no_default(fields: Seq<ApiField>, response: bool, n: int)
    requires 0 <= n <= fields.len(),
    ensures
        forall|j: int| #![trigger required_doc(fields, response, n)[j]]
            0 <= j < required_doc(fields, response, n).len() ==> listed_field(fields, response, n, required_doc(fields, response, n)[j]),
        forall|i: int| 0 <= i < n && must_give(#[trigger] fields[i], response)
            ==> required_doc(fields, response, n).contains(fields[i].name@),
    decreases n,
{
    if n > 0 {
        law_required_fields_have_no_default(fields, response, n - 1);
        let acc = required_doc(fields, response, n - 1);
        let r = required_doc(fields, response, n);
        let f = fields[n - 1];
        if must_give(f, response) {
            assert(r == acc.push(f.name@));
        } else {
            assert(r == acc);
        }
        assert forall|j: int| #![trigger r[j]] 0 <= j < r.len() implies listed_field(fields, response, n, r[j]) by {
            if j < acc.len() {
                assert(r[j] == acc[j]);
                assert(listed_field(fields, response, n - 1, acc[j]));
                let i = choose|i: int| 0 <= i < n - 1 && must_give(#[trigger] fields[i], response) && named(fields[i], acc[j]);
                assert(must_give(fields[i], response) && named(fields[i], r[j]));
            } else {
                assert(must_give(fields[n - 1], response) && named(fields[n - 1], r[j]));
            }
        }
        assert forall|i: int| 0 <= i < n && must_give(#[trigger] fields[i], response) implies r.contains(fields[i].name@) by {
            if i < n - 1 {
                let w = choose|w: int| 0 <= w < acc.len() && acc[w] == fields[i].name@;
                assert(r[w] == acc[w]);
            } else {
                assert(r[acc.len() as int] == fields[i].name@);
            }
        }
    }
}

} // verus!
