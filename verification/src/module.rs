use vstd::prelude::*;

use crate::extensions::{
    extension_error_message, extension_path_entries, extension_paths_doc, path_item_entries, path_item_of,
    schema_views, ApiExtension, ApiSchemaDefinition, ExtensionError, SchemaView, ViewSetConfig,
};
use crate::filters::{Filter, FilterSet, Lookup};
use crate::json::{
    arr1, array_of, items_of, json_str, obj1, obj2, object_of,
    entries_set, extend_entries, extend_object, find_entry, json_eq, object_get, pairs_of, set_entry, Json,
    JsonView,
};
use crate::openapi_doc::{
    openapi_paths, openapi_schemas, paths_doc, schemas_doc, ApiEndpoint, ApiField, ApiFieldType, ApiQueryFilter,
};
use crate::error::AppError;
use crate::registry::join;
use crate::signals::{sorted_by_name, SignalAccess, SignalBus};
use crate::templates::{join_strings, names_of};
use crate::openapi::{trim_bounds_pub, trim_char};
use crate::text::{chars_of, owned, push_str, str_eq, string_of_range};

verus! {

/// A signal a client may subscribe to, with its access.
#[derive(Debug, Clone)]
pub struct ApiSignal {
    pub name: String,
    pub access: SignalAccess,
}

/// A column of a model as the API describes it.
#[derive(Debug, Clone)]
pub struct ApiColumn {
    pub name: String,
    pub nullable: bool,
    pub has_default: bool,
    pub choices: Option<Vec<String>>,
}

/// A filter of a list endpoint as the API describes it.
#[derive(Debug, Clone)]
pub struct ApiFilter {
    pub name: String,
    pub source: String,
    pub lookup: Lookup,
}

/// The description of `filter`.
pub fn api_filter(filter: &Filter) -> (r: ApiFilter)
    ensures r.name@ == filter.name@, r.source@ == filter.source@, r.lookup == filter.lookup,
{
    ApiFilter { name: filter.name.clone(), source: filter.source.clone(), lookup: filter.lookup }
}

/// The declared signals of `bus` with their access, ordered by name.
pub fn api_signals(bus: &SignalBus) -> (r: Vec<ApiSignal>)
    requires bus.wf(),
    ensures
        exists|p: Seq<(String, SignalAccess)>| {
            &&& crate::signals::sorted_by_name(p)
            &&& r@.len() == p.len()
            &&& forall|i: int| 0 <= i < p.len() ==> (#[trigger] r@[i]).name@ == p[i].0@ && r@[i].access == p[i].1
            &&& forall|i: int| 0 <= i < p.len() ==> bus.declared(#[trigger] p[i].0@) && bus.access_of(p[i].0@) == p[i].1
            &&& forall|s: Seq<char>| bus.declared(s) ==> exists|i: int| 0 <= i < p.len() && #[trigger] p[i].0@ == s
        },
{
    let pairs = bus.public_signals();
    let ghost p = pairs@;
    let mut r: Vec<ApiSignal> = Vec::new();
    let mut i: usize = 0;
    while i < pairs.len()
        invariant
            i <= pairs@.len(),
            p == pairs@,
            r@.len() == i,
            forall|j: int| 0 <= j < i ==> (#[trigger] r@[j]).name@ == p[j].0@ && r@[j].access == p[j].1,
        decreases pairs.len() - i,
    {
        r.push(ApiSignal { name: pairs[i].0.clone(), access: pairs[i].1 });
        i += 1;
    }
    r
}

/// The resource a viewset at `path` serves: the path without leading and
/// trailing slashes.
pub fn resource_name(path: &str) -> (r: String)
    ensures r@ == trim_char(path@, '/'),
{
    let p = chars_of(path);
    let (a, b) = trim_bounds_pub(&p, '/');
    string_of_range(&p, a, b)
}

#[verifier::external_type_specification]
#[verifier::external_body]
pub struct ExSchemaSet(che_orm::SchemaSet);

/// The error `SchemaSet::validate` finds in `schema`, in its `Debug` form,
/// if any.
pub uninterp spec fn schema_failure(schema: che_orm::SchemaSet) -> Option<Seq<char>>;

/// `che_orm::SchemaSet::validate`: the error it finds, in its `Debug` form.
#[verifier::external_body]
fn schema_problem(schema: &che_orm::SchemaSet) -> (r: Option<String>)
    ensures
        match schema_failure(*schema) {
            Some(m) => r matches Some(e) && e@ == m,
            None => r is None,
        },
{
    match schema.validate() {
        Ok(()) => None,
        Err(error) => Some(format!("{error:?}")),
    }
}

/// Checks the schema of every installed model before the server starts:
/// a schema `SchemaSet::validate` refuses is a bad request naming the
/// error.
pub fn validate_app_schema(schema: &che_orm::SchemaSet) -> (r: Result<(), AppError>)
    ensures
        match schema_failure(*schema) {
            Some(m) => r matches Err(AppError::BadRequest(e)) && e@ == "invalid app schema: "@ + m,
            None => r is Ok,
        },
{
    match schema_problem(schema) {
        Some(problem) => {
            let mut message = owned("invalid app schema: ");
            push_str(&mut message, problem.as_str());
            Err(AppError::BadRequest(message))
        },
        None => Ok(()),
    }
}

/// A model viewset as its registration reads it: the path it is mounted
/// at, the name of its model, its serializer's fields, the model's columns
/// with their types, and its filter set.
#[derive(Debug, Clone)]
pub struct ModelViewSet {
    pub path: String,
    pub model_name: String,
    pub fields: Vec<ApiField>,
    pub columns: Vec<(String, ApiFieldType)>,
    pub filter_set: FilterSet,
}

/// The type of the first column from `from` on named `name`; a name that no
/// column has is documented as text.
pub open spec fn column_type(columns: Seq<(String, ApiFieldType)>, name: Seq<char>, from: int) -> ApiFieldType
    decreases columns.len() - from,
{
    if from < 0 || from >= columns.len() {
        ApiFieldType::Text
    } else if columns[from].0@ == name {
        columns[from].1
    } else {
        column_type(columns, name, from + 1)
    }
}

/// `q` documents the filter `f` of a model with `columns`: under the query
/// parameter of the filter, with the type of the column it reads, and never
/// null.
pub open spec fn documents_filter(f: Filter, columns: Seq<(String, ApiFieldType)>, q: ApiQueryFilter) -> bool {
    &&& q.name@ == f.query_name_view()
    &&& q.ty == column_type(columns, f.source@, 0)
    &&& !q.nullable
}

fn column_type_exec(columns: &Vec<(String, ApiFieldType)>, name: &str) -> (t: ApiFieldType)
    ensures t == column_type(columns@, name@, 0),
{
    let mut i: usize = 0;
    while i < columns.len()
        invariant
            i <= columns.len(),
            column_type(columns@, name@, i as int) == column_type(columns@, name@, 0),
        decreases columns.len() - i,
    {
        if str_eq(columns[i].0.as_str(), name) {
            return columns[i].1;
        }
        i += 1;
    }
    ApiFieldType::Text
}

/// The list filters a viewset documents: one for each filter of its filter
/// set, in order, typed by the model column the filter reads.
pub fn documented_filters(filter_set: &FilterSet, columns: &Vec<(String, ApiFieldType)>) -> (r: Vec<ApiQueryFilter>)
    ensures
        r@.len() == filter_set.filters_view().len(),
        forall|i: int| 0 <= i < r@.len() ==> documents_filter(filter_set.filters_view()[i], columns@, #[trigger] r@[i]),
{
    let filters = filter_set.filters();
    let mut r: Vec<ApiQueryFilter> = Vec::new();
    let mut i: usize = 0;
    while i < filters.len()
        invariant
            filters@ == filter_set.filters_view(),
            i <= filters.len(),
            r@.len() == i,
            forall|j: int| 0 <= j < i ==> documents_filter(filters@[j], columns@, #[trigger] r@[j]),
        decreases filters.len() - i,
    {
        let f = &filters[i];
        let name = f.query_name();
        let ty = column_type_exec(columns, f.source.as_str());
        r.push(ApiQueryFilter { name, ty, nullable: false });
        i += 1;
    }
    r
}

/// A change of an object that a viewset can announce on a signal.
#[derive(Debug, Clone, Copy, PartialEq, Eq, Structural)]
pub enum LifecycleEvent {
    Created,
    Updated,
    Deleted,
}

/// The suffix of the signal of `event`.
pub open spec fn event_name(event: LifecycleEvent) -> Seq<char> {
    match event {
        LifecycleEvent::Created => "created"@,
        LifecycleEvent::Updated => "updated"@,
        LifecycleEvent::Deleted => "deleted"@,
    }
}

/// `s` with every `/` replaced by `.`.
pub open spec fn dotted(s: Seq<char>) -> Seq<char> {
    Seq::new(s.len(), |i: int| if s[i] == '/' { '.' } else { s[i] })
}

/// The default lifecycle signal of the viewset at `path`: its resource,
/// with `/` replaced by `.`, then `.` and the event (`/auth/users` gives
/// `auth.users.created`).
pub fn lifecycle_signal_name(path: &str, event: LifecycleEvent) -> (r: String)
    ensures r@ == dotted(trim_char(path@, '/')) + "."@ + event_name(event),
{
    let resource = chars_of(resource_name(path).as_str());
    let ghost res = resource@;
    let mut r = String::new();
    let mut i: usize = 0;
    while i < resource.len()
        invariant
            i <= resource@.len(),
            res == resource@,
            r@ == dotted(res).take(i as int),
        decreases resource.len() - i,
    {
        let c = if resource[i] == '/' { '.' } else { resource[i] };
        crate::text::push_char(&mut r, c);
        proof { assert(dotted(res).take(i + 1) =~= dotted(res).take(i as int).push(c)); }
        i += 1;
    }
    proof { assert(dotted(res).take(res.len() as int) =~= dotted(res)); }
    push_str(&mut r, ".");
    match event {
        LifecycleEvent::Created => push_str(&mut r, "created"),
        LifecycleEvent::Updated => push_str(&mut r, "updated"),
        LifecycleEvent::Deleted => push_str(&mut r, "deleted"),
    }
    r
}

/// A filter's query parameter: its name and the lookup's suffix.
pub fn return_filter_name(name: &str, suffix: &str) -> (r: String)
    ensures r@ == name@ + suffix@,
{
    let mut r = owned(name);
    push_str(&mut r, suffix);
    r
}

pub const SWAGGER_HEAD: &'static str = "<!doctype html>\n<html lang=\"en\">\n<head>\n  <meta charset=\"utf-8\">\n  <meta name=\"viewport\" content=\"width=device-width, initial-scale=1\">\n  <title>che-rest API</title>\n  <link rel=\"stylesheet\" href=\"https://unpkg.com/swagger-ui-dist@5/swagger-ui.css\">\n</head>\n<body>\n  <div id=\"swagger-ui\"></div>\n  <script src=\"https://unpkg.com/swagger-ui-dist@5/swagger-ui-bundle.js\"></script>\n  <script>\n    window.ui = SwaggerUIBundle({\n      url: \"./openapi.json\",\n      dom_id: \"#swagger-ui\",\n      withCredentials: true,\n      requestInterceptor: (request) => {\n        if ([\"POST\", \"PUT\", \"PATCH\", \"DELETE\"].includes(request.method)) {\n          const token = document.cookie.split(\"; \").find((cookie) => cookie.startsWith(\"";
pub const SWAGGER_TAIL: &'static str = "=\"));\n          if (token) request.headers[\"X-CSRF-Token\"] = token.split(\"=\").slice(1).join(\"=\");\n        }\n        return request;\n      }\n    });\n  </script>\n</body>\n</html>";

/// The Swagger UI page served next to the API: state-changing requests
/// carry the token of the CSRF cookie `csrf_cookie_name`.
pub fn swagger_html(csrf_cookie_name: &str) -> (r: String)
    ensures r@ == SWAGGER_HEAD@ + csrf_cookie_name@ + SWAGGER_TAIL@,
{
    let mut r = owned(SWAGGER_HEAD);
    push_str(&mut r, csrf_cookie_name);
    push_str(&mut r, SWAGGER_TAIL);
    r
}

/// The entries of an object value, or none.
pub open spec fn object_entries(v: JsonView) -> Seq<(Seq<char>, JsonView)> {
    match v {
        JsonView::Object(e) => e,
        _ => Seq::empty(),
    }
}

/// The paths after merging the first `n` of `items` into them: the
/// entries of each item are set in the item of its path.
pub open spec fn merge_path_items(paths: Seq<(Seq<char>, JsonView)>, items: Seq<(Seq<char>, JsonView)>, n: int) -> Seq<(Seq<char>, JsonView)>
    decreases n,
{
    if n <= 0 {
        paths
    } else {
        let prev = merge_path_items(paths, items, n - 1);
        let path = items[n - 1].0;
        let item = object_entries(items[n - 1].1);
        entries_set(prev, path, JsonView::Object(extend_entries(path_item_of(prev, path), item, item.len() as int)))
    }
}

/// The message recorded for an extension schema that differs from the
/// document's schema of the same name.
pub open spec fn schema_conflict_message(name: Seq<char>) -> Seq<char> {
    "conflicting OpenAPI schema `"@ + name + "`"@
}

/// The document's schemas after adding the first `n` extension schemas,
/// with the conflict messages: a new name is added, a known name must
/// come with the same schema.
pub open spec fn merge_schemas(schemas: Seq<(Seq<char>, JsonView)>, defs: Seq<SchemaView>, n: int) -> (Seq<(Seq<char>, JsonView)>, Seq<Seq<char>>)
    decreases n,
{
    if n <= 0 {
        (schemas, Seq::empty())
    } else {
        let (s, errors) = merge_schemas(schemas, defs, n - 1);
        let d = defs[n - 1];
        match object_get(s, d.name) {
            Some(v) => if v != d.openapi { (s, errors.push(schema_conflict_message(d.name))) } else { (s, errors) },
            None => (entries_set(s, d.name, d.openapi), errors),
        }
    }
}

fn merged_path_items(paths: Vec<(String, Json)>, items: &Vec<(String, Json)>) -> (r: Vec<(String, Json)>)
    ensures pairs_of(r@) == merge_path_items(pairs_of(paths@), pairs_of(items@), items@.len() as int),
{
    let mut paths = paths;
    let ghost p0 = pairs_of(paths@);
    let ghost iv = pairs_of(items@);
    let mut k: usize = 0;
    while k < items.len()
        invariant
            k <= items@.len(),
            iv == pairs_of(items@),
            pairs_of(paths@) == merge_path_items(p0, iv, k as int),
        decreases items.len() - k,
    {
        let mut target = path_item_entries(&paths, items[k].0.as_str());
        match &items[k].1 {
            Json::Object(entries) => {
                proof { assert(pairs_of(entries@) =~= object_entries(iv[k as int].1)); }
                extend_object(&mut target, entries);
            },
            _ => {
                proof { assert(object_entries(iv[k as int].1) =~= Seq::<(Seq<char>, JsonView)>::empty()); }
            },
        }
        let ghost tv = pairs_of(target@);
        let item = Json::Object(target);
        proof { assert(item@->Object_0 =~= tv); }
        set_entry(&mut paths, items[k].0.as_str(), item);
        k += 1;
    }
    paths
}

fn merged_schemas(schemas: Vec<(String, Json)>, defs: &Vec<ApiSchemaDefinition>) -> (r: (Vec<(String, Json)>, Vec<String>))
    ensures
        pairs_of(r.0@) == merge_schemas(pairs_of(schemas@), schema_views(defs@), defs@.len() as int).0,
        Seq::new(r.1@.len(), |i: int| r.1@[i]@) == merge_schemas(pairs_of(schemas@), schema_views(defs@), defs@.len() as int).1,
{
    let mut document_schemas = schemas;
    let ghost s0 = pairs_of(document_schemas@);
    let ghost dvs = schema_views(defs@);
    let mut conflicts: Vec<String> = Vec::new();
    let mut j: usize = 0;
    while j < defs.len()
        invariant
            j <= defs@.len(),
            dvs == schema_views(defs@),
            pairs_of(document_schemas@) == merge_schemas(s0, dvs, j as int).0,
            Seq::new(conflicts@.len(), |i: int| conflicts@[i]@) == merge_schemas(s0, dvs, j as int).1,
        decreases defs.len() - j,
    {
        let d = &defs[j];
        let ghost dv = dvs[j as int];
        proof { assert(dv == d@); }
        let ghost sv = pairs_of(document_schemas@);
        let ghost cv = Seq::new(conflicts@.len(), |i: int| conflicts@[i]@);
        let found = find_entry(&document_schemas, d.name.as_str());
        proof { assert(sv =~= Seq::new(document_schemas@.len(), |i: int| (document_schemas@[i].0@, document_schemas@[i].1@))); }
        match found {
            Some(i) => {
                if !json_eq(&document_schemas[i].1, &d.openapi) {
                    let mut m = owned("conflicting OpenAPI schema `");
                    push_str(&mut m, d.name.as_str());
                    push_str(&mut m, "`");
                    conflicts.push(m);
                    proof { assert(Seq::new(conflicts@.len(), |i: int| conflicts@[i]@) =~= cv.push(schema_conflict_message(dv.name))); }
                }
            },
            None => {
                set_entry(&mut document_schemas, d.name.as_str(), d.openapi.deep_copy());
            },
        }
        j += 1;
    }
    (document_schemas, conflicts)
}

fn append_messages(errors: &mut Vec<String>, more: &Vec<String>)
    ensures
        Seq::new(final(errors)@.len(), |i: int| final(errors)@[i]@)
            == Seq::new(old(errors)@.len(), |i: int| old(errors)@[i]@) + Seq::new(more@.len(), |i: int| more@[i]@),
{
    let ghost e0 = Seq::new(errors@.len(), |i: int| errors@[i]@);
    let mut c: usize = 0;
    while c < more.len()
        invariant
            c <= more@.len(),
            Seq::new(errors@.len(), |i: int| errors@[i]@) == e0 + Seq::new(c as nat, |i: int| more@[i]@),
        decreases more.len() - c,
    {
        let ghost prev = errors@;
        errors.push(more[c].clone());
        proof {
            let lhs = Seq::new(errors@.len(), |i: int| errors@[i]@);
            let rhs = e0 + Seq::new((c + 1) as nat, |i: int| more@[i]@);
            let mid = Seq::new(prev.len(), |i: int| prev[i]@);
            assert(mid == e0 + Seq::new(c as nat, |i: int| more@[i]@));
            assert(lhs.len() == rhs.len());
            assert forall|i: int| 0 <= i < lhs.len() implies lhs[i] == rhs[i] by {
                if i < prev.len() {
                    assert(errors@[i] == prev[i]);
                    assert(lhs[i] == mid[i]);
                }
            }
            assert(lhs =~= rhs);
        }
        c += 1;
    }
    proof { assert(Seq::new(more@.len(), |i: int| more@[i]@) =~= Seq::new(c as nat, |i: int| more@[i]@)); }
}

/// The components after merging the first `n` entries of a module's
/// components: its schemas join the schemas, any other entry is set.
pub open spec fn merge_components(comps: Seq<(Seq<char>, JsonView)>, src: Seq<(Seq<char>, JsonView)>, n: int) -> Seq<(Seq<char>, JsonView)>
    decreases n,
{
    if n <= 0 {
        comps
    } else {
        let prev = merge_components(comps, src, n - 1);
        let name = src[n - 1].0;
        let values = src[n - 1].1;
        if name == "schemas"@ {
            match (object_get(prev, "schemas"@), values) {
                (Some(JsonView::Object(s)), JsonView::Object(v)) =>
                    entries_set(prev, "schemas"@, JsonView::Object(extend_entries(s, v, v.len() as int))),
                _ => prev,
            }
        } else {
            entries_set(prev, name, values)
        }
    }
}

/// The paths and components after merging the OpenAPI metadata of the
/// first `n` modules: the paths of each join the paths, its components
/// the components.
pub open spec fn merge_module_docs(
    paths: Seq<(Seq<char>, JsonView)>,
    comps: Seq<(Seq<char>, JsonView)>,
    docs: Seq<JsonView>,
    n: int,
) -> (Seq<(Seq<char>, JsonView)>, Seq<(Seq<char>, JsonView)>)
    decreases n,
{
    if n <= 0 {
        (paths, comps)
    } else {
        let (p, c) = merge_module_docs(paths, comps, docs, n - 1);
        let e = object_entries(docs[n - 1]);
        let p2 = match object_get(e, "paths"@) {
            Some(JsonView::Object(q)) => extend_entries(p, q, q.len() as int),
            _ => p,
        };
        let c2 = match object_get(e, "components"@) {
            Some(JsonView::Object(q)) => merge_components(c, q, q.len() as int),
            _ => c,
        };
        (p2, c2)
    }
}

/// The name of a signal access in the document.
pub open spec fn access_name(a: SignalAccess) -> Seq<char> {
    match a {
        SignalAccess::Public => "Public"@,
        SignalAccess::Authenticated => "Authenticated"@,
        SignalAccess::Admin => "Admin"@,
    }
}

/// The document's list of public signals.
pub open spec fn signals_doc(p: Seq<(String, SignalAccess)>) -> Seq<JsonView> {
    Seq::new(p.len(), |i: int| JsonView::Object(seq![
        ("name"@, JsonView::Str(p[i].0@)),
        ("access"@, JsonView::Str(access_name(p[i].1))),
    ]))
}

/// `p` lists the declared signals of `bus` with their access, by name.
pub open spec fn public_signal_list(bus: SignalBus, p: Seq<(String, SignalAccess)>) -> bool {
    &&& p.len() == bus.declared_count()
    &&& sorted_by_name(p)
    &&& forall|i: int| 0 <= i < p.len() ==> bus.declared(#[trigger] p[i].0@) && bus.access_of(p[i].0@) == p[i].1
    &&& forall|s: Seq<char>| bus.declared(s) ==> exists|i: int| 0 <= i < p.len() && (#[trigger] p[i]).0@ == s
}

/// The API's OpenAPI document.
pub open spec fn server_doc(
    prefix: Seq<char>,
    paths: Seq<(Seq<char>, JsonView)>,
    comps: Seq<(Seq<char>, JsonView)>,
    signals: Seq<(String, SignalAccess)>,
) -> JsonView {
    JsonView::Object(seq![
        ("openapi"@, JsonView::Str("3.0.3"@)),
        ("info"@, JsonView::Object(seq![("title"@, JsonView::Str("che-rest API"@)), ("version"@, JsonView::Str("0.1.0"@))])),
        ("servers"@, JsonView::Array(seq![JsonView::Object(seq![("url"@, JsonView::Str(prefix))])])),
        ("paths"@, JsonView::Object(paths)),
        ("components"@, JsonView::Object(comps)),
        ("x-che-rest-signals"@, JsonView::Array(signals_doc(signals))),
    ])
}

fn copy_entries(v: &Vec<(String, Json)>) -> (r: Vec<(String, Json)>)
    ensures pairs_of(r@) == pairs_of(v@),
{
    let mut r: Vec<(String, Json)> = Vec::new();
    let mut i: usize = 0;
    while i < v.len()
        invariant
            i <= v@.len(),
            r@.len() == i,
            forall|j: int| 0 <= j < i ==> (#[trigger] r@[j]).0@ == v@[j].0@ && r@[j].1@ == v@[j].1@,
        decreases v.len() - i,
    {
        r.push((v[i].0.clone(), v[i].1.deep_copy()));
        i += 1;
    }
    proof { assert(pairs_of(r@) =~= pairs_of(v@)); }
    r
}

fn merge_components_exec(comps: &mut Vec<(String, Json)>, src: &Vec<(String, Json)>)
    ensures pairs_of(final(comps)@) == merge_components(pairs_of(old(comps)@), pairs_of(src@), src@.len() as int),
{
    let ghost c0 = pairs_of(comps@);
    let ghost sv = pairs_of(src@);
    let mut k: usize = 0;
    while k < src.len()
        invariant
            k <= src@.len(),
            sv == pairs_of(src@),
            pairs_of(comps@) == merge_components(c0, sv, k as int),
        decreases src.len() - k,
    {
        let name = src[k].0.as_str();
        if str_eq(name, "schemas") {
            proof { reveal_strlit("schemas"); }
            let ghost prev = pairs_of(comps@);
            let found = find_entry(comps, "schemas");
            proof { assert(prev =~= Seq::new(comps@.len(), |i: int| (comps@[i].0@, comps@[i].1@))); }
            match found {
                Some(i) => {
                    let current = comps[i].1.deep_copy();
                    match (current, &src[k].1) {
                        (Json::Object(mut schemas), Json::Object(more)) => {
                            proof {
                                assert(object_get(prev, "schemas"@) == Some(comps@[i as int].1@));
                                assert(pairs_of(schemas@) =~= comps@[i as int].1@->Object_0);
                                assert(pairs_of(more@) =~= sv[k as int].1->Object_0);
                            }
                            extend_object(&mut schemas, more);
                            let ghost xv = pairs_of(schemas@);
                            let obj = Json::Object(schemas);
                            proof { assert(obj@->Object_0 =~= xv); }
                            set_entry(comps, "schemas", obj);
                        },
                        (c, _) => {
                            proof {
                                assert(object_get(prev, "schemas"@) == Some(comps@[i as int].1@));
                                assert(c@ == comps@[i as int].1@);
                            }
                        },
                    }
                },
                None => {},
            }
        } else {
            set_entry(comps, name, src[k].1.deep_copy());
        }
        k += 1;
    }
}

fn signal_entries(bus: &SignalBus) -> (r: Json)
    requires bus.wf(),
    ensures exists|p: Seq<(String, SignalAccess)>| #[trigger] public_signal_list(*bus, p) && r@ == JsonView::Array(signals_doc(p)),
{
    let list = bus.public_signals();
    let mut items: Vec<Json> = Vec::new();
    let mut i: usize = 0;
    while i < list.len()
        invariant
            i <= list@.len(),
            items@.len() == i,
            forall|j: int| 0 <= j < i ==> (#[trigger] items@[j])@ == signals_doc(list@)[j],
        decreases list.len() - i,
    {
        let access = match list[i].1 {
            SignalAccess::Public => "Public",
            SignalAccess::Authenticated => "Authenticated",
            SignalAccess::Admin => "Admin",
        };
        items.push(obj2("name", Json::Str(list[i].0.clone()), "access", json_str(access)));
        i += 1;
    }
    let r = Json::Array(items);
    proof {
        assert(r@->Array_0 =~= signals_doc(list@));
        assert(public_signal_list(*bus, list@));
    }
    r
}

/// A viewset registered by an app: its endpoint and its extensions.
#[derive(Debug, Clone)]
pub struct RegisteredViewSet {
    pub app_name: String,
    pub endpoint: ApiEndpoint,
    pub extensions: Vec<ApiExtension>,
}

/// What the installed apps register while they are initialized: their
/// signals, the OpenAPI paths and schemas of their viewsets, the viewsets
/// themselves and the registration errors.
pub struct ModuleContext {
    signals: SignalBus,
    openapi_paths: Vec<(String, Json)>,
    openapi_components: Vec<(String, Json)>,
    api_endpoints: Vec<RegisteredViewSet>,
    registration_errors: Vec<String>,
    current_app: String,
}

/// The message of a failed extension configuration, if it failed.
pub open spec fn configure_errors(configured: Result<(), ExtensionError>) -> Seq<Seq<char>> {
    match configured {
        Err(e) => seq![extension_error_message(e)],
        Ok(_) => Seq::empty(),
    }
}

/// Declaring `signals` in order is consistent with `bus` and with itself.
pub open spec fn declarable(bus: SignalBus, signals: Seq<(String, SignalAccess)>) -> bool {
    &&& forall|i: int| 0 <= i < signals.len() && bus.declared((#[trigger] signals[i]).0@) ==> bus.access_of(signals[i].0@) == signals[i].1
    &&& forall|i: int, j: int| 0 <= i < j < signals.len() && (#[trigger] signals[i]).0@ == (#[trigger] signals[j]).0@ ==> signals[i].1 == signals[j].1
}

impl ModuleContext {
    /// The signal registry.
    pub closed spec fn bus(&self) -> SignalBus { self.signals }
    /// The OpenAPI paths registered so far.
    pub closed spec fn paths_view(&self) -> Seq<(Seq<char>, JsonView)> { pairs_of(self.openapi_paths@) }
    /// The OpenAPI schemas registered so far.
    pub closed spec fn components_view(&self) -> Seq<(Seq<char>, JsonView)> { pairs_of(self.openapi_components@) }
    /// The registered viewsets.
    pub closed spec fn endpoints_view(&self) -> Seq<RegisteredViewSet> { self.api_endpoints@ }
    /// The registration errors.
    pub closed spec fn errors_view(&self) -> Seq<Seq<char>> { Seq::new(self.registration_errors@.len(), |i: int| self.registration_errors@[i]@) }
    /// The app being initialized.
    pub closed spec fn current_app_view(&self) -> Seq<char> { self.current_app@ }

    /// The signal registry is well formed.
    pub closed spec fn wf(&self) -> bool { self.signals.wf() }

    /// A context over the signal registry `signals`, with nothing registered.
    pub fn new(signals: SignalBus) -> (c: ModuleContext)
        requires signals.wf(),
        ensures
            c.wf(),
            c.bus() == signals,
            c.paths_view().len() == 0,
            c.components_view().len() == 0,
            c.endpoints_view().len() == 0,
            c.errors_view().len() == 0,
            c.current_app_view().len() == 0,
    {
        ModuleContext {
            signals,
            openapi_paths: Vec::new(),
            openapi_components: Vec::new(),
            api_endpoints: Vec::new(),
            registration_errors: Vec::new(),
            current_app: String::new(),
        }
    }

    /// Starts initializing app `app`.
    pub fn set_current_app(&mut self, app: String)
        ensures
            final(self).current_app_view() == app@,
            final(self).bus() == old(self).bus(),
            final(self).paths_view() == old(self).paths_view(),
            final(self).components_view() == old(self).components_view(),
            final(self).endpoints_view() == old(self).endpoints_view(),
            final(self).errors_view() == old(self).errors_view(),
            final(self).wf() == old(self).wf(),
    {
        self.current_app = app;
    }

    /// Declares `signal` with `access`.
    pub fn signal(&mut self, signal: String, access: SignalAccess)
        requires
            old(self).wf(),
            old(self).bus().declared(signal@) ==> old(self).bus().access_of(signal@) == access,
        ensures
            final(self).wf(),
            forall|s: Seq<char>| #[trigger] final(self).bus().declared(s) == (old(self).bus().declared(s) || s == signal@),
            final(self).bus().access_of(signal@) == access,
            forall|s: Seq<char>| old(self).bus().declared(s) && s != signal@ ==> #[trigger] final(self).bus().access_of(s) == old(self).bus().access_of(s),
            final(self).paths_view() == old(self).paths_view(),
            final(self).components_view() == old(self).components_view(),
            final(self).endpoints_view() == old(self).endpoints_view(),
            final(self).errors_view() == old(self).errors_view(),
            final(self).current_app_view() == old(self).current_app_view(),
    {
        self.signals.declare(signal, access);
    }

    fn declare_all(&mut self, signals: &Vec<(String, SignalAccess)>)
        requires
            old(self).wf(),
            declarable(old(self).bus(), signals@),
        ensures
            final(self).wf(),
            forall|s: Seq<char>| #[trigger] final(self).bus().declared(s) ==
                (old(self).bus().declared(s) || exists|i: int| 0 <= i < signals@.len() && (#[trigger] signals@[i]).0@ == s),
            forall|i: int| 0 <= i < signals@.len() ==> final(self).bus().access_of((#[trigger] signals@[i]).0@) == signals@[i].1,
            forall|s: Seq<char>| old(self).bus().declared(s) && !(exists|i: int| 0 <= i < signals@.len() && (#[trigger] signals@[i]).0@ == s)
                ==> #[trigger] final(self).bus().access_of(s) == old(self).bus().access_of(s),
            final(self).paths_view() == old(self).paths_view(),
            final(self).components_view() == old(self).components_view(),
            final(self).endpoints_view() == old(self).endpoints_view(),
            final(self).errors_view() == old(self).errors_view(),
            final(self).current_app_view() == old(self).current_app_view(),
    {
        let ghost b0 = self.bus();
        let mut k: usize = 0;
        while k < signals.len()
            invariant
                k <= signals@.len(),
                self.wf(),
                declarable(b0, signals@),
                b0 == old(self).bus(),
                forall|s: Seq<char>| #[trigger] self.bus().declared(s) ==
                    (b0.declared(s) || exists|i: int| 0 <= i < k && (#[trigger] signals@[i]).0@ == s),
                forall|i: int| 0 <= i < k ==> self.bus().access_of((#[trigger] signals@[i]).0@) == signals@[i].1,
                forall|s: Seq<char>| b0.declared(s) && !(exists|i: int| 0 <= i < k && (#[trigger] signals@[i]).0@ == s)
                    ==> #[trigger] self.bus().access_of(s) == b0.access_of(s),
                self.paths_view() == old(self).paths_view(),
                self.components_view() == old(self).components_view(),
                self.endpoints_view() == old(self).endpoints_view(),
                self.errors_view() == old(self).errors_view(),
                self.current_app_view() == old(self).current_app_view(),
            decreases signals.len() - k,
        {
            let ghost before = self.bus();
            let name = signals[k].0.clone();
            let access = signals[k].1;
            proof {
                if before.declared(name@) {
                    if exists|i: int| 0 <= i < k && (#[trigger] signals@[i]).0@ == name@ {
                        let i = choose|i: int| 0 <= i < k && (#[trigger] signals@[i]).0@ == name@;
                        assert(signals@[i].0@ == signals@[k as int].0@);
                    } else {
                        assert(b0.declared(signals@[k as int].0@));
                    }
                }
            }
            self.signals.declare(name, access);
            proof {
                assert forall|s: Seq<char>| #[trigger] self.bus().declared(s) ==
                    (b0.declared(s) || exists|i: int| 0 <= i < k + 1 && (#[trigger] signals@[i]).0@ == s) by {
                    if s == signals@[k as int].0@ {
                        assert(0 <= k < k + 1 && signals@[k as int].0@ == s);
                    }
                    if exists|i: int| 0 <= i < k + 1 && (#[trigger] signals@[i]).0@ == s {
                        let i = choose|i: int| 0 <= i < k + 1 && (#[trigger] signals@[i]).0@ == s;
                        if i < k { assert(before.declared(s)); }
                    }
                }
                assert forall|i: int| 0 <= i < k + 1 implies self.bus().access_of((#[trigger] signals@[i]).0@) == signals@[i].1 by {
                    if i < k && signals@[i].0@ != signals@[k as int].0@ {
                        assert(before.declared(signals@[i].0@));
                    }
                }
                assert forall|s: Seq<char>| b0.declared(s) && !(exists|i: int| 0 <= i < k + 1 && (#[trigger] signals@[i]).0@ == s)
                    implies #[trigger] self.bus().access_of(s) == b0.access_of(s) by {
                    assert(!(0 <= k < k + 1 && signals@[k as int].0@ == s));
                    assert forall|i: int| 0 <= i < k implies (#[trigger] signals@[i]).0@ != s by {
                        assert(!(0 <= i < k + 1 && signals@[i].0@ == s));
                    }
                    assert(before.declared(s));
                }
            }
            k += 1;
        }
    }

    /// Registers a viewset of the current app: its endpoint (whose resource
    /// is its path without surrounding slashes and whose list filters are
    /// those of its filter set, in order), its lifecycle signals, the
    /// outcome of configuring its extensions, and its extensions' routes and
    /// schemas. Its OpenAPI paths, with the extension operations merged into
    /// their path items, and its schemas join the registered ones; an
    /// extension schema that differs from the document's schema of the same
    /// name, and a failed configuration, are registration errors.
    pub fn viewset_with(
        &mut self,
        viewset: ModelViewSet,
        lifecycle: Vec<(String, SignalAccess)>,
        configured: Result<(), ExtensionError>,
        config: ViewSetConfig,
    )
        requires
            old(self).wf(),
            declarable(old(self).bus(), lifecycle@),
        ensures
            final(self).wf(),
            ({
                let e = final(self).endpoints_view().last().endpoint;
                let ext = config.extensions_view();
                let items = merge_path_items(
                    paths_doc(seq![e], Seq::empty(), 1),
                    extension_paths_doc(ext, ext.len() as int),
                    extension_paths_doc(ext, ext.len() as int).len() as int,
                );
                let merged = merge_schemas(schemas_doc(seq![e], 1), config.schemas_view(), config.schemas_view().len() as int);
                &&& final(self).endpoints_view().len() == old(self).endpoints_view().len() + 1
                &&& final(self).endpoints_view().drop_last() == old(self).endpoints_view()
                &&& final(self).endpoints_view().last().app_name@ == old(self).current_app_view()
                &&& e.resource@ == trim_char(viewset.path@, '/')
                &&& e.path == viewset.path
                &&& e.model_name == viewset.model_name
                &&& e.fields == viewset.fields
                &&& e.filters@.len() == viewset.filter_set.filters_view().len()
                &&& forall|i: int| 0 <= i < e.filters@.len() ==>
                    documents_filter(viewset.filter_set.filters_view()[i], viewset.columns@, #[trigger] e.filters@[i])
                &&& final(self).endpoints_view().last().extensions@ == ext
                &&& final(self).paths_view() == extend_entries(old(self).paths_view(), items, items.len() as int)
                &&& final(self).components_view() == extend_entries(old(self).components_view(), merged.0, merged.0.len() as int)
                &&& final(self).errors_view() == old(self).errors_view() + configure_errors(configured) + merged.1
            }),
            forall|s: Seq<char>| #[trigger] final(self).bus().declared(s) ==
                (old(self).bus().declared(s) || exists|i: int| 0 <= i < lifecycle@.len() && (#[trigger] lifecycle@[i]).0@ == s),
            forall|i: int| 0 <= i < lifecycle@.len() ==> final(self).bus().access_of((#[trigger] lifecycle@[i]).0@) == lifecycle@[i].1,
            forall|s: Seq<char>| old(self).bus().declared(s) && !(exists|i: int| 0 <= i < lifecycle@.len() && (#[trigger] lifecycle@[i]).0@ == s)
                ==> #[trigger] final(self).bus().access_of(s) == old(self).bus().access_of(s),
            final(self).current_app_view() == old(self).current_app_view(),
    {
        let ghost e0 = self.errors_view();
        match &configured {
            Err(e) => {
                self.registration_errors.push(e.message());
                proof { assert(self.errors_view() =~= e0 + configure_errors(configured)); }
            },
            Ok(()) => {
                proof { assert(self.errors_view() =~= e0 + configure_errors(configured)); }
            },
        }
        let ghost ext = config.extensions_view();
        let ghost defs = config.schemas_view();
        let (extensions, schemas) = config.into_parts();
        let filters = documented_filters(&viewset.filter_set, &viewset.columns);
        let resource = resource_name(viewset.path.as_str());
        let endpoint = ApiEndpoint {
            model_name: viewset.model_name,
            resource,
            path: viewset.path,
            fields: viewset.fields,
            filters,
        };
        self.declare_all(&lifecycle);

        let ghost ev = endpoint;
        let mut one: Vec<ApiEndpoint> = Vec::new();
        one.push(endpoint);
        proof { assert(one@ =~= seq![ev]); reveal_strlit(""); assert(""@ =~= Seq::<char>::empty()); }
        let paths = openapi_paths(&one, "");
        let document_schemas = openapi_schemas(&one);
        let endpoint = one.pop().unwrap();
        assert(endpoint == ev);
        let ghost pv = pairs_of(paths@);
        let ghost sv = pairs_of(document_schemas@);
        assert(pv == paths_doc(seq![ev], Seq::empty(), 1));
        assert(sv == schemas_doc(seq![ev], 1));

        let items = extension_path_entries(&extensions);
        let paths = merged_path_items(paths, &items);
        let (document_schemas, conflicts) = merged_schemas(document_schemas, &schemas);
        extend_object(&mut self.openapi_paths, &paths);
        extend_object(&mut self.openapi_components, &document_schemas);
        append_messages(&mut self.registration_errors, &conflicts);
        let ghost before = self.api_endpoints@;
        self.api_endpoints.push(RegisteredViewSet { app_name: self.current_app.clone(), endpoint, extensions });
        proof {
            assert(self.api_endpoints@.drop_last() =~= before);
            assert(self.endpoints_view().last().endpoint == ev);
            assert(self.endpoints_view().last().extensions@ == ext);
        }
    }

    /// The OpenAPI document of the API under `api_prefix`, once every app
    /// is initialized: the registered paths and schemas with the metadata
    /// of the modules merged in, and the public signals. Registration
    /// errors refuse the API with their messages joined by `; `.
    pub fn build_openapi(&self, api_prefix: &str, module_docs: &Vec<Json>) -> (r: Result<Json, AppError>)
        requires self.wf(),
        ensures
            self.errors_view().len() > 0 ==> (r matches Err(AppError::BadRequest(m)) && m@ == join(self.errors_view(), "; "@)),
            self.errors_view().len() == 0 ==> (r is Ok && exists|p: Seq<(String, SignalAccess)>| {
                let merged = merge_module_docs(
                    self.paths_view(),
                    seq![("schemas"@, JsonView::Object(self.components_view()))],
                    Seq::new(module_docs@.len(), |i: int| module_docs@[i]@),
                    module_docs@.len() as int,
                );
                &&& #[trigger] public_signal_list(self.bus(), p)
                &&& r->Ok_0@ == server_doc(api_prefix@, merged.0, merged.1, p)
            }),
    {
        if self.registration_errors.len() > 0 {
            let m = join_strings(&self.registration_errors, "; ");
            proof { assert(names_of(self.registration_errors@) =~= self.errors_view()); }
            return Err(AppError::BadRequest(m));
        }
        let ghost docs = Seq::new(module_docs@.len(), |i: int| module_docs@[i]@);
        let mut paths = copy_entries(&self.openapi_paths);
        let schemas = copy_entries(&self.openapi_components);
        let mut comps: Vec<(String, Json)> = Vec::new();
        comps.push((owned("schemas"), object_of(schemas)));
        proof {
            assert(pairs_of(comps@) =~= seq![("schemas"@, JsonView::Object(self.components_view()))]);
        }
        let ghost p0 = pairs_of(paths@);
        let ghost c0 = pairs_of(comps@);
        let mut k: usize = 0;
        while k < module_docs.len()
            invariant
                k <= module_docs@.len(),
                docs == Seq::new(module_docs@.len(), |i: int| module_docs@[i]@),
                (pairs_of(paths@), pairs_of(comps@)) == merge_module_docs(p0, c0, docs, k as int),
            decreases module_docs.len() - k,
        {
            match &module_docs[k] {
                Json::Object(e) => {
                    let ghost ev = pairs_of(e@);
                    proof { assert(ev =~= object_entries(docs[k as int])); }
                    let fp = find_entry(e, "paths");
                    let fc = find_entry(e, "components");
                    proof { assert(ev =~= Seq::new(e@.len(), |i: int| (e@[i].0@, e@[i].1@))); }
                    match fp {
                        Some(i) => match &e[i].1 {
                            Json::Object(q) => {
                                proof { assert(pairs_of(q@) =~= e@[i as int].1@->Object_0); }
                                extend_object(&mut paths, q);
                            },
                            _ => {},
                        },
                        None => {},
                    }
                    match fc {
                        Some(i) => match &e[i].1 {
                            Json::Object(q) => {
                                proof { assert(pairs_of(q@) =~= e@[i as int].1@->Object_0); }
                                merge_components_exec(&mut comps, q);
                            },
                            _ => {},
                        },
                        None => {},
                    }
                },
                _ => {
                    proof { assert(object_entries(docs[k as int]) =~= Seq::<(Seq<char>, JsonView)>::empty()); }
                },
            }
            k += 1;
        }
        let signals = signal_entries(&self.signals);
        let ghost (pv, cv) = (pairs_of(paths@), pairs_of(comps@));
        let info = obj2("title", json_str("che-rest API"), "version", json_str("0.1.0"));
        let servers = arr1(obj1("url", json_str(api_prefix)));
        let paths_obj = object_of(paths);
        let comps_obj = object_of(comps);
        let ghost (iv, srv, po, co, sv) = (info@, servers@, paths_obj@, comps_obj@, signals@);
        let mut doc: Vec<(String, Json)> = Vec::new();
        doc.push((owned("openapi"), json_str("3.0.3")));
        doc.push((owned("info"), info));
        doc.push((owned("servers"), servers));
        doc.push((owned("paths"), paths_obj));
        doc.push((owned("components"), comps_obj));
        doc.push((owned("x-che-rest-signals"), signals));
        proof {
            assert(pairs_of(doc@) =~= seq![
                ("openapi"@, JsonView::Str("3.0.3"@)), ("info"@, iv), ("servers"@, srv),
                ("paths"@, po), ("components"@, co), ("x-che-rest-signals"@, sv),
            ]);
        }
        let r = object_of(doc);
        proof {
            let p = choose|p: Seq<(String, SignalAccess)>| #[trigger] public_signal_list(self.bus(), p) && sv == JsonView::Array(signals_doc(p));
            assert(r@ == server_doc(api_prefix@, pv, cv, p));
        }
        Ok(r)
    }

    /// The registered viewsets.
    pub fn api_endpoints(&self) -> (r: &Vec<RegisteredViewSet>)
        ensures r@ == self.endpoints_view(),
    {
        &self.api_endpoints
    }

    /// The registration errors.
    pub fn registration_errors(&self) -> (r: &Vec<String>)
        ensures Seq::new(r@.len(), |i: int| r@[i]@) == self.errors_view(),
    {
        &self.registration_errors
    }

    /// The registered OpenAPI paths.
    pub fn openapi_paths(&self) -> (r: &Vec<(String, Json)>)
        ensures pairs_of(r@) == self.paths_view(),
    {
        &self.openapi_paths
    }

    /// The registered OpenAPI schemas.
    pub fn openapi_components(&self) -> (r: &Vec<(String, Json)>)
        ensures pairs_of(r@) == self.components_view(),
    {
        &self.openapi_components
    }

    /// The signal registry.
    pub fn signals(&self) -> (r: &SignalBus)
        ensures *r == self.bus(),
    {
        &self.signals
    }

    /// The signal registry, handed back once the apps are initialized.
    pub fn into_signals(self) -> (r: SignalBus)
        requires self.wf(),
        ensures r == self.bus(), r.wf(),
    {
        self.signals
    }
}

} // verus!
