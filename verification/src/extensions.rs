use vstd::prelude::*;
use vstd::string::*;

use crate::json::{
    entries_set, find_entry, json_eq, json_str, obj1, obj2, object_get, object_of, pairs_of, set_entry, Json, JsonView,
};
use crate::num::{decimal, u64_to_decimal};
use crate::openapi::{trim_char, trim_end_char};
use crate::openapi_doc::{schema_ref, schema_ref_doc};
use crate::error::AppError;
use crate::text::{chars_of, push_char, push_str, seq_eq, str_eq, string_of_range, owned};

verus! {

/// The HTTP method of an extension route.
#[derive(Debug, Clone, Copy, PartialEq, Eq, PartialOrd, Ord, Structural)]
pub enum HttpMethod {
    Get,
    Post,
    Put,
    Patch,
    Delete,
}

/// The key of a method in an OpenAPI path item.
pub open spec fn method_key(m: HttpMethod) -> Seq<char> {
    match m {
        HttpMethod::Get => "get"@,
        HttpMethod::Post => "post"@,
        HttpMethod::Put => "put"@,
        HttpMethod::Patch => "patch"@,
        HttpMethod::Delete => "delete"@,
    }
}

impl HttpMethod {
    /// The key of the method in an OpenAPI path item.
    pub fn openapi_key(self) -> (s: &'static str)
        ensures s@ == method_key(self),
    {
        match self {
            HttpMethod::Get => "get",
            HttpMethod::Post => "post",
            HttpMethod::Put => "put",
            HttpMethod::Patch => "patch",
            HttpMethod::Delete => "delete",
        }
    }
}

/// The generated TypeScript client method of an operation.
#[derive(Debug, Clone)]
pub struct ClientMethod {
    pub namespace: String,
    pub name: String,
}

/// A named API schema: its OpenAPI schema and its TypeScript declaration.
#[derive(Debug, Clone)]
pub struct ApiSchemaDefinition {
    pub name: String,
    pub openapi: Json,
    pub typescript: String,
}

/// A named API schema as mathematical values.
pub struct SchemaView {
    pub name: Seq<char>,
    pub openapi: JsonView,
    pub typescript: Seq<char>,
}

impl ApiSchemaDefinition {
    pub open spec fn view(&self) -> SchemaView {
        SchemaView { name: self.name@, openapi: self.openapi@, typescript: self.typescript@ }
    }
}

/// The schemas of `s` as mathematical values.
pub open spec fn schema_views(s: Seq<ApiSchemaDefinition>) -> Seq<SchemaView> {
    Seq::new(s.len(), |i: int| s[i]@)
}

/// The description of one extension operation.
#[derive(Debug, Clone)]
pub struct OperationSpec {
    pub operation_id: String,
    pub summary: Option<String>,
    pub request: Option<ApiSchemaDefinition>,
    pub response: Option<(u16, ApiSchemaDefinition)>,
    pub errors: Vec<u16>,
    pub authenticated: bool,
    pub client: Option<ClientMethod>,
}

impl OperationSpec {
    /// An operation with only its id.
    pub fn new(operation_id: String) -> (o: OperationSpec)
        ensures
            o.operation_id == operation_id,
            o.summary is None,
            o.request is None,
            o.response is None,
            o.errors@.len() == 0,
            !o.authenticated,
            o.client is None,
    {
        OperationSpec {
            operation_id,
            summary: None,
            request: None,
            response: None,
            errors: Vec::new(),
            authenticated: false,
            client: None,
        }
    }

    /// Sets the request body schema.
    pub fn request(self, schema: ApiSchemaDefinition) -> (o: OperationSpec)
        ensures
            o.request == Some(schema),
            o.response == self.response, o.summary == self.summary,
            o.operation_id == self.operation_id, o.errors == self.errors,
            o.authenticated == self.authenticated, o.client == self.client,
    {
        OperationSpec { request: Some(schema), ..self }
    }

    /// Sets the success status and response body schema.
    pub fn response(self, status: u16, schema: ApiSchemaDefinition) -> (o: OperationSpec)
        ensures
            o.response == Some((status, schema)),
            o.request == self.request, o.summary == self.summary,
            o.operation_id == self.operation_id, o.errors == self.errors,
            o.authenticated == self.authenticated, o.client == self.client,
    {
        OperationSpec { response: Some((status, schema)), ..self }
    }

    /// Sets the summary.
    pub fn summary(self, value: String) -> (o: OperationSpec)
        ensures
            o.summary == Some(value),
            o.request == self.request, o.response == self.response,
            o.operation_id == self.operation_id, o.errors == self.errors,
            o.authenticated == self.authenticated, o.client == self.client,
    {
        OperationSpec { summary: Some(value), ..self }
    }

    /// Adds an error status.
    pub fn error(self, status: u16) -> (o: OperationSpec)
        ensures
            o.errors@ == self.errors@.push(status),
            o.request == self.request, o.response == self.response,
            o.operation_id == self.operation_id, o.summary == self.summary,
            o.authenticated == self.authenticated, o.client == self.client,
    {
        let mut o = self;
        o.errors.push(status);
        o
    }

    /// Marks the operation as requiring authentication.
    pub fn authenticated(self) -> (o: OperationSpec)
        ensures
            o.authenticated,
            o.request == self.request, o.response == self.response,
            o.operation_id == self.operation_id, o.summary == self.summary,
            o.errors == self.errors, o.client == self.client,
    {
        OperationSpec { authenticated: true, ..self }
    }

    /// Sets the generated client method.
    pub fn client(self, namespace: String, name: String) -> (o: OperationSpec)
        ensures
            o.client matches Some(c) && c.namespace == namespace && c.name == name,
            o.request == self.request, o.response == self.response,
            o.operation_id == self.operation_id, o.summary == self.summary,
            o.errors == self.errors, o.authenticated == self.authenticated,
    {
        OperationSpec { client: Some(ClientMethod { namespace, name }), ..self }
    }
}

/// `{"application/json": {"schema": {"$ref": ...}}}` for schema `name`.
pub open spec fn json_content_doc(name: Seq<char>) -> JsonView {
    JsonView::Object(seq![("application/json"@, JsonView::Object(seq![("schema"@, schema_ref_doc(name))]))])
}

/// The request body of an operation taking schema `name`.
pub open spec fn request_body_doc(name: Seq<char>) -> JsonView {
    JsonView::Object(seq![("required"@, JsonView::Bool(true)), ("content"@, json_content_doc(name))])
}

/// The success response of an operation returning schema `name`.
pub open spec fn ok_response_doc(name: Seq<char>) -> JsonView {
    JsonView::Object(seq![("description"@, JsonView::Str("OK"@)), ("content"@, json_content_doc(name))])
}

/// An error response.
pub open spec fn error_response_doc() -> JsonView {
    JsonView::Object(seq![("description"@, JsonView::Str("Error"@))])
}

/// The responses of `spec` after its first `n` error statuses: the success
/// response, then each error status, keyed by the status in decimal.
pub open spec fn responses_doc(spec: OperationSpec, n: int) -> Seq<(Seq<char>, JsonView)>
    decreases n,
{
    if n <= 0 {
        match spec.response {
            Some((status, d)) => seq![(decimal(status as nat), ok_response_doc(d.name@))],
            None => seq![],
        }
    } else {
        entries_set(responses_doc(spec, n - 1), decimal(spec.errors@[n - 1] as nat), error_response_doc())
    }
}

/// The security requirement of an authenticated operation: a token, or a
/// session cookie with its CSRF token.
pub open spec fn security_doc() -> JsonView {
    JsonView::Array(seq![
        JsonView::Object(seq![("TokenAuth"@, JsonView::Array(seq![]))]),
        JsonView::Object(seq![("CsrfToken"@, JsonView::Array(seq![])), ("SessionCookie"@, JsonView::Array(seq![]))]),
    ])
}

/// The OpenAPI operation object of `spec`.
pub open spec fn operation_doc(spec: OperationSpec) -> JsonView {
    let summary = match spec.summary {
        Some(s) => seq![("summary"@, JsonView::Str(s@))],
        None => Seq::<(Seq<char>, JsonView)>::empty(),
    };
    let request = match spec.request {
        Some(d) => seq![("requestBody"@, request_body_doc(d.name@))],
        None => Seq::<(Seq<char>, JsonView)>::empty(),
    };
    let security = if spec.authenticated {
        seq![("security"@, security_doc())]
    } else {
        Seq::<(Seq<char>, JsonView)>::empty()
    };
    JsonView::Object(seq![("operationId"@, JsonView::Str(spec.operation_id@))] + summary + request
        + seq![("responses"@, JsonView::Object(responses_doc(spec, spec.errors@.len() as int)))] + security)
}

fn json_content(name: &str) -> (r: Json)
    ensures r@ == json_content_doc(name@),
{
    obj1("application/json", obj1("schema", schema_ref(name)))
}

fn empty_array() -> (r: Json)
    ensures r@ == JsonView::Array(seq![]),
{
    let r = Json::Array(Vec::new());
    proof { assert(r@->Array_0 =~= Seq::<JsonView>::empty()); }
    r
}

fn security_json() -> (r: Json)
    ensures r@ == security_doc(),
{
    let token = obj1("TokenAuth", empty_array());
    let session = obj2("CsrfToken", empty_array(), "SessionCookie", empty_array());
    let ghost (a, b) = (token@, session@);
    let mut items: Vec<Json> = Vec::new();
    items.push(token);
    items.push(session);
    let r = Json::Array(items);
    proof { assert(r@->Array_0 =~= seq![a, b]); }
    r
}

/// The OpenAPI operation object of an extension operation.
pub fn operation_json(spec: &OperationSpec) -> (r: Json)
    ensures r@ == operation_doc(*spec),
{
    let mut e: Vec<(String, Json)> = Vec::new();
    e.push((owned("operationId"), Json::Str(spec.operation_id.clone())));
    let ghost e0 = pairs_of(e@);
    proof { assert(e0 =~= seq![("operationId"@, JsonView::Str(spec.operation_id@))]); }
    match &spec.summary {
        Some(text) => { e.push((owned("summary"), Json::Str(text.clone()))); },
        None => {},
    }
    let ghost e1 = pairs_of(e@);
    proof {
        match &spec.summary {
            Some(t) => { assert(e1 =~= e0 + seq![("summary"@, JsonView::Str(t@))]); },
            None => { assert(e1 =~= e0 + Seq::<(Seq<char>, JsonView)>::empty()); },
        }
    }
    match &spec.request {
        Some(d) => {
            e.push((owned("requestBody"), obj2("required", Json::Bool(true), "content", json_content(d.name.as_str()))));
        },
        None => {},
    }
    let ghost e2 = pairs_of(e@);
    proof {
        match &spec.request {
            Some(d) => { assert(e2 =~= e1 + seq![("requestBody"@, request_body_doc(d.name@))]); },
            None => { assert(e2 =~= e1 + Seq::<(Seq<char>, JsonView)>::empty()); },
        }
    }
    let mut responses: Vec<(String, Json)> = Vec::new();
    match &spec.response {
        Some((status, d)) => {
            let key = u64_to_decimal(*status as u64);
            responses.push((key, obj2("description", json_str("OK"), "content", json_content(d.name.as_str()))));
        },
        None => {},
    }
    proof {
        match &spec.response {
            Some((status, d)) => {
                assert(pairs_of(responses@) =~= seq![(decimal(*status as nat), ok_response_doc(d.name@))]);
            },
            None => { assert(pairs_of(responses@) =~= Seq::<(Seq<char>, JsonView)>::empty()); },
        }
    }
    let mut i: usize = 0;
    while i < spec.errors.len()
        invariant
            i <= spec.errors@.len(),
            pairs_of(responses@) == responses_doc(*spec, i as int),
        decreases spec.errors.len() - i,
    {
        let key = u64_to_decimal(spec.errors[i] as u64);
        set_entry(&mut responses, key.as_str(), obj1("description", json_str("Error")));
        i += 1;
    }
    let ghost rv = pairs_of(responses@);
    e.push((owned("responses"), object_of(responses)));
    let ghost e3 = pairs_of(e@);
    proof { assert(e3 =~= e2 + seq![("responses"@, JsonView::Object(rv))]); }
    if spec.authenticated {
        e.push((owned("security"), security_json()));
        proof { assert(pairs_of(e@) =~= e3 + seq![("security"@, security_doc())]); }
    } else {
        proof { assert(pairs_of(e@) =~= e3 + Seq::<(Seq<char>, JsonView)>::empty()); }
    }
    object_of(e)
}


/// Why an extension could not be installed.
#[derive(Debug, Clone, PartialEq, Eq)]
pub enum ExtensionError {
    /// A relative route path contains `..`.
    DotDotPath,
    /// The extension is already installed for the viewset at `path`.
    DuplicateExtension { id: String, path: String },
    /// The mutation hook is already installed for the viewset at `path`.
    DuplicateHook { id: String, path: String },
    /// The method and path are already taken by another operation.
    RouteConflict { method: HttpMethod, path: String, existing: String, operation: String },
    /// The client method is already taken by another operation.
    ClientConflict { namespace: String, name: String, existing: String, operation: String },
    /// Two different schemas share a name.
    SchemaConflict(String),
}

/// The upper-case name of an HTTP method.
pub open spec fn method_name(m: HttpMethod) -> Seq<char> {
    match m {
        HttpMethod::Get => "GET"@,
        HttpMethod::Post => "POST"@,
        HttpMethod::Put => "PUT"@,
        HttpMethod::Patch => "PATCH"@,
        HttpMethod::Delete => "DELETE"@,
    }
}

/// The message of an extension error.
pub open spec fn extension_error_message(e: ExtensionError) -> Seq<char> {
    match e {
        ExtensionError::DotDotPath => "extension paths may not contain `..`"@,
        ExtensionError::DuplicateExtension { id, path } =>
            "extension `"@ + id@ + "` is already installed for "@ + path@,
        ExtensionError::DuplicateHook { id, path } =>
            "mutation hook `"@ + id@ + "` is already installed for "@ + path@,
        ExtensionError::RouteConflict { method, path, existing, operation } =>
            "route conflict for "@ + method_name(method) + " "@ + path@ + " between `"@ + existing@
                + "` and `"@ + operation@ + "`"@,
        ExtensionError::ClientConflict { namespace, name, existing, operation } =>
            "client method conflict for "@ + namespace@ + "."@ + name@ + " between `"@ + existing@
                + "` and `"@ + operation@ + "`"@,
        ExtensionError::SchemaConflict(name) => "conflicting API schema `"@ + name@ + "`"@,
    }
}

impl HttpMethod {
    /// The upper-case name of the method.
    pub fn name(self) -> (s: &'static str)
        ensures s@ == method_name(self),
    {
        match self {
            HttpMethod::Get => "GET",
            HttpMethod::Post => "POST",
            HttpMethod::Put => "PUT",
            HttpMethod::Patch => "PATCH",
            HttpMethod::Delete => "DELETE",
        }
    }
}

impl ExtensionError {
    /// The message of the error.
    pub fn message(&self) -> (s: String)
        ensures s@ == extension_error_message(*self),
    {
        match self {
            ExtensionError::DotDotPath => owned("extension paths may not contain `..`"),
            ExtensionError::DuplicateExtension { id, path } => {
                let mut s = owned("extension `");
                push_str(&mut s, id.as_str());
                push_str(&mut s, "` is already installed for ");
                push_str(&mut s, path.as_str());
                s
            },
            ExtensionError::DuplicateHook { id, path } => {
                let mut s = owned("mutation hook `");
                push_str(&mut s, id.as_str());
                push_str(&mut s, "` is already installed for ");
                push_str(&mut s, path.as_str());
                s
            },
            ExtensionError::RouteConflict { method, path, existing, operation } => {
                let mut s = owned("route conflict for ");
                push_str(&mut s, method.name());
                push_str(&mut s, " ");
                push_str(&mut s, path.as_str());
                push_str(&mut s, " between `");
                push_str(&mut s, existing.as_str());
                push_str(&mut s, "` and `");
                push_str(&mut s, operation.as_str());
                push_str(&mut s, "`");
                s
            },
            ExtensionError::ClientConflict { namespace, name, existing, operation } => {
                let mut s = owned("client method conflict for ");
                push_str(&mut s, namespace.as_str());
                push_str(&mut s, ".");
                push_str(&mut s, name.as_str());
                push_str(&mut s, " between `");
                push_str(&mut s, existing.as_str());
                push_str(&mut s, "` and `");
                push_str(&mut s, operation.as_str());
                push_str(&mut s, "`");
                s
            },
            ExtensionError::SchemaConflict(name) => {
                let mut s = owned("conflicting API schema `");
                push_str(&mut s, name.as_str());
                push_str(&mut s, "`");
                s
            },
        }
    }

    /// The error answered for a refused extension: a bad request with the
    /// message.
    pub fn app_error(&self) -> (e: AppError)
        ensures e matches AppError::BadRequest(m) && m@ == extension_error_message(*self),
    {
        AppError::BadRequest(self.message())
    }
}

/// `s` contains `..`.
pub open spec fn has_dot_dot(s: Seq<char>) -> bool {
    exists|i: int| 0 <= i < s.len() - 1 && s[i] == '.' && #[trigger] s[i + 1] == '.'
}

/// The route of an extension: `{prefix}/{relative}/` with the prefix's
/// trailing and the relative path's surrounding slashes removed.
pub open spec fn extension_route(prefix: Seq<char>, relative: Seq<char>) -> Seq<char> {
    trim_end_char(prefix, '/') + seq!['/'] + trim_char(relative, '/') + seq!['/']
}

/// Joins a viewset path and a relative extension path; `..` is refused.
pub fn normalize_path(prefix: &str, relative: &str) -> (r: Result<String, ExtensionError>)
    ensures
        has_dot_dot(relative@) ==> r == Err::<String, ExtensionError>(ExtensionError::DotDotPath),
        !has_dot_dot(relative@) ==> (r matches Ok(s) && s@ == extension_route(prefix@, relative@)),
{
    let q = chars_of(relative);
    let mut i: usize = 0;
    while q.len() > 0 && i < q.len() - 1
        invariant
            q@ == relative@,
            i <= q.len(),
            forall|j: int| 0 <= j < i && j < q@.len() - 1 ==> !(q@[j] == '.' && #[trigger] q@[j + 1] == '.'),
        decreases q.len() - i,
    {
        if q[i] == '.' && q[i + 1] == '.' {
            return Err(ExtensionError::DotDotPath);
        }
        i += 1;
    }
    proof {
        assert(!has_dot_dot(relative@)) by {
            if has_dot_dot(relative@) {
                let j = choose|j: int| 0 <= j < q@.len() - 1 && q@[j] == '.' && #[trigger] q@[j + 1] == '.';
                assert(j < i);
            }
        }
    }
    let p = chars_of(prefix);
    let mut out: Vec<char> = Vec::new();
    let pe = crate::openapi::trim_end_bound_pub(&p, '/');
    let mut k: usize = 0;
    while k < pe
        invariant
            k <= pe <= p.len(),
            out@ == p@.subrange(0, k as int),
        decreases pe - k,
    {
        out.push(p[k]);
        proof { assert(p@.subrange(0, k + 1) =~= p@.subrange(0, k as int).push(p@[k as int])); }
        k += 1;
    }
    out.push('/');
    let ghost mid = out@;
    let (qs, qe) = crate::openapi::trim_bounds_pub(&q, '/');
    let mut j = qs;
    while j < qe
        invariant
            qs <= j <= qe <= q.len(),
            out@ == mid + q@.subrange(qs as int, j as int),
        decreases qe - j,
    {
        out.push(q[j]);
        proof { assert(mid + q@.subrange(qs as int, j + 1) =~= (mid + q@.subrange(qs as int, j as int)).push(q@[j as int])); }
        j += 1;
    }
    out.push('/');
    proof {
        assert(out@ =~= extension_route(prefix@, relative@));
    }
    Ok(crate::text::string_of(&out))
}

/// The segments of `s` separated by `c`.
pub open spec fn split_char(s: Seq<char>, c: char) -> Seq<Seq<char>>
    decreases s.len(),
{
    if s.len() == 0 {
        seq![Seq::empty()]
    } else {
        let rest = split_char(s.drop_last(), c);
        if s.last() == c {
            rest.push(Seq::empty())
        } else {
            rest.update(rest.len() - 1, rest.last().push(s.last()))
        }
    }
}

/// The part of `s` before its first `c` (all of `s` when there is none).
pub open spec fn before_char(s: Seq<char>, c: char) -> Seq<char>
    decreases s.len(),
{
    if s.len() == 0 {
        Seq::empty()
    } else if s[0] == c {
        Seq::empty()
    } else {
        seq![s[0]] + before_char(s.skip(1), c)
    }
}

/// The names of the `{name}` parameters of a route, in order, from the
/// segments after each `{` up to the following `}`; empty names are skipped.
pub open spec fn parameter_names(segments: Seq<Seq<char>>) -> Seq<Seq<char>>
    decreases segments.len(),
{
    if segments.len() <= 1 {
        Seq::empty()
    } else {
        let name = before_char(segments.last(), '}');
        let rest = parameter_names(segments.drop_last());
        if name.len() > 0 { rest.push(name) } else { rest }
    }
}

/// A path parameter of an extension route.
#[derive(Debug, Clone)]
pub struct PathParameter {
    pub name: String,
    /// `id` is an integer; every other parameter is a string.
    pub integer: bool,
}

pub open spec fn id_name() -> Seq<char> {
    seq!['i', 'd']
}

/// The segments of `s` separated by `c`.
pub(crate) fn split_exec(s: &Vec<char>, c: char) -> (r: Vec<Vec<char>>)
    ensures
        r@.len() >= 1,
        Seq::new(r@.len(), |j: int| r@[j]@) == split_char(s@, c),
{
    let mut done: Vec<Vec<char>> = Vec::new();
    let mut cur: Vec<char> = Vec::new();
    let mut i: usize = 0;
    while i < s.len()
        invariant
            i <= s.len(),
            Seq::new(done@.len(), |j: int| done@[j]@).push(cur@) == split_char(s@.take(i as int), c),
        decreases s.len() - i,
    {
        let ghost before = Seq::new(done@.len(), |j: int| done@[j]@).push(cur@);
        proof { assert(s@.take(i + 1).drop_last() =~= s@.take(i as int)); }
        if s[i] == c {
            let finished = cur;
            done.push(finished);
            cur = Vec::new();
            proof {
                assert(Seq::new(done@.len(), |j: int| done@[j]@).push(cur@) =~= before.push(Seq::empty()));
            }
        } else {
            cur.push(s[i]);
            proof {
                assert(Seq::new(done@.len(), |j: int| done@[j]@).push(cur@)
                    =~= before.update(before.len() - 1, before.last().push(s@[i as int])));
            }
        }
        i += 1;
    }
    done.push(cur);
    proof { assert(s@.take(s@.len() as int) =~= s@); }
    proof {
        let v = Seq::new(done@.len(), |j: int| done@[j]@);
        assert(v =~= split_char(s@, c));
    }
    done
}

fn before_exec(s: &Vec<char>, c: char) -> (r: Vec<char>)
    ensures r@ == before_char(s@, c),
{
    let mut r: Vec<char> = Vec::new();
    let mut i: usize = 0;
    proof { assert(s@.skip(0) =~= s@); }
    while i < s.len() && s[i] != c
        invariant
            i <= s.len(),
            before_char(s@, c) == r@ + before_char(s@.skip(i as int), c),
        decreases s.len() - i,
    {
        proof {
            assert(s@.skip(i as int)[0] == s@[i as int]);
            assert(s@.skip(i as int).skip(1) =~= s@.skip(i + 1));
        }
        r.push(s[i]);
        proof { assert(r@ + before_char(s@.skip(i + 1), c) =~= before_char(s@, c)); }
        i += 1;
    }
    proof {
        if i < s.len() { assert(s@.skip(i as int)[0] == c); }
        assert(r@ + Seq::<char>::empty() =~= r@);
    }
    r
}

/// The path parameters of an extension route: the names between `{` and
/// `}`, in order; `id` is an integer, others are strings.
pub fn path_parameters(path: &str) -> (r: Vec<PathParameter>)
    ensures
        r@.len() == parameter_names(split_char(path@, '{')).len(),
        forall|i: int| 0 <= i < r@.len() ==> {
            &&& (#[trigger] r@[i]).name@ == parameter_names(split_char(path@, '{'))[i]
            &&& r@[i].integer == (r@[i].name@ == id_name())
        },
{
    let s = chars_of(path);
    let segments = split_exec(&s, '{');
    let ghost segs = Seq::new(segments@.len(), |j: int| segments@[j]@);
    let mut r: Vec<PathParameter> = Vec::new();
    let mut k: usize = 1;
    proof {
        assert(segs.take(1).len() <= 1);
    }
    while k < segments.len()
        invariant
            1 <= k <= segments.len(),
            segs == Seq::new(segments@.len(), |j: int| segments@[j]@),
            r@.len() == parameter_names(segs.take(k as int)).len(),
            forall|i: int| 0 <= i < r@.len() ==> {
                &&& (#[trigger] r@[i]).name@ == parameter_names(segs.take(k as int))[i]
                &&& r@[i].integer == (r@[i].name@ == id_name())
            },
        decreases segments.len() - k,
    {
        let name = before_exec(&segments[k], '}');
        proof {
            assert(segs.take(k + 1).drop_last() =~= segs.take(k as int));
            assert(segs.take(k + 1).last() == segments@[k as int]@);
        }
        if name.len() > 0 {
            let id = vec!['i', 'd'];
            let integer = seq_eq(&name, &id);
            proof { assert(id@ == id_name()); }
            let text = crate::text::string_of(&name);
            r.push(PathParameter { name: text, integer });
        }
        k += 1;
    }
    proof { assert(segs.take(segments@.len() as int) =~= segs); }
    r
}

fn copy_schema(d: &ApiSchemaDefinition) -> (r: ApiSchemaDefinition)
    ensures r@ == d@, r.name == d.name,
{
    ApiSchemaDefinition { name: d.name.clone(), openapi: d.openapi.deep_copy(), typescript: d.typescript.clone() }
}

/// A registered extension operation.
#[derive(Debug, Clone)]
pub struct ApiOperation {
    pub extension_id: String,
    pub operation_id: String,
    pub method: HttpMethod,
    pub path: String,
    pub request: Option<ApiSchemaDefinition>,
    pub response: Option<(u16, ApiSchemaDefinition)>,
    pub client: Option<ClientMethod>,
    /// The operation object of the OpenAPI document.
    pub openapi: Json,
}

/// An installed extension and its operations.
#[derive(Debug, Clone)]
pub struct ApiExtension {
    pub id: String,
    pub operations: Vec<ApiOperation>,
}

/// The operations registered so far by the extension being installed.
pub struct ExtensionContext {
    pub extension_id: String,
    pub operations: Vec<ApiOperation>,
}

/// `s` holds a schema named `name`.
pub open spec fn schema_named(s: Seq<SchemaView>, name: Seq<char>) -> bool {
    exists|i: int| 0 <= i < s.len() && (#[trigger] s[i]).name == name
}

/// `s` holds a schema with the name of `d` but another OpenAPI text or
/// TypeScript declaration.
pub open spec fn schema_conflicts(s: Seq<SchemaView>, d: SchemaView) -> bool {
    exists|i: int| 0 <= i < s.len() && (#[trigger] s[i]).name == d.name
        && (s[i].openapi != d.openapi || s[i].typescript != d.typescript)
}

/// The schemas after registering `d` without conflict: unchanged when its
/// name is known, else with `d` appended.
pub open spec fn schemas_with(s: Seq<SchemaView>, d: SchemaView) -> Seq<SchemaView> {
    if schema_named(s, d.name) { s } else { s.push(d) }
}

/// The extension routes of one viewset: installed extensions, schemas,
/// the operation taking each method and path, the operation owning each
/// client method, and mutation hooks.
pub struct ViewSetConfig {
    path: String,
    extensions: Vec<ApiExtension>,
    schemas: Vec<ApiSchemaDefinition>,
    operation_keys: Vec<(String, HttpMethod, String)>,
    client_keys: Vec<(String, String, String)>,
    hooks: Vec<String>,
}

impl ViewSetConfig {
    pub closed spec fn path_view(&self) -> Seq<char> { self.path@ }
    pub closed spec fn schemas_view(&self) -> Seq<SchemaView> { schema_views(self.schemas@) }
    pub closed spec fn extensions_view(&self) -> Seq<ApiExtension> { self.extensions@ }
    pub closed spec fn hooks_view(&self) -> Seq<String> { self.hooks@ }
    pub closed spec fn clients_view(&self) -> Seq<(String, String, String)> { self.client_keys@ }
    pub closed spec fn operations_view(&self) -> Seq<(String, HttpMethod, String)> { self.operation_keys@ }

    /// The operation taking `method` on `path`, if any.
    pub open spec fn route_taken(&self, path: Seq<char>, method: HttpMethod) -> bool {
        exists|i: int| 0 <= i < self.operations_view().len()
            && (#[trigger] self.operations_view()[i]).0@ == path && self.operations_view()[i].1 == method
    }

    pub open spec fn route_owner(&self, path: Seq<char>, method: HttpMethod) -> String {
        self.operations_view()[choose|i: int| 0 <= i < self.operations_view().len()
            && (#[trigger] self.operations_view()[i]).0@ == path && self.operations_view()[i].1 == method].2
    }

    pub open spec fn client_taken(&self, namespace: Seq<char>, name: Seq<char>) -> bool {
        exists|i: int| 0 <= i < self.clients_view().len()
            && (#[trigger] self.clients_view()[i]).0@ == namespace && self.clients_view()[i].1@ == name
    }

    pub open spec fn client_owner(&self, namespace: Seq<char>, name: Seq<char>) -> String {
        self.clients_view()[choose|i: int| 0 <= i < self.clients_view().len()
            && (#[trigger] self.clients_view()[i]).0@ == namespace && self.clients_view()[i].1@ == name].2
    }

    /// Routes and client methods are each owned by at most one operation.
    pub open spec fn wf(&self) -> bool {
        &&& forall|i: int, j: int| 0 <= i < j < self.operations_view().len() ==>
            !(self.operations_view()[i].0@ == self.operations_view()[j].0@ && self.operations_view()[i].1 == self.operations_view()[j].1)
        &&& forall|i: int, j: int| 0 <= i < j < self.clients_view().len() ==>
            !(self.clients_view()[i].0@ == self.clients_view()[j].0@ && self.clients_view()[i].1@ == self.clients_view()[j].1@)
    }

    /// An empty configuration for the viewset at `path` (trailing slashes
    /// removed).
    pub fn new(path: &str) -> (c: ViewSetConfig)
        ensures
            c.wf(),
            c.path_view() == trim_end_char(path@, '/'),
            c.schemas_view().len() == 0,
            c.extensions_view().len() == 0,
            c.hooks_view().len() == 0,
            c.clients_view().len() == 0,
            c.operations_view().len() == 0,
    {
        let p = chars_of(path);
        let e = crate::openapi::trim_end_bound_pub(&p, '/');
        ViewSetConfig {
            path: string_of_range(&p, 0, e),
            extensions: Vec::new(),
            schemas: Vec::new(),
            operation_keys: Vec::new(),
            client_keys: Vec::new(),
            hooks: Vec::new(),
        }
    }

    /// The viewset path.
    pub fn path(&self) -> (p: &String)
        ensures p@ == self.path_view(),
    {
        &self.path
    }

    /// Starts installing extension `id`; an extension is installed once.
    pub fn begin_extension(&self, id: &str) -> (r: Result<ExtensionContext, ExtensionError>)
        ensures
            (exists|i: int| 0 <= i < self.extensions_view().len() && (#[trigger] self.extensions_view()[i]).id@ == id@)
                ==> (r matches Err(ExtensionError::DuplicateExtension { id: e, path: p }) && e@ == id@ && p@ == self.path_view()),
            !(exists|i: int| 0 <= i < self.extensions_view().len() && (#[trigger] self.extensions_view()[i]).id@ == id@)
                ==> (r matches Ok(ctx) && ctx.extension_id@ == id@ && ctx.operations@.len() == 0),
    {
        let mut i: usize = 0;
        while i < self.extensions.len()
            invariant
                i <= self.extensions@.len(),
                forall|j: int| 0 <= j < i ==> self.extensions@[j].id@ != id@,
            decreases self.extensions.len() - i,
        {
            if str_eq(self.extensions[i].id.as_str(), id) {
                proof { assert(self.extensions_view()[i as int].id@ == id@); }
                return Err(ExtensionError::DuplicateExtension { id: owned(id), path: self.path.clone() });
            }
            i += 1;
        }
        Ok(ExtensionContext { extension_id: owned(id), operations: Vec::new() })
    }

    /// Records an installed extension with the operations it registered.
    pub fn finish_extension(&mut self, ctx: ExtensionContext)
        ensures
            final(self).extensions_view() == old(self).extensions_view().push(ApiExtension { id: ctx.extension_id, operations: ctx.operations }),
            final(self).schemas_view() == old(self).schemas_view(),
            final(self).operations_view() == old(self).operations_view(),
            final(self).clients_view() == old(self).clients_view(),
            final(self).hooks_view() == old(self).hooks_view(),
            final(self).path_view() == old(self).path_view(),
    {
        self.extensions.push(ApiExtension { id: ctx.extension_id, operations: ctx.operations });
    }

    /// Installs mutation hook `id`; a hook is installed once.
    pub fn add_hook(&mut self, id: &str) -> (r: Result<(), ExtensionError>)
        ensures
            (exists|i: int| 0 <= i < old(self).hooks_view().len() && (#[trigger] old(self).hooks_view()[i])@ == id@) ==> (
                r matches Err(ExtensionError::DuplicateHook { id: e, path: p }) && e@ == id@ && p@ == old(self).path_view()
                && final(self).hooks_view() == old(self).hooks_view()),
            !(exists|i: int| 0 <= i < old(self).hooks_view().len() && (#[trigger] old(self).hooks_view()[i])@ == id@) ==> (
                r is Ok && final(self).hooks_view().len() == old(self).hooks_view().len() + 1
                && final(self).hooks_view().drop_last() == old(self).hooks_view()
                && final(self).hooks_view().last()@ == id@),
            final(self).extensions_view() == old(self).extensions_view(),
            final(self).schemas_view() == old(self).schemas_view(),
            final(self).operations_view() == old(self).operations_view(),
            final(self).clients_view() == old(self).clients_view(),
            final(self).path_view() == old(self).path_view(),
    {
        let mut i: usize = 0;
        while i < self.hooks.len()
            invariant
                i <= self.hooks@.len(),
                forall|j: int| 0 <= j < i ==> self.hooks@[j]@ != id@,
            decreases self.hooks.len() - i,
        {
            if str_eq(self.hooks[i].as_str(), id) {
                proof { assert(old(self).hooks_view()[i as int]@ == id@); }
                return Err(ExtensionError::DuplicateHook { id: owned(id), path: self.path.clone() });
            }
            i += 1;
        }
        let ghost before = self.hooks@;
        self.hooks.push(owned(id));
        proof { assert(self.hooks@.drop_last() =~= before); }
        Ok(())
    }

    fn find_schema(&self, name: &String) -> (r: Option<usize>)
        ensures
            match r {
                Some(i) => i < self.schemas@.len() && self.schemas@[i as int].name@ == name@,
                None => !schema_named(self.schemas_view(), name@),
            },
    {
        let mut i: usize = 0;
        while i < self.schemas.len()
            invariant
                i <= self.schemas@.len(),
                forall|j: int| 0 <= j < i ==> self.schemas@[j].name@ != name@,
            decreases self.schemas.len() - i,
        {
            if self.schemas[i].name == *name {
                return Some(i);
            }
            i += 1;
        }
        proof {
            assert forall|j: int| 0 <= j < self.schemas_view().len() implies (#[trigger] self.schemas_view()[j]).name != name@ by {
                assert(self.schemas_view()[j] == self.schemas@[j]@);
            }
        }
        None
    }

    /// Registers a schema: a new name is added, the same definition again is
    /// accepted, another definition under a known name is a conflict.
    fn register_schema(&mut self, schema: ApiSchemaDefinition) -> (r: Result<(), ExtensionError>)
        requires
            forall|i: int, j: int| 0 <= i < j < old(self).schemas_view().len() ==>
                old(self).schemas_view()[i].name != old(self).schemas_view()[j].name,
        ensures
            forall|i: int, j: int| 0 <= i < j < final(self).schemas_view().len() ==>
                final(self).schemas_view()[i].name != final(self).schemas_view()[j].name,
            schema_conflicts(old(self).schemas_view(), schema@) ==> (r matches Err(ExtensionError::SchemaConflict(n)) && n == schema.name
                && final(self).schemas_view() == old(self).schemas_view()),
            !schema_conflicts(old(self).schemas_view(), schema@) ==> (r is Ok
                && final(self).schemas_view() == schemas_with(old(self).schemas_view(), schema@)),
            final(self).extensions == old(self).extensions,
            final(self).operation_keys == old(self).operation_keys,
            final(self).client_keys == old(self).client_keys,
            final(self).hooks == old(self).hooks,
            final(self).path == old(self).path,
    {
        let ghost sv = self.schemas_view();
        match self.find_schema(&schema.name) {
            Some(i) => {
                proof {
                    assert(sv[i as int] == self.schemas@[i as int]@);
                    assert forall|j: int| 0 <= j < sv.len() && (#[trigger] sv[j]).name == schema.name@ implies j == i by {
                        if j < i { assert(sv[j].name != sv[i as int].name); }
                        if j > i { assert(sv[i as int].name != sv[j].name); }
                    }
                    assert(schema_named(sv, schema.name@));
                }
                if !json_eq(&self.schemas[i].openapi, &schema.openapi) || self.schemas[i].typescript != schema.typescript {
                    return Err(ExtensionError::SchemaConflict(schema.name));
                }
                Ok(())
            },
            None => {
                let ghost before = self.schemas@;
                let ghost d = schema@;
                self.schemas.push(schema);
                proof {
                    assert(self.schemas_view() =~= sv.push(d));
                    assert forall|i: int, j: int| 0 <= i < j < self.schemas_view().len() implies self.schemas_view()[i].name != self.schemas_view()[j].name by {
                        if j == sv.len() {
                            assert(sv[i].name != d.name);
                        }
                    }
                }
                Ok(())
            },
        }
    }

    fn find_route(&self, path: &String, method: HttpMethod) -> (r: Option<usize>)
        ensures
            match r {
                Some(i) => i < self.operation_keys@.len() && self.operation_keys@[i as int].0@ == path@
                    && self.operation_keys@[i as int].1 == method,
                None => !self.route_taken(path@, method),
            },
    {
        let mut i: usize = 0;
        while i < self.operation_keys.len()
            invariant
                i <= self.operation_keys@.len(),
                forall|j: int| 0 <= j < i ==> !(self.operation_keys@[j].0@ == path@ && self.operation_keys@[j].1 == method),
            decreases self.operation_keys.len() - i,
        {
            if self.operation_keys[i].0 == *path && self.operation_keys[i].1 == method {
                return Some(i);
            }
            i += 1;
        }
        None
    }

    fn find_client(&self, namespace: &String, name: &String) -> (r: Option<usize>)
        ensures
            match r {
                Some(i) => i < self.client_keys@.len() && self.client_keys@[i as int].0@ == namespace@
                    && self.client_keys@[i as int].1@ == name@,
                None => !self.client_taken(namespace@, name@),
            },
    {
        let mut i: usize = 0;
        while i < self.client_keys.len()
            invariant
                i <= self.client_keys@.len(),
                forall|j: int| 0 <= j < i ==> !(self.client_keys@[j].0@ == namespace@ && self.client_keys@[j].1@ == name@),
            decreases self.client_keys.len() - i,
        {
            if self.client_keys[i].0 == *namespace && self.client_keys[i].1 == *name {
                return Some(i);
            }
            i += 1;
        }
        None
    }

    /// Registers an operation for `method` on `path`. A taken route or client
    /// method is a conflict naming the operation that owns it; then the
    /// client method is taken, the request and response schemas are
    /// registered, and the route is taken and the operation recorded.
    pub fn register(&mut self, ctx: &mut ExtensionContext, path: String, method: HttpMethod, spec: OperationSpec) -> (r: Result<(), ExtensionError>)
        requires
            old(self).wf(),
            forall|i: int, j: int| 0 <= i < j < old(self).schemas_view().len() ==>
                old(self).schemas_view()[i].name != old(self).schemas_view()[j].name,
        ensures
            final(self).wf(),
            forall|i: int, j: int| 0 <= i < j < final(self).schemas_view().len() ==>
                final(self).schemas_view()[i].name != final(self).schemas_view()[j].name,
            final(self).extensions_view() == old(self).extensions_view(),
            final(self).hooks_view() == old(self).hooks_view(),
            final(self).path_view() == old(self).path_view(),
            old(self).route_taken(path@, method) ==> (
                r == Err::<(), ExtensionError>(ExtensionError::RouteConflict {
                    method, path, existing: old(self).route_owner(path@, method), operation: spec.operation_id })
                && *final(self) == *old(self) && *final(ctx) == *old(ctx)),
            !old(self).route_taken(path@, method) && (spec.client matches Some(c) && old(self).client_taken(c.namespace@, c.name@)) ==> (
                r == Err::<(), ExtensionError>(ExtensionError::ClientConflict {
                    namespace: spec.client->0.namespace, name: spec.client->0.name,
                    existing: old(self).client_owner(spec.client->0.namespace@, spec.client->0.name@),
                    operation: spec.operation_id })
                && *final(self) == *old(self) && *final(ctx) == *old(ctx)),
            !old(self).route_taken(path@, method) && !(spec.client matches Some(c) && old(self).client_taken(c.namespace@, c.name@)) ==> {
                let clients = match spec.client {
                    Some(c) => old(self).clients_view().push((c.namespace, c.name, spec.operation_id)),
                    None => old(self).clients_view(),
                };
                let s0 = old(self).schemas_view();
                let s1 = match spec.request { Some(d) => schemas_with(s0, d@), None => s0 };
                let s2 = match spec.response { Some((_, d)) => schemas_with(s1, d@), None => s1 };
                let resp = match spec.response { Some((_, d)) => Some(d), None => None };
                &&& final(self).clients_view() == clients
                &&& if spec.request is Some && schema_conflicts(s0, spec.request->0@) {
                        &&& r == Err::<(), ExtensionError>(ExtensionError::SchemaConflict(spec.request->0.name))
                        &&& final(self).schemas_view() == s0
                        &&& final(self).operations_view() == old(self).operations_view()
                        &&& *final(ctx) == *old(ctx)
                    } else if resp is Some && schema_conflicts(s1, resp->0@) {
                        &&& r == Err::<(), ExtensionError>(ExtensionError::SchemaConflict(resp->0.name))
                        &&& final(self).schemas_view() == s1
                        &&& final(self).operations_view() == old(self).operations_view()
                        &&& *final(ctx) == *old(ctx)
                    } else {
                        &&& r is Ok
                        &&& final(self).schemas_view() == s2
                        &&& final(self).operations_view() == old(self).operations_view().push((path, method, spec.operation_id))
                        &&& final(ctx).extension_id == old(ctx).extension_id
                        &&& final(ctx).operations@.len() == old(ctx).operations@.len() + 1
                        &&& final(ctx).operations@.drop_last() == old(ctx).operations@
                        &&& final(ctx).operations@.last().extension_id == old(ctx).extension_id
                        &&& final(ctx).operations@.last().operation_id == spec.operation_id
                        &&& final(ctx).operations@.last().method == method
                        &&& final(ctx).operations@.last().path == path
                        &&& final(ctx).operations@.last().request == spec.request
                        &&& final(ctx).operations@.last().response == spec.response
                        &&& final(ctx).operations@.last().client == spec.client
                        &&& final(ctx).operations@.last().openapi@ == operation_doc(spec)
                    }
            },
    {
        if let Some(k) = self.find_route(&path, method) {
            proof {
                let c = choose|i: int| 0 <= i < self.operations_view().len()
                    && (#[trigger] self.operations_view()[i]).0@ == path@ && self.operations_view()[i].1 == method;
                if c != k {
                    if c < k { assert(!(self.operation_keys@[c].0@ == self.operation_keys@[k as int].0@ && self.operation_keys@[c].1 == self.operation_keys@[k as int].1)); }
                    else { assert(!(self.operation_keys@[k as int].0@ == self.operation_keys@[c].0@ && self.operation_keys@[k as int].1 == self.operation_keys@[c].1)); }
                }
            }
            return Err(ExtensionError::RouteConflict {
                method,
                path,
                existing: self.operation_keys[k].2.clone(),
                operation: spec.operation_id,
            });
        }
        if let Some(client) = &spec.client {
            if let Some(k) = self.find_client(&client.namespace, &client.name) {
                proof {
                    let c = choose|i: int| 0 <= i < self.clients_view().len()
                        && (#[trigger] self.clients_view()[i]).0@ == client.namespace@ && self.clients_view()[i].1@ == client.name@;
                    if c != k {
                        if c < k { assert(!(self.client_keys@[c].0@ == self.client_keys@[k as int].0@ && self.client_keys@[c].1@ == self.client_keys@[k as int].1@)); }
                        else { assert(!(self.client_keys@[k as int].0@ == self.client_keys@[c].0@ && self.client_keys@[k as int].1@ == self.client_keys@[c].1@)); }
                    }
                }
                return Err(ExtensionError::ClientConflict {
                    namespace: client.namespace.clone(),
                    name: client.name.clone(),
                    existing: self.client_keys[k].2.clone(),
                    operation: spec.operation_id,
                });
            }
            let ghost before = self.client_keys@;
            self.client_keys.push((client.namespace.clone(), client.name.clone(), spec.operation_id.clone()));
            proof {
                assert forall|i: int, j: int| 0 <= i < j < self.client_keys@.len() implies
                    !(self.client_keys@[i].0@ == self.client_keys@[j].0@ && self.client_keys@[i].1@ == self.client_keys@[j].1@) by {
                    if j == before.len() {
                        assert(self.client_keys@[i] == before[i]);
                    }
                }
            }
        }
        proof { assert(self.schemas_view() == old(self).schemas_view()); }
        if let Some(schema) = &spec.request {
            match self.register_schema(copy_schema(schema)) {
                Ok(()) => {},
                Err(e) => { return Err(e); },
            }
        }
        if let Some((_, schema)) = &spec.response {
            match self.register_schema(copy_schema(schema)) {
                Ok(()) => {},
                Err(e) => { return Err(e); },
            }
        }
        let ghost before_ops = self.operation_keys@;
        let ghost schemas_now = self.schemas_view();
        self.operation_keys.push((path.clone(), method, spec.operation_id.clone()));
        proof {
            assert(self.schemas_view() == schemas_now);
            assert forall|i: int, j: int| 0 <= i < j < self.operation_keys@.len() implies
                !(self.operation_keys@[i].0@ == self.operation_keys@[j].0@ && self.operation_keys@[i].1 == self.operation_keys@[j].1) by {
                if j == before_ops.len() {
                    assert(self.operation_keys@[i] == before_ops[i]);
                }
            }
        }
        let openapi = operation_json(&spec);
        let ghost before_ctx = ctx.operations@;
        ctx.operations.push(ApiOperation {
            extension_id: ctx.extension_id.clone(),
            operation_id: spec.operation_id,
            method,
            path,
            request: spec.request,
            response: spec.response,
            client: spec.client,
            openapi,
        });
        proof { assert(ctx.operations@.drop_last() =~= before_ctx); }
        Ok(())
    }

    /// The installed extensions and the registered schemas.
    pub fn into_parts(self) -> (r: (Vec<ApiExtension>, Vec<ApiSchemaDefinition>))
        ensures r.0@ == self.extensions_view(), schema_views(r.1@) == self.schemas_view(),
    {
        (self.extensions, self.schemas)
    }
}

/// The OpenAPI description of path parameter `name`.
pub open spec fn path_parameter_doc(name: Seq<char>) -> JsonView {
    let schema = if name == id_name() {
        JsonView::Object(seq![("type"@, JsonView::Str("integer"@)), ("format"@, JsonView::Str("int64"@))])
    } else {
        JsonView::Object(seq![("type"@, JsonView::Str("string"@))])
    };
    JsonView::Object(seq![
        ("in"@, JsonView::Str("path"@)),
        ("name"@, JsonView::Str(name)),
        ("required"@, JsonView::Bool(true)),
        ("schema"@, schema),
    ])
}

/// The OpenAPI path parameters of a route.
pub open spec fn path_parameters_doc(path: Seq<char>) -> Seq<JsonView> {
    let names = parameter_names(split_char(path, '{'));
    Seq::new(names.len(), |i: int| path_parameter_doc(names[i]))
}

/// The entries of the path item of `path`, or none.
pub open spec fn path_item_of(paths: Seq<(Seq<char>, JsonView)>, path: Seq<char>) -> Seq<(Seq<char>, JsonView)> {
    match object_get(paths, path) {
        Some(JsonView::Object(e)) => e,
        _ => Seq::empty(),
    }
}

/// The paths after documenting `op`: its path item gets the path
/// parameters unless it has some, and the operation under its method.
pub open spec fn with_operation(paths: Seq<(Seq<char>, JsonView)>, op: ApiOperation) -> Seq<(Seq<char>, JsonView)> {
    let item = path_item_of(paths, op.path@);
    let params = path_parameters_doc(op.path@);
    let item1 = if object_get(item, "parameters"@) is None && params.len() > 0 {
        entries_set(item, "parameters"@, JsonView::Array(params))
    } else {
        item
    };
    entries_set(paths, op.path@, JsonView::Object(entries_set(item1, method_key(op.method), op.openapi@)))
}

/// The paths after documenting the first `n` operations of `ops`.
pub open spec fn paths_with_operations(paths: Seq<(Seq<char>, JsonView)>, ops: Seq<ApiOperation>, n: int) -> Seq<(Seq<char>, JsonView)>
    decreases n,
{
    if n <= 0 { paths } else { with_operation(paths_with_operations(paths, ops, n - 1), ops[n - 1]) }
}

/// The paths documenting the operations of the first `n` extensions.
pub open spec fn extension_paths_doc(exts: Seq<ApiExtension>, n: int) -> Seq<(Seq<char>, JsonView)>
    decreases n,
{
    if n <= 0 {
        Seq::empty()
    } else {
        paths_with_operations(extension_paths_doc(exts, n - 1), exts[n - 1].operations@, exts[n - 1].operations@.len() as int)
    }
}

fn path_parameter_json(p: &PathParameter) -> (r: Json)
    requires p.integer == (p.name@ == id_name()),
    ensures r@ == path_parameter_doc(p.name@),
{
    let schema = if p.integer {
        obj2("type", json_str("integer"), "format", json_str("int64"))
    } else {
        obj1("type", json_str("string"))
    };
    let ghost sv = schema@;
    let mut e: Vec<(String, Json)> = Vec::new();
    e.push((owned("in"), json_str("path")));
    e.push((owned("name"), Json::Str(p.name.clone())));
    e.push((owned("required"), Json::Bool(true)));
    e.push((owned("schema"), schema));
    proof {
        assert(pairs_of(e@) =~= seq![
            ("in"@, JsonView::Str("path"@)),
            ("name"@, JsonView::Str(p.name@)),
            ("required"@, JsonView::Bool(true)),
            ("schema"@, sv),
        ]);
    }
    object_of(e)
}

pub(crate) fn path_item_entries(paths: &Vec<(String, Json)>, path: &str) -> (r: Vec<(String, Json)>)
    ensures pairs_of(r@) == path_item_of(pairs_of(paths@), path@),
{
    let ghost pv = pairs_of(paths@);
    let found = find_entry(paths, path);
    proof { assert(pv =~= Seq::new(paths@.len(), |i: int| (paths@[i].0@, paths@[i].1@))); }
    match found {
        Some(i) => {
            let copy = paths[i].1.deep_copy();
            match copy {
                Json::Object(v) => {
                    proof {
                        assert(object_get(pv, path@) == Some(paths@[i as int].1@));
                        assert(pairs_of(v@) =~= paths@[i as int].1@->Object_0);
                    }
                    v
                },
                _ => {
                    proof { assert(object_get(pv, path@) == Some(paths@[i as int].1@)); }
                    Vec::new()
                },
            }
        },
        None => Vec::new(),
    }
}

fn add_operation(paths: &mut Vec<(String, Json)>, op: &ApiOperation)
    ensures pairs_of(final(paths)@) == with_operation(pairs_of(old(paths)@), *op),
{
    let mut item = path_item_entries(paths, op.path.as_str());
    let ghost item0 = pairs_of(item@);
    let params = path_parameters(op.path.as_str());
    let ghost pd = path_parameters_doc(op.path@);
    let has_parameters = find_entry(&item, "parameters");
    proof { assert(item0 =~= Seq::new(item@.len(), |i: int| (item@[i].0@, item@[i].1@))); }
    if has_parameters.is_none() && params.len() > 0 {
        let mut list: Vec<Json> = Vec::new();
        let mut k: usize = 0;
        while k < params.len()
            invariant
                k <= params@.len(),
                params@.len() == pd.len(),
                list@.len() == k,
                forall|j: int| 0 <= j < params@.len() ==> {
                    &&& (#[trigger] params@[j]).name@ == parameter_names(split_char(op.path@, '{'))[j]
                    &&& params@[j].integer == (params@[j].name@ == id_name())
                },
                pd == path_parameters_doc(op.path@),
                forall|j: int| 0 <= j < k ==> (#[trigger] list@[j])@ == pd[j],
            decreases params.len() - k,
        {
            list.push(path_parameter_json(&params[k]));
            k += 1;
        }
        let arr = Json::Array(list);
        proof { assert(arr@->Array_0 =~= pd); }
        set_entry(&mut item, "parameters", arr);
    }
    let ghost item1 = pairs_of(item@);
    set_entry(&mut item, op.method.openapi_key(), op.openapi.deep_copy());
    let ghost item2 = pairs_of(item@);
    let obj = Json::Object(item);
    proof { assert(obj@->Object_0 =~= item2); }
    set_entry(paths, op.path.as_str(), obj);
}

/// The OpenAPI path items of the installed extensions: each operation
/// under its method in the item of its path, which lists the path
/// parameters.
pub fn extension_path_entries(extensions: &Vec<ApiExtension>) -> (r: Vec<(String, Json)>)
    ensures pairs_of(r@) == extension_paths_doc(extensions@, extensions@.len() as int),
{
    let mut paths: Vec<(String, Json)> = Vec::new();
    proof { assert(pairs_of(paths@) =~= Seq::<(Seq<char>, JsonView)>::empty()); }
    let mut i: usize = 0;
    while i < extensions.len()
        invariant
            i <= extensions@.len(),
            pairs_of(paths@) == extension_paths_doc(extensions@, i as int),
        decreases extensions.len() - i,
    {
        let ops = &extensions[i].operations;
        let ghost base = pairs_of(paths@);
        let mut j: usize = 0;
        while j < ops.len()
            invariant
                j <= ops@.len(),
                *ops == extensions@[i as int].operations,
                base == extension_paths_doc(extensions@, i as int),
                pairs_of(paths@) == paths_with_operations(base, ops@, j as int),
            decreases ops.len() - j,
        {
            add_operation(&mut paths, &ops[j]);
            j += 1;
        }
        i += 1;
    }
    paths
}

/// The OpenAPI paths of the installed extensions, `{"paths": {...}}`.
pub fn extension_openapi(extensions: &Vec<ApiExtension>) -> (r: Json)
    ensures r@ == JsonView::Object(seq![("paths"@, JsonView::Object(extension_paths_doc(extensions@, extensions@.len() as int)))]),
{
    obj1("paths", object_of(extension_path_entries(extensions)))
}

/// Law: once an operation has taken a route, registering another operation
/// on the same method and path is refused and names the first operation.
pub proof fn law_route_taken_once(config: ViewSetConfig, path: String, method: HttpMethod, operation_id: String)
    requires
        config.wf(),
        exists|i: int| 0 <= i < config.operations_view().len()
            && (#[trigger] config.operations_view()[i]) == (path, method, operation_id),
    ensures
        config.route_taken(path@, method),
        config.route_owner(path@, method) == operation_id,
{
    let i = choose|i: int| 0 <= i < config.operations_view().len()
        && (#[trigger] config.operations_view()[i]) == (path, method, operation_id);
    assert(config.operations_view()[i].0@ == path@);
    let c = choose|j: int| 0 <= j < config.operations_view().len()
        && (#[trigger] config.operations_view()[j]).0@ == path@ && config.operations_view()[j].1 == method;
    if c != i {
        if c < i { assert(!(config.operations_view()[c].0@ == config.operations_view()[i].0@ && config.operations_view()[c].1 == config.operations_view()[i].1)); }
        else { assert(!(config.operations_view()[i].0@ == config.operations_view()[c].0@ && config.operations_view()[i].1 == config.operations_view()[c].1)); }
    }
}

} // verus!
