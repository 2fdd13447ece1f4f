use vstd::prelude::*;

use crate::error::AppError;
use crate::filters::FilterError;
use crate::num::{parse_u64, parse_u64_spec};
use crate::openapi::{trim_end_bound_pub, trim_end_char};
use crate::text::{chars_of, ends_with, owned, push_str, str_eq, string_of_range};

verus! {

/// The page size of a list when none is asked for.
pub const DEFAULT_PAGE_SIZE: u64 = 20;

/// The largest page size a list serves.
pub const MAX_PAGE_SIZE: u64 = 100;

/// The last value of query parameter `name` among `params` (the value a
/// map of the parameters keeps), from the first `n`.
pub open spec fn param_of(params: Seq<(String, String)>, name: Seq<char>, n: int) -> Option<Seq<char>>
    decreases n,
{
    if n <= 0 || n > params.len() {
        None
    } else if params[n - 1].0@ == name {
        Some(params[n - 1].1@)
    } else {
        param_of(params, name, n - 1)
    }
}

/// The value of query parameter `name`.
pub fn query_param<'a>(params: &'a Vec<(String, String)>, name: &str) -> (r: Option<&'a String>)
    ensures
        match r {
            Some(v) => param_of(params@, name@, params@.len() as int) == Some(v@),
            None => param_of(params@, name@, params@.len() as int) is None,
        },
{
    let mut n: usize = params.len();
    while n > 0
        invariant
            n <= params@.len(),
            param_of(params@, name@, params@.len() as int) == param_of(params@, name@, n as int),
        decreases n,
    {
        if str_eq(params[n - 1].0.as_str(), name) {
            return Some(&params[n - 1].1);
        }
        n -= 1;
    }
    None
}

/// A page bound: the parameter `name` as an unsigned integer, 0 when absent.
pub open spec fn page_of(params: Seq<(String, String)>, name: Seq<char>) -> Result<u64, Seq<char>> {
    match param_of(params, name, params.len() as int) {
        None => Ok(0),
        Some(v) => match parse_u64_spec(v) {
            Some(n) => Ok(n),
            None => Err(name + " must be an integer"@),
        },
    }
}

/// Reads the page bound `name` from the query parameters.
pub fn page(params: &Vec<(String, String)>, name: &str) -> (r: Result<u64, AppError>)
    ensures
        match page_of(params@, name@) {
            Ok(n) => r == Ok::<u64, AppError>(n),
            Err(m) => r matches Err(AppError::BadRequest(x)) && x@ == m,
        },
{
    match query_param(params, name) {
        None => Ok(0),
        Some(v) => match parse_u64(v.as_str()) {
            Some(n) => Ok(n),
            None => {
                let mut m = owned(name);
                push_str(&mut m, " must be an integer");
                Err(AppError::BadRequest(m))
            },
        },
    }
}

/// The limit and offset of a list page: the offset is read first; the limit
/// defaults to `DEFAULT_PAGE_SIZE` and may not exceed `MAX_PAGE_SIZE`.
pub open spec fn pagination_of(params: Seq<(String, String)>) -> Result<(u64, u64), Seq<char>> {
    match page_of(params, "offset"@) {
        Err(m) => Err(m),
        Ok(offset) => match page_of(params, "limit"@) {
            Err(m) => Err(m),
            Ok(l) => {
                let limit = if param_of(params, "limit"@, params.len() as int) is Some { l } else { DEFAULT_PAGE_SIZE };
                if limit > MAX_PAGE_SIZE {
                    Err("limit must not exceed 100"@)
                } else {
                    Ok((limit, offset))
                }
            },
        },
    }
}

/// The limit and offset a list request asks for.
pub fn pagination(params: &Vec<(String, String)>) -> (r: Result<(u64, u64), AppError>)
    ensures
        match pagination_of(params@) {
            Ok(p) => r == Ok::<(u64, u64), AppError>(p),
            Err(m) => r matches Err(AppError::BadRequest(x)) && x@ == m,
        },
{
    let offset = match page(params, "offset") {
        Err(e) => { return Err(e); },
        Ok(o) => o,
    };
    let l = match page(params, "limit") {
        Err(e) => { return Err(e); },
        Ok(l) => l,
    };
    let limit = if query_param(params, "limit").is_some() { l } else { DEFAULT_PAGE_SIZE };
    if limit > MAX_PAGE_SIZE {
        return Err(AppError::BadRequest(owned("limit must not exceed 100")));
    }
    Ok((limit, offset))
}

/// Law: a list page never holds more than `MAX_PAGE_SIZE` rows.
pub proof fn law_page_size_bounded(params: Seq<(String, String)>)
    requires pagination_of(params) is Ok,
    ensures pagination_of(params)->Ok_0.0 <= MAX_PAGE_SIZE,
{
}

/// A refused filter is a bad request with the filter's message.
pub fn error_filter(e: FilterError) -> (r: AppError)
    ensures
        r matches AppError::BadRequest(m) && m@ == match e.view() {
            crate::filters::FilterErrorView::UnknownFilter(n) => "unknown filter: "@ + n,
            crate::filters::FilterErrorView::UnknownOrdering(n) => "unknown ordering field: "@ + n,
            crate::filters::FilterErrorView::InvalidValue(f, x) => "invalid filter value for "@ + f + ", expected "@ + x,
        },
{
    AppError::BadRequest(e.message())
}

/// The viewset serving create, list, retrieve, update and delete at a path.
#[derive(Debug, Clone)]
pub struct CrudViewSet {
    path: String,
}

impl CrudViewSet {
    pub closed spec fn path_view(&self) -> Seq<char> { self.path@ }

    /// The viewset at `path`.
    pub fn new(path: &str) -> (v: CrudViewSet)
        ensures v.path_view() == path@,
    {
        CrudViewSet { path: owned(path) }
    }

    /// The path of the viewset.
    pub fn path(&self) -> (r: &str)
        ensures r@ == self.path_view(),
    {
        self.path.as_str()
    }
}

/// `path` ending with one `/`: unchanged if it ends with one, else with one
/// added.
pub fn trailing_slash(path: &str) -> (r: String)
    ensures r@ == if ends_with(path@, "/"@) { path@ } else { path@ + "/"@ },
{
    let c = chars_of(path);
    let mut r = owned(path);
    proof { reveal_strlit("/"); }
    if c.len() > 0 && c[c.len() - 1] == '/' {
        proof { assert(path@.subrange(path@.len() - 1, path@.len() as int) == "/"@); }
        r
    } else {
        proof {
            if path@.len() > 0 {
                assert(path@.subrange(path@.len() - 1, path@.len() as int)[0] == path@.last());
            }
        }
        push_str(&mut r, "/");
        r
    }
}

/// The routes of a model viewset at `base_path`: the collection, which ends
/// with `/`, and the object route below it.
pub fn model_routes(base_path: &str) -> (r: (String, String))
    ensures
        r.0@ == if ends_with(base_path@, "/"@) { base_path@ } else { base_path@ + "/"@ },
        r.1@ == r.0@ + "{id}/"@,
{
    let collection = trailing_slash(base_path);
    let mut object = collection.clone();
    push_str(&mut object, "{id}/");
    (collection, object)
}

/// The routes of a viewset at `path`: the collection `{path}/` and the
/// object `{path}/{id}/`, trailing slashes of `path` dropped.
pub fn routes(path: &str) -> (r: (String, String))
    ensures
        r.0@ == trim_end_char(path@, '/') + "/"@,
        r.1@ == trim_end_char(path@, '/') + "/{id}/"@,
{
    let p = chars_of(path);
    let e = trim_end_bound_pub(&p, '/');
    let base = string_of_range(&p, 0, e);
    let mut collection = base.clone();
    push_str(&mut collection, "/");
    let mut object = base;
    push_str(&mut object, "/{id}/");
    (collection, object)
}

} // verus!
