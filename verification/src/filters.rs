use vstd::prelude::*;

use crate::num::{parse_i64_spec, parse_u32_spec};
use crate::text::{chars_of, owned, push_str, str_eq, string_of_range};
use crate::values::{DateTime, datetime_of, float_text, is_float_text, is_json_text, json_text_valid, parse_datetime};

verus! {

/// How a filter compares a field with the value it is given.
#[derive(Debug, Clone, Copy, PartialEq, Eq, Structural)]
pub enum Lookup {
    Exact,
    Contains,
    Gt,
    Gte,
    Lt,
    Lte,
}

/// The type of the field a filter reads, which decides how its value is read.
#[derive(Debug, Clone)]
pub enum ValueKind {
    Int64,
    Int32,
    UInt32,
    Float64,
    Float32,
    Text,
    Boolean,
    DateTime,
    Json,
    /// One of the given choices.
    Choice(Vec<String>),
}

/// A value read from a query parameter.
#[derive(Debug, Clone, PartialEq, Eq)]
pub enum FilterArg {
    Integer(i64),
    /// The text of a floating-point number.
    Float(String),
    Text(String),
    Boolean(bool),
    DateTime(DateTime),
    /// The text of a JSON value.
    Json(String),
    Choice(String),
}

/// A value read from a query parameter, as a mathematical value.
pub enum ArgView {
    Integer(int),
    Float(Seq<char>),
    Text(Seq<char>),
    Boolean(bool),
    DateTime((i32, u32, u32, u32, u32, u32, u32)),
    Json(Seq<char>),
    Choice(Seq<char>),
}

impl FilterArg {
    pub open spec fn view(&self) -> ArgView {
        match self {
            FilterArg::Integer(v) => ArgView::Integer(*v as int),
            FilterArg::Float(s) => ArgView::Float(s@),
            FilterArg::Text(s) => ArgView::Text(s@),
            FilterArg::Boolean(b) => ArgView::Boolean(*b),
            FilterArg::DateTime(t) => ArgView::DateTime(t@),
            FilterArg::Json(s) => ArgView::Json(s@),
            FilterArg::Choice(s) => ArgView::Choice(s@),
        }
    }
}

/// Why query parameters were refused.
#[derive(Debug, Clone, PartialEq, Eq)]
pub enum FilterError {
    UnknownFilter(String),
    UnknownOrdering(String),
    InvalidValue { field: String, expected: &'static str },
}

/// Why query parameters were refused, as character sequences.
pub enum FilterErrorView {
    UnknownFilter(Seq<char>),
    UnknownOrdering(Seq<char>),
    InvalidValue(Seq<char>, Seq<char>),
}

impl FilterError {
    pub open spec fn view(&self) -> FilterErrorView {
        match self {
            FilterError::UnknownFilter(n) => FilterErrorView::UnknownFilter(n@),
            FilterError::UnknownOrdering(n) => FilterErrorView::UnknownOrdering(n@),
            FilterError::InvalidValue { field, expected } => FilterErrorView::InvalidValue(field@, expected@),
        }
    }

    /// The message shown to the user.
    pub fn message(&self) -> (s: String)
        ensures
            s@ == match self.view() {
                FilterErrorView::UnknownFilter(n) => "unknown filter: "@ + n,
                FilterErrorView::UnknownOrdering(n) => "unknown ordering field: "@ + n,
                FilterErrorView::InvalidValue(f, e) => "invalid filter value for "@ + f + ", expected "@ + e,
            },
    {
        let mut s = String::new();
        match self {
            FilterError::UnknownFilter(n) => {
                push_str(&mut s, "unknown filter: ");
                push_str(&mut s, n.as_str());
            },
            FilterError::UnknownOrdering(n) => {
                push_str(&mut s, "unknown ordering field: ");
                push_str(&mut s, n.as_str());
            },
            FilterError::InvalidValue { field, expected } => {
                push_str(&mut s, "invalid filter value for ");
                push_str(&mut s, field.as_str());
                push_str(&mut s, ", expected ");
                push_str(&mut s, expected);
            },
        }
        s
    }
}

/// What a value of `kind` is called when it cannot be read.
pub open spec fn expected_of(kind: ValueKind) -> Seq<char> {
    match kind {
        ValueKind::Int64 | ValueKind::Int32 | ValueKind::UInt32 => "integer"@,
        ValueKind::Float64 | ValueKind::Float32 => "number"@,
        ValueKind::Text => "string"@,
        ValueKind::Boolean => "boolean"@,
        ValueKind::DateTime => "datetime string"@,
        ValueKind::Json => "json"@,
        ValueKind::Choice(_) => "allowed choice"@,
    }
}

/// `choices` holds `value`.
pub open spec fn is_choice(choices: Seq<String>, value: Seq<char>) -> bool {
    exists|i: int| 0 <= i < choices.len() && (#[trigger] choices[i])@ == value
}

/// `true`/`1` and `false`/`0`.
pub open spec fn boolean_of(value: Seq<char>) -> Option<bool> {
    if value == "true"@ || value == "1"@ {
        Some(true)
    } else if value == "false"@ || value == "0"@ {
        Some(false)
    } else {
        None
    }
}

/// The value of kind `kind` that `value` holds, if it holds one.
pub open spec fn parse_arg(kind: ValueKind, value: Seq<char>) -> Option<ArgView> {
    match kind {
        ValueKind::Int64 => match parse_i64_spec(value) {
            Some(v) => Some(ArgView::Integer(v as int)),
            None => None,
        },
        ValueKind::Int32 => match parse_i64_spec(value) {
            Some(v) => if i32::MIN <= v <= i32::MAX { Some(ArgView::Integer(v as int)) } else { None },
            None => None,
        },
        ValueKind::UInt32 => match parse_u32_spec(value) {
            Some(v) => Some(ArgView::Integer(v as int)),
            None => None,
        },
        ValueKind::Float64 | ValueKind::Float32 => if float_text(value) { Some(ArgView::Float(value)) } else { None },
        ValueKind::Text => Some(ArgView::Text(value)),
        ValueKind::Boolean => match boolean_of(value) {
            Some(b) => Some(ArgView::Boolean(b)),
            None => None,
        },
        ValueKind::DateTime => match datetime_of(value) {
            Some(t) => Some(ArgView::DateTime(t)),
            None => None,
        },
        ValueKind::Json => if json_text_valid(value) { Some(ArgView::Json(value)) } else { None },
        ValueKind::Choice(choices) => if is_choice(choices@, value) { Some(ArgView::Choice(value)) } else { None },
    }
}

/// A kind that can be compared by order.
pub open spec fn range_kind(kind: ValueKind) -> bool {
    match kind {
        ValueKind::Int64 | ValueKind::Int32 | ValueKind::UInt32 | ValueKind::Float64 | ValueKind::Float32
            | ValueKind::DateTime => true,
        _ => false,
    }
}

/// A filter over one field of a model: the parameter name it answers to,
/// the field it reads, how it compares, and the kind of the field.
#[derive(Debug, Clone)]
pub struct Filter {
    pub name: String,
    pub source: String,
    pub lookup: Lookup,
    pub field: String,
    pub kind: ValueKind,
}

/// The suffix of the query parameter of a lookup.
pub open spec fn lookup_suffix(lookup: Lookup) -> Seq<char> {
    match lookup {
        Lookup::Exact => Seq::empty(),
        Lookup::Contains => "__contains"@,
        Lookup::Gt => "__gt"@,
        Lookup::Gte => "__gte"@,
        Lookup::Lt => "__lt"@,
        Lookup::Lte => "__lte"@,
    }
}

impl Filter {
    /// The query parameter this filter answers to: its name and the suffix
    /// of its lookup.
    pub open spec fn query_name_view(&self) -> Seq<char> {
        self.name@ + lookup_suffix(self.lookup)
    }

    fn typed(field: &str, lookup: Lookup, kind: ValueKind) -> (f: Filter)
        ensures
            f.name@ == field@, f.source@ == field@, f.field@ == field@,
            f.lookup == lookup, f.kind == kind,
    {
        Filter { name: owned(field), source: owned(field), lookup, field: owned(field), kind }
    }

    /// Filters on `field` being equal to the value.
    pub fn exact(field: &str, kind: ValueKind) -> (f: Filter)
        ensures
            f.name@ == field@, f.source@ == field@, f.field@ == field@,
            f.lookup == Lookup::Exact, f.kind == kind,
    {
        Filter::typed(field, Lookup::Exact, kind)
    }

    /// Filters on the text field `field` containing the value.
    pub fn contains(field: &str) -> (f: Filter)
        ensures
            f.name@ == field@, f.source@ == field@, f.field@ == field@,
            f.lookup == Lookup::Contains, f.kind == ValueKind::Text,
    {
        Filter::typed(field, Lookup::Contains, ValueKind::Text)
    }

    /// Filters on `field` being greater than the value.
    pub fn gt(field: &str, kind: ValueKind) -> (f: Filter)
        requires range_kind(kind),
        ensures
            f.name@ == field@, f.source@ == field@, f.field@ == field@,
            f.lookup == Lookup::Gt, f.kind == kind,
    {
        Filter::typed(field, Lookup::Gt, kind)
    }

    /// Filters on `field` being at least the value.
    pub fn gte(field: &str, kind: ValueKind) -> (f: Filter)
        requires range_kind(kind),
        ensures
            f.name@ == field@, f.source@ == field@, f.field@ == field@,
            f.lookup == Lookup::Gte, f.kind == kind,
    {
        Filter::typed(field, Lookup::Gte, kind)
    }

    /// Filters on `field` being less than the value.
    pub fn lt(field: &str, kind: ValueKind) -> (f: Filter)
        requires range_kind(kind),
        ensures
            f.name@ == field@, f.source@ == field@, f.field@ == field@,
            f.lookup == Lookup::Lt, f.kind == kind,
    {
        Filter::typed(field, Lookup::Lt, kind)
    }

    /// Filters on `field` being at most the value.
    pub fn lte(field: &str, kind: ValueKind) -> (f: Filter)
        requires range_kind(kind),
        ensures
            f.name@ == field@, f.source@ == field@, f.field@ == field@,
            f.lookup == Lookup::Lte, f.kind == kind,
    {
        Filter::typed(field, Lookup::Lte, kind)
    }

    /// Filters on `field` being equal to the value, answering to `name`.
    pub fn exact_as(name: &str, field: &str, kind: ValueKind) -> (f: Filter)
        ensures
            f.name@ == name@, f.source@ == field@, f.field@ == field@,
            f.lookup == Lookup::Exact, f.kind == kind,
    {
        let mut f = Filter::exact(field, kind);
        f.name = owned(name);
        f
    }

    /// The same as `exact_as`.
    pub fn exact_source(name: &str, field: &str, kind: ValueKind) -> (f: Filter)
        ensures
            f.name@ == name@, f.source@ == field@, f.field@ == field@,
            f.lookup == Lookup::Exact, f.kind == kind,
    {
        Filter::exact_as(name, field, kind)
    }

    /// Filters on `field` being equal to one of `choices`.
    pub fn exact_choice(field: &str, choices: Vec<String>) -> (f: Filter)
        ensures
            f.name@ == field@, f.source@ == field@, f.field@ == field@,
            f.lookup == Lookup::Exact, f.kind == ValueKind::Choice(choices),
    {
        Filter::typed(field, Lookup::Exact, ValueKind::Choice(choices))
    }

    /// The query parameter this filter answers to.
    pub fn query_name(&self) -> (r: String)
        ensures r@ == self.query_name_view(),
    {
        let mut r = self.name.clone();
        match self.lookup {
            Lookup::Exact => {},
            Lookup::Contains => push_str(&mut r, "__contains"),
            Lookup::Gt => push_str(&mut r, "__gt"),
            Lookup::Gte => push_str(&mut r, "__gte"),
            Lookup::Lt => push_str(&mut r, "__lt"),
            Lookup::Lte => push_str(&mut r, "__lte"),
        }
        proof { assert(self.name@ + Seq::<char>::empty() == self.name@); }
        r
    }

    /// Whether this filter answers to the query parameter `name`: exactly
    /// when `name` is its query name.
    pub fn matches_query_name(&self, name: &str) -> (r: bool)
        ensures r == (name@ == self.query_name_view()),
    {
        let q = self.query_name();
        str_eq(name, q.as_str())
    }
}


fn boolean_exec(value: &str) -> (r: Option<bool>)
    ensures r == boolean_of(value@),
{
    if str_eq(value, "true") || str_eq(value, "1") {
        Some(true)
    } else if str_eq(value, "false") || str_eq(value, "0") {
        Some(false)
    } else {
        None
    }
}

fn choice_exec(choices: &Vec<String>, value: &str) -> (r: bool)
    ensures r == is_choice(choices@, value@),
{
    let mut i: usize = 0;
    while i < choices.len()
        invariant
            i <= choices@.len(),
            forall|j: int| 0 <= j < i ==> (#[trigger] choices@[j])@ != value@,
        decreases choices.len() - i,
    {
        if str_eq(choices[i].as_str(), value) {
            proof { assert(choices@[i as int]@ == value@); }
            return true;
        }
        i += 1;
    }
    false
}

/// Reads `value` as a value of `kind`.
pub fn parse_arg_exec(kind: &ValueKind, value: &str) -> (r: Option<FilterArg>)
    ensures
        match r {
            Some(a) => parse_arg(*kind, value@) == Some(a@),
            None => parse_arg(*kind, value@) is None,
        },
{
    match kind {
        ValueKind::Int64 => match crate::num::parse_i64(value) {
            Some(v) => Some(FilterArg::Integer(v)),
            None => None,
        },
        ValueKind::Int32 => match crate::num::parse_i64(value) {
            Some(v) => if -2147483648 <= v && v <= 2147483647 { Some(FilterArg::Integer(v)) } else { None },
            None => None,
        },
        ValueKind::UInt32 => match crate::num::parse_u32(value) {
            Some(v) => Some(FilterArg::Integer(v as i64)),
            None => None,
        },
        ValueKind::Float64 | ValueKind::Float32 => {
            if is_float_text(value) { Some(FilterArg::Float(owned(value))) } else { None }
        },
        ValueKind::Text => Some(FilterArg::Text(owned(value))),
        ValueKind::Boolean => match boolean_exec(value) {
            Some(b) => Some(FilterArg::Boolean(b)),
            None => None,
        },
        ValueKind::DateTime => match parse_datetime(value) {
            Some(t) => Some(FilterArg::DateTime(t)),
            None => None,
        },
        ValueKind::Json => {
            if is_json_text(value) { Some(FilterArg::Json(owned(value))) } else { None }
        },
        ValueKind::Choice(choices) => {
            if choice_exec(choices, value) { Some(FilterArg::Choice(owned(value))) } else { None }
        },
    }
}

/// A type a filter value is read as.
pub trait FilterValue: Sized {
    /// Reads a query parameter value.
    fn parse_filter(value: &str) -> Result<Self, FilterError>;
}

impl FilterValue for i64 {
    fn parse_filter(value: &str) -> (r: Result<i64, FilterError>)
        ensures
            match parse_i64_spec(value@) {
                Some(v) => r == Ok::<i64, FilterError>(v),
                None => r matches Err(FilterError::InvalidValue { field, expected })
                    && field@.len() == 0 && expected@ == "integer"@,
            },
    {
        match crate::num::parse_i64(value) {
            Some(v) => Ok(v),
            None => Err(FilterError::InvalidValue { field: String::new(), expected: "integer" }),
        }
    }
}

impl FilterValue for i32 {
    fn parse_filter(value: &str) -> (r: Result<i32, FilterError>)
        ensures
            match parse_i64_spec(value@) {
                Some(v) => if i32::MIN <= v <= i32::MAX {
                    r == Ok::<i32, FilterError>(v as i32)
                } else {
                    r matches Err(FilterError::InvalidValue { field, expected })
                        && field@.len() == 0 && expected@ == "integer"@
                },
                None => r matches Err(FilterError::InvalidValue { field, expected })
                    && field@.len() == 0 && expected@ == "integer"@,
            },
    {
        match crate::num::parse_i64(value) {
            Some(v) => {
                if -2147483648 <= v && v <= 2147483647 {
                    Ok(v as i32)
                } else {
                    Err(FilterError::InvalidValue { field: String::new(), expected: "integer" })
                }
            },
            None => Err(FilterError::InvalidValue { field: String::new(), expected: "integer" }),
        }
    }
}

impl FilterValue for u32 {
    fn parse_filter(value: &str) -> (r: Result<u32, FilterError>)
        ensures
            match parse_u32_spec(value@) {
                Some(v) => r == Ok::<u32, FilterError>(v),
                None => r matches Err(FilterError::InvalidValue { field, expected })
                    && field@.len() == 0 && expected@ == "integer"@,
            },
    {
        match crate::num::parse_u32(value) {
            Some(v) => Ok(v),
            None => Err(FilterError::InvalidValue { field: String::new(), expected: "integer" }),
        }
    }
}

impl FilterValue for bool {
    fn parse_filter(value: &str) -> (r: Result<bool, FilterError>)
        ensures
            match boolean_of(value@) {
                Some(b) => r == Ok::<bool, FilterError>(b),
                None => r matches Err(FilterError::InvalidValue { field, expected })
                    && field@.len() == 0 && expected@ == "boolean"@,
            },
    {
        match boolean_exec(value) {
            Some(b) => Ok(b),
            None => Err(FilterError::InvalidValue { field: String::new(), expected: "boolean" }),
        }
    }
}

impl FilterValue for String {
    fn parse_filter(value: &str) -> (r: Result<String, FilterError>)
        ensures r matches Ok(s) && s@ == value@,
    {
        Ok(owned(value))
    }
}

/// A type whose filter values can be compared by order.
pub trait RangeFilterValue: FilterValue {}

impl RangeFilterValue for i64 {}

impl RangeFilterValue for i32 {}

impl RangeFilterValue for u32 {}

/// Reads the `limit` or `offset` parameter `value`, named `field`.
pub fn parse_u32(field: &str, value: &str) -> (r: Result<u32, FilterError>)
    ensures
        match parse_u32_spec(value@) {
            Some(v) => r == Ok::<u32, FilterError>(v),
            None => r matches Err(FilterError::InvalidValue { field: f, expected })
                && f@ == field@ && expected@ == "positive integer"@,
        },
{
    match crate::num::parse_u32(value) {
        Some(v) => Ok(v),
        None => Err(FilterError::InvalidValue { field: owned(field), expected: "positive integer" }),
    }
}


/// A condition of a query: a field, a comparison and a value.
#[derive(Debug, Clone)]
pub struct Condition {
    pub field: String,
    pub lookup: Lookup,
    pub arg: FilterArg,
}

/// What query parameters ask of a query: its conditions, its ordering
/// (field, descending), and its limit and offset.
#[derive(Debug, Clone)]
pub struct QueryPlan {
    pub conditions: Vec<Condition>,
    pub ordering: Vec<(String, bool)>,
    pub limit: Option<u32>,
    pub offset: Option<u32>,
}

/// A query plan as mathematical values.
pub struct PlanView {
    pub conditions: Seq<(Seq<char>, Lookup, ArgView)>,
    pub ordering: Seq<(Seq<char>, bool)>,
    pub limit: Option<u32>,
    pub offset: Option<u32>,
}

impl QueryPlan {
    pub open spec fn view(&self) -> PlanView {
        PlanView {
            conditions: Seq::new(self.conditions@.len(), |i: int|
                (self.conditions@[i].field@, self.conditions@[i].lookup, self.conditions@[i].arg@)),
            ordering: Seq::new(self.ordering@.len(), |i: int| (self.ordering@[i].0@, self.ordering@[i].1)),
            limit: self.limit,
            offset: self.offset,
        }
    }
}

/// The plan of a query that no parameter changed.
pub open spec fn empty_plan() -> PlanView {
    PlanView { conditions: Seq::empty(), ordering: Seq::empty(), limit: None, offset: None }
}

/// The first filter of `fs` from `from` on that answers to the query
/// parameter `name`, or -1.
pub open spec fn find_filter(fs: Seq<Filter>, name: Seq<char>, from: int) -> int
    decreases fs.len() - from,
{
    if from < 0 || from >= fs.len() {
        -1
    } else if fs[from].query_name_view() == name {
        from
    } else {
        find_filter(fs, name, from + 1)
    }
}

/// The first filter of `fs` from `from` on named `name`, or -1.
pub open spec fn find_named(fs: Seq<Filter>, name: Seq<char>, from: int) -> int
    decreases fs.len() - from,
{
    if from < 0 || from >= fs.len() {
        -1
    } else if fs[from].name@ == name {
        from
    } else {
        find_named(fs, name, from + 1)
    }
}

proof fn lemma_find_filter(fs: Seq<Filter>, name: Seq<char>, from: int)
    requires 0 <= from,
    ensures
        find_filter(fs, name, from) == -1 || (from <= find_filter(fs, name, from) < fs.len()
            && fs[find_filter(fs, name, from)].query_name_view() == name),
    decreases fs.len() - from,
{
    if from < fs.len() && fs[from].query_name_view() != name {
        lemma_find_filter(fs, name, from + 1);
    }
}

proof fn lemma_find_named(fs: Seq<Filter>, name: Seq<char>, from: int)
    requires 0 <= from,
    ensures
        find_named(fs, name, from) == -1 || (from <= find_named(fs, name, from) < fs.len()
            && fs[find_named(fs, name, from)].name@ == name),
    decreases fs.len() - from,
{
    if from < fs.len() && fs[from].name@ != name {
        lemma_find_named(fs, name, from + 1);
    }
}

/// `v` without one leading `-`.
pub open spec fn strip_minus(v: Seq<char>) -> Seq<char> {
    if v.len() > 0 && v[0] == '-' { v.skip(1) } else { v }
}

/// The plan after the filter parameter `name` = `value`.
pub open spec fn filter_step(fs: Seq<Filter>, plan: PlanView, name: Seq<char>, value: Seq<char>) -> Result<PlanView, FilterErrorView> {
    let k = find_filter(fs, name, 0);
    if k < 0 {
        Err(FilterErrorView::UnknownFilter(name))
    } else {
        match parse_arg(fs[k].kind, value) {
            None => Err(FilterErrorView::InvalidValue(fs[k].name@, expected_of(fs[k].kind))),
            Some(a) => Ok(PlanView { conditions: plan.conditions.push((fs[k].field@, fs[k].lookup, a)), ..plan }),
        }
    }
}

/// The plan after the parameter `name` = `value`; when counting, ordering,
/// limit and offset are passed over.
pub open spec fn param_step(fs: Seq<Filter>, plan: PlanView, name: Seq<char>, value: Seq<char>, counting: bool) -> Result<PlanView, FilterErrorView> {
    if name == "ordering"@ {
        if counting {
            Ok(plan)
        } else {
            let n = strip_minus(value);
            let k = find_named(fs, n, 0);
            if k < 0 {
                Err(FilterErrorView::UnknownOrdering(n))
            } else {
                Ok(PlanView { ordering: plan.ordering.push((fs[k].field@, value.len() > 0 && value[0] == '-')), ..plan })
            }
        }
    } else if name == "limit"@ {
        if counting {
            Ok(plan)
        } else {
            match parse_u32_spec(value) {
                Some(v) => Ok(PlanView { limit: Some(v), ..plan }),
                None => Err(FilterErrorView::InvalidValue("limit"@, "positive integer"@)),
            }
        }
    } else if name == "offset"@ {
        if counting {
            Ok(plan)
        } else {
            match parse_u32_spec(value) {
                Some(v) => Ok(PlanView { offset: Some(v), ..plan }),
                None => Err(FilterErrorView::InvalidValue("offset"@, "positive integer"@)),
            }
        }
    } else {
        filter_step(fs, plan, name, value)
    }
}

/// The plan after the first `n` parameters, in order; the first refused
/// parameter stops.
pub open spec fn apply_params(fs: Seq<Filter>, params: Seq<(String, String)>, n: int, counting: bool) -> Result<PlanView, FilterErrorView>
    decreases n,
{
    if n <= 0 {
        Ok(empty_plan())
    } else {
        match apply_params(fs, params, n - 1, counting) {
            Err(e) => Err(e),
            Ok(p) => param_step(fs, p, params[n - 1].0@, params[n - 1].1@, counting),
        }
    }
}

/// The filters a list endpoint accepts.
#[derive(Debug, Clone)]
pub struct FilterSet {
    filters: Vec<Filter>,
}

impl Default for FilterSet {
    fn default() -> (s: FilterSet)
        ensures s.filters_view().len() == 0,
    {
        FilterSet { filters: Vec::new() }
    }
}

impl FilterSet {
    pub closed spec fn filters_view(&self) -> Seq<Filter> { self.filters@ }

    /// A filter set of `filters`.
    pub fn new(filters: Vec<Filter>) -> (s: FilterSet)
        ensures s.filters_view() == filters@,
    {
        FilterSet { filters }
    }

    /// The filters.
    pub fn filters(&self) -> (r: &Vec<Filter>)
        ensures r@ == self.filters_view(),
    {
        &self.filters
    }

    fn find_filter_exec(&self, name: &str) -> (r: Option<usize>)
        ensures
            match r {
                Some(k) => k == find_filter(self.filters@, name@, 0),
                None => find_filter(self.filters@, name@, 0) == -1,
            },
    {
        let mut i: usize = 0;
        while i < self.filters.len()
            invariant
                i <= self.filters@.len(),
                find_filter(self.filters@, name@, 0) == find_filter(self.filters@, name@, i as int),
            decreases self.filters.len() - i,
        {
            if self.filters[i].matches_query_name(name) {
                return Some(i);
            }
            i += 1;
        }
        None
    }

    fn find_named_exec(&self, name: &Vec<char>) -> (r: Option<usize>)
        ensures
            match r {
                Some(k) => k == find_named(self.filters@, name@, 0),
                None => find_named(self.filters@, name@, 0) == -1,
            },
    {
        let mut i: usize = 0;
        while i < self.filters.len()
            invariant
                i <= self.filters@.len(),
                find_named(self.filters@, name@, 0) == find_named(self.filters@, name@, i as int),
            decreases self.filters.len() - i,
        {
            let n = chars_of(self.filters[i].name.as_str());
            if crate::text::seq_eq(&n, name) {
                return Some(i);
            }
            i += 1;
        }
        None
    }

    fn step(&self, plan: &mut QueryPlan, name: &str, value: &str, counting: bool) -> (r: Result<(), FilterError>)
        ensures
            match param_step(self.filters@, old(plan)@, name@, value@, counting) {
                Ok(p) => r is Ok && final(plan)@ == p,
                Err(e) => r matches Err(x) && x@ == e,
            },
    {
        if str_eq(name, "ordering") {
            if counting {
                return Ok(());
            }
            let v = chars_of(value);
            let start: usize = if v.len() > 0 && v[0] == '-' { 1 } else { 0 };
            let n = crate::text::string_of_range(&v, start, v.len());
            let nc = chars_of(n.as_str());
            proof { assert(strip_minus(value@) == v@.subrange(start as int, v@.len() as int)); }
            proof { lemma_find_named(self.filters@, nc@, 0); }
            match self.find_named_exec(&nc) {
                None => Err(FilterError::UnknownOrdering(n)),
                Some(k) => {
                    let ghost before = plan@;
                    plan.ordering.push((self.filters[k].field.clone(), start == 1));
                    proof { assert(plan@.ordering =~= before.ordering.push((self.filters@[k as int].field@, start == 1))); }
                    Ok(())
                },
            }
        } else if str_eq(name, "limit") {
            if counting {
                return Ok(());
            }
            match parse_u32("limit", value) {
                Ok(v) => { plan.limit = Some(v); Ok(()) },
                Err(e) => Err(e),
            }
        } else if str_eq(name, "offset") {
            if counting {
                return Ok(());
            }
            match parse_u32("offset", value) {
                Ok(v) => { plan.offset = Some(v); Ok(()) },
                Err(e) => Err(e),
            }
        } else {
            proof { lemma_find_filter(self.filters@, name@, 0); }
            match self.find_filter_exec(name) {
                None => Err(FilterError::UnknownFilter(owned(name))),
                Some(k) => {
                    let f = &self.filters[k];
                    match parse_arg_exec(&f.kind, value) {
                        None => Err(FilterError::InvalidValue { field: f.name.clone(), expected: expected_exec(&f.kind) }),
                        Some(a) => {
                            let ghost before = plan@;
                            plan.conditions.push(Condition { field: f.field.clone(), lookup: f.lookup, arg: a });
                            proof { assert(plan@.conditions =~= before.conditions.push((f.field@, f.lookup, a@))); }
                            Ok(())
                        },
                    }
                },
            }
        }
    }

    fn run(&self, params: &Vec<(String, String)>, counting: bool) -> (r: Result<QueryPlan, FilterError>)
        ensures
            match apply_params(self.filters@, params@, params@.len() as int, counting) {
                Ok(p) => r matches Ok(q) && q@ == p,
                Err(e) => r matches Err(x) && x@ == e,
            },
    {
        let mut plan = QueryPlan { conditions: Vec::new(), ordering: Vec::new(), limit: None, offset: None };
        proof {
            assert(plan@.conditions =~= Seq::<(Seq<char>, Lookup, ArgView)>::empty());
            assert(plan@.ordering =~= Seq::<(Seq<char>, bool)>::empty());
        }
        let mut i: usize = 0;
        while i < params.len()
            invariant
                i <= params@.len(),
                apply_params(self.filters@, params@, i as int, counting) == Ok::<PlanView, FilterErrorView>(plan@),
            decreases params.len() - i,
        {
            match self.step(&mut plan, params[i].0.as_str(), params[i].1.as_str(), counting) {
                Ok(()) => {},
                Err(e) => {
                    proof { lemma_apply_stops(self.filters@, params@, i + 1, params@.len() as int, counting); }
                    return Err(e);
                },
            }
            i += 1;
        }
        Ok(plan)
    }

    /// The query plan that the parameters `params` ask for (in the order
    /// given): `ordering` names a filter, with `-` for descending order;
    /// `limit` and `offset` are unsigned integers; every other parameter is
    /// the query name of a filter and a value of its kind.
    pub fn apply(&self, params: &Vec<(String, String)>) -> (r: Result<QueryPlan, FilterError>)
        ensures
            match apply_params(self.filters_view(), params@, params@.len() as int, false) {
                Ok(p) => r matches Ok(q) && q@ == p,
                Err(e) => r matches Err(x) && x@ == e,
            },
    {
        self.run(params, false)
    }

    /// The conditions that the parameters `params` ask for, ordering, limit
    /// and offset aside: the query that counts the matching rows.
    pub fn apply_for_count(&self, params: &Vec<(String, String)>) -> (r: Result<QueryPlan, FilterError>)
        ensures
            match apply_params(self.filters_view(), params@, params@.len() as int, true) {
                Ok(p) => r matches Ok(q) && q@ == p,
                Err(e) => r matches Err(x) && x@ == e,
            },
    {
        self.run(params, true)
    }
}

fn expected_exec(kind: &ValueKind) -> (r: &'static str)
    ensures r@ == expected_of(*kind),
{
    match kind {
        ValueKind::Int64 | ValueKind::Int32 | ValueKind::UInt32 => "integer",
        ValueKind::Float64 | ValueKind::Float32 => "number",
        ValueKind::Text => "string",
        ValueKind::Boolean => "boolean",
        ValueKind::DateTime => "datetime string",
        ValueKind::Json => "json",
        ValueKind::Choice(_) => "allowed choice",
    }
}

/// Once a parameter is refused, the error stands for every longer prefix.
proof fn lemma_apply_stops(fs: Seq<Filter>, params: Seq<(String, String)>, i: int, n: int, counting: bool)
    requires
        1 <= i <= n,
        apply_params(fs, params, i, counting) is Err,
    ensures
        apply_params(fs, params, n, counting) == apply_params(fs, params, i, counting),
    decreases n - i,
{
    if n > i {
        lemma_apply_stops(fs, params, i, n - 1, counting);
    }
}

/// The filter at `k` is the first of `fs` that answers to the query
/// parameter `name`.
pub open spec fn first_answering(fs: Seq<Filter>, name: Seq<char>, k: int) -> bool {
    &&& 0 <= k < fs.len()
    &&& fs[k].query_name_view() == name
    &&& forall|j: int| 0 <= j < k ==> (#[trigger] fs[j]).query_name_view() != name
}

proof fn lemma_find_filter_first(fs: Seq<Filter>, name: Seq<char>, from: int)
    requires 0 <= from,
    ensures
        find_filter(fs, name, from) >= 0 ==> forall|j: int| from <= j < find_filter(fs, name, from)
            ==> (#[trigger] fs[j]).query_name_view() != name,
    decreases fs.len() - from,
{
    if from < fs.len() && fs[from].query_name_view() != name {
        lemma_find_filter_first(fs, name, from + 1);
    }
}

/// Law: every condition that applying query parameters adds comes from one
/// of the parameters, and carries the field and the lookup of the first
/// filter that answers to that parameter's name: a `__gte` parameter of a
/// `gte` filter gives a `Gte` condition on the filter's field.
pub proof fn law_conditions_follow_their_filters(fs: Seq<Filter>, params: Seq<(String, String)>, n: int, counting: bool)
    requires 0 <= n <= params.len(),
    ensures
        apply_params(fs, params, n, counting) matches Ok(p) ==> forall|c: int| 0 <= c < p.conditions.len() ==>
            exists|i: int, k: int| #![trigger params[i], fs[k]]
                0 <= i < n && first_answering(fs, params[i].0@, k)
                && (#[trigger] p.conditions[c]).0 == fs[k].field@ && p.conditions[c].1 == fs[k].lookup,
    decreases n,
{
    if n > 0 {
        law_conditions_follow_their_filters(fs, params, n - 1, counting);
        if let Ok(prev) = apply_params(fs, params, n - 1, counting) {
            let name = params[n - 1].0@;
            let value = params[n - 1].1@;
            if name != "ordering"@ && name != "limit"@ && name != "offset"@ {
                let k = find_filter(fs, name, 0);
                lemma_find_filter(fs, name, 0);
                lemma_find_filter_first(fs, name, 0);
                if let Ok(p) = apply_params(fs, params, n, counting) {
                    assert(k >= 0);
                    assert(first_answering(fs, params[n - 1].0@, k));
                    assert forall|c: int| 0 <= c < p.conditions.len() implies
                        exists|i: int, k2: int| #![trigger params[i], fs[k2]]
                            0 <= i < n && first_answering(fs, params[i].0@, k2)
                            && (#[trigger] p.conditions[c]).0 == fs[k2].field@ && p.conditions[c].1 == fs[k2].lookup by {
                        if c < prev.conditions.len() {
                            assert(p.conditions[c] == prev.conditions[c]);
                        } else {
                            assert(params[n - 1] == params[n - 1] && fs[k] == fs[k]);
                        }
                    }
                }
            }
        }
    }
}

/// The filter at `k` is the first of `fs` named `name`.
pub open spec fn first_named_filter(fs: Seq<Filter>, name: Seq<char>, k: int) -> bool {
    &&& 0 <= k < fs.len()
    &&& fs[k].name@ == name
    &&& forall|j: int| 0 <= j < k ==> (#[trigger] fs[j]).name@ != name
}

proof fn lemma_find_named_first(fs: Seq<Filter>, name: Seq<char>, from: int)
    requires 0 <= from,
    ensures
        find_named(fs, name, from) >= 0 ==> forall|j: int| from <= j < find_named(fs, name, from)
            ==> (#[trigger] fs[j]).name@ != name,
    decreases fs.len() - from,
{
    if from < fs.len() && fs[from].name@ != name {
        lemma_find_named_first(fs, name, from + 1);
    }
}

/// The ordering entry `e` comes from one of the first `n` parameters: an
/// `ordering` parameter whose value (without a leading `-`) names the first
/// filter so named, by whose field `e` orders, descending exactly when the
/// value starts with `-`.
pub open spec fn ordering_from_params(fs: Seq<Filter>, params: Seq<(String, String)>, n: int, e: (Seq<char>, bool)) -> bool {
    exists|i: int, k: int| #![trigger params[i], fs[k]]
        0 <= i < n && params[i].0@ == "ordering"@
        && first_named_filter(fs, strip_minus(params[i].1@), k)
        && e.0 == fs[k].field@
        && e.1 == (params[i].1@.len() > 0 && params[i].1@[0] == '-')
}

/// Law: when listing, every ordering entry comes from an `ordering`
/// parameter and orders by the field of the filter it names; when counting,
/// nothing is ordered.
pub proof fn law_ordering_follows_its_parameter(fs: Seq<Filter>, params: Seq<(String, String)>, n: int, counting: bool)
    requires 0 <= n <= params.len(),
    ensures
        apply_params(fs, params, n, counting) matches Ok(p) ==> {
            &&& counting ==> p.ordering.len() == 0
            &&& forall|o: int| 0 <= o < p.ordering.len() ==> ordering_from_params(fs, params, n, #[trigger] p.ordering[o])
        },
    decreases n,
{
    if n > 0 {
        law_ordering_follows_its_parameter(fs, params, n - 1, counting);
        if let Ok(prev) = apply_params(fs, params, n - 1, counting) {
            let name = params[n - 1].0@;
            let value = params[n - 1].1@;
            if let Ok(p) = apply_params(fs, params, n, counting) {
                if name == "ordering"@ && !counting {
                    let k = find_named(fs, strip_minus(value), 0);
                    lemma_find_named(fs, strip_minus(value), 0);
                    lemma_find_named_first(fs, strip_minus(value), 0);
                    assert(first_named_filter(fs, strip_minus(params[n - 1].1@), k));
                    assert(p.ordering == prev.ordering.push((fs[k].field@, value.len() > 0 && value[0] == '-')));
                } else {
                    assert(p.ordering == prev.ordering);
                }
                assert forall|o: int| 0 <= o < p.ordering.len() implies ordering_from_params(fs, params, n, #[trigger] p.ordering[o]) by {
                    if o < prev.ordering.len() {
                        assert(p.ordering[o] == prev.ordering[o]);
                        assert(ordering_from_params(fs, params, n - 1, prev.ordering[o]));
                        let (i, k) = choose|i: int, k: int| #![trigger params[i], fs[k]]
                            0 <= i < n - 1 && params[i].0@ == "ordering"@
                            && first_named_filter(fs, strip_minus(params[i].1@), k)
                            && prev.ordering[o].0 == fs[k].field@
                            && prev.ordering[o].1 == (params[i].1@.len() > 0 && params[i].1@[0] == '-');
                        assert(params[i] == params[i] && fs[k] == fs[k]);
                    } else {
                        let k = find_named(fs, strip_minus(value), 0);
                        assert(params[n - 1] == params[n - 1] && fs[k] == fs[k]);
                    }
                }
            }
        }
    }
}

} // verus!
