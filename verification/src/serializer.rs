use vstd::prelude::*;

use crate::json::{entry_index, find_entry, lemma_entry_index, object_get, Json, JsonNumber, JsonView, NumberView};
use crate::text::{chars_of, owned, push_str, str_eq, string_of_range};
use crate::values::{datetime_of, parse_datetime};

verus! {

/// The last `::`-separated segment of a type path (what `rsplit("::")`
/// yields first).
pub open spec fn last_segment(s: Seq<char>) -> Seq<char>
    decreases s.len(),
{
    if s.len() < 2 {
        s
    } else if s[s.len() - 2] == ':' && s[s.len() - 1] == ':' {
        Seq::empty()
    } else {
        last_segment(s.drop_last()).push(s.last())
    }
}

/// The name of a related model given its type path: the last segment.
pub fn related_model_name(type_path: &str) -> (r: String)
    ensures r@ == last_segment(type_path@),
{
    let c = chars_of(type_path);
    let n = c.len();
    let mut j: usize = n;
    proof {
        assert(c@.take(n as int) == c@);
        assert(c@ + c@.subrange(n as int, n as int) == c@);
    }
    while j >= 2 && !(c[j - 2] == ':' && c[j - 1] == ':')
        invariant
            j <= n == c@.len(),
            c@ == type_path@,
            last_segment(c@) == last_segment(c@.take(j as int)) + c@.subrange(j as int, n as int),
        decreases j,
    {
        proof {
            let t = c@.take(j as int);
            assert(t.drop_last() == c@.take(j - 1));
            assert(t.last() == c@[j - 1]);
            assert(last_segment(t) == last_segment(c@.take(j - 1)).push(c@[j - 1]));
            assert(c@.subrange(j - 1, n as int) == seq![c@[j - 1]] + c@.subrange(j as int, n as int));
            assert(last_segment(c@.take(j - 1)).push(c@[j - 1]) + c@.subrange(j as int, n as int)
                == last_segment(c@.take(j - 1)) + c@.subrange(j - 1, n as int));
        }
        j -= 1;
    }
    if j >= 2 {
        proof {
            let t = c@.take(j as int);
            assert(t[t.len() - 2] == c@[j - 2] && t[t.len() - 1] == c@[j - 1]);
            assert(last_segment(t) == Seq::<char>::empty());
            assert(Seq::<char>::empty() + c@.subrange(j as int, n as int) == c@.subrange(j as int, n as int));
        }
        string_of_range(&c, j, n)
    } else {
        proof {
            assert(last_segment(c@.take(j as int)) == c@.take(j as int));
            assert(c@.take(j as int) + c@.subrange(j as int, n as int) == c@.subrange(0, n as int));
        }
        string_of_range(&c, 0, n)
    }
}

/// The type of a model field as stored.
#[derive(Debug, Clone, Copy, PartialEq, Eq, Structural)]
pub enum FieldType {
    Integer,
    Text,
    Choice,
    FilePath,
    Boolean,
    Real,
    DateTime,
    Json,
}

/// A field of a model: its Rust and column names, its type and, for a
/// choice field, the allowed values.
#[derive(Debug, Clone)]
pub struct FieldInfo {
    pub rust_name: String,
    pub db_name: String,
    pub ty: FieldType,
    pub choices: Option<Vec<String>>,
}

/// A field of a serializer: the JSON name, the model field it reads
/// (`source`), and how it is read and written.
#[derive(Debug)]
pub struct Field {
    pub name: String,
    pub source: String,
    pub required: bool,
    pub read_only: bool,
    pub write_only: bool,
    pub nullable: bool,
    pub max_length: Option<u32>,
    /// The model serialized in place of the id, for a related field.
    pub relation: Option<String>,
    pub system: bool,
    pub default: Option<Json>,
}

impl Field {
    /// A required, writable field named `name` that reads the model field
    /// of the same name.
    pub fn new(name: &str) -> (f: Field)
        ensures
            f.name@ == name@, f.source@ == name@, f.required, !f.read_only, !f.write_only, !f.nullable,
            f.max_length is None, f.relation is None, !f.system, f.default is None,
    {
        Field {
            name: owned(name),
            source: owned(name),
            required: true,
            read_only: false,
            write_only: false,
            nullable: false,
            max_length: None,
            relation: None,
            system: false,
            default: None,
        }
    }

    /// A read-only field `name` showing the model `model` whose id the model
    /// field `source` holds.
    pub fn related(name: &str, source: &str, model: &str) -> (f: Field)
        ensures
            f.name@ == name@, f.source@ == source@, !f.required, f.read_only, !f.write_only, !f.nullable,
            f.max_length is None, f.relation matches Some(m) && m@ == model@, !f.system, f.default is None,
    {
        Field {
            name: owned(name),
            source: owned(source),
            required: false,
            read_only: true,
            write_only: false,
            nullable: false,
            max_length: None,
            relation: Some(owned(model)),
            system: false,
            default: None,
        }
    }

    /// Reads the model field `source`.
    pub fn source(self, source: &str) -> (f: Field)
        ensures
            f.source@ == source@, f.name == self.name, f.required == self.required, f.read_only == self.read_only,
            f.write_only == self.write_only, f.nullable == self.nullable, f.max_length == self.max_length,
            f.relation == self.relation, f.system == self.system, f.default == self.default,
    {
        Field { source: owned(source), ..self }
    }

    /// Sets whether the field must be given.
    pub fn required(self, required: bool) -> (f: Field)
        ensures
            f.required == required, f.name == self.name, f.source == self.source, f.read_only == self.read_only,
            f.write_only == self.write_only, f.nullable == self.nullable, f.max_length == self.max_length,
            f.relation == self.relation, f.system == self.system, f.default == self.default,
    {
        Field { required, ..self }
    }

    /// Makes the field read-only (and so not required).
    pub fn read_only(self) -> (f: Field)
        ensures
            f.read_only, !f.required, f.name == self.name, f.source == self.source,
            f.write_only == self.write_only, f.nullable == self.nullable, f.max_length == self.max_length,
            f.relation == self.relation, f.system == self.system, f.default == self.default,
    {
        Field { read_only: true, required: false, ..self }
    }

    /// Keeps the field out of responses.
    pub fn write_only(self) -> (f: Field)
        ensures
            f.write_only, f.required == self.required, f.name == self.name, f.source == self.source,
            f.read_only == self.read_only, f.nullable == self.nullable, f.max_length == self.max_length,
            f.relation == self.relation, f.system == self.system, f.default == self.default,
    {
        Field { write_only: true, ..self }
    }

    /// A field only the server writes: read-only, write-only and not required.
    pub fn system(self) -> (f: Field)
        ensures
            f.system, f.read_only, f.write_only, !f.required, f.name == self.name, f.source == self.source,
            f.nullable == self.nullable, f.max_length == self.max_length, f.relation == self.relation,
            f.default == self.default,
    {
        Field { system: true, read_only: true, write_only: true, required: false, ..self }
    }

    /// Allows `null`.
    pub fn nullable(self) -> (f: Field)
        ensures
            f.nullable, f.required == self.required, f.name == self.name, f.source == self.source,
            f.read_only == self.read_only, f.write_only == self.write_only, f.max_length == self.max_length,
            f.relation == self.relation, f.system == self.system, f.default == self.default,
    {
        Field { nullable: true, ..self }
    }

    /// Limits the length of a string value.
    pub fn max_length(self, max_length: u32) -> (f: Field)
        ensures
            f.max_length == Some(max_length), f.required == self.required, f.name == self.name,
            f.source == self.source, f.read_only == self.read_only, f.write_only == self.write_only,
            f.nullable == self.nullable, f.relation == self.relation, f.system == self.system,
            f.default == self.default,
    {
        Field { max_length: Some(max_length), ..self }
    }

    /// The value used when the field is not given.
    pub fn default(self, value: Json) -> (f: Field)
        ensures
            f.default == Some(value), f.required == self.required, f.name == self.name,
            f.source == self.source, f.read_only == self.read_only, f.write_only == self.write_only,
            f.nullable == self.nullable, f.max_length == self.max_length, f.relation == self.relation,
            f.system == self.system,
    {
        Field { default: Some(value), ..self }
    }

    /// Drops the default value.
    pub fn without_default(self) -> (f: Field)
        ensures
            f.default is None, f.required == self.required, f.name == self.name,
            f.source == self.source, f.read_only == self.read_only, f.write_only == self.write_only,
            f.nullable == self.nullable, f.max_length == self.max_length, f.relation == self.relation,
            f.system == self.system,
    {
        Field { default: None, ..self }
    }

    /// Whether the field has a default value.
    pub fn has_default(&self) -> (r: bool)
        ensures r == self.default is Some,
    {
        self.default.is_some()
    }
}

/// Why a JSON body was refused.
#[derive(Debug, Clone, PartialEq, Eq)]
pub enum SerializerError {
    ExpectedObject,
    UnknownField(String),
    ReadonlyField(String),
    MissingField(String),
    NullNotAllowed(String),
    InvalidType { field: String, expected: &'static str },
    InvalidChoice { field: String, value: String },
    MaxLengthExceeded { field: String, max_length: u32 },
    InvalidModelField(String),
    /// The body is not JSON; the parser's message.
    Json(String),
}

/// Why a JSON body was refused, as character sequences.
pub enum ErrView {
    ExpectedObject,
    UnknownField(Seq<char>),
    ReadonlyField(Seq<char>),
    MissingField(Seq<char>),
    NullNotAllowed(Seq<char>),
    InvalidType(Seq<char>, Seq<char>),
    InvalidChoice(Seq<char>, Seq<char>),
    MaxLengthExceeded(Seq<char>, u32),
    InvalidModelField(Seq<char>),
    Json(Seq<char>),
}

impl SerializerError {
    pub open spec fn view(&self) -> ErrView {
        match self {
            SerializerError::ExpectedObject => ErrView::ExpectedObject,
            SerializerError::UnknownField(n) => ErrView::UnknownField(n@),
            SerializerError::ReadonlyField(n) => ErrView::ReadonlyField(n@),
            SerializerError::MissingField(n) => ErrView::MissingField(n@),
            SerializerError::NullNotAllowed(n) => ErrView::NullNotAllowed(n@),
            SerializerError::InvalidType { field, expected } => ErrView::InvalidType(field@, expected@),
            SerializerError::InvalidChoice { field, value } => ErrView::InvalidChoice(field@, value@),
            SerializerError::MaxLengthExceeded { field, max_length } => ErrView::MaxLengthExceeded(field@, *max_length),
            SerializerError::InvalidModelField(n) => ErrView::InvalidModelField(n@),
            SerializerError::Json(m) => ErrView::Json(m@),
        }
    }

    /// The message shown to the user.
    pub fn message(&self) -> (s: String)
        ensures
            s@ == match self.view() {
                ErrView::ExpectedObject => "expected a JSON object"@,
                ErrView::UnknownField(n) => "unknown field: "@ + n,
                ErrView::ReadonlyField(n) => "field is read-only: "@ + n,
                ErrView::MissingField(n) => "missing field: "@ + n,
                ErrView::NullNotAllowed(n) => "null is not allowed for field: "@ + n,
                ErrView::InvalidType(f, e) => "invalid type for field "@ + f + ", expected "@ + e,
                ErrView::InvalidChoice(f, v) => "invalid choice for field "@ + f + ": "@ + v,
                ErrView::MaxLengthExceeded(f, m) => "field "@ + f + " exceeds max length "@ + crate::num::decimal(m as nat),
                ErrView::InvalidModelField(n) => "invalid model field: "@ + n,
                ErrView::Json(m) => "json error: "@ + m,
            },
    {
        let mut s = String::new();
        match self {
            SerializerError::ExpectedObject => push_str(&mut s, "expected a JSON object"),
            SerializerError::UnknownField(n) => { push_str(&mut s, "unknown field: "); push_str(&mut s, n.as_str()); },
            SerializerError::ReadonlyField(n) => { push_str(&mut s, "field is read-only: "); push_str(&mut s, n.as_str()); },
            SerializerError::MissingField(n) => { push_str(&mut s, "missing field: "); push_str(&mut s, n.as_str()); },
            SerializerError::NullNotAllowed(n) => { push_str(&mut s, "null is not allowed for field: "); push_str(&mut s, n.as_str()); },
            SerializerError::InvalidType { field, expected } => {
                push_str(&mut s, "invalid type for field ");
                push_str(&mut s, field.as_str());
                push_str(&mut s, ", expected ");
                push_str(&mut s, expected);
            },
            SerializerError::InvalidChoice { field, value } => {
                push_str(&mut s, "invalid choice for field ");
                push_str(&mut s, field.as_str());
                push_str(&mut s, ": ");
                push_str(&mut s, value.as_str());
            },
            SerializerError::MaxLengthExceeded { field, max_length } => {
                push_str(&mut s, "field ");
                push_str(&mut s, field.as_str());
                push_str(&mut s, " exceeds max length ");
                let d = crate::num::u64_to_decimal(*max_length as u64);
                push_str(&mut s, d.as_str());
            },
            SerializerError::InvalidModelField(n) => { push_str(&mut s, "invalid model field: "); push_str(&mut s, n.as_str()); },
            SerializerError::Json(m) => { push_str(&mut s, "json error: "); push_str(&mut s, m.as_str()); },
        }
        s
    }
}

/// The name of the JSON type a field type is written as.
pub open spec fn json_type_name(ty: FieldType) -> Seq<char> {
    match ty {
        FieldType::Integer => "integer"@,
        FieldType::Text | FieldType::Choice | FieldType::FilePath => "string"@,
        FieldType::Boolean => "boolean"@,
        FieldType::Real => "number"@,
        FieldType::DateTime => "datetime string"@,
        FieldType::Json => "json"@,
    }
}

/// The name of the JSON type a field type is written as.
pub fn field_type_name(ty: FieldType) -> (r: &'static str)
    ensures r@ == json_type_name(ty),
{
    match ty {
        FieldType::Integer => "integer",
        FieldType::Text | FieldType::Choice | FieldType::FilePath => "string",
        FieldType::Boolean => "boolean",
        FieldType::Real => "number",
        FieldType::DateTime => "datetime string",
        FieldType::Json => "json",
    }
}

/// A JSON value of the type `ty` asks for.
pub open spec fn type_ok(ty: FieldType, v: JsonView) -> bool {
    match ty {
        FieldType::Integer => v matches JsonView::Number(n) && !(n is Float),
        FieldType::Text | FieldType::Choice | FieldType::FilePath => v is Str,
        FieldType::Boolean => v is Bool,
        FieldType::Real => v is Number,
        FieldType::DateTime => v matches JsonView::Str(s) && datetime_of(s) is Some,
        FieldType::Json => true,
    }
}

/// Checks that `value` has the JSON type of `ty`.
pub fn validate_type(field: &str, ty: FieldType, value: &Json) -> (r: Result<(), SerializerError>)
    ensures
        type_ok(ty, value@) ==> r is Ok,
        !type_ok(ty, value@) ==> (r matches Err(e) && e@ == ErrView::InvalidType(field@, json_type_name(ty))),
{
    let ok = match ty {
        FieldType::Integer => match value {
            Json::Number(JsonNumber::PosInt(_)) | Json::Number(JsonNumber::NegInt(_)) => true,
            _ => false,
        },
        FieldType::Text | FieldType::Choice | FieldType::FilePath => match value {
            Json::Str(_) => true,
            _ => false,
        },
        FieldType::Boolean => match value {
            Json::Bool(_) => true,
            _ => false,
        },
        FieldType::Real => match value {
            Json::Number(_) => true,
            _ => false,
        },
        FieldType::DateTime => match value {
            Json::Str(s) => parse_datetime(s.as_str()).is_some(),
            _ => false,
        },
        FieldType::Json => true,
    };
    if ok {
        Ok(())
    } else {
        Err(SerializerError::InvalidType { field: owned(field), expected: field_type_name(ty) })
    }
}

/// `choices` holds `value`.
pub open spec fn among(choices: Option<Vec<String>>, value: Seq<char>) -> bool {
    match choices {
        Some(cs) => exists|i: int| 0 <= i < cs@.len() && (#[trigger] cs@[i])@ == value,
        None => false,
    }
}

/// What the choice check answers: only a choice field is checked, and its
/// value must be one of its choices.
pub open spec fn choice_check(field: Seq<char>, info: FieldInfo, v: JsonView) -> Result<(), ErrView> {
    if info.ty != FieldType::Choice {
        Ok(())
    } else {
        match v {
            JsonView::Str(s) => if among(info.choices, s) { Ok(()) } else { Err(ErrView::InvalidChoice(field, s)) },
            _ => Err(ErrView::InvalidType(field, "string"@)),
        }
    }
}

/// Checks the value of a choice field against its choices.
pub fn validate_choice(field: &str, model_field: &FieldInfo, value: &Json) -> (r: Result<(), SerializerError>)
    ensures
        match choice_check(field@, *model_field, value@) {
            Ok(()) => r is Ok,
            Err(e) => r matches Err(x) && x@ == e,
        },
{
    if model_field.ty != FieldType::Choice {
        return Ok(());
    }
    let s = match value {
        Json::Str(s) => s,
        _ => { return Err(SerializerError::InvalidType { field: owned(field), expected: "string" }); },
    };
    match &model_field.choices {
        None => Err(SerializerError::InvalidChoice { field: owned(field), value: s.clone() }),
        Some(cs) => {
            let mut i: usize = 0;
            while i < cs.len()
                invariant
                    i <= cs@.len(),
                    model_field.ty == FieldType::Choice,
                    model_field.choices == Some(*cs),
                    value@ == JsonView::Str(s@),
                    forall|j: int| 0 <= j < i ==> (#[trigger] cs@[j])@ != s@,
                decreases cs.len() - i,
            {
                if str_eq(cs[i].as_str(), s.as_str()) {
                    proof {
                        assert(cs@[i as int]@ == s@);
                        assert(model_field.choices->0@[i as int]@ == s@);
                        assert(among(model_field.choices, s@));
                        assert(choice_check(field@, *model_field, value@) == Ok::<(), ErrView>(()));
                    }
                    return Ok(());
                }
                i += 1;
            }
            Err(SerializerError::InvalidChoice { field: owned(field), value: s.clone() })
        },
    }
}

/// What the length check answers: a string value longer than `max_length`
/// characters is refused.
pub open spec fn length_check(field: Seq<char>, max_length: u32, v: JsonView) -> Result<(), ErrView> {
    match v {
        JsonView::Str(s) => if s.len() > max_length { Err(ErrView::MaxLengthExceeded(field, max_length)) } else { Ok(()) },
        _ => Ok(()),
    }
}

/// Checks the length of a string value.
pub fn validate_max_length(field: &str, max_length: u32, value: &Json) -> (r: Result<(), SerializerError>)
    ensures
        match length_check(field@, max_length, value@) {
            Ok(()) => r is Ok,
            Err(e) => r matches Err(x) && x@ == e,
        },
{
    match value {
        Json::Str(s) => {
            let c = chars_of(s.as_str());
            if c.len() > max_length as usize {
                Err(SerializerError::MaxLengthExceeded { field: owned(field), max_length })
            } else {
                Ok(())
            }
        },
        _ => Ok(()),
    }
}

/// The first model field from `from` on whose Rust or column name is `name`,
/// or -1.
pub open spec fn model_field_index(infos: Seq<FieldInfo>, name: Seq<char>, from: int) -> int
    decreases infos.len() - from,
{
    if from < 0 || from >= infos.len() {
        -1
    } else if infos[from].rust_name@ == name || infos[from].db_name@ == name {
        from
    } else {
        model_field_index(infos, name, from + 1)
    }
}

proof fn lemma_model_field_index(infos: Seq<FieldInfo>, name: Seq<char>, from: int)
    requires 0 <= from,
    ensures
        model_field_index(infos, name, from) == -1 || (from <= model_field_index(infos, name, from) < infos.len()
            && (infos[model_field_index(infos, name, from)].rust_name@ == name
                || infos[model_field_index(infos, name, from)].db_name@ == name)),
    decreases infos.len() - from,
{
    if from < infos.len() && !(infos[from].rust_name@ == name || infos[from].db_name@ == name) {
        lemma_model_field_index(infos, name, from + 1);
    }
}

/// The model field whose Rust or column name is `name`.
pub fn find_model_field(fields: &Vec<FieldInfo>, name: &str) -> (r: Option<usize>)
    ensures
        match r {
            Some(i) => i as int == model_field_index(fields@, name@, 0) && i < fields@.len(),
            None => model_field_index(fields@, name@, 0) == -1,
        },
{
    proof { lemma_model_field_index(fields@, name@, 0); }
    let mut i: usize = 0;
    while i < fields.len()
        invariant
            i <= fields@.len(),
            model_field_index(fields@, name@, 0) == model_field_index(fields@, name@, i as int),
        decreases fields.len() - i,
    {
        if str_eq(fields[i].rust_name.as_str(), name) || str_eq(fields[i].db_name.as_str(), name) {
            return Some(i);
        }
        i += 1;
    }
    None
}

/// The checks of a given, non-null value: its type, its choice, its length.
pub open spec fn value_check(f: Field, info: FieldInfo, v: JsonView) -> Result<(), ErrView> {
    if !type_ok(info.ty, v) {
        Err(ErrView::InvalidType(f.name@, json_type_name(info.ty)))
    } else {
        match choice_check(f.name@, info, v) {
            Err(e) => Err(e),
            Ok(()) => match f.max_length {
                Some(m) => length_check(f.name@, m, v),
                None => Ok(()),
            },
        }
    }
}

/// The entries of an object as mathematical values.
pub open spec fn entries_view(v: Seq<(String, Json)>) -> Seq<(Seq<char>, JsonView)> {
    Seq::new(v.len(), |i: int| (v[i].0@, v[i].1@))
}

/// The validated values after the first `n` fields, given the object
/// entries `entries`; the first refused field stops.
pub open spec fn validate_fields(entries: Seq<(Seq<char>, JsonView)>, fields: Seq<Field>, infos: Seq<FieldInfo>, n: int)
    -> Result<Seq<(Seq<char>, JsonView)>, ErrView>
    decreases n,
{
    if n <= 0 {
        Ok(Seq::empty())
    } else {
        match validate_fields(entries, fields, infos, n - 1) {
            Err(e) => Err(e),
            Ok(acc) => {
                let f = fields[n - 1];
                let k = model_field_index(infos, f.source@, 0);
                if k < 0 {
                    Err(ErrView::InvalidModelField(f.source@))
                } else if f.read_only {
                    if object_get(entries, f.name@) is Some { Err(ErrView::ReadonlyField(f.name@)) } else { Ok(acc) }
                } else {
                    match object_get(entries, f.name@) {
                        Some(JsonView::Null) => if !f.nullable {
                            Err(ErrView::NullNotAllowed(f.name@))
                        } else {
                            Ok(acc.push((f.name@, JsonView::Null)))
                        },
                        Some(v) => match value_check(f, infos[k], v) {
                            Err(e) => Err(e),
                            Ok(()) => Ok(acc.push((f.name@, v))),
                        },
                        None => match f.default {
                            Some(d) => Ok(acc.push((f.name@, d@))),
                            None => if f.required { Err(ErrView::MissingField(f.name@)) } else { Ok(acc) },
                        },
                    }
                }
            },
        }
    }
}

/// Some field of `fields` is named `name`.
pub open spec fn has_field(fields: Seq<Field>, name: Seq<char>) -> bool {
    exists|i: int| 0 <= i < fields.len() && (#[trigger] fields[i]).name@ == name
}

/// The first entry from `from` on whose key names no field, or -1.
pub open spec fn first_unknown(entries: Seq<(Seq<char>, JsonView)>, fields: Seq<Field>, from: int) -> int
    decreases entries.len() - from,
{
    if from < 0 || from >= entries.len() {
        -1
    } else if !has_field(fields, entries[from].0) {
        from
    } else {
        first_unknown(entries, fields, from + 1)
    }
}

/// What validating `value` against `fields` gives: an object whose keys all
/// name fields, whose read-only fields are absent, and whose other fields
/// are given, defaulted, or optional.
pub open spec fn validate_spec(value: JsonView, fields: Seq<Field>, infos: Seq<FieldInfo>) -> Result<Seq<(Seq<char>, JsonView)>, ErrView> {
    match value {
        JsonView::Object(entries) => {
            let u = first_unknown(entries, fields, 0);
            if u >= 0 {
                Err(ErrView::UnknownField(entries[u].0))
            } else {
                validate_fields(entries, fields, infos, fields.len() as int)
            }
        },
        _ => Err(ErrView::ExpectedObject),
    }
}

fn has_field_exec(fields: &Vec<Field>, name: &str) -> (r: bool)
    ensures r == has_field(fields@, name@),
{
    let mut i: usize = 0;
    while i < fields.len()
        invariant
            i <= fields@.len(),
            forall|j: int| 0 <= j < i ==> (#[trigger] fields@[j]).name@ != name@,
        decreases fields.len() - i,
    {
        if str_eq(fields[i].name.as_str(), name) {
            proof { assert(fields@[i as int].name@ == name@); }
            return true;
        }
        i += 1;
    }
    false
}

proof fn lemma_fields_stop(entries: Seq<(Seq<char>, JsonView)>, fields: Seq<Field>, infos: Seq<FieldInfo>, i: int, n: int)
    requires 1 <= i <= n, validate_fields(entries, fields, infos, i) is Err,
    ensures validate_fields(entries, fields, infos, n) == validate_fields(entries, fields, infos, i),
    decreases n - i,
{
    if n > i {
        lemma_fields_stop(entries, fields, infos, i, n - 1);
    }
}

/// The views of validated entries.
pub open spec fn values_view(v: Seq<(String, Json)>) -> Seq<(Seq<char>, JsonView)> {
    Seq::new(v.len(), |i: int| (v[i].0@, v[i].1@))
}

/// Validates a JSON body against the serializer fields `fields` of a model
/// with fields `model_fields`: the validated values, by field name, in the
/// order of the fields.
pub fn validate_object(value: &Json, fields: &Vec<Field>, model_fields: &Vec<FieldInfo>) -> (r: Result<Vec<(String, Json)>, SerializerError>)
    ensures
        match validate_spec(value@, fields@, model_fields@) {
            Ok(vals) => r matches Ok(out) && values_view(out@) == vals,
            Err(e) => r matches Err(x) && x@ == e,
        },
{
    let entries = match value {
        Json::Object(entries) => entries,
        _ => { return Err(SerializerError::ExpectedObject); },
    };
    let ghost ev = entries_view(entries@);
    proof {
        assert(value@ == JsonView::Object(ev)) by {
            let x = value@->Object_0;
            assert(x =~= ev);
        }
    }
    let mut k: usize = 0;
    while k < entries.len()
        invariant
            k <= entries@.len(),
            ev == entries_view(entries@),
            value@ == JsonView::Object(ev),
            first_unknown(ev, fields@, 0) == first_unknown(ev, fields@, k as int),
        decreases entries.len() - k,
    {
        if !has_field_exec(fields, entries[k].0.as_str()) {
            return Err(SerializerError::UnknownField(entries[k].0.clone()));
        }
        k += 1;
    }
    let mut out: Vec<(String, Json)> = Vec::new();
    let mut i: usize = 0;
    while i < fields.len()
        invariant
            i <= fields@.len(),
            ev == entries_view(entries@),
            value@ == JsonView::Object(ev),
            first_unknown(ev, fields@, 0) == -1,
            validate_fields(ev, fields@, model_fields@, i as int) matches Ok(acc) && values_view(out@) == acc,
        decreases fields.len() - i,
    {
        let ghost acc = values_view(out@);
        let f = &fields[i];
        let mi = match find_model_field(model_fields, f.source.as_str()) {
            None => {
                proof { lemma_fields_stop(ev, fields@, model_fields@, i + 1, fields@.len() as int); }
                return Err(SerializerError::InvalidModelField(f.source.clone()));
            },
            Some(mi) => mi,
        };
        let at = find_entry(entries, f.name.as_str());
        proof {
            lemma_entry_index(ev, f.name@, 0);
            assert(Seq::new(entries@.len(), |j: int| (entries@[j].0@, entries@[j].1@)) == ev);
        }
        if f.read_only {
            if at.is_some() {
                proof { lemma_fields_stop(ev, fields@, model_fields@, i + 1, fields@.len() as int); }
                return Err(SerializerError::ReadonlyField(f.name.clone()));
            }
        } else {
            match at {
                Some(j) => {
                    let v = &entries[j].1;
                    match v {
                        Json::Null => {
                            if !f.nullable {
                                proof { lemma_fields_stop(ev, fields@, model_fields@, i + 1, fields@.len() as int); }
                                return Err(SerializerError::NullNotAllowed(f.name.clone()));
                            }
                            out.push((f.name.clone(), Json::Null));
                        },
                        _ => {
                            let checked = match validate_type(f.name.as_str(), model_fields[mi].ty, v) {
                                Err(e) => Err(e),
                                Ok(()) => match validate_choice(f.name.as_str(), &model_fields[mi], v) {
                                    Err(e) => Err(e),
                                    Ok(()) => match f.max_length {
                                        Some(m) => validate_max_length(f.name.as_str(), m, v),
                                        None => Ok(()),
                                    },
                                },
                            };
                            match checked {
                                Err(e) => {
                                    proof { lemma_fields_stop(ev, fields@, model_fields@, i + 1, fields@.len() as int); }
                                    return Err(e);
                                },
                                Ok(()) => {
                                    out.push((f.name.clone(), v.deep_copy()));
                                },
                            }
                        },
                    }
                },
                None => {
                    match &f.default {
                        Some(d) => {
                            out.push((f.name.clone(), d.deep_copy()));
                        },
                        None => {
                            if f.required {
                                proof { lemma_fields_stop(ev, fields@, model_fields@, i + 1, fields@.len() as int); }
                                return Err(SerializerError::MissingField(f.name.clone()));
                            }
                        },
                    }
                },
            }
        }
        proof {
            assert(values_view(out@) =~= validate_fields(ev, fields@, model_fields@, i + 1)->Ok_0);
        }
        i += 1;
    }
    Ok(out)
}


/// The last entry of `entries` with key `key` among the first `n`, or -1:
/// the value a map built by inserting the entries in order holds.
pub open spec fn last_index(entries: Seq<(Seq<char>, JsonView)>, key: Seq<char>, n: int) -> int
    decreases n,
{
    if n <= 0 || n > entries.len() {
        -1
    } else if entries[n - 1].0 == key {
        n - 1
    } else {
        last_index(entries, key, n - 1)
    }
}

proof fn lemma_last_index(entries: Seq<(Seq<char>, JsonView)>, key: Seq<char>, n: int)
    requires 0 <= n <= entries.len(),
    ensures
        last_index(entries, key, n) == -1 || (0 <= last_index(entries, key, n) < n
            && entries[last_index(entries, key, n)].0 == key),
    decreases n,
{
    if n > 0 && entries[n - 1].0 != key {
        lemma_last_index(entries, key, n - 1);
    }
}

/// The value of `key` in a map built by inserting `entries` in order.
pub open spec fn map_get(entries: Seq<(Seq<char>, JsonView)>, key: Seq<char>) -> Option<JsonView> {
    let i = last_index(entries, key, entries.len() as int);
    if i < 0 { None } else { Some(entries[i].1) }
}

fn last_entry(entries: &Vec<(String, Json)>, key: &str) -> (r: Option<usize>)
    ensures
        match r {
            Some(i) => i as int == last_index(values_view(entries@), key@, entries@.len() as int) && i < entries@.len(),
            None => last_index(values_view(entries@), key@, entries@.len() as int) == -1,
        },
{
    let ghost v = values_view(entries@);
    let mut n: usize = entries.len();
    while n > 0
        invariant
            n <= entries@.len(),
            v == values_view(entries@),
            last_index(v, key@, entries@.len() as int) == last_index(v, key@, n as int),
        decreases n,
    {
        if str_eq(entries[n - 1].0.as_str(), key) {
            return Some(n - 1);
        }
        n -= 1;
    }
    None
}

/// The validated values keyed by the column names of their model fields,
/// after the first `n` fields.
pub open spec fn data_of(vals: Seq<(Seq<char>, JsonView)>, fields: Seq<Field>, infos: Seq<FieldInfo>, n: int)
    -> Result<Seq<(Seq<char>, JsonView)>, ErrView>
    decreases n,
{
    if n <= 0 {
        Ok(Seq::empty())
    } else {
        match data_of(vals, fields, infos, n - 1) {
            Err(e) => Err(e),
            Ok(acc) => {
                let f = fields[n - 1];
                match map_get(vals, f.name@) {
                    None => Ok(acc),
                    Some(v) => {
                        let k = model_field_index(infos, f.source@, 0);
                        if k < 0 { Err(ErrView::InvalidModelField(f.source@)) } else { Ok(acc.push((infos[k].db_name@, v))) }
                    },
                }
            },
        }
    }
}

proof fn lemma_data_stop(vals: Seq<(Seq<char>, JsonView)>, fields: Seq<Field>, infos: Seq<FieldInfo>, i: int, n: int)
    requires 1 <= i <= n, data_of(vals, fields, infos, i) is Err,
    ensures data_of(vals, fields, infos, n) == data_of(vals, fields, infos, i),
    decreases n - i,
{
    if n > i {
        lemma_data_stop(vals, fields, infos, i, n - 1);
    }
}

/// Validated values ready to be written, keyed by column name.
#[derive(Debug)]
pub struct ValidatedData {
    pub values: Vec<(String, Json)>,
}

/// Validates a JSON body and keys the values by the column names of the
/// model fields they write.
pub fn validated_data(value: &Json, fields: &Vec<Field>, model_fields: &Vec<FieldInfo>) -> (r: Result<ValidatedData, SerializerError>)
    ensures
        match validate_spec(value@, fields@, model_fields@) {
            Err(e) => r matches Err(x) && x@ == e,
            Ok(vals) => match data_of(vals, fields@, model_fields@, fields@.len() as int) {
                Ok(d) => r matches Ok(out) && values_view(out.values@) == d,
                Err(e) => r matches Err(x) && x@ == e,
            },
        },
{
    let data = match validate_object(value, fields, model_fields) {
        Err(e) => { return Err(e); },
        Ok(d) => d,
    };
    let ghost vals = values_view(data@);
    let mut values: Vec<(String, Json)> = Vec::new();
    let mut i: usize = 0;
    while i < fields.len()
        invariant
            i <= fields@.len(),
            vals == values_view(data@),
            validate_spec(value@, fields@, model_fields@) == Ok::<Seq<(Seq<char>, JsonView)>, ErrView>(vals),
            data_of(vals, fields@, model_fields@, i as int) matches Ok(acc) && values_view(values@) == acc,
        decreases fields.len() - i,
    {
        let f = &fields[i];
        match last_entry(&data, f.name.as_str()) {
            None => {},
            Some(j) => {
                proof { lemma_last_index(vals, f.name@, data@.len() as int); }
                match find_model_field(model_fields, f.source.as_str()) {
                    None => {
                        proof { lemma_data_stop(vals, fields@, model_fields@, i + 1, fields@.len() as int); }
                        return Err(SerializerError::InvalidModelField(f.source.clone()));
                    },
                    Some(mi) => {
                        values.push((model_fields[mi].db_name.clone(), data[j].1.deep_copy()));
                    },
                }
            },
        }
        proof {
            assert(values_view(values@) =~= data_of(vals, fields@, model_fields@, i + 1)->Ok_0);
        }
        i += 1;
    }
    Ok(ValidatedData { values })
}

/// The fields an update validates against: every writable field becomes
/// optional and loses its default.
pub fn update_fields(fields: &Vec<Field>) -> (r: Vec<Field>)
    ensures
        r@.len() == fields@.len(),
        forall|i: int| 0 <= i < fields@.len() ==> {
            let f = #[trigger] fields@[i];
            let g = r@[i];
            &&& g.name@ == f.name@ && g.source@ == f.source@ && g.read_only == f.read_only
            &&& g.write_only == f.write_only && g.nullable == f.nullable && g.max_length == f.max_length
            &&& g.system == f.system
            &&& match (g.relation, f.relation) { (Some(a), Some(b)) => a@ == b@, (None, None) => true, _ => false }
            &&& if f.read_only {
                g.required == f.required && match (g.default, f.default) {
                    (Some(a), Some(b)) => a@ == b@,
                    (None, None) => true,
                    _ => false,
                }
            } else {
                !g.required && g.default is None
            }
        },
{
    let mut r: Vec<Field> = Vec::new();
    let mut i: usize = 0;
    while i < fields.len()
        invariant
            i <= fields@.len(),
            r@.len() == i,
            forall|j: int| 0 <= j < i ==> {
                let f = #[trigger] fields@[j];
                let g = r@[j];
                &&& g.name@ == f.name@ && g.source@ == f.source@ && g.read_only == f.read_only
                &&& g.write_only == f.write_only && g.nullable == f.nullable && g.max_length == f.max_length
                &&& g.system == f.system
                &&& match (g.relation, f.relation) { (Some(a), Some(b)) => a@ == b@, (None, None) => true, _ => false }
                &&& if f.read_only {
                    g.required == f.required && match (g.default, f.default) {
                        (Some(a), Some(b)) => a@ == b@,
                        (None, None) => true,
                        _ => false,
                    }
                } else {
                    !g.required && g.default is None
                }
            },
        decreases fields.len() - i,
    {
        let f = &fields[i];
        let relation = match &f.relation {
            Some(m) => Some(m.clone()),
            None => None,
        };
        let (required, default) = if f.read_only {
            (f.required, match &f.default { Some(d) => Some(d.deep_copy()), None => None })
        } else {
            (false, None)
        };
        r.push(Field {
            name: f.name.clone(),
            source: f.source.clone(),
            required,
            read_only: f.read_only,
            write_only: f.write_only,
            nullable: f.nullable,
            max_length: f.max_length,
            relation,
            system: f.system,
            default,
        });
        i += 1;
    }
    r
}


/// The first field from `from` on named `name`, or -1.
pub open spec fn field_index(fields: Seq<Field>, name: Seq<char>, from: int) -> int
    decreases fields.len() - from,
{
    if from < 0 || from >= fields.len() {
        -1
    } else if fields[from].name@ == name {
        from
    } else {
        field_index(fields, name, from + 1)
    }
}

proof fn lemma_field_index(fields: Seq<Field>, name: Seq<char>, from: int)
    requires 0 <= from,
    ensures
        field_index(fields, name, from) == -1 || (from <= field_index(fields, name, from) < fields.len()
            && fields[field_index(fields, name, from)].name@ == name),
    decreases fields.len() - from,
{
    if from < fields.len() && fields[from].name@ != name {
        lemma_field_index(fields, name, from + 1);
    }
}

fn field_index_exec(fields: &Vec<Field>, name: &str) -> (r: Option<usize>)
    ensures
        match r {
            Some(i) => i as int == field_index(fields@, name@, 0) && i < fields@.len(),
            None => field_index(fields@, name@, 0) == -1,
        },
{
    proof { lemma_field_index(fields@, name@, 0); }
    let mut i: usize = 0;
    while i < fields.len()
        invariant
            i <= fields@.len(),
            field_index(fields@, name@, 0) == field_index(fields@, name@, i as int),
        decreases fields.len() - i,
    {
        if str_eq(fields[i].name.as_str(), name) {
            return Some(i);
        }
        i += 1;
    }
    None
}

/// The values a server-side write sets after the first `n` entries of the
/// body: each key must name a system field.
pub open spec fn system_data(entries: Seq<(Seq<char>, JsonView)>, fields: Seq<Field>, infos: Seq<FieldInfo>, n: int)
    -> Result<Seq<(Seq<char>, JsonView)>, ErrView>
    decreases n,
{
    if n <= 0 {
        Ok(Seq::empty())
    } else {
        match system_data(entries, fields, infos, n - 1) {
            Err(e) => Err(e),
            Ok(acc) => {
                let key = entries[n - 1].0;
                let v = entries[n - 1].1;
                let fi = field_index(fields, key, 0);
                if fi < 0 {
                    Err(ErrView::UnknownField(key))
                } else if !fields[fi].system {
                    Err(ErrView::ReadonlyField(key))
                } else {
                    let f = fields[fi];
                    let k = model_field_index(infos, f.source@, 0);
                    if k < 0 {
                        Err(ErrView::InvalidModelField(f.source@))
                    } else if v == JsonView::Null {
                        if !f.nullable { Err(ErrView::NullNotAllowed(key)) } else { Ok(acc.push((infos[k].db_name@, v))) }
                    } else {
                        match value_check(f, infos[k], v) {
                            Err(e) => Err(e),
                            Ok(()) => Ok(acc.push((infos[k].db_name@, v))),
                        }
                    }
                }
            },
        }
    }
}

proof fn lemma_system_stop(entries: Seq<(Seq<char>, JsonView)>, fields: Seq<Field>, infos: Seq<FieldInfo>, i: int, n: int)
    requires 1 <= i <= n, system_data(entries, fields, infos, i) is Err,
    ensures system_data(entries, fields, infos, n) == system_data(entries, fields, infos, i),
    decreases n - i,
{
    if n > i {
        lemma_system_stop(entries, fields, infos, i, n - 1);
    }
}

/// Validates the values a server-side write sets: a JSON object whose keys
/// all name system fields, keyed by column name.
pub fn validated_system_data(value: &Json, fields: &Vec<Field>, model_fields: &Vec<FieldInfo>) -> (r: Result<ValidatedData, SerializerError>)
    ensures
        match value@ {
            JsonView::Object(entries) => match system_data(entries, fields@, model_fields@, entries.len() as int) {
                Ok(d) => r matches Ok(out) && values_view(out.values@) == d,
                Err(e) => r matches Err(x) && x@ == e,
            },
            _ => r matches Err(x) && x@ == ErrView::ExpectedObject,
        },
{
    let entries = match value {
        Json::Object(entries) => entries,
        _ => { return Err(SerializerError::ExpectedObject); },
    };
    let ghost ev = entries_view(entries@);
    proof {
        assert(value@ == JsonView::Object(ev)) by {
            let x = value@->Object_0;
            assert(x =~= ev);
        }
    }
    let mut values: Vec<(String, Json)> = Vec::new();
    let mut i: usize = 0;
    while i < entries.len()
        invariant
            i <= entries@.len(),
            ev == entries_view(entries@),
            value@ == JsonView::Object(ev),
            system_data(ev, fields@, model_fields@, i as int) matches Ok(acc) && values_view(values@) == acc,
        decreases entries.len() - i,
    {
        let key = &entries[i].0;
        let v = &entries[i].1;
        let fi = match field_index_exec(fields, key.as_str()) {
            None => {
                proof { lemma_system_stop(ev, fields@, model_fields@, i + 1, entries@.len() as int); }
                return Err(SerializerError::UnknownField(key.clone()));
            },
            Some(fi) => fi,
        };
        let f = &fields[fi];
        if !f.system {
            proof { lemma_system_stop(ev, fields@, model_fields@, i + 1, entries@.len() as int); }
            return Err(SerializerError::ReadonlyField(key.clone()));
        }
        let mi = match find_model_field(model_fields, f.source.as_str()) {
            None => {
                proof { lemma_system_stop(ev, fields@, model_fields@, i + 1, entries@.len() as int); }
                return Err(SerializerError::InvalidModelField(f.source.clone()));
            },
            Some(mi) => mi,
        };
        let is_null = match v { Json::Null => true, _ => false };
        if is_null {
            if !f.nullable {
                proof { lemma_system_stop(ev, fields@, model_fields@, i + 1, entries@.len() as int); }
                return Err(SerializerError::NullNotAllowed(key.clone()));
            }
        } else {
            let checked = match validate_type(f.name.as_str(), model_fields[mi].ty, v) {
                Err(e) => Err(e),
                Ok(()) => match validate_choice(f.name.as_str(), &model_fields[mi], v) {
                    Err(e) => Err(e),
                    Ok(()) => match f.max_length {
                        Some(m) => validate_max_length(f.name.as_str(), m, v),
                        None => Ok(()),
                    },
                },
            };
            match checked {
                Err(e) => {
                    proof { lemma_system_stop(ev, fields@, model_fields@, i + 1, entries@.len() as int); }
                    return Err(e);
                },
                Ok(()) => {},
            }
        }
        values.push((model_fields[mi].db_name.clone(), v.deep_copy()));
        proof {
            assert(values_view(values@) =~= system_data(ev, fields@, model_fields@, i + 1)->Ok_0);
        }
        i += 1;
    }
    Ok(ValidatedData { values })
}

/// A type a validated value is read as.
pub trait ValidatedValue: Sized {
    /// Reads the validated value of field `field`.
    fn from_validated(field: &str, value: &Json) -> Result<Self, SerializerError>;
}

impl ValidatedValue for i64 {
    fn from_validated(field: &str, value: &Json) -> (r: Result<i64, SerializerError>)
        ensures
            match value@ {
                JsonView::Number(NumberView::NegInt(n)) => r == Ok::<i64, SerializerError>(n as i64),
                JsonView::Number(NumberView::PosInt(n)) => if n <= i64::MAX {
                    r == Ok::<i64, SerializerError>(n as i64)
                } else {
                    r matches Err(x) && x@ == ErrView::InvalidType(field@, "integer"@)
                },
                _ => r matches Err(x) && x@ == ErrView::InvalidType(field@, "integer"@),
            },
    {
        match value {
            Json::Number(JsonNumber::NegInt(n)) => Ok(*n),
            Json::Number(JsonNumber::PosInt(n)) => {
                if *n <= 9223372036854775807u64 {
                    Ok(*n as i64)
                } else {
                    Err(SerializerError::InvalidType { field: owned(field), expected: "integer" })
                }
            },
            _ => Err(SerializerError::InvalidType { field: owned(field), expected: "integer" }),
        }
    }
}

impl ValidatedValue for String {
    fn from_validated(field: &str, value: &Json) -> (r: Result<String, SerializerError>)
        ensures
            match value@ {
                JsonView::Str(s) => r matches Ok(t) && t@ == s,
                _ => r matches Err(x) && x@ == ErrView::InvalidType(field@, "string"@),
            },
    {
        match value {
            Json::Str(s) => Ok(s.clone()),
            _ => Err(SerializerError::InvalidType { field: owned(field), expected: "string" }),
        }
    }
}

impl ValidatedValue for bool {
    fn from_validated(field: &str, value: &Json) -> (r: Result<bool, SerializerError>)
        ensures
            match value@ {
                JsonView::Bool(b) => r == Ok::<bool, SerializerError>(b),
                _ => r matches Err(x) && x@ == ErrView::InvalidType(field@, "boolean"@),
            },
    {
        match value {
            Json::Bool(b) => Ok(*b),
            _ => Err(SerializerError::InvalidType { field: owned(field), expected: "boolean" }),
        }
    }
}

impl ValidatedData {
    /// The value of column `name`, which must be there.
    pub fn required(&self, name: &str) -> (r: Result<&Json, SerializerError>)
        ensures
            match map_get(values_view(self.values@), name@) {
                Some(v) => r matches Ok(j) && j@ == v,
                None => r matches Err(x) && x@ == ErrView::MissingField(name@),
            },
    {
        proof { lemma_last_index(values_view(self.values@), name@, self.values@.len() as int); }
        match last_entry(&self.values, name) {
            Some(j) => Ok(&self.values[j].1),
            None => Err(SerializerError::MissingField(owned(name))),
        }
    }

    /// The value of column `name`, if there is one.
    pub fn optional(&self, name: &str) -> (r: Option<&Json>)
        ensures
            match map_get(values_view(self.values@), name@) {
                Some(v) => r matches Some(j) && j@ == v,
                None => r is None,
            },
    {
        proof { lemma_last_index(values_view(self.values@), name@, self.values@.len() as int); }
        match last_entry(&self.values, name) {
            Some(j) => Some(&self.values[j].1),
            None => None,
        }
    }

    /// These values, then those of `other`, which win.
    pub fn merge(self, other: ValidatedData) -> (r: ValidatedData)
        ensures values_view(r.values@) == values_view(self.values@) + values_view(other.values@),
    {
        let mut values = self.values;
        let mut more = other.values;
        let ghost a = values_view(values@);
        let ghost b = values_view(more@);
        values.append(&mut more);
        proof { assert(values_view(values@) =~= a + b); }
        ValidatedData { values }
    }
}


/// The value a model shows for a field: under its source, else under its
/// name, else `null`.
pub open spec fn shown_value(model: Seq<(Seq<char>, JsonView)>, f: Field) -> JsonView {
    match object_get(model, f.source@) {
        Some(v) => v,
        None => match object_get(model, f.name@) {
            Some(v) => v,
            None => JsonView::Null,
        },
    }
}

/// The entries of the response for the first `n` fields: write-only and
/// related fields are left out.
pub open spec fn shown_entries(model: Seq<(Seq<char>, JsonView)>, fields: Seq<Field>, n: int) -> Seq<(Seq<char>, JsonView)>
    decreases n,
{
    if n <= 0 {
        Seq::empty()
    } else {
        let acc = shown_entries(model, fields, n - 1);
        let f = fields[n - 1];
        if f.write_only || f.relation is Some { acc } else { acc.push((f.name@, shown_value(model, f))) }
    }
}

/// The JSON object a model shows through `fields`, given the model's values
/// by field name.
pub fn serialize_model(model: &Vec<(String, Json)>, fields: &Vec<Field>) -> (r: Json)
    ensures r@ == JsonView::Object(shown_entries(values_view(model@), fields@, fields@.len() as int)),
{
    let ghost mv = values_view(model@);
    let mut out: Vec<(String, Json)> = Vec::new();
    let mut i: usize = 0;
    while i < fields.len()
        invariant
            i <= fields@.len(),
            mv == values_view(model@),
            values_view(out@) == shown_entries(mv, fields@, i as int),
        decreases fields.len() - i,
    {
        let f = &fields[i];
        if !f.write_only && f.relation.is_none() {
            proof {
                lemma_entry_index(mv, f.source@, 0);
                lemma_entry_index(mv, f.name@, 0);
                assert(Seq::new(model@.len(), |j: int| (model@[j].0@, model@[j].1@)) == mv);
            }
            let value = match find_entry(model, f.source.as_str()) {
                Some(j) => model[j].1.deep_copy(),
                None => match find_entry(model, f.name.as_str()) {
                    Some(j) => model[j].1.deep_copy(),
                    None => Json::Null,
                },
            };
            out.push((f.name.clone(), value));
        }
        proof { assert(values_view(out@) =~= shown_entries(mv, fields@, i + 1)); }
        i += 1;
    }
    let ghost ov = values_view(out@);
    let r = Json::Object(out);
    proof {
        let x = r@->Object_0;
        assert(x =~= ov);
    }
    r
}

/// `name` is the name of a field of `fields` that is not read-only.
pub open spec fn writable_field(fields: Seq<Field>, name: Seq<char>) -> bool {
    exists|j: int| 0 <= j < fields.len() && (#[trigger] fields[j]).name@ == name && !fields[j].read_only
}

proof fn lemma_validated_fields_writable(entries: Seq<(Seq<char>, JsonView)>, fields: Seq<Field>, infos: Seq<FieldInfo>, n: int)
    requires 0 <= n <= fields.len(), validate_fields(entries, fields, infos, n) is Ok,
    ensures
        forall|i: int| 0 <= i < validate_fields(entries, fields, infos, n)->Ok_0.len()
            ==> writable_field(fields, (#[trigger] validate_fields(entries, fields, infos, n)->Ok_0[i]).0),
    decreases n,
{
    if n > 0 {
        lemma_validated_fields_writable(entries, fields, infos, n - 1);
        let prev = validate_fields(entries, fields, infos, n - 1)->Ok_0;
        let cur = validate_fields(entries, fields, infos, n)->Ok_0;
        let f = fields[n - 1];
        assert forall|i: int| 0 <= i < cur.len() implies writable_field(fields, (#[trigger] cur[i]).0) by {
            if i < prev.len() {
                assert(cur[i] == prev[i]);
                assert(writable_field(fields, prev[i].0));
            } else {
                assert(cur[i].0 == f.name@);
                assert(!f.read_only);
                assert(fields[n - 1].name@ == cur[i].0);
            }
        }
    }
}

/// Law: a client can only set writable fields: every value of a validated
/// body belongs to a field that is not read-only.
pub proof fn law_validated_fields_are_writable(value: JsonView, fields: Seq<Field>, infos: Seq<FieldInfo>)
    requires validate_spec(value, fields, infos) is Ok,
    ensures
        forall|i: int| 0 <= i < validate_spec(value, fields, infos)->Ok_0.len()
            ==> writable_field(fields, (#[trigger] validate_spec(value, fields, infos)->Ok_0[i]).0),
{
    match value {
        JsonView::Object(entries) => {
            lemma_validated_fields_writable(entries, fields, infos, fields.len() as int);
        },
        _ => {},
    }
}

/// Law: a real field takes every JSON number, integral or not, and nothing
/// else; so whatever an integer field takes, a real field takes too.
pub proof fn law_real_fields_take_every_number(v: JsonView)
    ensures
        type_ok(FieldType::Real, v) <==> v is Number,
        forall|n: NumberView| #[trigger] type_ok(FieldType::Real, JsonView::Number(n)),
        type_ok(FieldType::Integer, v) ==> type_ok(FieldType::Real, v),
{
}

/// Law: what each field type takes, over every JSON value: text-like
/// fields take strings, booleans take booleans, integer fields take
/// integral numbers only, and JSON fields take anything.
pub proof fn law_field_types_take_their_json_types(v: JsonView)
    ensures
        type_ok(FieldType::Text, v) <==> v is Str,
        type_ok(FieldType::Choice, v) <==> v is Str,
        type_ok(FieldType::FilePath, v) <==> v is Str,
        type_ok(FieldType::Boolean, v) <==> v is Bool,
        type_ok(FieldType::Integer, v) <==> (v matches JsonView::Number(n) && !(n is Float)),
        type_ok(FieldType::Json, v),
        type_ok(FieldType::DateTime, v) ==> v is Str,
{
}

} // verus!
