use vstd::prelude::*;

use crate::filters::{Filter, FilterSet, Lookup, ValueKind};
use crate::json::{Json, JsonView};
use crate::serializer::{
    serialize_model, shown_entries, validate_object, validate_spec, values_view, ErrView, Field,
    FieldInfo, FieldType, SerializerError,
};
use crate::text::owned;

verus! {

/// A user account as the user serializers see it.
#[derive(Debug, Clone)]
pub struct UserRecord {
    pub id: i64,
    pub email: String,
    pub name: String,
    pub is_active: bool,
}

fn info(name: &str, ty: FieldType) -> (r: FieldInfo)
    ensures r.rust_name@ == name@, r.db_name@ == name@, r.ty == ty, r.choices is None,
{
    FieldInfo { rust_name: owned(name), db_name: owned(name), ty, choices: None }
}

/// The fields of a user account: `id`, `email`, `name`, `is_active`.
pub open spec fn is_user_infos(r: Seq<FieldInfo>) -> bool {
    &&& r.len() == 4
    &&& r[0].rust_name@ == "id"@ && r[0].db_name@ == "id"@ && r[0].ty == FieldType::Integer && r[0].choices is None
    &&& r[1].rust_name@ == "email"@ && r[1].db_name@ == "email"@ && r[1].ty == FieldType::Text && r[1].choices is None
    &&& r[2].rust_name@ == "name"@ && r[2].db_name@ == "name"@ && r[2].ty == FieldType::Text && r[2].choices is None
    &&& r[3].rust_name@ == "is_active"@ && r[3].db_name@ == "is_active"@ && r[3].ty == FieldType::Boolean && r[3].choices is None
}

/// The fields of a user account.
pub fn user_record_fields() -> (r: Vec<FieldInfo>)
    ensures
        is_user_infos(r@),
        r@.len() == 4,
        r@[0].rust_name@ == "id"@ && r@[0].db_name@ == "id"@ && r@[0].ty == FieldType::Integer && r@[0].choices is None,
        r@[1].rust_name@ == "email"@ && r@[1].db_name@ == "email"@ && r@[1].ty == FieldType::Text && r@[1].choices is None,
        r@[2].rust_name@ == "name"@ && r@[2].db_name@ == "name"@ && r@[2].ty == FieldType::Text && r@[2].choices is None,
        r@[3].rust_name@ == "is_active"@ && r@[3].db_name@ == "is_active"@ && r@[3].ty == FieldType::Boolean && r@[3].choices is None,
{
    let mut r = Vec::new();
    r.push(info("id", FieldType::Integer));
    r.push(info("email", FieldType::Text));
    r.push(info("name", FieldType::Text));
    r.push(info("is_active", FieldType::Boolean));
    r
}

/// The fields of a user creation.
pub open spec fn is_create_fields(r: Seq<Field>) -> bool {
    &&& r.len() == 3
    &&& r[0].name@ == "email"@ && r[0].source@ == "email"@ && r[0].max_length == Some(255u32) && r[0].required
        && r[0].default is None
    &&& r[1].name@ == "name"@ && r[1].source@ == "name"@ && r[1].max_length is None && r[1].required
        && r[1].default is None
    &&& r[2].name@ == "is_active"@ && r[2].source@ == "is_active"@ && r[2].max_length is None && !r[2].required
        && (r[2].default matches Some(d) && d@ == JsonView::Bool(true))
    &&& forall|i: int| 0 <= i < 3 ==> !(#[trigger] r[i]).read_only && !r[i].write_only && !r[i].nullable
        && r[i].relation is None && !r[i].system
}

/// The fields of a user update.
pub open spec fn is_update_fields(r: Seq<Field>) -> bool {
    &&& r.len() == 3
    &&& r[0].name@ == "email"@ && r[0].source@ == "email"@ && r[0].max_length == Some(255u32)
    &&& r[1].name@ == "name"@ && r[1].source@ == "name"@ && r[1].max_length is None
    &&& r[2].name@ == "is_active"@ && r[2].source@ == "is_active"@ && r[2].max_length is None
    &&& forall|i: int| 0 <= i < 3 ==> !(#[trigger] r[i]).required && !r[i].read_only && !r[i].write_only
        && !r[i].nullable && r[i].relation is None && !r[i].system && r[i].default is None
}

/// The public view of a user account.
pub struct UserPublicSerializer;

/// The fields accepted when creating a user account.
pub struct UserCreateSerializer;

/// The fields accepted when updating a user account.
pub struct UserUpdateSerializer;

impl UserPublicSerializer {
    /// `id` (read-only), `email` (at most 255 characters), `name`, `is_active`.
    pub fn fields() -> (r: Vec<Field>)
        ensures
            r@.len() == 4,
            r@[0].name@ == "id"@ && r@[0].source@ == "id"@ && r@[0].read_only && !r@[0].required,
            r@[1].name@ == "email"@ && r@[1].source@ == "email"@ && r@[1].max_length == Some(255u32) && r@[1].required,
            r@[2].name@ == "name"@ && r@[2].source@ == "name"@ && r@[2].required,
            r@[3].name@ == "is_active"@ && r@[3].source@ == "is_active"@ && r@[3].required,
            forall|i: int| 1 <= i < 4 ==> !(#[trigger] r@[i]).read_only,
            forall|i: int| 0 <= i < 4 ==> !(#[trigger] r@[i]).write_only && r@[i].relation is None && r@[i].default is None
                && !r@[i].nullable && !r@[i].system,
            forall|i: int| 2 <= i < 4 ==> (#[trigger] r@[i]).max_length is None,
            r@[0].max_length is None,
    {
        let mut r = Vec::new();
        r.push(Field::new("id").read_only());
        r.push(Field::new("email").max_length(255));
        r.push(Field::new("name"));
        r.push(Field::new("is_active"));
        r
    }

    /// The JSON of a user account.
    pub fn to_json(user: &UserRecord) -> (r: Json)
        ensures
            r@ matches JsonView::Object(e) && e.len() == 4
                && e[0] == ("id"@, JsonView::Number(if user.id >= 0 {
                    crate::json::NumberView::PosInt(user.id as nat)
                } else {
                    crate::json::NumberView::NegInt(user.id as int)
                }))
                && e[1] == ("email"@, JsonView::Str(user.email@))
                && e[2] == ("name"@, JsonView::Str(user.name@))
                && e[3] == ("is_active"@, JsonView::Bool(user.is_active)),
    {
        let id = if user.id >= 0 {
            Json::Number(crate::json::JsonNumber::PosInt(user.id as u64))
        } else {
            Json::Number(crate::json::JsonNumber::NegInt(user.id))
        };
        let mut values: Vec<(String, Json)> = Vec::new();
        values.push((owned("id"), id));
        values.push((owned("email"), Json::Str(user.email.clone())));
        values.push((owned("name"), Json::Str(user.name.clone())));
        values.push((owned("is_active"), Json::Bool(user.is_active)));
        let ghost mv = values_view(values@);
        let fields = UserPublicSerializer::fields();
        let r = serialize_model(&values, &fields);
        proof {
            reveal_strlit("id");
            reveal_strlit("email");
            reveal_strlit("name");
            reveal_strlit("is_active");
            let e = shown_entries(mv, fields@, 4);
            assert(crate::json::entry_index(mv, "id"@, 0) == 0);
            assert(mv[0].0 == "id"@ && mv[1].0 == "email"@ && mv[2].0 == "name"@ && mv[3].0 == "is_active"@);
            assert("id"@.len() == 2 && "email"@.len() == 5 && "name"@.len() == 4 && "is_active"@.len() == 9);
            assert(mv[0].0 != "email"@ && mv[0].0 != "name"@ && mv[1].0 != "name"@);
            assert(mv[0].0 != "is_active"@ && mv[1].0 != "is_active"@ && mv[2].0 != "is_active"@);
            assert(crate::json::entry_index(mv, "email"@, 1) == 1);
            assert(crate::json::entry_index(mv, "email"@, 0) == 1);
            assert(crate::json::entry_index(mv, "name"@, 2) == 2);
            assert(crate::json::entry_index(mv, "name"@, 1) == 2);
            assert(crate::json::entry_index(mv, "name"@, 0) == 2);
            assert(crate::json::entry_index(mv, "is_active"@, 3) == 3);
            assert(crate::json::entry_index(mv, "is_active"@, 2) == 3);
            assert(crate::json::entry_index(mv, "is_active"@, 1) == 3);
            assert(crate::json::entry_index(mv, "is_active"@, 0) == 3);
            assert(shown_entries(mv, fields@, 0) =~= Seq::<(Seq<char>, JsonView)>::empty());
            assert(crate::json::object_get(mv, "id"@) == Some(mv[0].1));
            assert(crate::serializer::shown_value(mv, fields@[0]) == mv[0].1);
            assert(shown_entries(mv, fields@, 1) =~= seq![("id"@, mv[0].1)]);
            assert(shown_entries(mv, fields@, 2) =~= seq![("id"@, mv[0].1), ("email"@, mv[1].1)]);
            assert(shown_entries(mv, fields@, 3) =~= seq![("id"@, mv[0].1), ("email"@, mv[1].1), ("name"@, mv[2].1)]);
        }
        r
    }
}

impl UserCreateSerializer {
    /// `email` (at most 255 characters), `name`, and `is_active`
    /// (optional, `true` by default).
    pub fn fields() -> (r: Vec<Field>)
        ensures is_create_fields(r@),
    {
        let mut r = Vec::new();
        r.push(Field::new("email").max_length(255));
        r.push(Field::new("name"));
        r.push(Field::new("is_active").required(false).default(Json::Bool(true)));
        r
    }

    /// Validates the body of a user creation against these fields.
    pub fn validate_json(value: &Json) -> (r: Result<Vec<(String, Json)>, SerializerError>)
        ensures
            exists|fs: Seq<Field>, is: Seq<FieldInfo>| is_create_fields(fs) && is_user_infos(is)
                && match validate_spec(value@, fs, is) {
                    Ok(vals) => r matches Ok(out) && values_view(out@) == vals,
                    Err(e) => r matches Err(x) && x@ == e,
                },
    {
        let fields = UserCreateSerializer::fields();
        let infos = user_record_fields();
        validate_object(value, &fields, &infos)
    }
}

impl UserUpdateSerializer {
    /// `email` (at most 255 characters), `name` and `is_active`, all optional.
    pub fn fields() -> (r: Vec<Field>)
        ensures is_update_fields(r@),
    {
        let mut r = Vec::new();
        r.push(Field::new("email").required(false).max_length(255));
        r.push(Field::new("name").required(false));
        r.push(Field::new("is_active").required(false));
        r
    }

    /// Validates the body of a user update against these fields.
    pub fn validate_json(value: &Json) -> (r: Result<Vec<(String, Json)>, SerializerError>)
        ensures
            exists|fs: Seq<Field>, is: Seq<FieldInfo>| is_update_fields(fs) && is_user_infos(is)
                && match validate_spec(value@, fs, is) {
                    Ok(vals) => r matches Ok(out) && values_view(out@) == vals,
                    Err(e) => r matches Err(x) && x@ == e,
                },
    {
        let fields = UserUpdateSerializer::fields();
        let infos = user_record_fields();
        validate_object(value, &fields, &infos)
    }
}


/// The serializer of the users relation endpoint: `id` and `username`,
/// both read-only.
#[derive(Debug, Clone, Copy, Default)]
pub struct AdminUserSerializer;

impl AdminUserSerializer {
    pub fn fields() -> (r: Vec<Field>)
        ensures
            r@.len() == 2,
            r@[0].name@ == "id"@ && r@[0].source@ == "id"@,
            r@[1].name@ == "username"@ && r@[1].source@ == "username"@,
            forall|i: int| 0 <= i < 2 ==> (#[trigger] r@[i]).read_only && !r@[i].required && !r@[i].write_only,
    {
        let mut r = Vec::new();
        r.push(Field::new("id").read_only());
        r.push(Field::new("username").read_only());
        r
    }
}

/// The filters of the users relation endpoint: `username__contains`.
#[derive(Debug, Clone, Copy, Default)]
pub struct AdminUserFilterSet;

impl AdminUserFilterSet {
    pub fn filters() -> (r: FilterSet)
        ensures
            r.filters_view().len() == 1,
            r.filters_view()[0].name@ == "username"@,
            r.filters_view()[0].field@ == "username"@,
            r.filters_view()[0].lookup == Lookup::Contains,
    {
        let mut v = Vec::new();
        v.push(Filter::contains("username"));
        FilterSet::new(v)
    }
}

/// The read-only users relation endpoint, for administrators.
#[derive(Debug, Clone, Copy, Default)]
pub struct AdminUserViewSet;

impl AdminUserViewSet {
    /// `/auth/users`.
    pub fn path(&self) -> (r: &'static str)
        ensures r@ == "/auth/users"@,
    {
        "/auth/users"
    }
}

} // verus!
