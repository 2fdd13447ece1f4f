use vstd::prelude::*;
use vstd::string::*;

use crate::error::AppError;
use crate::filters::{Filter, FilterSet, Lookup};
use crate::module::ModelViewSet;
use crate::openapi_doc::{ApiField, ApiFieldType};

verus! {

/// The authenticated framework user of a request.
#[derive(Debug, Clone)]
pub struct CurrentUser {
    pub id: i64,
    pub username: String,
    pub is_staff: bool,
    pub is_admin: bool,
    pub is_superuser: bool,
}

/// The principal of an authenticated request: the framework user.
#[derive(Debug, Clone)]
pub struct CurrentPrincipal {
    auth_user: CurrentUser,
}

impl CurrentPrincipal {
    /// A principal for a framework user.
    pub fn new(auth_user: CurrentUser) -> (p: CurrentPrincipal)
        ensures p.spec_auth_user() == auth_user,
    {
        CurrentPrincipal { auth_user }
    }

    pub closed spec fn spec_auth_user(&self) -> CurrentUser {
        self.auth_user
    }

    /// The built-in framework user of the request.
    pub fn auth_user(&self) -> (u: &CurrentUser)
        ensures *u == self.spec_auth_user(),
    {
        &self.auth_user
    }
}

/// A row of the users table.
#[derive(Debug, Clone)]
pub struct User {
    pub id: i64,
    pub username: String,
    pub password_hash: String,
    pub is_active: bool,
    pub is_staff: bool,
    pub is_admin: bool,
    pub is_superuser: bool,
}

/// A row of the API tokens table; only the token's hash is stored.
#[derive(Debug, Clone)]
pub struct AuthToken {
    pub id: i64,
    pub user_id: i64,
    pub key_hash: String,
}

/// The request user built from a users-table row.
pub fn current_user(user: &User) -> (c: CurrentUser)
    ensures
        c.id == user.id,
        c.username@ == user.username@,
        c.is_staff == user.is_staff,
        c.is_admin == user.is_admin,
        c.is_superuser == user.is_superuser,
{
    CurrentUser {
        id: user.id,
        username: user.username.clone(),
        is_staff: user.is_staff,
        is_admin: user.is_admin,
        is_superuser: user.is_superuser,
    }
}

/// What a view is asked to do.
#[derive(Debug, Clone, Copy, PartialEq, Eq, Structural)]
pub enum ViewAction {
    List,
    Retrieve,
    Create,
    Update,
    Patch,
    Delete,
}

/// The user may act as an administrator.
pub open spec fn is_admin_user(u: CurrentUser) -> bool {
    u.is_admin || u.is_superuser
}

/// Grants every request.
#[derive(Debug, Clone, Copy, Default)]
pub struct AllowAny;

impl AllowAny {
    pub fn check(&self, current: Option<&CurrentPrincipal>, action: ViewAction) -> (r: Result<(), AppError>)
        ensures r is Ok,
    {
        Ok(())
    }
}

/// Grants authenticated requests; others get 401.
#[derive(Debug, Clone, Copy, Default)]
pub struct IsAuthenticated;

impl IsAuthenticated {
    pub fn check(&self, current: Option<&CurrentPrincipal>, action: ViewAction) -> (r: Result<(), AppError>)
        ensures
            current is Some ==> r is Ok,
            current is None ==> (r matches Err(AppError::Unauthorized(m))
                && m@ == "authentication credentials were not provided"@),
    {
        match current {
            Some(_) => Ok(()),
            None => Err(AppError::Unauthorized(String::from_str("authentication credentials were not provided"))),
        }
    }
}

/// Grants requests of administrators and superusers; others get 403.
#[derive(Debug, Clone, Copy, Default)]
pub struct IsAdminUser;

impl IsAdminUser {
    pub fn check(&self, current: Option<&CurrentPrincipal>, action: ViewAction) -> (r: Result<(), AppError>)
        ensures
            (current matches Some(p) && is_admin_user(p.spec_auth_user())) ==> r is Ok,
            !(current matches Some(p) && is_admin_user(p.spec_auth_user())) ==>
                (r matches Err(AppError::Forbidden(m)) && m@ == "admin permissions are required"@),
    {
        let granted = match current {
            Some(p) => {
                let u = p.auth_user();
                u.is_admin || u.is_superuser
            },
            None => false,
        };
        if granted {
            Ok(())
        } else {
            Err(AppError::Forbidden(String::from_str("admin permissions are required")))
        }
    }
}

/// Grants administrators reading (list and retrieve) only.
#[derive(Debug, Clone, Copy, Default)]
pub struct ReadOnlyAdminUser;

impl ReadOnlyAdminUser {
    pub fn check(&self, current: Option<&CurrentPrincipal>, action: ViewAction) -> (r: Result<(), AppError>)
        ensures
            !(current matches Some(p) && is_admin_user(p.spec_auth_user())) ==>
                (r matches Err(AppError::Forbidden(m)) && m@ == "admin permissions are required"@),
            (current matches Some(p) && is_admin_user(p.spec_auth_user())) ==> (
                if action == ViewAction::List || action == ViewAction::Retrieve {
                    r is Ok
                } else {
                    r matches Err(AppError::Forbidden(m)) && m@ == "user relation endpoint is read-only"@
                }),
    {
        IsAdminUser.check(current, action)?;
        if action == ViewAction::List || action == ViewAction::Retrieve {
            Ok(())
        } else {
            Err(AppError::Forbidden(String::from_str("user relation endpoint is read-only")))
        }
    }
}


/// The authentication app: users, API tokens and cookie sessions.
#[derive(Debug, Clone, Copy)]
pub struct AuthModule;

fn read_only_field(name: &str, ty: ApiFieldType) -> (f: ApiField)
    ensures
        f.name@ == name@, f.ty == ty, f.read_only, !f.write_only, !f.nullable, !f.required, !f.has_default,
        f.related_model is None,
{
    ApiField {
        name: String::from_str(name),
        ty,
        nullable: false,
        read_only: true,
        write_only: false,
        required: false,
        has_default: false,
        related_model: None,
    }
}

/// The read-only admin listing of users at `/auth/users`: the id and
/// username of each user, filtered by `username__contains`.
pub fn admin_user_viewset() -> (v: ModelViewSet)
    ensures
        v.path@ == "/auth/users"@,
        v.model_name@ == "User"@,
        v.fields@.len() == 2,
        v.fields@[0].name@ == "id"@ && v.fields@[0].ty == ApiFieldType::Integer && v.fields@[0].read_only,
        v.fields@[1].name@ == "username"@ && v.fields@[1].ty == ApiFieldType::Text && v.fields@[1].read_only,
        v.columns@.len() == 7,
        v.columns@[0].0@ == "id"@ && v.columns@[0].1 == ApiFieldType::Integer,
        v.columns@[1].0@ == "username"@ && v.columns@[1].1 == ApiFieldType::Text,
        v.filter_set.filters_view().len() == 1,
        v.filter_set.filters_view()[0].name@ == "username"@,
        v.filter_set.filters_view()[0].source@ == "username"@,
        v.filter_set.filters_view()[0].lookup == Lookup::Contains,
{
    let mut fields: Vec<ApiField> = Vec::new();
    fields.push(read_only_field("id", ApiFieldType::Integer));
    fields.push(read_only_field("username", ApiFieldType::Text));
    let mut columns: Vec<(String, ApiFieldType)> = Vec::new();
    columns.push((String::from_str("id"), ApiFieldType::Integer));
    columns.push((String::from_str("username"), ApiFieldType::Text));
    columns.push((String::from_str("password_hash"), ApiFieldType::Text));
    columns.push((String::from_str("is_active"), ApiFieldType::Boolean));
    columns.push((String::from_str("is_staff"), ApiFieldType::Boolean));
    columns.push((String::from_str("is_admin"), ApiFieldType::Boolean));
    columns.push((String::from_str("is_superuser"), ApiFieldType::Boolean));
    let mut filters: Vec<Filter> = Vec::new();
    filters.push(Filter::contains("username"));
    proof {
        reveal_strlit("id");
        reveal_strlit("username");
    }
    ModelViewSet {
        path: String::from_str("/auth/users"),
        model_name: String::from_str("User"),
        fields,
        columns,
        filter_set: FilterSet::new(filters),
    }
}

/// The authentication app.
pub fn module() -> AuthModule {
    AuthModule
}

impl AuthModule {
    /// `auth`.
    pub fn name(&self) -> (r: &'static str)
        ensures r@ == "auth"@,
    {
        "auth"
    }

    /// The tables of its schema, one for each of its models in the order the
    /// schema lists them: users, API tokens and cookie sessions.
    pub fn tables(&self) -> (r: Vec<String>)
        ensures
            r@.len() == 3,
            r@[0]@ == "auth_users"@,
            r@[1]@ == "auth_tokens"@,
            r@[2]@ == "auth_sessions"@,
    {
        let mut r: Vec<String> = Vec::new();
        r.push(String::from_str("auth_users"));
        r.push(String::from_str("auth_tokens"));
        r.push(String::from_str("auth_sessions"));
        r
    }
}

} // verus!
