use vstd::prelude::*;

use crate::project::{pascal_case, snake_case, to_pascal_case, to_snake_case};
use crate::registry::{join, lemma_join_step};
use crate::text::{char_to_upper, owned, push_char, push_str, upper_of};

verus! {

/// The line `startapp` adds app modules after.
pub const APP_MODULES_MARKER: &'static str = "// che-rest:startapp modules";

/// The line `startapp` adds installed apps before.
pub const APP_INSTALL_MARKER: &'static str = "// che-rest:startapp installed apps";

pub const CARGO_HEAD: &'static str = "[package]\nname = \"";
pub const CARGO_VERSION: &'static str = "\"\nversion = \"0.1.0\"\nedition = \"2024\"\ndefault-run = \"";
pub const CARGO_ORM: &'static str = "\"\n\n[dependencies]\naxum = \"0.8\"\nche-orm2 = { path = \"";
pub const CARGO_REST: &'static str = "\" }\nche-rest = { path = \"";
pub const CARGO_TAIL: &'static str = "\" }\nserde = { version = \"1\", features = [\"derive\"] }\ntime = \"0.3\"\ntokio = { version = \"1\", features = [\"macros\", \"net\", \"rt-multi-thread\", \"sync\"] }\n";

/// `Cargo.toml` of a new project.
pub open spec fn cargo_toml_text(name: Seq<char>, che_rest_path: Seq<char>, che_orm2_path: Seq<char>) -> Seq<char> {
    CARGO_HEAD@ + name + CARGO_VERSION@ + name + CARGO_ORM@ + che_orm2_path + CARGO_REST@ + che_rest_path + CARGO_TAIL@
}

/// `Cargo.toml` of a new project named `name`, with the paths of its two
/// framework dependencies.
pub fn cargo_toml_template(name: &str, che_rest_path: &str, che_orm2_path: &str) -> (r: String)
    ensures r@ == cargo_toml_text(name@, che_rest_path@, che_orm2_path@),
{
    let mut r = owned(CARGO_HEAD);
    push_str(&mut r, name);
    push_str(&mut r, CARGO_VERSION);
    push_str(&mut r, name);
    push_str(&mut r, CARGO_ORM);
    push_str(&mut r, che_orm2_path);
    push_str(&mut r, CARGO_REST);
    push_str(&mut r, che_rest_path);
    push_str(&mut r, CARGO_TAIL);
    r
}

pub const APP_TOML: &'static str = "[database]\nurl = \"sqlite://db.sqlite?mode=rwc\"\nmax_connections = 64\n\n[server]\nhost = \"127.0.0.1\"\nport = 3000\napi_prefix = \"/api\"\n";

/// `app.toml` of a new project.
pub fn app_toml_template() -> (r: &'static str)
    ensures r@ == APP_TOML@,
{
    APP_TOML
}

pub const AGENTS_HEAD: &'static str = "# Project Guide\n\nThis is a `che-rest` application. Follow the workflow below instead of creating database tables in\napplication startup.\n\n## Canonical Workflow\n\n```bash\ncargo run --bin manage -- schema\ncargo run --bin manage -- makemigrations initial\ncargo run --bin manage -- migrate\ncargo run\n```\n\n`makemigrations` compares all schemas from installed modules with the Atlas migration directory and\nrequires Atlas. `migrate` applies checked-in SQL migrations through the built-in runner and does not\nrequire Atlas. It is the only command that creates or changes database tables; `Server::build()` does\nnot alter the schema.\n\n## App Structure\n\n- `src/apps/mod.rs`: installed app registry used by both the server and management commands.\n- `src/apps/<app>/models.rs`: `che-orm2` models and database fields.\n- `src/apps/<app>/serializers.rs`: generated ORM2 input/output DTOs.\n- `src/apps/<app>/filters.rs`: list query filters.\n- `src/apps/<app>/views.rs`: typed CRUD viewsets and permissions.\n- `src/bin/manage.rs`: management command entrypoint.\n\nRegister CRUD with `ctx.viewset_with(\"/users\", views::UserViewSet)`. This registers the model\nschema, API metadata, and router together. Do not use only `ctx.route(...)` for a model API.\n\n## Conventions\n\n- Assign server-owned fields in `ViewSet::prepare_create()` or a custom serializer validation flow.\n- Mark server-owned serializer fields read-only so clients cannot supply them.\n- Use `IsAuthenticated` for resources that require the current user.\n- Application events use `AppState::app_channels()` and `AppModule::subscribe()`.\n- `AppState::app_channels()` is for internal application events and is never a public WebSocket channel.\n- Public WebSocket signals use `AppState::signals()` and must be declared with `ModuleContext::signal(...)`; CRUD viewsets declare authenticated lifecycle signals automatically and publish `{ \"id\": ... }` payloads.\n- Generated admin uses session cookies and the readable `csrf_token` cookie.\n";
pub const AGENTS_AUTH: &'static str = "- `che_rest::auth::module()` is installed; session login is available at `/api-session-auth/login/`.\n";
pub const AGENTS_NO_AUTH: &'static str = "- Authentication is not installed; add `che_rest::auth::module()` before using protected routes.\n";
pub const AGENTS_TAIL: &'static str = "\n## Verification\n\nAfter changing a model, run:\n\n```bash\ncargo run --bin manage -- makemigrations\ncargo run --bin manage -- migrate\ncargo check\n```\n\nWhen adding or changing an endpoint, also run `cargo run --bin manage -- generate-ts` and inspect the\ngenerated OpenAPI at `/api/openapi.json` while the server is running.\n\nOpenAPI metadata is available from the running server at `/api/openapi.json` by default.\n";

/// `AGENTS.md` of a new project.
pub open spec fn agents_md_text(with_auth: bool) -> Seq<char> {
    AGENTS_HEAD@ + (if with_auth { AGENTS_AUTH@ } else { AGENTS_NO_AUTH@ }) + AGENTS_TAIL@
}

/// The guide written into a new project, noting whether authentication is
/// installed.
pub fn agents_md_template(with_auth: bool) -> (r: String)
    ensures r@ == agents_md_text(with_auth),
{
    let mut r = owned(AGENTS_HEAD);
    if with_auth {
        push_str(&mut r, AGENTS_AUTH);
    } else {
        push_str(&mut r, AGENTS_NO_AUTH);
    }
    push_str(&mut r, AGENTS_TAIL);
    r
}

pub const LIB_RS: &'static str = "pub mod apps;\n";

/// `src/lib.rs` of a new project.
pub fn lib_rs_template() -> (r: &'static str)
    ensures r@ == LIB_RS@,
{
    LIB_RS
}

pub const MAIN_HEAD: &'static str = "use che_rest::{AppState, Server};\n\n#[tokio::main]\nasync fn main() -> Result<(), Box<dyn std::error::Error>> {\n    let state = AppState::from_config_file(\"app.toml\").await?;\n    let server_config = state.config.server.clone();\n    let app = Server::new(state)\n        .install(";
pub const MAIN_TAIL: &'static str = "::apps::installed_apps())\n        .api_prefix(&server_config.api_prefix)\n        .build()\n        .await?;\n\n    let address = format!(\"{}:{}\", server_config.host, server_config.port);\n    let listener = tokio::net::TcpListener::bind(&address).await?;\n    axum::serve(listener, app).await?;\n\n    Ok(())\n}\n";

/// `src/main.rs` of a new project whose crate is `crate_name`.
pub fn main_rs_template(crate_name: &str) -> (r: String)
    ensures r@ == MAIN_HEAD@ + crate_name@ + MAIN_TAIL@,
{
    let mut r = owned(MAIN_HEAD);
    push_str(&mut r, crate_name);
    push_str(&mut r, MAIN_TAIL);
    r
}

pub const MANAGE_HEAD: &'static str = "use che_rest::Management;\n\n#[tokio::main]\nasync fn main() -> Result<(), Box<dyn std::error::Error>> {\n    Management::new(";
pub const MANAGE_TAIL: &'static str = "::apps::installed_apps())\n        .project_root(env!(\"CARGO_MANIFEST_DIR\"))\n        .run()\n        .await\n}\n";

/// `src/bin/manage.rs` of a new project whose crate is `crate_name`.
pub fn manage_rs_template(crate_name: &str) -> (r: String)
    ensures r@ == MANAGE_HEAD@ + crate_name@ + MANAGE_TAIL@,
{
    let mut r = owned(MANAGE_HEAD);
    push_str(&mut r, crate_name);
    push_str(&mut r, MANAGE_TAIL);
    r
}

pub const APPS_MOD_USE: &'static str = "\n\nuse che_rest::InstalledApps;\n\npub fn installed_apps() -> InstalledApps {\n    InstalledApps::new()";
pub const APPS_MOD_AUTH: &'static str = "\n        .add(che_rest::auth::module())";
pub const APPS_MOD_INDENT: &'static str = "\n        ";
pub const APPS_MOD_TAIL: &'static str = "\n}\n";

/// `src/apps/mod.rs` of a new project.
pub open spec fn apps_mod_text(with_auth: bool) -> Seq<char> {
    APP_MODULES_MARKER@ + APPS_MOD_USE@ + (if with_auth { APPS_MOD_AUTH@ } else { Seq::empty() })
        + APPS_MOD_INDENT@ + APP_INSTALL_MARKER@ + APPS_MOD_TAIL@
}

/// The app registry of a new project, with the markers `startapp` extends
/// and, if asked, the authentication module installed.
pub fn apps_mod_template(with_auth: bool) -> (r: String)
    ensures r@ == apps_mod_text(with_auth),
{
    let mut r = owned(APP_MODULES_MARKER);
    push_str(&mut r, APPS_MOD_USE);
    let ghost before = r@;
    if with_auth {
        push_str(&mut r, APPS_MOD_AUTH);
    } else {
        proof { assert(r@ == before + Seq::<char>::empty()); }
    }
    push_str(&mut r, APPS_MOD_INDENT);
    push_str(&mut r, APP_INSTALL_MARKER);
    push_str(&mut r, APPS_MOD_TAIL);
    r
}

/// The views of `models`.
pub open spec fn names_of(models: Seq<String>) -> Seq<Seq<char>> {
    Seq::new(models.len(), |i: int| models[i]@)
}

/// `parts` joined by `sep`, as a string.
pub(crate) fn join_strings(parts: &Vec<String>, sep: &str) -> (r: String)
    ensures r@ == join(names_of(parts@), sep@),
{
    let ghost ps = names_of(parts@);
    let mut r = String::new();
    let mut i: usize = 0;
    while i < parts.len()
        invariant
            i <= parts@.len(),
            ps == names_of(parts@),
            r@ == join(ps.take(i as int), sep@),
        decreases parts.len() - i,
    {
        proof {
            lemma_join_step(ps, sep@, i as int);
            assert(ps.take(0) == Seq::<Seq<char>>::empty());
        }
        if i > 0 {
            push_str(&mut r, sep);
        }
        push_str(&mut r, parts[i].as_str());
        i += 1;
    }
    proof {
        assert(ps.take(ps.len() as int) == ps);
        assert(ps.take(0) == Seq::<Seq<char>>::empty());
    }
    r
}

pub const MODEL_HEAD: &'static str = "#[derive(Debug, che_orm2::Model)]\n#[orm(table = \"";
pub const MODEL_STRUCT: &'static str = "\")]\npub struct ";
pub const MODEL_TAIL: &'static str = " {\n    #[orm(primary_key)]\n    pub id: i64,\n    pub name: String,\n    #[orm(auto_now_add)]\n    pub created_at: OffsetDateTime,\n    #[orm(auto_now)]\n    pub updated_at: OffsetDateTime,\n}\n";

/// The model declaration of `model` in app `app_name`, stored in table
/// `{app}_{snake model}`.
pub open spec fn model_block(app_name: Seq<char>, model: Seq<char>) -> Seq<char> {
    MODEL_HEAD@ + app_name + "_"@ + snake_case(model) + MODEL_STRUCT@ + model + MODEL_TAIL@
}

/// A sequence of texts made by `f` from the names of `models`.
pub open spec fn blocks_of(models: Seq<String>, f: spec_fn(Seq<char>) -> Seq<char>) -> Seq<Seq<char>> {
    Seq::new(models.len(), |i: int| f(models[i]@))
}

/// The model declarations of an app, one per model, separated by blank lines.
pub fn model_blocks(app_name: &str, models: &Vec<String>) -> (r: String)
    ensures r@ == join(blocks_of(models@, |m: Seq<char>| model_block(app_name@, m)), "\n"@),
{
    let ghost bs = blocks_of(models@, |m: Seq<char>| model_block(app_name@, m));
    let mut r = String::new();
    let mut i: usize = 0;
    while i < models.len()
        invariant
            i <= models@.len(),
            bs == blocks_of(models@, |m: Seq<char>| model_block(app_name@, m)),
            r@ == join(bs.take(i as int), "\n"@),
        decreases models.len() - i,
    {
        proof {
            lemma_join_step(bs, "\n"@, i as int);
            assert(bs.take(0) == Seq::<Seq<char>>::empty());
        }
        if i > 0 {
            push_str(&mut r, "\n");
        }
        push_str(&mut r, MODEL_HEAD);
        push_str(&mut r, app_name);
        push_str(&mut r, "_");
        let s = to_snake_case(models[i].as_str());
        push_str(&mut r, s.as_str());
        push_str(&mut r, MODEL_STRUCT);
        push_str(&mut r, models[i].as_str());
        push_str(&mut r, MODEL_TAIL);
        i += 1;
    }
    proof {
        assert(bs.take(bs.len() as int) == bs);
        assert(bs.take(0) == Seq::<Seq<char>>::empty());
    }
    r
}

/// `models.rs` of an app.
pub fn models_rs_template(app_name: &str, models: &Vec<String>) -> (r: String)
    ensures r@ == "use time::OffsetDateTime;\n\n"@ + join(blocks_of(models@, |m: Seq<char>| model_block(app_name@, m)), "\n"@),
{
    let mut r = owned("use time::OffsetDateTime;\n\n");
    let b = model_blocks(app_name, models);
    push_str(&mut r, b.as_str());
    r
}

pub const SERIALIZER_HEAD: &'static str = "#[derive(che_orm2::ModelSerializer)]\n#[serializer(model = ";
pub const SERIALIZER_STRUCT: &'static str = ")]\npub struct ";
pub const SERIALIZER_TAIL: &'static str = "Serializer {\n    #[serializer(read_only)]\n    pub id: i64,\n    pub name: String,\n    #[serializer(read_only)]\n    pub created_at: time::OffsetDateTime,\n    #[serializer(read_only)]\n    pub updated_at: time::OffsetDateTime,\n}\n";

/// The serializer declaration of `model`.
pub open spec fn serializer_block(model: Seq<char>) -> Seq<char> {
    SERIALIZER_HEAD@ + model + SERIALIZER_STRUCT@ + model + SERIALIZER_TAIL@
}

/// `serializers.rs` of an app.
pub fn serializers_rs_template(models: &Vec<String>) -> (r: String)
    ensures
        r@ == "use super::models::{"@ + join(names_of(models@), ", "@) + "};\n\n"@
            + join(blocks_of(models@, |m: Seq<char>| serializer_block(m)), "\n"@),
{
    let ghost bs = blocks_of(models@, |m: Seq<char>| serializer_block(m));
    let mut r = owned("use super::models::{");
    let imports = join_strings(models, ", ");
    push_str(&mut r, imports.as_str());
    push_str(&mut r, "};\n\n");
    let ghost head = r@;
    let mut i: usize = 0;
    while i < models.len()
        invariant
            i <= models@.len(),
            bs == blocks_of(models@, |m: Seq<char>| serializer_block(m)),
            r@ == head + join(bs.take(i as int), "\n"@),
        decreases models.len() - i,
    {
        proof {
            lemma_join_step(bs, "\n"@, i as int);
            assert(bs.take(0) == Seq::<Seq<char>>::empty());
        }
        if i > 0 {
            push_str(&mut r, "\n");
        }
        push_str(&mut r, SERIALIZER_HEAD);
        push_str(&mut r, models[i].as_str());
        push_str(&mut r, SERIALIZER_STRUCT);
        push_str(&mut r, models[i].as_str());
        push_str(&mut r, SERIALIZER_TAIL);
        i += 1;
    }
    proof {
        assert(bs.take(bs.len() as int) == bs);
        assert(bs.take(0) == Seq::<Seq<char>>::empty());
    }
    r
}

/// `s` with ascii letters in upper case.
pub open spec fn upper_text(s: Seq<char>) -> Seq<char> {
    Seq::new(s.len(), |i: int| upper_of(s[i]))
}

fn to_upper_text(s: &String) -> (r: String)
    ensures r@ == upper_text(s@),
{
    let c = crate::text::chars_of(s.as_str());
    let mut r = String::new();
    let mut i: usize = 0;
    while i < c.len()
        invariant
            i <= c@.len(),
            c@ == s@,
            r@ == upper_text(s@).take(i as int),
        decreases c.len() - i,
    {
        push_char(&mut r, char_to_upper(c[i]));
        proof { assert(upper_text(s@).take(i + 1) == upper_text(s@).take(i as int).push(upper_of(c@[i as int]))); }
        i += 1;
    }
    proof { assert(upper_text(s@).take(c@.len() as int) == upper_text(s@)); }
    r
}

pub const FILTER_HEAD: &'static str = "#[derive(Clone, Copy, Default)]\npub struct ";
pub const FILTER_STATIC: &'static str = "FilterSet;\n\nstatic ";
pub const FILTER_LIST: &'static str = "_FILTERS: &[Filter<";
pub const FILTER_ID: &'static str = ">] = &[\n    Filter::exact(";
pub const FILTER_NAME: &'static str = "::ID),\n    Filter::contains(";
pub const FILTER_CREATED: &'static str = "::NAME),\n    Filter::exact(";
pub const FILTER_UPDATED: &'static str = "::CREATED_AT),\n    Filter::exact(";
pub const FILTER_IMPL: &'static str = "::UPDATED_AT),\n];\n\nimpl FilterSetSpec for ";
pub const FILTER_TYPE: &'static str = "FilterSet {\n    type Model = ";
pub const FILTER_FN: &'static str = ";\n\n    fn filters(&self) -> &'static [Filter<";
pub const FILTER_BODY: &'static str = ">] {\n        ";
pub const FILTER_TAIL: &'static str = "_FILTERS\n    }\n}\n";

/// The filter set declaration of `model`.
pub open spec fn filter_block(model: Seq<char>) -> Seq<char> {
    let upper = upper_text(snake_case(model));
    FILTER_HEAD@ + model + FILTER_STATIC@ + upper + FILTER_LIST@ + model + FILTER_ID@ + model + FILTER_NAME@ + model
        + FILTER_CREATED@ + model + FILTER_UPDATED@ + model + FILTER_IMPL@ + model + FILTER_TYPE@ + model
        + FILTER_FN@ + model + FILTER_BODY@ + upper + FILTER_TAIL@
}

fn push_filter_block(r: &mut String, model: &String)
    ensures final(r)@ == old(r)@ + filter_block(model@),
{
    let snake = to_snake_case(model.as_str());
    let upper = to_upper_text(&snake);
    let m = model.as_str();
    push_str(r, FILTER_HEAD);
    push_str(r, m);
    push_str(r, FILTER_STATIC);
    push_str(r, upper.as_str());
    push_str(r, FILTER_LIST);
    push_str(r, m);
    push_str(r, FILTER_ID);
    push_str(r, m);
    push_str(r, FILTER_NAME);
    push_str(r, m);
    push_str(r, FILTER_CREATED);
    push_str(r, m);
    push_str(r, FILTER_UPDATED);
    push_str(r, m);
    push_str(r, FILTER_IMPL);
    push_str(r, m);
    push_str(r, FILTER_TYPE);
    push_str(r, m);
    push_str(r, FILTER_FN);
    push_str(r, m);
    push_str(r, FILTER_BODY);
    push_str(r, upper.as_str());
    push_str(r, FILTER_TAIL);
}

/// `filters.rs` of an app.
pub fn filters_rs_template(models: &Vec<String>) -> (r: String)
    ensures
        r@ == "use che_rest::{Filter, FilterSetSpec};\n\nuse super::models::{"@ + join(names_of(models@), ", "@) + "};\n\n"@
            + join(blocks_of(models@, |m: Seq<char>| filter_block(m)), "\n"@),
{
    let ghost bs = blocks_of(models@, |m: Seq<char>| filter_block(m));
    let mut r = owned("use che_rest::{Filter, FilterSetSpec};\n\nuse super::models::{");
    let imports = join_strings(models, ", ");
    push_str(&mut r, imports.as_str());
    push_str(&mut r, "};\n\n");
    let ghost head = r@;
    let mut i: usize = 0;
    while i < models.len()
        invariant
            i <= models@.len(),
            bs == blocks_of(models@, |m: Seq<char>| filter_block(m)),
            r@ == head + join(bs.take(i as int), "\n"@),
        decreases models.len() - i,
    {
        proof {
            lemma_join_step(bs, "\n"@, i as int);
            assert(bs.take(0) == Seq::<Seq<char>>::empty());
        }
        if i > 0 {
            push_str(&mut r, "\n");
        }
        push_filter_block(&mut r, &models[i]);
        i += 1;
    }
    proof {
        assert(bs.take(bs.len() as int) == bs);
        assert(bs.take(0) == Seq::<Seq<char>>::empty());
    }
    r
}

pub const VIEW_HEAD: &'static str = "#[derive(Clone, Copy, Default)]\npub struct ";
pub const VIEW_IMPL: &'static str = "ViewSet;\n\nimpl ViewSet for ";
pub const VIEW_MODEL: &'static str = "ViewSet {\n    type Model = ";
pub const VIEW_SERIALIZER: &'static str = ";\n    type Serializer = ";
pub const VIEW_QUERYSET: &'static str = "Serializer;\n    type QuerySet = che_orm2::DatabaseQuery<";
pub const VIEW_FILTERSET: &'static str = ">;\n    type FilterSet = ";
pub const VIEW_PERMISSION: &'static str = "FilterSet;\n    type Permission = AllowAny;\n\n    fn get_queryset(&self) -> Self::QuerySet {\n        che_orm2::DatabaseQuery::new(";
pub const VIEW_PATH: &'static str = "::query())\n    }\n\n    fn path(&self) -> &'static str {\n        \"/";
pub const VIEW_TAIL: &'static str = "\"\n    }\n}\n";

/// The viewset declaration of `model`, served at `/{snake model}`.
pub open spec fn view_block(model: Seq<char>) -> Seq<char> {
    VIEW_HEAD@ + model + VIEW_IMPL@ + model + VIEW_MODEL@ + model + VIEW_SERIALIZER@ + model + VIEW_QUERYSET@ + model
        + VIEW_FILTERSET@ + model + VIEW_PERMISSION@ + model + VIEW_PATH@ + snake_case(model) + VIEW_TAIL@
}

fn push_view_block(r: &mut String, model: &String)
    ensures final(r)@ == old(r)@ + view_block(model@),
{
    let m = model.as_str();
    let path = to_snake_case(m);
    push_str(r, VIEW_HEAD);
    push_str(r, m);
    push_str(r, VIEW_IMPL);
    push_str(r, m);
    push_str(r, VIEW_MODEL);
    push_str(r, m);
    push_str(r, VIEW_SERIALIZER);
    push_str(r, m);
    push_str(r, VIEW_QUERYSET);
    push_str(r, m);
    push_str(r, VIEW_FILTERSET);
    push_str(r, m);
    push_str(r, VIEW_PERMISSION);
    push_str(r, m);
    push_str(r, VIEW_PATH);
    push_str(r, path.as_str());
    push_str(r, VIEW_TAIL);
}

/// Each model name followed by `suffix`.
pub open spec fn suffixed(models: Seq<String>, suffix: Seq<char>) -> Seq<Seq<char>> {
    Seq::new(models.len(), |i: int| models[i]@ + suffix)
}

fn join_suffixed(models: &Vec<String>, suffix: &str, sep: &str) -> (r: String)
    ensures r@ == join(suffixed(models@, suffix@), sep@),
{
    let ghost ps = suffixed(models@, suffix@);
    let mut r = String::new();
    let mut i: usize = 0;
    while i < models.len()
        invariant
            i <= models@.len(),
            ps == suffixed(models@, suffix@),
            r@ == join(ps.take(i as int), sep@),
        decreases models.len() - i,
    {
        proof {
            lemma_join_step(ps, sep@, i as int);
            assert(ps.take(0) == Seq::<Seq<char>>::empty());
        }
        if i > 0 {
            push_str(&mut r, sep);
        }
        push_str(&mut r, models[i].as_str());
        push_str(&mut r, suffix);
        i += 1;
    }
    proof {
        assert(ps.take(ps.len() as int) == ps);
        assert(ps.take(0) == Seq::<Seq<char>>::empty());
    }
    r
}

/// `views.rs` of an app.
pub fn views_rs_template(models: &Vec<String>) -> (r: String)
    ensures
        r@ == "use che_rest::{AllowAny, Model, ViewSet};\n\nuse super::{\n    filters::{"@
            + join(suffixed(models@, "FilterSet"@), ", "@) + "},\n    models::{"@ + join(names_of(models@), ", "@)
            + "},\n    serializers::{"@ + join(suffixed(models@, "Serializer"@), ", "@) + "},\n};\n\n"@
            + join(blocks_of(models@, |m: Seq<char>| view_block(m)), "\n"@),
{
    let ghost bs = blocks_of(models@, |m: Seq<char>| view_block(m));
    let mut r = owned("use che_rest::{AllowAny, Model, ViewSet};\n\nuse super::{\n    filters::{");
    let f = join_suffixed(models, "FilterSet", ", ");
    push_str(&mut r, f.as_str());
    push_str(&mut r, "},\n    models::{");
    let m = join_strings(models, ", ");
    push_str(&mut r, m.as_str());
    push_str(&mut r, "},\n    serializers::{");
    let s = join_suffixed(models, "Serializer", ", ");
    push_str(&mut r, s.as_str());
    push_str(&mut r, "},\n};\n\n");
    let ghost head = r@;
    let mut i: usize = 0;
    while i < models.len()
        invariant
            i <= models@.len(),
            bs == blocks_of(models@, |m: Seq<char>| view_block(m)),
            r@ == head + join(bs.take(i as int), "\n"@),
        decreases models.len() - i,
    {
        proof {
            lemma_join_step(bs, "\n"@, i as int);
            assert(bs.take(0) == Seq::<Seq<char>>::empty());
        }
        if i > 0 {
            push_str(&mut r, "\n");
        }
        push_view_block(&mut r, &models[i]);
        i += 1;
    }
    proof {
        assert(bs.take(bs.len() as int) == bs);
        assert(bs.take(0) == Seq::<Seq<char>>::empty());
    }
    r
}

pub const APP_MOD_HEAD: &'static str = "pub mod filters;\npub mod models;\npub mod serializers;\npub mod views;\n\nuse che_rest::{AppModule, ModuleContext};\n\npub fn module() -> ";
pub const APP_MOD_NEW: &'static str = " {\n    ";
pub const APP_MOD_STRUCT: &'static str = "\n}\n\npub struct ";
pub const APP_MOD_IMPL: &'static str = ";\n\nimpl AppModule for ";
pub const APP_MOD_NAME: &'static str = " {\n    fn name(&self) -> &'static str {\n        \"";
pub const APP_MOD_SCHEMA: &'static str = "\"\n    }\n\n    fn schema(&self) -> che_orm2::SchemaSet {\n        che_orm2::SchemaSet::new()";
pub const APP_MOD_INIT: &'static str = "\n    }\n\n    fn init(&self, context: &mut ModuleContext) {\n";
pub const APP_MOD_TAIL: &'static str = "\n    }\n}\n";

/// The schema call registering `model`.
pub open spec fn schema_call(model: Seq<char>) -> Seq<char> {
    ".model::<models::"@ + model + ">()"@
}

/// The line registering the viewset of `model`.
pub open spec fn viewset_line(model: Seq<char>) -> Seq<char> {
    "        context.viewset_with(\"/"@ + snake_case(model) + "\", views::"@ + model + "ViewSet);"@
}

/// `mod.rs` of app `app_name`: its module type, schema and viewsets.
pub open spec fn app_mod_text(app_name: Seq<char>, models: Seq<String>) -> Seq<char> {
    let module_type = pascal_case(app_name) + "Module"@;
    APP_MOD_HEAD@ + module_type + APP_MOD_NEW@ + module_type + APP_MOD_STRUCT@ + module_type + APP_MOD_IMPL@
        + module_type + APP_MOD_NAME@ + app_name + APP_MOD_SCHEMA@
        + join(blocks_of(models, |m: Seq<char>| schema_call(m)), Seq::empty()) + APP_MOD_INIT@
        + join(blocks_of(models, |m: Seq<char>| viewset_line(m)), "\n"@) + APP_MOD_TAIL@
}

/// `mod.rs` of an app.
pub fn app_mod_template(app_name: &str, models: &Vec<String>) -> (r: String)
    ensures r@ == app_mod_text(app_name@, models@),
{
    let mut module_type = to_pascal_case(app_name);
    push_str(&mut module_type, "Module");
    let t = module_type.as_str();
    let mut r = owned(APP_MOD_HEAD);
    push_str(&mut r, t);
    push_str(&mut r, APP_MOD_NEW);
    push_str(&mut r, t);
    push_str(&mut r, APP_MOD_STRUCT);
    push_str(&mut r, t);
    push_str(&mut r, APP_MOD_IMPL);
    push_str(&mut r, t);
    push_str(&mut r, APP_MOD_NAME);
    push_str(&mut r, app_name);
    push_str(&mut r, APP_MOD_SCHEMA);
    let ghost calls = blocks_of(models@, |m: Seq<char>| schema_call(m));
    let ghost head = r@;
    let mut i: usize = 0;
    while i < models.len()
        invariant
            i <= models@.len(),
            calls == blocks_of(models@, |m: Seq<char>| schema_call(m)),
            r@ == head + join(calls.take(i as int), Seq::empty()),
        decreases models.len() - i,
    {
        proof {
            lemma_join_step(calls, Seq::empty(), i as int);
            assert(calls.take(0) == Seq::<Seq<char>>::empty());
            assert(join(calls.take(i as int), Seq::empty()) + Seq::<char>::empty() == join(calls.take(i as int), Seq::empty()));
        }
        push_str(&mut r, ".model::<models::");
        push_str(&mut r, models[i].as_str());
        push_str(&mut r, ">()");
        i += 1;
    }
    proof {
        assert(calls.take(calls.len() as int) == calls);
        assert(calls.take(0) == Seq::<Seq<char>>::empty());
    }
    push_str(&mut r, APP_MOD_INIT);
    let ghost lines = blocks_of(models@, |m: Seq<char>| viewset_line(m));
    let ghost head2 = r@;
    let mut i: usize = 0;
    while i < models.len()
        invariant
            i <= models@.len(),
            lines == blocks_of(models@, |m: Seq<char>| viewset_line(m)),
            r@ == head2 + join(lines.take(i as int), "\n"@),
        decreases models.len() - i,
    {
        proof {
            lemma_join_step(lines, "\n"@, i as int);
            assert(lines.take(0) == Seq::<Seq<char>>::empty());
        }
        if i > 0 {
            push_str(&mut r, "\n");
        }
        push_str(&mut r, "        context.viewset_with(\"/");
        let p = to_snake_case(models[i].as_str());
        push_str(&mut r, p.as_str());
        push_str(&mut r, "\", views::");
        push_str(&mut r, models[i].as_str());
        push_str(&mut r, "ViewSet);");
        i += 1;
    }
    proof {
        assert(lines.take(lines.len() as int) == lines);
        assert(lines.take(0) == Seq::<Seq<char>>::empty());
    }
    push_str(&mut r, APP_MOD_TAIL);
    r
}

} // verus!
