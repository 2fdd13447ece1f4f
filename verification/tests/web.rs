use che_rest::config::{sqlite_file_path, AppConfig, SessionConfig};
use che_rest::error::AppError;
use che_rest::filters::{Filter, FilterError, FilterSet, Lookup, ValueKind};
use che_rest::json::{Json, JsonNumber};
use che_rest::extensions::{ApiSchemaDefinition, ExtensionError, HttpMethod, OperationSpec, ViewSetConfig};
use che_rest::module::{lifecycle_signal_name, LifecycleEvent};
use che_rest::module::{
    api_filter, api_signals, documented_filters, resource_name, return_filter_name, swagger_html, ModelViewSet,
    ModuleContext,
};
use che_rest::openapi::{
    collection_path, detail_path, html_escape, js_string_escape, swagger_ui_html, OpenApiOptions,
};
use che_rest::openapi_doc::{
    field_schema, openapi_json, ApiEndpoint, ApiField, ApiFieldType, ApiQueryFilter,
};
use che_rest::signals::{SignalAccess, SignalBus};
use che_rest::views::{
    error_filter, page, pagination, query_param, routes, CrudViewSet, DEFAULT_PAGE_SIZE,
    MAX_PAGE_SIZE,
};

fn params(pairs: &[(&str, &str)]) -> Vec<(String, String)> {
    pairs.iter().map(|(k, v)| (k.to_string(), v.to_string())).collect()
}

fn entries(json: &Json) -> &Vec<(String, Json)> {
    match json {
        Json::Object(e) => e,
        other => panic!("expected an object, got {:?}", other),
    }
}

fn member<'a>(json: &'a Json, key: &str) -> &'a Json {
    entries(json)
        .iter()
        .find(|(k, _)| k == key)
        .map(|(_, v)| v)
        .unwrap_or_else(|| panic!("missing {key}"))
}

fn users_endpoint() -> ApiEndpoint {
    ApiEndpoint {
        model_name: "User".into(),
        resource: resource_name("/auth/users"),
        path: "/auth/users".into(),
        fields: vec![
            ApiField {
                name: "id".into(),
                ty: ApiFieldType::Integer,
                nullable: false,
                read_only: true,
                write_only: false,
                required: false,
                has_default: false,
                related_model: None,
            },
            ApiField {
                name: "username".into(),
                ty: ApiFieldType::Text,
                nullable: false,
                read_only: true,
                write_only: false,
                required: false,
                has_default: false,
                related_model: None,
            },
        ],
        filters: vec![ApiQueryFilter { name: "username__contains".into(), ty: ApiFieldType::Text, nullable: false }],
    }
}

fn users_viewset(path: &str) -> ModelViewSet {
    let endpoint = users_endpoint();
    ModelViewSet {
        path: path.into(),
        model_name: endpoint.model_name,
        fields: endpoint.fields,
        columns: vec![("id".into(), ApiFieldType::Integer), ("username".into(), ApiFieldType::Text)],
        filter_set: FilterSet::new(vec![Filter::contains("username")]),
    }
}

#[test]
fn viewset_path_drives_metadata_and_openapi() {
    let mut context = ModuleContext::new(SignalBus::new());
    context.viewset_with(users_viewset("/auth/users/"), vec![], Ok(()), ViewSetConfig::new("/auth/users"));
    assert_eq!(context.api_endpoints()[0].endpoint.resource, "auth/users");
    assert!(context.openapi_paths().iter().any(|(k, _)| k == "/auth/users/"));
    assert!(context.openapi_paths().iter().any(|(k, _)| k == "/auth/users/{id}/"));
    let names: Vec<&str> = context.openapi_components().iter().map(|(k, _)| k.as_str()).collect();
    assert_eq!(names, vec!["Error", "User", "UserCreate", "UserUpdate", "UserList"]);
}

#[test]
fn openapi_document_of_one_endpoint() {
    let options = OpenApiOptions { api_prefix: "".into(), ..OpenApiOptions::default() };
    let document = openapi_json(&vec![users_endpoint()], options);
    let paths = entries(member(&document, "paths"));
    assert_eq!(paths[0].0, "/auth/users/");
    assert_eq!(paths[1].0, "/auth/users/{id}/");
    assert!(matches!(member(&document, "openapi"), Json::Str(v) if v == "3.0.3"));
}

#[test]
fn lifecycle_signals_are_opt_in() {
    let mut context = ModuleContext::new(SignalBus::new());
    context.viewset_with(users_viewset("/auth/users"), vec![], Ok(()), ViewSetConfig::new("/auth/users"));
    assert!(api_signals(context.signals()).is_empty());
    let mut bus = SignalBus::new();
    bus.declare("tasks.created".into(), SignalAccess::Authenticated);
    let signals = api_signals(&bus);
    assert_eq!(signals.len(), 1);
    assert_eq!(signals[0].name, "tasks.created");
    assert_eq!(signals[0].access, SignalAccess::Authenticated);
}

#[test]
fn declared_lifecycle_signals_are_listed_in_the_document() {
    let mut context = ModuleContext::new(SignalBus::new());
    context.set_current_app("tasks".into());
    context.viewset_with(
        users_viewset("/auth/users"),
        vec![("tasks.created".into(), SignalAccess::Authenticated), ("tasks.deleted".into(), SignalAccess::Admin)],
        Ok(()),
        ViewSetConfig::new("/auth/users"),
    );
    assert_eq!(context.api_endpoints()[0].app_name, "tasks");
    let document = context.build_openapi("/api", &vec![]).unwrap();
    match member(&document, "x-che-rest-signals") {
        Json::Array(items) => {
            assert_eq!(items.len(), 2);
            assert!(matches!(member(&items[0], "name"), Json::Str(v) if v == "tasks.created"));
            assert!(matches!(member(&items[1], "access"), Json::Str(v) if v == "Admin"));
        }
        other => panic!("expected signals, got {:?}", other),
    }
    match member(&document, "servers") {
        Json::Array(items) => assert!(matches!(member(&items[0], "url"), Json::Str(v) if v == "/api")),
        other => panic!("expected servers, got {:?}", other),
    }
}

#[test]
fn registration_errors_refuse_the_api() {
    let mut context = ModuleContext::new(SignalBus::new());
    let mut config = ViewSetConfig::new("/auth/users");
    let mut extension = config.begin_extension("clash").unwrap();
    let user_schema = ApiSchemaDefinition {
        name: "User".into(),
        openapi: Json::Object(vec![("type".into(), Json::Str("string".into()))]),
        typescript: "export type User = string;".into(),
    };
    config
        .register(
            &mut extension,
            "/auth/users/{id}/ping/".into(),
            HttpMethod::Get,
            OperationSpec::new("ping".into()).response(200, user_schema),
        )
        .unwrap();
    config.finish_extension(extension);
    let failed = Err(ExtensionError::DuplicateExtension { id: "audit".into(), path: "/auth/users".into() });
    context.viewset_with(users_viewset("/auth/users"), vec![], failed, config);
    assert_eq!(
        context.registration_errors(),
        &vec![
            "extension `audit` is already installed for /auth/users".to_string(),
            "conflicting OpenAPI schema `User`".to_string(),
        ]
    );
    let item = &context.openapi_paths().iter().find(|(k, _)| k == "/auth/users/{id}/ping/").unwrap().1;
    assert!(matches!(member(item, "get"), Json::Object(_)));
    assert_eq!(
        context.build_openapi("/api", &vec![]).err(),
        Some(AppError::BadRequest(
            "extension `audit` is already installed for /auth/users; conflicting OpenAPI schema `User`".into()
        ))
    );
}

#[test]
fn module_metadata_joins_the_document() {
    let context = ModuleContext::new(SignalBus::new());
    let metadata = Json::Object(vec![
        (
            "paths".into(),
            Json::Object(vec![("/api-token-auth/".into(), Json::Object(vec![]))]),
        ),
        (
            "components".into(),
            Json::Object(vec![
                ("schemas".into(), Json::Object(vec![("LoginRequest".into(), Json::Null)])),
                ("responses".into(), Json::Object(vec![])),
            ]),
        ),
    ]);
    let document = context.build_openapi("/api", &vec![metadata]).unwrap();
    assert_eq!(entries(member(&document, "paths"))[0].0, "/api-token-auth/");
    let components = member(&document, "components");
    assert_eq!(entries(member(components, "schemas"))[0].0, "LoginRequest");
    assert!(matches!(member(components, "responses"), Json::Object(_)));
}

#[test]
fn routes_under_the_api_prefix() {
    assert_eq!(collection_path("/api", "tasks"), "/api/tasks/");
    assert_eq!(collection_path("/api/", "/tasks/"), "/api/tasks/");
    assert_eq!(collection_path("", "/auth/users"), "/auth/users/");
    assert_eq!(detail_path("/api", "tasks"), "/api/tasks/{id}/");
    assert_eq!(routes("/tasks/"), ("/tasks/".to_string(), "/tasks/{id}/".to_string()));
    assert_eq!(CrudViewSet::new("/tasks").path(), "/tasks");
    assert_eq!(resource_name("//tasks//"), "tasks");
}

#[test]
fn list_pages_are_bounded() {
    assert_eq!(pagination(&params(&[])), Ok((DEFAULT_PAGE_SIZE, 0)));
    assert_eq!(pagination(&params(&[("limit", "5"), ("offset", "10")])), Ok((5, 10)));
    assert_eq!(pagination(&params(&[("limit", "100")])), Ok((MAX_PAGE_SIZE, 0)));
    assert_eq!(
        pagination(&params(&[("limit", "101")])),
        Err(AppError::BadRequest("limit must not exceed 100".into()))
    );
    assert_eq!(
        pagination(&params(&[("limit", "x"), ("offset", "y")])),
        Err(AppError::BadRequest("offset must be an integer".into()))
    );
    assert_eq!(page(&params(&[("offset", "1"), ("offset", "7")]), "offset"), Ok(7));
    assert_eq!(query_param(&params(&[("a", "1"), ("a", "2")]), "a"), Some(&"2".to_string()));
    assert_eq!(query_param(&params(&[("a", "1")]), "b"), None);
}

#[test]
fn errors_answer_status_and_detail() {
    let error = error_filter(FilterError::UnknownFilter("x".into()));
    assert_eq!(error, AppError::BadRequest("unknown filter: x".into()));
    assert_eq!(error.status_code(), 400);
    assert_eq!(AppError::NotFound.status_code(), 404);
    assert_eq!(AppError::NotFound.detail(), "not found");
    assert_eq!(AppError::Unauthorized("login".into()).status_code(), 401);
    assert_eq!(AppError::Forbidden("no".into()).detail(), "no");
    assert_eq!(AppError::Internal("boom".into()).status_code(), 500);
}

#[test]
fn escaping_for_pages() {
    assert_eq!(html_escape("<a href=\"x\">&</a>"), "&lt;a href=&quot;x&quot;&gt;&amp;&lt;/a&gt;");
    assert_eq!(js_string_escape("it's \\ here"), "it\\'s \\\\ here");
    let page = swagger_ui_html("/api/openapi.json", "<Todo>");
    assert!(page.contains("<title>&lt;Todo&gt;</title>"));
    assert!(page.contains("url: '/api/openapi.json'"));
    let page = swagger_html("csrf_token");
    assert!(page.contains("cookie.startsWith(\"csrf_token=\")"));
}

#[test]
fn api_descriptions() {
    let filter = api_filter(&Filter::exact_as("owner", "owner_id", ValueKind::Int64));
    assert_eq!((filter.name.as_str(), filter.source.as_str(), filter.lookup), ("owner", "owner_id", Lookup::Exact));
    assert_eq!(return_filter_name("title", "__contains"), "title__contains");
    let schema = field_schema(ApiFieldType::Integer, true);
    assert!(matches!(member(&schema, "format"), Json::Str(f) if f == "int64"));
    assert!(matches!(member(&schema, "nullable"), Json::Bool(true)));
    let _ = JsonNumber::PosInt(0);
}

#[test]
fn session_config_is_optional() {
    let config = AppConfig {
        database: che_rest::config::DatabaseConfig { url: "sqlite://db.sqlite".into(), ..Default::default() },
        ..Default::default()
    };
    assert_eq!(config.auth.session.cookie_name, "che_rest_session");
    assert_eq!(config.auth.session.ttl_seconds, 604_800);
    assert_eq!(config.server.host, "127.0.0.1");
    assert_eq!(config.server.port, 3000);
    assert_eq!(config.server.api_prefix, "/api");
}

#[test]
fn configuration_defaults() {
    let config = AppConfig::default();
    assert_eq!(config.auth.session.cookie_name, "che_rest_session");
    assert_eq!(config.auth.session.ttl_seconds, 604_800);
    assert_eq!(config.server.host, "127.0.0.1");
    assert_eq!(config.server.port, 3000);
    assert_eq!(config.server.api_prefix, "/api");
    assert_eq!(config.database.url, "sqlite://db.sqlite?mode=rwc");
    let session = SessionConfig::default();
    assert_eq!(session.same_site, "Lax");
    assert_eq!(che_rest::config::sqlite_path("sqlite://data/app.db?mode=rwc"), "data/app.db");
    assert_eq!(che_rest::config::sqlite_path("sqlite://?mode=memory"), "sqlite://?mode=memory");
    assert_eq!(che_rest::config::sqlite_path("postgres://x"), "postgres://x");
}

#[test]
fn model_viewset_routes_end_with_one_slash() {
    assert_eq!(che_rest::views::trailing_slash("/tasks"), "/tasks/");
    assert_eq!(che_rest::views::trailing_slash("/tasks/"), "/tasks/");
    assert_eq!(
        che_rest::views::model_routes("/tasks"),
        ("/tasks/".to_string(), "/tasks/{id}/".to_string())
    );
    assert_eq!(che_rest::serializer::related_model_name("che_rest::auth::User"), "User");
    assert_eq!(che_rest::serializer::related_model_name("Plain"), "Plain");
    assert_eq!(che_rest::serializer::related_model_name("a:::b"), "b");
}

#[test]
fn lifecycle_signal_names_follow_the_resource() {
    assert_eq!(lifecycle_signal_name("/auth/users", LifecycleEvent::Created), "auth.users.created");
    assert_eq!(lifecycle_signal_name("/tasks/", LifecycleEvent::Updated), "tasks.updated");
    assert_eq!(lifecycle_signal_name("orders", LifecycleEvent::Deleted), "orders.deleted");
}

#[test]
fn read_only_commands_need_a_sqlite_file() {
    assert_eq!(sqlite_file_path("sqlite://data/app.db?mode=rwc", "migrate --plan"), Ok("data/app.db".to_string()));
    assert_eq!(sqlite_file_path("db.sqlite", "x"), Ok("db.sqlite".to_string()));
    let refused = "migrate --plan requires a SQLite file path (plain or sqlite://)".to_string();
    assert_eq!(sqlite_file_path(":memory:", "migrate --plan"), Err(refused.clone()));
    assert_eq!(sqlite_file_path("sqlite://dev?mode=memory", "migrate --plan"), Err(refused.clone()));
    assert_eq!(sqlite_file_path("file:test.sqlite", "migrate --plan"), Err(refused.clone()));
    assert_eq!(sqlite_file_path("postgres://localhost/db", "migrate --plan"), Err(refused));
}

#[test]
fn viewset_filters_come_from_its_filter_set() {
    let filter_set = FilterSet::new(vec![
        Filter::exact("id", ValueKind::Int64),
        Filter::contains("username"),
        Filter::exact_as("owner", "owner_id", ValueKind::Int64),
    ]);
    let columns = vec![("id".to_string(), ApiFieldType::Integer), ("username".to_string(), ApiFieldType::Text)];
    let documented = documented_filters(&filter_set, &columns);
    let names: Vec<&str> = documented.iter().map(|f| f.name.as_str()).collect();
    assert_eq!(names, vec!["id", "username__contains", "owner"]);
    assert_eq!(documented[0].ty, ApiFieldType::Integer);
    assert_eq!(documented[1].ty, ApiFieldType::Text);
    assert_eq!(documented[2].ty, ApiFieldType::Text);
    assert!(documented.iter().all(|f| !f.nullable));

    let mut context = ModuleContext::new(SignalBus::new());
    let viewset = ModelViewSet { filter_set, ..users_viewset("/auth/users") };
    context.viewset_with(viewset, vec![], Ok(()), ViewSetConfig::new("/auth/users"));
    let registered: Vec<&str> =
        context.api_endpoints()[0].endpoint.filters.iter().map(|f| f.name.as_str()).collect();
    assert_eq!(registered, vec!["id", "username__contains", "owner"]);
}

#[test]
fn an_empty_app_schema_is_valid() {
    assert!(che_rest::module::validate_app_schema(&che_orm::SchemaSet::new()).is_ok());
}

#[test]
fn escaped_html_reads_back_with_replacements() {
    let text = "<a href=\"x\">Tom & Jerry</a> &amp; &quot;";
    let escaped = html_escape(text);
    assert!(!escaped.contains('<') && !escaped.contains('>') && !escaped.contains('"'));
    let back = escaped.replace("&quot;", "\"").replace("&gt;", ">").replace("&lt;", "<").replace("&amp;", "&");
    assert_eq!(back, text);
    assert_eq!(html_escape("plain text 123"), "plain text 123");
}
