use che_rest::extensions::{
    extension_openapi, normalize_path, operation_json, path_parameters, ApiSchemaDefinition, ExtensionError,
    HttpMethod, OperationSpec, ViewSetConfig,
};
use che_rest::json::Json;

fn entries(json: &Json) -> &Vec<(String, Json)> {
    match json {
        Json::Object(e) => e,
        other => panic!("expected an object, got {:?}", other),
    }
}

fn member<'a>(json: &'a Json, key: &str) -> &'a Json {
    entries(json)
        .iter()
        .find(|(k, _)| k == key)
        .map(|(_, v)| v)
        .unwrap_or_else(|| panic!("missing {key}"))
}

fn string_schema() -> Json {
    Json::Object(vec![("type".into(), Json::Str("string".into()))])
}

fn ping_response() -> ApiSchemaDefinition {
    ApiSchemaDefinition {
        name: "PingResponse".into(),
        openapi: string_schema(),
        typescript: "export type PingResponse = string;".into(),
    }
}

fn ping_spec() -> OperationSpec {
    OperationSpec::new("ping.retrieve".into())
        .response(200, ping_response())
        .client("ping".into(), "retrieve".into())
}

/// Installs the ping extension the way an extension's `install` does.
fn install_ping(config: &mut ViewSetConfig) -> Result<(), ExtensionError> {
    let mut context = config.begin_extension("ping")?;
    let path = normalize_path(config.path(), "/{id}/ping/")?;
    config.register(&mut context, path, HttpMethod::Get, ping_spec())?;
    config.finish_extension(context);
    Ok(())
}

#[test]
fn extension_operation_builds_openapi_from_registered_route() {
    let mut config = ViewSetConfig::new("/users");
    install_ping(&mut config).unwrap();
    let (extensions, schemas) = config.into_parts();
    assert_eq!(extensions[0].operations[0].path, "/users/{id}/ping/");
    assert_eq!(extensions[0].operations[0].method, HttpMethod::Get);
    assert_eq!(schemas[0].name, "PingResponse");
    let openapi = extension_openapi(&extensions);
    let item = member(member(&openapi, "paths"), "/users/{id}/ping/");
    assert!(matches!(member(item, "get"), Json::Object(_)));
    match member(item, "parameters") {
        Json::Array(parameters) => {
            assert!(matches!(member(&parameters[0], "name"), Json::Str(n) if n == "id"));
        }
        other => panic!("expected parameters, got {:?}", other),
    }
}

#[test]
fn operation_object_lists_responses_and_security() {
    let spec = OperationSpec::new("ping.retrieve".into())
        .summary("Ping".into())
        .response(200, ping_response())
        .error(404)
        .error(200)
        .authenticated();
    let operation = operation_json(&spec);
    let keys: Vec<&str> = entries(&operation).iter().map(|(k, _)| k.as_str()).collect();
    assert_eq!(keys, vec!["operationId", "summary", "responses", "security"]);
    assert!(matches!(member(&operation, "operationId"), Json::Str(v) if v == "ping.retrieve"));
    let responses = member(&operation, "responses");
    let codes: Vec<&str> = entries(responses).iter().map(|(k, _)| k.as_str()).collect();
    assert_eq!(codes, vec!["200", "404"]);
    assert!(matches!(member(member(responses, "200"), "description"), Json::Str(v) if v == "Error"));
    match member(&operation, "security") {
        Json::Array(items) => assert_eq!(items.len(), 2),
        other => panic!("expected security, got {:?}", other),
    }
}

#[test]
fn duplicate_extension_is_rejected() {
    let mut config = ViewSetConfig::new("/users");
    install_ping(&mut config).unwrap();
    assert!(install_ping(&mut config).is_err());
    assert_eq!(
        config.begin_extension("ping").err(),
        Some(ExtensionError::DuplicateExtension { id: "ping".into(), path: "/users".into() })
    );
}

#[test]
fn routes_and_clients_are_owned_once() {
    let mut config = ViewSetConfig::new("/users/");
    assert_eq!(config.path(), "/users");
    let mut first = config.begin_extension("first").unwrap();
    config
        .register(&mut first, "/users/a/".into(), HttpMethod::Post, OperationSpec::new("a.one".into()))
        .unwrap();
    let route = config.register(&mut first, "/users/a/".into(), HttpMethod::Post, OperationSpec::new("a.two".into()));
    assert_eq!(
        route,
        Err(ExtensionError::RouteConflict {
            method: HttpMethod::Post,
            path: "/users/a/".into(),
            existing: "a.one".into(),
            operation: "a.two".into(),
        })
    );
    config
        .register(
            &mut first,
            "/users/b/".into(),
            HttpMethod::Get,
            OperationSpec::new("b.one".into()).client("ns".into(), "get".into()),
        )
        .unwrap();
    let client = config.register(
        &mut first,
        "/users/c/".into(),
        HttpMethod::Get,
        OperationSpec::new("c.one".into()).client("ns".into(), "get".into()),
    );
    assert_eq!(
        client,
        Err(ExtensionError::ClientConflict {
            namespace: "ns".into(),
            name: "get".into(),
            existing: "b.one".into(),
            operation: "c.one".into(),
        })
    );
    assert_eq!(first.operations.len(), 2);
}

#[test]
fn schemas_with_one_name_must_agree() {
    let mut config = ViewSetConfig::new("/users");
    let mut context = config.begin_extension("x").unwrap();
    config
        .register(&mut context, "/users/x/".into(), HttpMethod::Get, OperationSpec::new("x.get".into()).response(200, ping_response()))
        .unwrap();
    let other = ApiSchemaDefinition { typescript: "export type PingResponse = number;".into(), ..ping_response() };
    assert_eq!(
        config.register(&mut context, "/users/y/".into(), HttpMethod::Get, OperationSpec::new("y.get".into()).request(other)),
        Err(ExtensionError::SchemaConflict("PingResponse".into()))
    );
    config
        .register(&mut context, "/users/z/".into(), HttpMethod::Get, OperationSpec::new("z.get".into()).response(200, ping_response()))
        .unwrap();
    config.finish_extension(context);
    let (_, schemas) = config.into_parts();
    assert_eq!(schemas.len(), 1);
}

#[test]
fn hooks_are_installed_once() {
    let mut config = ViewSetConfig::new("/users");
    assert_eq!(config.add_hook("audit"), Ok(()));
    assert_eq!(config.add_hook("audit"), Err(ExtensionError::DuplicateHook { id: "audit".into(), path: "/users".into() }));
}

#[test]
fn extension_paths_join_the_viewset_path() {
    assert_eq!(normalize_path("/users/", "ping"), Ok("/users/ping/".into()));
    assert_eq!(normalize_path("/users", "/{id}/x//"), Ok("/users/{id}/x/".into()));
    assert_eq!(normalize_path("/users", "/../x"), Err(ExtensionError::DotDotPath));
    let parameters = path_parameters("/orgs/{org}/users/{id}/");
    assert_eq!(parameters.len(), 2);
    assert_eq!(parameters[0].name, "org");
    assert!(!parameters[0].integer);
    assert!(parameters[1].integer);
}

#[test]
fn extension_errors_have_messages() {
    let route = ExtensionError::RouteConflict {
        method: HttpMethod::Get,
        path: "/users/ping/".into(),
        existing: "a.one".into(),
        operation: "a.two".into(),
    };
    assert_eq!(route.message(), "route conflict for GET /users/ping/ between `a.one` and `a.two`");
    let client = ExtensionError::ClientConflict {
        namespace: "ns".into(),
        name: "get".into(),
        existing: "b.one".into(),
        operation: "c.one".into(),
    };
    assert_eq!(client.message(), "client method conflict for ns.get between `b.one` and `c.one`");
    assert_eq!(ExtensionError::SchemaConflict("Ping".into()).message(), "conflicting API schema `Ping`");
    assert_eq!(ExtensionError::DotDotPath.message(), "extension paths may not contain `..`");
    let hook = ExtensionError::DuplicateHook { id: "audit".into(), path: "/users".into() };
    assert_eq!(hook.message(), "mutation hook `audit` is already installed for /users");
}
