use che_rest::json::{json_str, obj1, obj2, obj3, Json, JsonNumber};
use che_rest::serializer::{
    field_type_name, serialize_model, update_fields, validate_choice, validate_max_length,
    validate_object, validate_type, validated_data, validated_system_data, Field, FieldInfo,
    FieldType, SerializerError, ValidatedValue,
};
use che_rest::serializers::{
    AdminUserFilterSet, AdminUserSerializer, AdminUserViewSet, UserCreateSerializer,
    UserPublicSerializer, UserRecord, UserUpdateSerializer,
};

fn get<'a>(entries: &'a [(String, Json)], key: &str) -> &'a Json {
    entries
        .iter()
        .rev()
        .find(|(k, _)| k == key)
        .map(|(_, v)| v)
        .unwrap_or_else(|| panic!("missing {key}"))
}

fn is_str(value: &Json, expected: &str) -> bool {
    matches!(value, Json::Str(s) if s == expected)
}

fn info(name: &str, ty: FieldType) -> FieldInfo {
    FieldInfo { rust_name: name.into(), db_name: name.into(), ty, choices: None }
}

fn account_fields() -> Vec<FieldInfo> {
    vec![info("id", FieldType::Integer), info("username", FieldType::Text), info("is_active", FieldType::Boolean)]
}

#[test]
fn serializes_user_to_json() {
    let user = UserRecord {
        id: 1,
        email: "alice@example.com".to_string(),
        name: "Alice".to_string(),
        is_active: true,
    };
    let json = UserPublicSerializer::to_json(&user);
    let Json::Object(entries) = json else { panic!("expected an object") };
    assert!(is_str(get(&entries, "email"), "alice@example.com"));
    assert!(is_str(get(&entries, "name"), "Alice"));
    assert!(matches!(get(&entries, "id"), Json::Number(JsonNumber::PosInt(1))));
    assert!(matches!(get(&entries, "is_active"), Json::Bool(true)));
}

#[test]
fn validates_create_json_with_default() {
    let payload = obj2("email", json_str("alice@example.com"), "name", json_str("Alice"));
    let create = UserCreateSerializer::validate_json(&payload).unwrap();
    assert!(is_str(get(&create, "email"), "alice@example.com"));
    assert!(is_str(get(&create, "name"), "Alice"));
    assert!(matches!(get(&create, "is_active"), Json::Bool(true)));
}

#[test]
fn rejects_unknown_field() {
    let payload = obj3(
        "email",
        json_str("alice@example.com"),
        "name",
        json_str("Alice"),
        "unknown",
        Json::Number(JsonNumber::PosInt(1)),
    );
    let err = UserCreateSerializer::validate_json(&payload).unwrap_err();
    assert!(matches!(err, SerializerError::UnknownField(field) if field == "unknown"));
}

#[test]
fn validated_data_uses_serializer_source_for_aliases() {
    let fields = vec![Field::new("id").read_only(), Field::new("handle").source("username")];
    let data = validated_data(&obj1("handle", json_str("alice")), &fields, &account_fields()).unwrap();
    assert!(is_str(data.required("username").unwrap(), "alice"));
    assert_eq!(String::from_validated("username", data.required("username").unwrap()), Ok("alice".to_string()));
}

#[test]
fn create_body_errors() {
    assert_eq!(UserCreateSerializer::validate_json(&Json::Null).unwrap_err(), SerializerError::ExpectedObject);
    assert_eq!(
        UserCreateSerializer::validate_json(&obj1("email", json_str("a@b.c"))).unwrap_err(),
        SerializerError::MissingField("name".into())
    );
    let long = "x".repeat(256);
    assert_eq!(
        UserCreateSerializer::validate_json(&obj2("email", json_str(&long), "name", json_str("A"))).unwrap_err(),
        SerializerError::MaxLengthExceeded { field: "email".into(), max_length: 255 }
    );
    assert_eq!(
        UserCreateSerializer::validate_json(&obj2("email", json_str("a@b.c"), "name", Json::Null)).unwrap_err(),
        SerializerError::NullNotAllowed("name".into())
    );
    assert_eq!(
        UserCreateSerializer::validate_json(&obj2("email", json_str("a@b.c"), "name", Json::Bool(false))).unwrap_err(),
        SerializerError::InvalidType { field: "name".into(), expected: "string" }
    );
    let fields = vec![Field::new("id").read_only()];
    assert_eq!(
        validate_object(&obj1("id", Json::Number(JsonNumber::PosInt(3))), &fields, &account_fields()).unwrap_err(),
        SerializerError::ReadonlyField("id".into())
    );
}

#[test]
fn update_makes_writable_fields_optional() {
    let updated = UserUpdateSerializer::validate_json(&obj1("name", json_str("Bob"))).unwrap();
    assert_eq!(updated.len(), 1);
    assert!(is_str(get(&updated, "name"), "Bob"));
    let fields = update_fields(&vec![Field::new("id").read_only(), Field::new("active").default(Json::Bool(true))]);
    assert!(fields[0].read_only);
    assert!(!fields[1].required);
    assert!(!fields[1].has_default());
}

#[test]
fn system_fields_are_written_by_the_system() {
    let fields = vec![Field::new("is_active").system(), Field::new("username")];
    let body = obj1("is_active", Json::Bool(false));
    let data = validated_system_data(&body, &fields, &account_fields()).unwrap();
    assert!(matches!(data.required("is_active").unwrap(), Json::Bool(false)));
    assert!(data.optional("id").is_none());
    assert_eq!(
        validated_data(&body, &fields, &account_fields()).unwrap_err(),
        SerializerError::ReadonlyField("is_active".into())
    );
    let user_body = obj2("username", json_str("carol"), "is_active", Json::Bool(false));
    assert_eq!(
        validated_system_data(&user_body, &fields, &account_fields()).unwrap_err(),
        SerializerError::ReadonlyField("username".into())
    );
}

#[test]
fn unknown_model_field_is_reported() {
    let fields = vec![Field::new("nick").source("nickname")];
    assert_eq!(
        validated_data(&obj1("nick", json_str("z")), &fields, &account_fields()).unwrap_err(),
        SerializerError::InvalidModelField("nickname".into())
    );
}

#[test]
fn value_checks_and_messages() {
    assert_eq!(field_type_name(FieldType::Integer), "integer");
    assert_eq!(field_type_name(FieldType::Boolean), "boolean");
    assert_eq!(validate_type("n", FieldType::Integer, &Json::Number(JsonNumber::NegInt(-2))), Ok(()));
    assert_eq!(
        validate_type("n", FieldType::Integer, &json_str("2")),
        Err(SerializerError::InvalidType { field: "n".into(), expected: "integer" })
    );
    let status = FieldInfo { choices: Some(vec!["open".into(), "done".into()]), ..info("status", FieldType::Choice) };
    assert_eq!(validate_choice("status", &status, &json_str("open")), Ok(()));
    assert_eq!(
        validate_choice("status", &status, &json_str("late")),
        Err(SerializerError::InvalidChoice { field: "status".into(), value: "late".into() })
    );
    assert_eq!(validate_choice("title", &info("title", FieldType::Text), &json_str("late")), Ok(()));
    assert_eq!(
        validate_choice("status", &status, &Json::Bool(true)),
        Err(SerializerError::InvalidType { field: "status".into(), expected: "string" })
    );
    assert_eq!(validate_max_length("t", 3, &json_str("abc")), Ok(()));
    let error = validate_max_length("t", 3, &json_str("abcd")).unwrap_err();
    assert_eq!(error.message(), "field t exceeds max length 3");
    assert_eq!(SerializerError::UnknownField("x".into()).message(), "unknown field: x");
    assert_eq!(i64::from_validated("n", &Json::Number(JsonNumber::PosInt(7))), Ok(7));
    assert_eq!(bool::from_validated("b", &Json::Null), Err(SerializerError::InvalidType { field: "b".into(), expected: "boolean" }));
}

#[test]
fn serialized_models_leave_out_write_only_fields() {
    let model = vec![("username".to_string(), json_str("dave")), ("secret".to_string(), json_str("s"))];
    let fields = vec![Field::new("handle").source("username"), Field::new("secret").write_only(), Field::new("missing")];
    let Json::Object(entries) = serialize_model(&model, &fields) else { panic!("expected an object") };
    assert_eq!(entries.len(), 2);
    assert!(is_str(get(&entries, "handle"), "dave"));
    assert!(matches!(get(&entries, "missing"), Json::Null));
}

#[test]
fn superuser_relation_endpoint_is_read_only() {
    let fields = AdminUserSerializer::fields();
    assert!(fields.iter().all(|f| f.read_only));
    assert_eq!(AdminUserFilterSet::filters().filters()[0].name, "username");
    assert_eq!(AdminUserViewSet.path(), "/auth/users");
}
