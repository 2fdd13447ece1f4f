use che_rest::filters::{
    parse_arg_exec, parse_u32, Filter, FilterArg, FilterError, FilterSet, FilterValue, Lookup,
    ValueKind,
};
use che_rest::values::{is_float_text, parse_datetime, DateTime};

fn params(pairs: &[(&str, &str)]) -> Vec<(String, String)> {
    pairs.iter().map(|(k, v)| (k.to_string(), v.to_string())).collect()
}

fn user_filters() -> FilterSet {
    FilterSet::new(vec![
        Filter::exact("username", ValueKind::Text),
        Filter::contains("username"),
        Filter::gte("age", ValueKind::Int32),
        Filter::exact_as("active", "is_active", ValueKind::Boolean),
    ])
}

#[test]
fn applies_typed_filter_and_ordering() {
    let plan = user_filters()
        .apply(&params(&[("username__contains", "al"), ("ordering", "-username")]))
        .unwrap();
    assert_eq!(plan.conditions.len(), 1);
    assert_eq!(plan.conditions[0].field, "username");
    assert_eq!(plan.conditions[0].lookup, Lookup::Contains);
    assert_eq!(plan.conditions[0].arg, FilterArg::Text("al".into()));
    assert_eq!(plan.ordering, vec![("username".to_string(), true)]);
    assert_eq!(plan.limit, None);
}

#[test]
fn filters_read_values_of_their_kind() {
    let plan = user_filters()
        .apply(&params(&[("age__gte", "30"), ("active", "1"), ("limit", "5"), ("offset", "10"), ("ordering", "age")]))
        .unwrap();
    assert_eq!(plan.conditions[0].field, "age");
    assert_eq!(plan.conditions[0].arg, FilterArg::Integer(30));
    assert_eq!(plan.conditions[1].field, "is_active");
    assert_eq!(plan.conditions[1].arg, FilterArg::Boolean(true));
    assert_eq!(plan.limit, Some(5));
    assert_eq!(plan.offset, Some(10));
    assert_eq!(plan.ordering, vec![("age".to_string(), false)]);
}

#[test]
fn refused_parameters_name_the_problem() {
    let filters = user_filters();
    assert_eq!(
        filters.apply(&params(&[("email", "x")])).unwrap_err(),
        FilterError::UnknownFilter("email".into())
    );
    let error = filters.apply(&params(&[("age__gte", "old")])).unwrap_err();
    assert_eq!(error, FilterError::InvalidValue { field: "age".into(), expected: "integer" });
    assert_eq!(error.message(), "invalid filter value for age, expected integer");
    assert_eq!(
        filters.apply(&params(&[("ordering", "-email")])).unwrap_err(),
        FilterError::UnknownOrdering("email".into())
    );
    assert_eq!(
        filters.apply(&params(&[("limit", "-1")])).unwrap_err(),
        FilterError::InvalidValue { field: "limit".into(), expected: "positive integer" }
    );
    assert_eq!(
        filters.apply(&params(&[("age__gte", "99999999999")])).unwrap_err(),
        FilterError::InvalidValue { field: "age".into(), expected: "integer" }
    );
}

#[test]
fn counting_keeps_only_conditions() {
    let plan = user_filters()
        .apply_for_count(&params(&[("username", "bo"), ("ordering", "nope"), ("limit", "x")]))
        .unwrap();
    assert_eq!(plan.conditions.len(), 1);
    assert_eq!(plan.conditions[0].lookup, Lookup::Exact);
    assert!(plan.ordering.is_empty());
    assert_eq!(plan.limit, None);
}

#[test]
fn query_names_carry_the_lookup() {
    assert_eq!(Filter::contains("title").query_name(), "title__contains");
    assert_eq!(Filter::gt("n", ValueKind::Int64).query_name(), "n__gt");
    assert_eq!(Filter::lte("n", ValueKind::Int64).query_name(), "n__lte");
    assert_eq!(Filter::exact("n", ValueKind::Int64).query_name(), "n");
    assert!(Filter::lt("n", ValueKind::Int64).matches_query_name("n__lt"));
    assert!(!Filter::lt("n", ValueKind::Int64).matches_query_name("n"));
    let source = Filter::exact_source("owner", "owner_id", ValueKind::Int64);
    assert_eq!(source.name, "owner");
    assert_eq!(source.field, "owner_id");
}

#[test]
fn values_of_each_kind() {
    assert_eq!(parse_arg_exec(&ValueKind::Int64, "-12"), Some(FilterArg::Integer(-12)));
    assert_eq!(parse_arg_exec(&ValueKind::UInt32, "-1"), None);
    assert_eq!(parse_arg_exec(&ValueKind::Float64, "1.5e3"), Some(FilterArg::Float("1.5e3".into())));
    assert_eq!(parse_arg_exec(&ValueKind::Float32, "1.5.3"), None);
    assert_eq!(parse_arg_exec(&ValueKind::Boolean, "false"), Some(FilterArg::Boolean(false)));
    assert_eq!(parse_arg_exec(&ValueKind::Boolean, "yes"), None);
    assert_eq!(parse_arg_exec(&ValueKind::Json, "{\"a\": [1, 2]}"), Some(FilterArg::Json("{\"a\": [1, 2]}".into())));
    assert_eq!(parse_arg_exec(&ValueKind::Json, "{\"a\": "), None);
    let choices = ValueKind::Choice(vec!["open".into(), "done".into()]);
    assert_eq!(parse_arg_exec(&choices, "done"), Some(FilterArg::Choice("done".into())));
    assert_eq!(parse_arg_exec(&choices, "late"), None);
    assert_eq!(
        parse_arg_exec(&ValueKind::DateTime, "2026-01-02T03:04:05"),
        Some(FilterArg::DateTime(DateTime { year: 2026, month: 1, day: 2, hour: 3, minute: 4, second: 5, nanosecond: 0 }))
    );
}

#[test]
fn datetimes_take_two_layouts() {
    let spaced = parse_datetime("2024-02-29 23:59:58").unwrap();
    assert_eq!((spaced.year, spaced.month, spaced.day, spaced.second), (2024, 2, 29, 58));
    assert!(parse_datetime("2023-02-29 00:00:00").is_none());
    assert!(parse_datetime("2024-01-01").is_none());
}

#[test]
fn float_texts_follow_str_parse() {
    for text in ["1", "-1.", ".5", "+3e-2", "inf", "-Infinity", "NaN", "1E5"] {
        assert!(is_float_text(text), "{text}");
        assert!(text.parse::<f64>().is_ok(), "{text}");
    }
    for text in ["", ".", "e5", "1e", "1.2.3", "--1", "0x10", " 1"] {
        assert!(!is_float_text(text), "{text}");
        assert!(text.parse::<f64>().is_err(), "{text}");
    }
}

#[test]
fn typed_filter_values() {
    assert_eq!(i64::parse_filter("-7"), Ok(-7));
    assert_eq!(i32::parse_filter("3000000000"), Err(FilterError::InvalidValue { field: String::new(), expected: "integer" }));
    assert_eq!(u32::parse_filter("42"), Ok(42));
    assert_eq!(bool::parse_filter("0"), Ok(false));
    assert_eq!(String::parse_filter("any"), Ok("any".to_string()));
    assert_eq!(parse_u32("offset", "x"), Err(FilterError::InvalidValue { field: "offset".into(), expected: "positive integer" }));
    assert_eq!(FilterSet::default().filters().len(), 0);
}
