use schema_validator::schema::ValidationError;
use schema_validator::validator::Validator;
use schema_validator::value::Decimal;
use schema_validator::{NumberMessages, ObjectMessages, Schema, StringMessages, Value};

fn s(text: &str) -> String {
    text.to_string()
}

fn string_schema(min: Option<usize>, max: Option<usize>) -> Schema {
    Schema::String { min, max, email: None, url: None, pattern: None, ui: None, messages: None }
}

fn email_schema(min: Option<usize>) -> Schema {
    Schema::String { min, max: None, email: Some(true), url: None, pattern: None, ui: None, messages: None }
}

fn number_schema(min: Option<i64>, max: Option<i64>, integer: Option<bool>, positive: Option<bool>) -> Schema {
    Schema::Number {
        min: min.map(Decimal::from_int),
        max: max.map(Decimal::from_int),
        integer,
        positive,
        ui: None,
        messages: None,
    }
}

fn text(v: &str) -> Value {
    Value::String(s(v))
}

fn whole(n: i64) -> Value {
    Value::Number(Decimal::from_int(n))
}

fn dec(mantissa: i64, scale: u32) -> Value {
    Value::Number(Decimal::new(mantissa, scale).unwrap())
}

fn object(members: Vec<(&str, Value)>) -> Value {
    Value::Object(members.into_iter().map(|(k, v)| (s(k), v)).collect())
}

fn person_schema() -> Schema {
    Schema::Object {
        shape: vec![
            (s("name"), string_schema(Some(1), None)),
            (s("age"), number_schema(Some(0), None, Some(true), Some(true))),
        ],
        ui: None,
        messages: None,
    }
}

fn errors_of(result: Result<(), Vec<ValidationError>>) -> Vec<ValidationError> {
    result.unwrap_err()
}

fn path(segments: &[&str]) -> Vec<String> {
    segments.iter().map(|p| s(p)).collect()
}

#[test]
fn test_string_validation() {
    let schema = string_schema(Some(3), Some(10));
    assert!(Validator::validate(&schema, &text("hello")).is_ok());
    assert!(Validator::validate(&schema, &text("hi")).is_err());
    assert!(Validator::validate(&schema, &text("verylongstring")).is_err());
}

#[test]
fn test_email_validation() {
    let schema = email_schema(None);
    assert!(Validator::validate(&schema, &text("test@example.com")).is_ok());
    assert!(Validator::validate(&schema, &text("invalid")).is_err());
}

#[test]
fn test_number_validation() {
    let schema = number_schema(Some(0), Some(100), Some(true), None);
    assert!(Validator::validate(&schema, &whole(50)).is_ok());
    assert!(Validator::validate(&schema, &whole(-1)).is_err());
    assert!(Validator::validate(&schema, &dec(505, 1)).is_err());
}

#[test]
fn test_object_validation() {
    let schema = person_schema();
    assert!(Validator::validate(&schema, &object(vec![("name", text("John")), ("age", whole(30))])).is_ok());
    assert!(Validator::validate(&schema, &object(vec![("name", text("")), ("age", whole(30))])).is_err());
    assert!(Validator::validate(&schema, &object(vec![("name", text("John"))])).is_err());
}

#[test]
fn test_validate_at_path() {
    let schema = Schema::Object { shape: vec![(s("email"), email_schema(Some(3)))], ui: None, messages: None };
    let value = object(vec![("email", text("test@example.com"))]);
    assert!(Validator::validate_at_path(&schema, &value, &[s("email")]).is_ok());

    let invalid_value = object(vec![("email", text("invalid"))]);
    assert!(Validator::validate_at_path(&schema, &invalid_value, &[s("email")]).is_err());
}

#[test]
fn test_custom_string_messages() {
    let messages = StringMessages {
        invalid_type: Some(s("Custom: not a string")),
        min: Some(s("Custom: too short")),
        max: Some(s("Custom: too long")),
        email: Some(s("Custom: bad email")),
        url: None,
        pattern: None,
    };
    let schema = Schema::String {
        min: Some(5),
        max: Some(10),
        email: Some(true),
        url: None,
        pattern: None,
        ui: None,
        messages: Some(messages),
    };

    let result = Validator::validate(&schema, &whole(123));
    assert!(result.is_err());
    let errors = result.unwrap_err();
    assert_eq!(errors[0].message, "Custom: not a string");

    let result = Validator::validate(&schema, &text("abc"));
    assert!(result.is_err());
    let errors = result.unwrap_err();
    assert!(errors.iter().any(|e| e.message == "Custom: too short"));

    let result = Validator::validate(&schema, &text("verylongstring"));
    assert!(result.is_err());
    let errors = result.unwrap_err();
    assert!(errors.iter().any(|e| e.message == "Custom: too long"));

    let result = Validator::validate(&schema, &text("hello"));
    assert!(result.is_err());
    let errors = result.unwrap_err();
    assert!(errors.iter().any(|e| e.message == "Custom: bad email"));
}

#[test]
fn test_custom_number_messages() {
    let messages = NumberMessages {
        invalid_type: Some(s("Custom: not a number")),
        min: Some(s("Custom: too small")),
        max: Some(s("Custom: too large")),
        integer: Some(s("Custom: must be whole number")),
        positive: Some(s("Custom: must be positive")),
    };
    let schema = Schema::Number {
        min: Some(Decimal::from_int(10)),
        max: Some(Decimal::from_int(100)),
        integer: Some(true),
        positive: Some(true),
        ui: None,
        messages: Some(messages),
    };

    let result = Validator::validate(&schema, &text("not a number"));
    assert!(result.is_err());
    let errors = result.unwrap_err();
    assert_eq!(errors[0].message, "Custom: not a number");

    let result = Validator::validate(&schema, &whole(5));
    assert!(result.is_err());
    let errors = result.unwrap_err();
    assert!(errors.iter().any(|e| e.message == "Custom: too small"));

    let result = Validator::validate(&schema, &whole(150));
    assert!(result.is_err());
    let errors = result.unwrap_err();
    assert!(errors.iter().any(|e| e.message == "Custom: too large"));

    let result = Validator::validate(&schema, &dec(505, 1));
    assert!(result.is_err());
    let errors = result.unwrap_err();
    assert!(errors.iter().any(|e| e.message == "Custom: must be whole number"));

    let result = Validator::validate(&schema, &whole(-10));
    assert!(result.is_err());
    let errors = result.unwrap_err();
    assert!(errors.iter().any(|e| e.message == "Custom: must be positive"));
}

#[test]
fn test_custom_object_messages() {
    let messages = ObjectMessages {
        invalid_type: Some(s("Custom: not an object")),
        required: Some(s("Custom: field is required")),
    };
    let schema = Schema::Object {
        shape: vec![(s("name"), string_schema(None, None))],
        ui: None,
        messages: Some(messages),
    };

    let result = Validator::validate(&schema, &text("not an object"));
    assert!(result.is_err());
    let errors = result.unwrap_err();
    assert_eq!(errors[0].message, "Custom: not an object");

    let result = Validator::validate(&schema, &object(vec![]));
    assert!(result.is_err());
    let errors = result.unwrap_err();
    assert_eq!(errors[0].message, "Custom: field is required");
}

#[test]
fn test_default_messages_when_custom_not_provided() {
    let schema = string_schema(Some(5), None);
    let result = Validator::validate(&schema, &text("abc"));
    assert!(result.is_err());
    let errors = result.unwrap_err();
    assert_eq!(errors[0].message, "String must be at least 5 characters");
}

// Scenarios and laws on concrete values.

#[test]
fn scenario_string_within_bounds() {
    assert!(Validator::validate(&string_schema(Some(3), Some(10)), &text("hello")).is_ok());
}

#[test]
fn scenario_string_too_short() {
    let errors = errors_of(Validator::validate(&string_schema(Some(3), Some(10)), &text("hi")));
    assert_eq!(errors.len(), 1);
    assert_eq!(errors[0].code, "string.min");
    assert!(errors[0].path.is_empty());
    assert_eq!(errors[0].message, "String must be at least 3 characters");
}

#[test]
fn scenario_fractional_number() {
    let schema = number_schema(Some(0), Some(100), Some(true), None);
    let errors = errors_of(Validator::validate(&schema, &dec(505, 1)));
    assert_eq!(errors.len(), 1);
    assert_eq!(errors[0].code, "number.integer");
    assert_eq!(errors[0].message, "Number must be an integer");
}

#[test]
fn scenario_empty_name() {
    let errors = errors_of(Validator::validate(
        &person_schema(),
        &object(vec![("name", text("")), ("age", whole(30))]),
    ));
    assert_eq!(errors.len(), 1);
    assert_eq!(errors[0].code, "string.min");
    assert_eq!(errors[0].path, path(&["name"]));
}

#[test]
fn scenario_missing_age() {
    let errors = errors_of(Validator::validate(&person_schema(), &object(vec![("name", text("John"))])));
    assert_eq!(errors.len(), 1);
    assert_eq!(errors[0].code, "required");
    assert_eq!(errors[0].path, path(&["age"]));
    assert_eq!(errors[0].message, "Field 'age' is required");
}

#[test]
fn scenario_bad_email_at_path() {
    let schema = Schema::Object { shape: vec![(s("email"), email_schema(None))], ui: None, messages: None };
    let errors = errors_of(Validator::validate_at_path(&schema, &object(vec![("email", text("bad"))]), &[s("email")]));
    assert_eq!(errors.len(), 1);
    assert_eq!(errors[0].code, "string.email");
    assert_eq!(errors[0].path, path(&["email"]));
    assert_eq!(errors[0].message, "Invalid email address");
}

#[test]
fn repeated_validation_gives_the_same_errors() {
    let schema = person_schema();
    let value = object(vec![("name", text("")), ("age", dec(-15, 1))]);
    let first = errors_of(Validator::validate(&schema, &value));
    let second = errors_of(Validator::validate(&schema, &value));
    assert_eq!(first.len(), second.len());
    for (a, b) in first.iter().zip(second.iter()) {
        assert_eq!(a.path, b.path);
        assert_eq!(a.code, b.code);
        assert_eq!(a.message, b.message);
    }
}

#[test]
fn every_failing_field_is_reported() {
    let schema = Schema::Object {
        shape: vec![
            (s("name"), string_schema(Some(1), None)),
            (s("age"), number_schema(Some(0), None, Some(true), Some(true))),
            (s("active"), Schema::Boolean { ui: None, messages: None }),
        ],
        ui: None,
        messages: None,
    };
    let value = object(vec![("name", text("")), ("age", dec(-15, 1)), ("extra", whole(1))]);
    let errors = errors_of(Validator::validate(&schema, &value));
    let codes: Vec<(&str, Vec<String>)> = errors.iter().map(|e| (e.code.as_str(), e.path.clone())).collect();
    assert_eq!(errors.len(), 5);
    assert!(codes.contains(&("string.min", path(&["name"]))));
    assert!(codes.contains(&("number.min", path(&["age"]))));
    assert!(codes.contains(&("number.integer", path(&["age"]))));
    assert!(codes.contains(&("number.positive", path(&["age"]))));
    assert!(codes.contains(&("required", path(&["active"]))));
}

#[test]
fn mismatched_kinds_give_one_type_error() {
    let cases: Vec<(Schema, Value, &str)> = vec![
        (string_schema(Some(3), Some(1)), whole(7), "Expected string"),
        (number_schema(Some(10), None, Some(true), Some(true)), text("x"), "Expected number"),
        (Schema::Boolean { ui: None, messages: None }, Value::Null, "Expected boolean"),
        (person_schema(), Value::Array(vec![]), "Expected object"),
    ];
    for (schema, value, message) in cases {
        let errors = errors_of(Validator::validate(&schema, &value));
        assert_eq!(errors.len(), 1);
        assert_eq!(errors[0].code, "invalid_type");
        assert!(errors[0].path.is_empty());
        assert_eq!(errors[0].message, message);
    }
    assert!(Validator::validate(&Schema::Boolean { ui: None, messages: None }, &Value::Bool(false)).is_ok());
}

#[test]
fn missing_field_is_required_whatever_the_others_hold() {
    let errors = errors_of(Validator::validate(&person_schema(), &object(vec![("name", whole(3))])));
    assert_eq!(errors.len(), 2);
    assert_eq!(errors[0].code, "invalid_type");
    assert_eq!(errors[0].path, path(&["name"]));
    assert_eq!(errors[1].code, "required");
    assert_eq!(errors[1].path, path(&["age"]));
}

#[test]
fn validation_at_path_keeps_full_paths() {
    let inner = Schema::Object {
        shape: vec![(s("zip"), string_schema(Some(5), Some(5)))],
        ui: None,
        messages: None,
    };
    let schema = Schema::Object { shape: vec![(s("address"), inner)], ui: None, messages: None };
    let value = object(vec![("address", object(vec![("zip", text("123"))]))]);

    let everything = errors_of(Validator::validate(&schema, &value));
    let at_path = errors_of(Validator::validate_at_path(&schema, &value, &[s("address")]));
    assert_eq!(everything.len(), 1);
    assert_eq!(at_path.len(), 1);
    assert_eq!(at_path[0].path, path(&["address", "zip"]));
    assert_eq!(at_path[0].code, everything[0].code);

    let leaf = errors_of(Validator::validate_at_path(&schema, &value, &[s("address"), s("zip")]));
    assert_eq!(leaf[0].path, path(&["address", "zip"]));
    assert_eq!(leaf[0].code, "string.min");
}

#[test]
fn missing_value_at_path_is_null() {
    let schema = Schema::Object { shape: vec![(s("email"), email_schema(None))], ui: None, messages: None };
    let errors = errors_of(Validator::validate_at_path(&schema, &object(vec![]), &[s("email")]));
    assert_eq!(errors.len(), 1);
    assert_eq!(errors[0].code, "invalid_type");
    assert_eq!(errors[0].path, path(&["email"]));
}

#[test]
fn unknown_path_segment_is_invalid_path() {
    let schema = person_schema();
    let errors = errors_of(Validator::validate_at_path(&schema, &Value::Null, &[s("nickname")]));
    assert_eq!(errors.len(), 1);
    assert_eq!(errors[0].code, "invalid_path");
    assert_eq!(errors[0].path, path(&["nickname"]));
    assert_eq!(errors[0].message, "Path segment 'nickname' not found in schema");

    let errors = errors_of(Validator::validate_at_path(&schema, &Value::Null, &[s("name"), s("first")]));
    assert_eq!(errors.len(), 1);
    assert_eq!(errors[0].code, "invalid_path");
    assert_eq!(errors[0].path, path(&["first"]));
    assert_eq!(errors[0].message, "Cannot navigate non-object schema");
}

#[test]
fn empty_path_validates_the_whole_value() {
    let value = object(vec![("name", text("John"))]);
    let everything = errors_of(Validator::validate(&person_schema(), &value));
    let at_root = errors_of(Validator::validate_at_path(&person_schema(), &value, &[]));
    assert_eq!(everything.len(), at_root.len());
    assert_eq!(everything[0].path, at_root[0].path);
}

#[test]
fn url_and_pattern_constraints() {
    let schema = Schema::String {
        min: None,
        max: None,
        email: None,
        url: Some(true),
        pattern: Some(s("example")),
        ui: None,
        messages: None,
    };
    assert!(Validator::validate(&schema, &text("https://example.com")).is_ok());
    assert!(Validator::validate(&schema, &text("http://example.org")).is_ok());
    let errors = errors_of(Validator::validate(&schema, &text("ftp://other.com")));
    assert_eq!(errors.len(), 2);
    assert_eq!(errors[0].code, "string.url");
    assert_eq!(errors[0].message, "Invalid URL");
    assert_eq!(errors[1].code, "string.pattern");
    assert_eq!(errors[1].message, "String does not match pattern: example");
}

#[test]
fn all_string_constraints_fail_together() {
    let schema = Schema::String {
        min: Some(10),
        max: Some(2),
        email: Some(true),
        url: Some(true),
        pattern: Some(s("zz")),
        ui: None,
        messages: None,
    };
    let errors = errors_of(Validator::validate(&schema, &text("abc")));
    let codes: Vec<&str> = errors.iter().map(|e| e.code.as_str()).collect();
    assert_eq!(codes, vec!["string.min", "string.max", "string.email", "string.url", "string.pattern"]);
    assert_eq!(errors[1].message, "String must be at most 2 characters");
}

#[test]
fn string_length_counts_characters() {
    let schema = string_schema(Some(3), Some(3));
    assert!(Validator::validate(&schema, &text("héé")).is_ok());
    assert!(Validator::validate(&schema, &text("日本語")).is_ok());
}

#[test]
fn email_shapes() {
    assert!(Validator::is_valid_email("a@b"));
    assert!(!Validator::is_valid_email("@ab"));
    assert!(!Validator::is_valid_email("ab@"));
    assert!(!Validator::is_valid_email("a@@b"));
    assert!(!Validator::is_valid_email("a@b@c"));
    assert!(!Validator::is_valid_email(""));
    assert!(Validator::is_valid_url("http://x"));
    assert!(!Validator::is_valid_url("http:/x"));
}

#[test]
fn number_bounds_are_inclusive_and_quoted() {
    let schema = Schema::Number {
        min: Decimal::new(-25, 1),
        max: Decimal::new(1005, 1),
        integer: None,
        positive: None,
        ui: None,
        messages: None,
    };
    assert!(Validator::validate(&schema, &dec(-25, 1)).is_ok());
    assert!(Validator::validate(&schema, &dec(1005, 1)).is_ok());
    let low = errors_of(Validator::validate(&schema, &whole(-3)));
    assert_eq!(low[0].code, "number.min");
    assert_eq!(low[0].message, "Number must be at least -2.5");
    let high = errors_of(Validator::validate(&schema, &whole(101)));
    assert_eq!(high[0].code, "number.max");
    assert_eq!(high[0].message, "Number must be at most 100.5");

    let bounds = number_schema(Some(0), Some(100), None, None);
    assert_eq!(errors_of(Validator::validate(&bounds, &whole(-1)))[0].message, "Number must be at least 0");
    assert_eq!(errors_of(Validator::validate(&bounds, &whole(101)))[0].message, "Number must be at most 100");
}

#[test]
fn zero_is_not_positive() {
    let schema = number_schema(None, None, None, Some(true));
    let errors = errors_of(Validator::validate(&schema, &whole(0)));
    assert_eq!(errors[0].code, "number.positive");
    assert_eq!(errors[0].message, "Number must be positive");
    assert!(Validator::validate(&schema, &dec(1, 18)).is_ok());
}

#[test]
fn decimal_construction() {
    assert_eq!(Decimal::new(505, 1), Some(Decimal { scaled: 50_500_000_000_000_000_000 }));
    assert_eq!(Decimal::new(7, 18), Some(Decimal { scaled: 7 }));
    assert_eq!(Decimal::new(7, 19), None);
    assert_eq!(Decimal::from_int(-2), Decimal { scaled: -2_000_000_000_000_000_000 });
    assert_eq!(Decimal::new(i64::MIN, 0).unwrap().scaled, i64::MIN as i128 * 1_000_000_000_000_000_000);
}

#[test]
fn error_new_keeps_its_parts() {
    let e = ValidationError::new(path(&["a", "b"]), s("required"), s("gone"));
    assert_eq!(e.path, path(&["a", "b"]));
    assert_eq!(e.code, "required");
    assert_eq!(e.message, "gone");
}

#[test]
fn validate_string_appends_to_errors() {
    let mut errors = vec![ValidationError::new(vec![], s("x"), s("y"))];
    Validator::validate_string("ab", Some(3), None, None, None, Some("q"), &None, &[s("f")], &mut errors);
    assert_eq!(errors.len(), 3);
    assert_eq!(errors[1].code, "string.min");
    assert_eq!(errors[1].path, path(&["f"]));
    assert_eq!(errors[2].code, "string.pattern");
}

#[test]
fn decimal_parse_plain_text() {
    assert_eq!(Decimal::parse("50.5"), Decimal::new(505, 1));
    assert_eq!(Decimal::parse("-0.25"), Decimal::new(-25, 2));
    assert_eq!(Decimal::parse("100"), Some(Decimal::from_int(100)));
    assert_eq!(Decimal::parse("007"), Some(Decimal::from_int(7)));
    assert_eq!(Decimal::parse("0.000000000000000001"), Some(Decimal { scaled: 1 }));
    assert_eq!(Decimal::parse("0.0000000000000000001"), None);
    assert_eq!(Decimal::parse(""), None);
    assert_eq!(Decimal::parse("-"), None);
    assert_eq!(Decimal::parse("1."), None);
    assert_eq!(Decimal::parse(".5"), None);
    assert_eq!(Decimal::parse("1e5"), None);
    assert_eq!(Decimal::parse("1.2.3"), None);
    assert_eq!(Decimal::parse("+1"), None);
}

#[test]
fn decimal_parse_range_edges() {
    assert_eq!(Decimal::parse("-170141183460469231731.687303715884105728"), Some(Decimal { scaled: i128::MIN }));
    assert_eq!(Decimal::parse("170141183460469231731.687303715884105727"), Some(Decimal { scaled: i128::MAX }));
    assert_eq!(Decimal::parse("170141183460469231731.687303715884105728"), None);
    assert_eq!(Decimal::parse("99999999999999999999999999"), None);
}

#[test]
fn duplicate_field_names_are_not_well_formed() {
    assert!(person_schema().is_well_formed());
    assert!(string_schema(None, None).is_well_formed());
    let twice = Schema::Object {
        shape: vec![(s("a"), string_schema(None, None)), (s("a"), string_schema(None, None))],
        ui: None,
        messages: None,
    };
    assert!(!twice.is_well_formed());
    let nested = Schema::Object { shape: vec![(s("outer"), twice)], ui: None, messages: None };
    assert!(!nested.is_well_formed());
}
