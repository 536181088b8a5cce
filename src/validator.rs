//! The validation engine: what each schema demands of a value, and the code
//! that checks it.
use vstd::prelude::*;

use crate::schema::{
    error_model, models, path_view, result_is, ErrorModel, NumberMessages, ObjectMessages, Schema,
    StringMessages, ValidationError, ValidationResult,
};
use crate::text::{decimal_text, decimal_to_text, nat_text, usize_text};
use crate::value::{find_entry, lemma_value_at_null, lookup, value_at, Decimal, Value, UNIT};

verus! {

broadcast use vstd::std_specs::vec::group_vec_axioms, vstd::seq::group_seq_axioms;

// ---------------------------------------------------------------------------
// What a valid string looks like.

/// How many times `c` occurs in `s`.
pub open spec fn count_char(s: Seq<char>, c: char) -> nat
    decreases s.len(),
{
    if s.len() == 0 {
        0
    } else {
        count_char(s.drop_last(), c) + if s.last() == c {
            1nat
        } else {
            0nat
        }
    }
}

/// Exactly one `@`, neither first nor last.
pub open spec fn is_email(s: Seq<char>) -> bool {
    count_char(s, '@') == 1 && s[0] != '@' && s.last() != '@'
}

/// Begins with `http://` or `https://`.
pub open spec fn is_url(s: Seq<char>) -> bool {
    "http://"@.is_prefix_of(s) || "https://"@.is_prefix_of(s)
}

/// `needle` occurs in `s` as a run of consecutive characters.
pub open spec fn contains(s: Seq<char>, needle: Seq<char>) -> bool {
    exists|i: int| 0 <= i <= s.len() - needle.len() && #[trigger] s.subrange(i, i + needle.len()) == needle
}

// ---------------------------------------------------------------------------
// The errors each schema gives a value.

/// The override, when one is given, or else the default message.
pub open spec fn resolve<M>(messages: Option<M>, pick: spec_fn(M) -> Option<String>, default: Seq<char>) -> Seq<char> {
    match messages {
        Some(m) => match pick(m) {
            Some(s) => s@,
            None => default,
        },
        None => default,
    }
}

/// One error when `failed`, none otherwise.
pub open spec fn report(failed: bool, e: ErrorModel) -> Seq<ErrorModel> {
    if failed {
        seq![e]
    } else {
        Seq::empty()
    }
}

/// The errors of a string against the constraints of a string schema.
pub open spec fn string_errors(
    s: Seq<char>,
    min: Option<usize>,
    max: Option<usize>,
    email: Option<bool>,
    url: Option<bool>,
    pattern: Option<Seq<char>>,
    messages: Option<StringMessages>,
    path: Seq<Seq<char>>,
) -> Seq<ErrorModel> {
    report(
        min is Some && s.len() < min->0,
        error_model(path, "string.min"@, resolve(messages, |m: StringMessages| m.min,
            "String must be at least "@ + nat_text(min->0 as nat) + " characters"@)),
    ) + report(
        max is Some && s.len() > max->0,
        error_model(path, "string.max"@, resolve(messages, |m: StringMessages| m.max,
            "String must be at most "@ + nat_text(max->0 as nat) + " characters"@)),
    ) + report(
        email == Some(true) && !is_email(s),
        error_model(path, "string.email"@, resolve(messages, |m: StringMessages| m.email,
            "Invalid email address"@)),
    ) + report(
        url == Some(true) && !is_url(s),
        error_model(path, "string.url"@, resolve(messages, |m: StringMessages| m.url,
            "Invalid URL"@)),
    ) + report(
        pattern is Some && !contains(s, pattern->0),
        error_model(path, "string.pattern"@, resolve(messages, |m: StringMessages| m.pattern,
            "String does not match pattern: "@ + pattern->0)),
    )
}

/// The errors of a number against the constraints of a number schema.
pub open spec fn number_errors(
    n: Decimal,
    min: Option<Decimal>,
    max: Option<Decimal>,
    integer: Option<bool>,
    positive: Option<bool>,
    messages: Option<NumberMessages>,
    path: Seq<Seq<char>>,
) -> Seq<ErrorModel> {
    report(
        min is Some && n.scaled < min->0.scaled,
        error_model(path, "number.min"@, resolve(messages, |m: NumberMessages| m.min,
            "Number must be at least "@ + decimal_text(min->0))),
    ) + report(
        max is Some && n.scaled > max->0.scaled,
        error_model(path, "number.max"@, resolve(messages, |m: NumberMessages| m.max,
            "Number must be at most "@ + decimal_text(max->0))),
    ) + report(
        integer == Some(true) && n.scaled % UNIT != 0,
        error_model(path, "number.integer"@, resolve(messages, |m: NumberMessages| m.integer,
            "Number must be an integer"@)),
    ) + report(
        positive == Some(true) && n.scaled <= 0,
        error_model(path, "number.positive"@, resolve(messages, |m: NumberMessages| m.positive,
            "Number must be positive"@)),
    )
}

pub open spec fn opt_chars(o: Option<String>) -> Option<Seq<char>> {
    match o {
        Some(s) => Some(s@),
        None => None,
    }
}

/// The schema's kind and the value's kind agree.
pub open spec fn kind_matches(schema: Schema, value: Value) -> bool {
    match schema {
        Schema::String { .. } => value is String,
        Schema::Number { .. } => value is Number,
        Schema::Boolean { .. } => value is Bool,
        Schema::Object { .. } => value is Object,
    }
}

/// The one error of a value whose kind does not match the schema.
pub open spec fn type_error(schema: Schema, path: Seq<Seq<char>>) -> ErrorModel {
    error_model(path, "invalid_type"@, match schema {
        Schema::String { messages, .. } => resolve(messages, |m: StringMessages| m.invalid_type, "Expected string"@),
        Schema::Number { messages, .. } => resolve(messages, |m: NumberMessages| m.invalid_type, "Expected number"@),
        Schema::Boolean { messages, .. } => resolve(messages, |m: crate::schema::BooleanMessages| m.invalid_type, "Expected boolean"@),
        Schema::Object { messages, .. } => resolve(messages, |m: ObjectMessages| m.invalid_type, "Expected object"@),
    })
}

/// Every error of `value` against `schema`, where `path` locates `value`.
pub open spec fn schema_errors(schema: Schema, value: Value, path: Seq<Seq<char>>) -> Seq<ErrorModel>
    decreases schema,
{
    if !kind_matches(schema, value) {
        seq![type_error(schema, path)]
    } else {
        match schema {
            Schema::String { min, max, email, url, pattern, messages, .. } => string_errors(
                value->String_0@, min, max, email, url, opt_chars(pattern), messages, path),
            Schema::Number { min, max, integer, positive, messages, .. } => number_errors(
                value->Number_0, min, max, integer, positive, messages, path),
            Schema::Boolean { .. } => Seq::empty(),
            Schema::Object { shape, messages, .. } => shape_errors(shape@, value->Object_0@, messages, path),
        }
    }
}

/// The errors of the fields that `shape` declares, field after field.
pub open spec fn shape_errors(
    shape: Seq<(String, Schema)>,
    fields: Seq<(String, Value)>,
    messages: Option<ObjectMessages>,
    path: Seq<Seq<char>>,
) -> Seq<ErrorModel>
    decreases shape,
{
    if shape.len() == 0 {
        Seq::empty()
    } else {
        let key = shape.last().0;
        let child = path.push(key@);
        shape_errors(shape.drop_last(), fields, messages, path) + match lookup(fields, key@) {
            Some(v) => schema_errors(shape.last().1, v, child),
            None => seq![required_error(key@, messages, child)],
        }
    }
}

/// The error of a declared field that the value lacks.
pub open spec fn required_error(key: Seq<char>, messages: Option<ObjectMessages>, child: Seq<Seq<char>>) -> ErrorModel {
    error_model(child, "required"@, resolve(messages, |m: ObjectMessages| m.required,
        "Field '"@ + key + "' is required"@))
}

/// The errors of one declared field: those of its value, or that it is missing.
pub open spec fn field_errors(
    key: String,
    sub: Schema,
    fields: Seq<(String, Value)>,
    messages: Option<ObjectMessages>,
    path: Seq<Seq<char>>,
) -> Seq<ErrorModel> {
    match lookup(fields, key@) {
        Some(v) => schema_errors(sub, v, path.push(key@)),
        None => seq![required_error(key@, messages, path.push(key@))],
    }
}

/// The sub-schema that `path` names, or the error that ends the walk.
pub open spec fn schema_at(schema: Schema, path: Seq<Seq<char>>) -> Result<Schema, ErrorModel>
    decreases path.len(),
{
    if path.len() == 0 {
        Ok(schema)
    } else {
        match schema {
            Schema::Object { shape, .. } => match lookup(shape@, path[0]) {
                Some(sub) => schema_at(sub, path.drop_first()),
                None => Err(error_model(seq![path[0]], "invalid_path"@,
                    "Path segment '"@ + path[0] + "' not found in schema"@)),
            },
            _ => Err(error_model(seq![path[0]], "invalid_path"@, "Cannot navigate non-object schema"@)),
        }
    }
}

// ---------------------------------------------------------------------------
// Building errors.

/// A copy of `path` with `key` appended, or just a copy when `key` is `None`.
fn copy_path(path: &[String], key: Option<&String>) -> (r: Vec<String>)
    ensures
        path_view(r@) == match key {
            Some(k) => path_view(path@).push(k@),
            None => path_view(path@),
        },
{
    let mut r: Vec<String> = Vec::new();
    let mut i: usize = 0;
    while i < path.len()
        invariant
            i <= path@.len(),
            r@.len() == i,
            forall|j: int| 0 <= j < i ==> #[trigger] r@[j]@ == path@[j]@,
        decreases path.len() - i,
    {
        r.push(path[i].clone());
        i = i + 1;
    }
    assert(path_view(r@) =~= path_view(path@));
    match key {
        Some(k) => {
            r.push(k.clone());
            assert(path_view(r@) =~= path_view(path@).push(k@));
        },
        None => {},
    }
    r
}

fn push_error(errors: &mut Vec<ValidationError>, path: &[String], code: &str, message: String)
    ensures
        models(final(errors)@) == models(old(errors)@).push(
            error_model(path_view(path@), code@, message@),
        ),
{
    let e = ValidationError::new(copy_path(path, None), String::from_str(code), message);
    errors.push(e);
    assert(models(errors@) =~= models(old(errors)@).push(e@));
}

fn extend_errors(errors: &mut Vec<ValidationError>, more: Vec<ValidationError>)
    ensures
        models(final(errors)@) == models(old(errors)@) + models(more@),
{
    let ghost added = more@;
    let mut more = more;
    errors.append(&mut more);
    assert(models(errors@) =~= models(old(errors)@) + models(added));
}

/// The override in `custom`, or else `default`.
fn message_or(custom: &Option<String>, default: String) -> (r: String)
    ensures
        r@ == match custom {
            Some(s) => s@,
            None => default@,
        },
{
    match custom {
        Some(s) => s.clone(),
        None => default,
    }
}

/// `text`, then the decimal digits of `n`, then `tail`.
fn quote_len(text: &str, n: usize, tail: &str) -> (r: String)
    ensures
        r@ == text@ + nat_text(n as nat) + tail@,
{
    let mut r = String::from_str(text);
    let digits = usize_text(n);
    r.append(digits.as_str());
    r.append(tail);
    r
}

/// `text`, then `quoted`, then `tail`.
fn quote(text: &str, quoted: &str, tail: &str) -> (r: String)
    ensures
        r@ == text@ + quoted@ + tail@,
{
    let mut r = String::from_str(text);
    r.append(quoted);
    r.append(tail);
    r
}

// ---------------------------------------------------------------------------
// Checks on strings.

fn starts_with(s: &str, prefix: &str) -> (r: bool)
    ensures
        r == prefix@.is_prefix_of(s@),
{
    let n = s.unicode_len();
    let m = prefix.unicode_len();
    if m > n {
        return false;
    }
    let mut i: usize = 0;
    while i < m
        invariant
            m <= n,
            n == s@.len(),
            m == prefix@.len(),
            i <= m,
            forall|j: int| 0 <= j < i ==> prefix@[j] == s@[j],
        decreases m - i,
    {
        if prefix.get_char(i) != s.get_char(i) {
            return false;
        }
        i = i + 1;
    }
    true
}

/// `needle` occurs in `s` starting at `at`.
fn occurs_at(s: &str, needle: &str, at: usize) -> (r: bool)
    requires
        at + needle@.len() <= s@.len() <= usize::MAX,
    ensures
        r == (s@.subrange(at as int, at + needle@.len()) == needle@),
{
    let m = needle.unicode_len();
    let mut i: usize = 0;
    while i < m
        invariant
            m == needle@.len(),
            at + m <= s@.len() <= usize::MAX,
            i <= m,
            forall|j: int| 0 <= j < i ==> needle@[j] == s@[at + j],
        decreases m - i,
    {
        if needle.get_char(i) != s.get_char(at + i) {
            assert(s@.subrange(at as int, at + needle@.len())[i as int] != needle@[i as int]);
            return false;
        }
        i = i + 1;
    }
    assert(s@.subrange(at as int, at + needle@.len()) =~= needle@);
    true
}

fn contains_str(s: &str, needle: &str) -> (r: bool)
    ensures
        r == contains(s@, needle@),
{
    let n = s.unicode_len();
    let m = needle.unicode_len();
    if m > n {
        return false;
    }
    let mut i: usize = 0;
    while i <= n - m
        invariant
            n == s@.len(),
            m == needle@.len(),
            m <= n,
            forall|j: int| 0 <= j < i ==> #[trigger] s@.subrange(j, j + m) != needle@,
        decreases n - m + 1 - i,
    {
        if occurs_at(s, needle, i) {
            return true;
        }
        if i == n - m {
            return false;
        }
        i = i + 1;
    }
    false
}

// ---------------------------------------------------------------------------
// The engine.

/// What `validate_at_path` reports: the walk's error, or the errors of the
/// value the path reaches against the sub-schema it names.
pub open spec fn at_path_errors(schema: Schema, value: Value, path: Seq<Seq<char>>) -> Seq<ErrorModel> {
    match schema_at(schema, path) {
        Ok(sub) => schema_errors(sub, value_at(value, path), path),
        Err(e) => seq![e],
    }
}

pub open spec fn navigated<'a>(r: Result<&'a Schema, Vec<ValidationError>>, expected: Result<Schema, ErrorModel>) -> bool {
    match expected {
        Ok(sub) => match r {
            Ok(s) => *s == sub,
            Err(_) => false,
        },
        Err(e) => match r {
            Ok(_) => false,
            Err(es) => models(es@) == seq![e],
        },
    }
}

/// Validates values against schemas.
pub struct Validator;

impl Validator {
    /// Validates `value` against `schema`, rooted at the empty path.
    pub fn validate(schema: &Schema, value: &Value) -> (r: ValidationResult)
        ensures
            result_is(r, schema_errors(*schema, *value, Seq::empty())),
    {
        let root: Vec<String> = Vec::new();
        assert(path_view(root@) =~= Seq::empty());
        Self::validate_with_path(schema, value, root.as_slice())
    }

    /// Validates the part of `value` that `path` reaches against the part of
    /// `schema` that it names; errors keep their full paths from the root.
    pub fn validate_at_path(schema: &Schema, value: &Value, path: &[String]) -> (r: ValidationResult)
        ensures
            result_is(r, at_path_errors(*schema, *value, path_view(path@))),
    {
        if path.len() == 0 {
            assert(path_view(path@) =~= Seq::empty());
            return Self::validate(schema, value);
        }
        let target_schema = match Self::navigate_schema(schema, path) {
            Ok(s) => s,
            Err(errors) => {
                return Err(errors);
            },
        };
        let null = Value::Null;
        let target_value = match Self::navigate_value(value, path) {
            Some(v) => v,
            None => &null,
        };
        Self::validate_with_path(target_schema, target_value, path)
    }

    fn validate_with_path(schema: &Schema, value: &Value, path: &[String]) -> (r: ValidationResult)
        ensures
            result_is(r, schema_errors(*schema, *value, path_view(path@))),
        decreases schema,
    {
        let mut errors: Vec<ValidationError> = Vec::new();
        match schema {
            Schema::String { min, max, email, url, pattern, messages, .. } => match value {
                Value::String(s) => {
                    let p = match pattern {
                        Some(p) => Some(p.as_str()),
                        None => None,
                    };
                    Self::validate_string(s.as_str(), *min, *max, *email, *url, p, messages, path, &mut errors);
                },
                _ => {
                    let msg = match messages {
                        Some(m) => message_or(&m.invalid_type, String::from_str("Expected string")),
                        None => String::from_str("Expected string"),
                    };
                    push_error(&mut errors, path, "invalid_type", msg);
                },
            },
            Schema::Number { min, max, integer, positive, messages, .. } => match value {
                Value::Number(n) => {
                    Self::validate_number(*n, *min, *max, *integer, *positive, messages, path, &mut errors);
                },
                _ => {
                    let msg = match messages {
                        Some(m) => message_or(&m.invalid_type, String::from_str("Expected number")),
                        None => String::from_str("Expected number"),
                    };
                    push_error(&mut errors, path, "invalid_type", msg);
                },
            },
            Schema::Boolean { messages, .. } => match value {
                Value::Bool(_) => {},
                _ => {
                    let msg = match messages {
                        Some(m) => message_or(&m.invalid_type, String::from_str("Expected boolean")),
                        None => String::from_str("Expected boolean"),
                    };
                    push_error(&mut errors, path, "invalid_type", msg);
                },
            },
            Schema::Object { shape, messages, .. } => match value {
                Value::Object(fields) => {
                    Self::validate_object(shape, fields, messages, path, &mut errors);
                },
                _ => {
                    let msg = match messages {
                        Some(m) => message_or(&m.invalid_type, String::from_str("Expected object")),
                        None => String::from_str("Expected object"),
                    };
                    push_error(&mut errors, path, "invalid_type", msg);
                },
            },
        }
        assert(models(errors@) =~= schema_errors(*schema, *value, path_view(path@)));
        if errors.len() == 0 {
            Ok(())
        } else {
            Err(errors)
        }
    }

    /// Appends the errors of the string `s` against each string constraint.
    pub fn validate_string(
        s: &str,
        min: Option<usize>,
        max: Option<usize>,
        email: Option<bool>,
        url: Option<bool>,
        pattern: Option<&str>,
        messages: &Option<StringMessages>,
        path: &[String],
        errors: &mut Vec<ValidationError>,
    )
        ensures
            models(final(errors)@) == models(old(errors)@) + string_errors(
                s@,
                min,
                max,
                email,
                url,
                match pattern {
                    Some(p) => Some(p@),
                    None => None,
                },
                *messages,
                path_view(path@),
            ),
    {
        let len = s.unicode_len();
        if let Some(min_len) = min {
            if len < min_len {
                let default = quote_len("String must be at least ", min_len, " characters");
                let msg = match messages {
                    Some(m) => message_or(&m.min, default),
                    None => default,
                };
                push_error(errors, path, "string.min", msg);
            }
        }
        if let Some(max_len) = max {
            if len > max_len {
                let default = quote_len("String must be at most ", max_len, " characters");
                let msg = match messages {
                    Some(m) => message_or(&m.max, default),
                    None => default,
                };
                push_error(errors, path, "string.max", msg);
            }
        }
        if email == Some(true) && !Self::is_valid_email(s) {
            let default = String::from_str("Invalid email address");
            let msg = match messages {
                Some(m) => message_or(&m.email, default),
                None => default,
            };
            push_error(errors, path, "string.email", msg);
        }
        if url == Some(true) && !Self::is_valid_url(s) {
            let default = String::from_str("Invalid URL");
            let msg = match messages {
                Some(m) => message_or(&m.url, default),
                None => default,
            };
            push_error(errors, path, "string.url", msg);
        }
        if let Some(needle) = pattern {
            if !contains_str(s, needle) {
                let mut default = String::from_str("String does not match pattern: ");
                default.append(needle);
                let msg = match messages {
                    Some(m) => message_or(&m.pattern, default),
                    None => default,
                };
                push_error(errors, path, "string.pattern", msg);
            }
        }
        assert(models(errors@) =~= models(old(errors)@) + string_errors(
            s@,
            min,
            max,
            email,
            url,
            match pattern {
                Some(p) => Some(p@),
                None => None,
            },
            *messages,
            path_view(path@),
        ));
    }

    /// Appends the errors of the number `n` against each number constraint.
    pub fn validate_number(
        n: Decimal,
        min: Option<Decimal>,
        max: Option<Decimal>,
        integer: Option<bool>,
        positive: Option<bool>,
        messages: &Option<NumberMessages>,
        path: &[String],
        errors: &mut Vec<ValidationError>,
    )
        ensures
            models(final(errors)@) == models(old(errors)@) + number_errors(
                n,
                min,
                max,
                integer,
                positive,
                *messages,
                path_view(path@),
            ),
    {
        if let Some(min_val) = min {
            if n.scaled < min_val.scaled {
                let mut default = String::from_str("Number must be at least ");
                let bound = decimal_to_text(min_val);
                default.append(bound.as_str());
                let msg = match messages {
                    Some(m) => message_or(&m.min, default),
                    None => default,
                };
                push_error(errors, path, "number.min", msg);
            }
        }
        if let Some(max_val) = max {
            if n.scaled > max_val.scaled {
                let mut default = String::from_str("Number must be at most ");
                let bound = decimal_to_text(max_val);
                default.append(bound.as_str());
                let msg = match messages {
                    Some(m) => message_or(&m.max, default),
                    None => default,
                };
                push_error(errors, path, "number.max", msg);
            }
        }
        if integer == Some(true) && n.scaled % UNIT != 0 {
            let default = String::from_str("Number must be an integer");
            let msg = match messages {
                Some(m) => message_or(&m.integer, default),
                None => default,
            };
            push_error(errors, path, "number.integer", msg);
        }
        if positive == Some(true) && n.scaled <= 0 {
            let default = String::from_str("Number must be positive");
            let msg = match messages {
                Some(m) => message_or(&m.positive, default),
                None => default,
            };
            push_error(errors, path, "number.positive", msg);
        }
        assert(models(errors@) =~= models(old(errors)@) + number_errors(
            n,
            min,
            max,
            integer,
            positive,
            *messages,
            path_view(path@),
        ));
    }

    /// Appends the errors of each field that `shape` declares.
    fn validate_object(
        shape: &Vec<(String, Schema)>,
        obj: &Vec<(String, Value)>,
        messages: &Option<ObjectMessages>,
        path: &[String],
        errors: &mut Vec<ValidationError>,
    )
        ensures
            models(final(errors)@) == models(old(errors)@) + shape_errors(
                shape@,
                obj@,
                *messages,
                path_view(path@),
            ),
        decreases shape,
    {
        let mut i: usize = 0;
        while i < shape.len()
            invariant
                i <= shape@.len(),
                models(errors@) == models(old(errors)@) + shape_errors(
                    shape@.subrange(0, i as int),
                    obj@,
                    *messages,
                    path_view(path@),
                ),
            decreases shape.len() - i,
        {
            let entry = &shape[i];
            let key = &entry.0;
            let field_path = copy_path(path, Some(key));
            let ghost before = models(errors@);
            match find_entry(obj, key) {
                Some(v) => {
                    proof {
                        assert(decreases_to!(shape => shape@[i as int]));
                    }
                    match Self::validate_with_path(&entry.1, v, field_path.as_slice()) {
                        Ok(()) => {},
                        Err(field_errors) => extend_errors(errors, field_errors),
                    }
                },
                None => {
                    let default = quote("Field '", key.as_str(), "' is required");
                    let msg = match messages {
                        Some(m) => message_or(&m.required, default),
                        None => default,
                    };
                    push_error(errors, field_path.as_slice(), "required", msg);
                },
            }
            proof {
                let done = shape@.subrange(0, i + 1);
                assert(done.drop_last() =~= shape@.subrange(0, i as int));
                assert(done.last() == shape@[i as int]);
                assert(models(errors@) =~= before + field_errors(
                    shape@[i as int].0,
                    shape@[i as int].1,
                    obj@,
                    *messages,
                    path_view(path@),
                ));
            }
            i = i + 1;
        }
        assert(shape@.subrange(0, shape@.len() as int) =~= shape@);
    }

    /// The sub-schema that `path` names.
    fn navigate_schema<'a>(schema: &'a Schema, path: &[String]) -> (r: Result<&'a Schema, Vec<ValidationError>>)
        ensures
            navigated(r, schema_at(*schema, path_view(path@))),
    {
        let ghost pv = path_view(path@);
        let mut current: &'a Schema = schema;
        let mut i: usize = 0;
        assert(pv.subrange(0, pv.len() as int) =~= pv);
        while i < path.len()
            invariant
                i <= path@.len(),
                pv == path_view(path@),
                schema_at(*schema, pv) == schema_at(*current, pv.subrange(i as int, pv.len() as int)),
            decreases path.len() - i,
        {
            let segment = &path[i];
            let ghost rest = pv.subrange(i as int, pv.len() as int);
            assert(rest[0] == segment@);
            assert(rest.drop_first() =~= pv.subrange(i + 1, pv.len() as int));
            match current {
                Schema::Object { shape, .. } => match find_entry(shape, segment) {
                    Some(sub) => {
                        current = sub;
                    },
                    None => {
                        let msg = quote("Path segment '", segment.as_str(), "' not found in schema");
                        return Err(Self::path_failure(segment, msg));
                    },
                },
                _ => {
                    let msg = String::from_str("Cannot navigate non-object schema");
                    return Err(Self::path_failure(segment, msg));
                },
            }
            i = i + 1;
        }
        Ok(current)
    }

    /// The single `invalid_path` error at `segment`.
    fn path_failure(segment: &String, message: String) -> (r: Vec<ValidationError>)
        ensures
            models(r@) == seq![error_model(seq![segment@], "invalid_path"@, message@)],
    {
        let mut p: Vec<String> = Vec::new();
        p.push(segment.clone());
        assert(path_view(p@) =~= seq![segment@]);
        let e = ValidationError::new(p, String::from_str("invalid_path"), message);
        let mut r: Vec<ValidationError> = Vec::new();
        r.push(e);
        assert(models(r@) =~= seq![e@]);
        r
    }

    /// The value that `path` reaches; `None` stands for `Null`.
    fn navigate_value<'a>(value: &'a Value, path: &[String]) -> (r: Option<&'a Value>)
        ensures
            match r {
                Some(v) => value_at(*value, path_view(path@)) == *v,
                None => value_at(*value, path_view(path@)) == Value::Null,
            },
    {
        let ghost pv = path_view(path@);
        let mut current: &'a Value = value;
        let mut i: usize = 0;
        assert(pv.subrange(0, pv.len() as int) =~= pv);
        while i < path.len()
            invariant
                i <= path@.len(),
                pv == path_view(path@),
                value_at(*value, pv) == value_at(*current, pv.subrange(i as int, pv.len() as int)),
            decreases path.len() - i,
        {
            let segment = &path[i];
            let ghost rest = pv.subrange(i as int, pv.len() as int);
            assert(rest[0] == segment@);
            assert(rest.drop_first() =~= pv.subrange(i + 1, pv.len() as int));
            proof {
                lemma_value_at_null(rest.drop_first());
            }
            match current {
                Value::Object(fields) => match find_entry(fields, segment) {
                    Some(v) => {
                        current = v;
                    },
                    None => {
                        return None;
                    },
                },
                _ => {
                    return None;
                },
            }
            i = i + 1;
        }
        Some(current)
    }

    /// Exactly one `@`, which is neither the first nor the last character.
    pub fn is_valid_email(s: &str) -> (r: bool)
        ensures
            r == is_email(s@),
    {
        let n = s.unicode_len();
        if n == 0 {
            return false;
        }
        let mut count: usize = 0;
        let mut i: usize = 0;
        assert(s@.subrange(0, 0) =~= Seq::<char>::empty());
        while i < n
            invariant
                n == s@.len(),
                i <= n,
                count <= i,
                count == count_char(s@.subrange(0, i as int), '@'),
            decreases n - i,
        {
            assert(s@.subrange(0, i + 1).drop_last() =~= s@.subrange(0, i as int));
            if s.get_char(i) == '@' {
                count = count + 1;
            }
            i = i + 1;
        }
        assert(s@.subrange(0, n as int) =~= s@);
        count == 1 && s.get_char(0) != '@' && s.get_char(n - 1) != '@'
    }

    /// Begins with `http://` or `https://`.
    pub fn is_valid_url(s: &str) -> (r: bool)
        ensures
            r == is_url(s@),
    {
        starts_with(s, "http://") || starts_with(s, "https://")
    }
}

} // verus!
