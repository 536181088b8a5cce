//! Laws of the validation engine, proved from the specifications that the
//! engine's functions meet.
use vstd::prelude::*;

use crate::schema::{error_model, models, ErrorModel, Schema, ValidationResult, ObjectMessages};
use crate::validator::{
    at_path_errors, field_errors, kind_matches, required_error, schema_at, schema_errors, shape_errors,
    type_error, string_errors, number_errors, opt_chars,
};
use crate::value::{lookup, value_at, Value};

verus! {

broadcast use vstd::std_specs::vec::group_vec_axioms, vstd::seq::group_seq_axioms;

/// `errors`, each with `prefix` put in front of its path.
pub open spec fn prefixed(prefix: Seq<Seq<char>>, errors: Seq<ErrorModel>) -> Seq<ErrorModel> {
    errors.map_values(|e: ErrorModel| error_model(prefix + e.path, e.code, e.message))
}

/// The set of paths at which `errors` are reported.
pub open spec fn paths_of(errors: Seq<ErrorModel>) -> Set<Seq<Seq<char>>> {
    errors.map_values(|e: ErrorModel| e.path).to_set()
}

/// Validation is a function of the schema and the value: two results that
/// each meet the contract of `validate` agree on success and on every error.
pub proof fn lemma_validation_deterministic(
    schema: Schema,
    value: Value,
    first: ValidationResult,
    second: ValidationResult,
)
    requires
        crate::schema::result_is(first, schema_errors(schema, value, Seq::empty())),
        crate::schema::result_is(second, schema_errors(schema, value, Seq::empty())),
    ensures
        first is Ok <==> second is Ok,
        first is Err ==> models(first->Err_0@) == models(second->Err_0@),
{
}

/// The fields of an object schema are checked one after the other: the errors
/// are those of the last field appended to those of the others.
pub proof fn lemma_shape_errors_last(
    shape: Seq<(String, Schema)>,
    fields: Seq<(String, Value)>,
    messages: Option<ObjectMessages>,
    path: Seq<Seq<char>>,
)
    requires
        shape.len() > 0,
    ensures
        shape_errors(shape, fields, messages, path) == shape_errors(shape.drop_last(), fields, messages, path)
            + field_errors(shape.last().0, shape.last().1, fields, messages, path),
{
}

/// An error of a declared object is an error of one of its fields, and every
/// error of every field is among the object's errors.
pub proof fn lemma_shape_errors_members(
    shape: Seq<(String, Schema)>,
    fields: Seq<(String, Value)>,
    messages: Option<ObjectMessages>,
    path: Seq<Seq<char>>,
)
    ensures
        forall|e: ErrorModel| #[trigger] shape_errors(shape, fields, messages, path).contains(e) <==> exists|k: int|
            0 <= k < shape.len() && #[trigger] field_errors(shape[k].0, shape[k].1, fields, messages, path).contains(e),
    decreases shape.len(),
{
    if shape.len() > 0 {
        let init = shape.drop_last();
        lemma_shape_errors_members(init, fields, messages, path);
        lemma_shape_errors_last(shape, fields, messages, path);
        let a = shape_errors(init, fields, messages, path);
        let last = shape.last();
        let b = field_errors(last.0, last.1, fields, messages, path);
        assert forall|e: ErrorModel| #[trigger] shape_errors(shape, fields, messages, path).contains(e) implies exists|k: int|
            0 <= k < shape.len() && #[trigger] field_errors(shape[k].0, shape[k].1, fields, messages, path).contains(e) by {
            let i = choose|i: int| 0 <= i < (a + b).len() && (a + b)[i] == e;
            if i < a.len() {
                assert(a.contains(e)) by { assert(a[i] == e); }
                let k = choose|k: int| 0 <= k < init.len() && #[trigger] field_errors(init[k].0, init[k].1, fields, messages, path).contains(e);
                assert(init[k] == shape[k]);
                assert(field_errors(shape[k].0, shape[k].1, fields, messages, path).contains(e));
            } else {
                assert(b[i - a.len()] == e);
                assert(shape[shape.len() - 1] == last);
                assert(field_errors(shape[shape.len() - 1].0, shape[shape.len() - 1].1, fields, messages, path).contains(e));
            }
        }
        assert forall|e: ErrorModel| (exists|k: int|
            0 <= k < shape.len() && #[trigger] field_errors(shape[k].0, shape[k].1, fields, messages, path).contains(e))
            implies #[trigger] shape_errors(shape, fields, messages, path).contains(e) by {
            let k = choose|k: int| 0 <= k < shape.len() && #[trigger] field_errors(shape[k].0, shape[k].1, fields, messages, path).contains(e);
            if k < shape.len() - 1 {
                assert(init[k] == shape[k]);
                assert(a.contains(e));
                let i = choose|i: int| 0 <= i < a.len() && a[i] == e;
                assert((a + b)[i] == e);
            } else {
                let i = choose|i: int| 0 <= i < b.len() && b[i] == e;
                assert((a + b)[a.len() + i] == e);
            }
        }
    }
}

/// Completeness: for an object schema and an object value, the errors are
/// exactly the errors of the declared fields taken together, so the paths that
/// fail are exactly the union of the paths at which each field fails. No
/// field's failure is lost because a sibling also fails.
pub proof fn lemma_object_errors_complete(schema: Schema, value: Value, path: Seq<Seq<char>>)
    requires
        schema is Object,
        value is Object,
    ensures
        forall|e: ErrorModel| #[trigger] schema_errors(schema, value, path).contains(e) <==> exists|k: int|
            0 <= k < schema->shape@.len() && #[trigger] field_errors(
                schema->shape@[k].0,
                schema->shape@[k].1,
                value->Object_0@,
                schema->Object_messages,
                path,
            ).contains(e),
        paths_of(schema_errors(schema, value, path)) == Set::new(
            |p: Seq<Seq<char>>| exists|k: int|
                0 <= k < schema->shape@.len() && #[trigger] paths_of(field_errors(
                    schema->shape@[k].0,
                    schema->shape@[k].1,
                    value->Object_0@,
                    schema->Object_messages,
                    path,
                )).contains(p),
        ),
{
    let shape = schema->shape@;
    let fields = value->Object_0@;
    let messages = schema->Object_messages;
    lemma_shape_errors_members(shape, fields, messages, path);
    let all = schema_errors(schema, value, path);
    let paths = all.map_values(|e: ErrorModel| e.path);
    assert(all == shape_errors(shape, fields, messages, path));
    let union = Set::new(
        |p: Seq<Seq<char>>| exists|k: int|
            0 <= k < shape.len() && #[trigger] paths_of(field_errors(shape[k].0, shape[k].1, fields, messages, path)).contains(p),
    );
    assert forall|p: Seq<Seq<char>>| paths.to_set().contains(p) implies union.contains(p) by {
        let i = choose|i: int| 0 <= i < paths.len() && paths[i] == p;
        assert(all.contains(all[i]));
        let k = choose|k: int| 0 <= k < shape.len() && #[trigger] field_errors(shape[k].0, shape[k].1, fields, messages, path).contains(all[i]);
        let fe = field_errors(shape[k].0, shape[k].1, fields, messages, path);
        let j = choose|j: int| 0 <= j < fe.len() && fe[j] == all[i];
        assert(fe.map_values(|e: ErrorModel| e.path)[j] == p);
        assert(paths_of(fe).contains(p));
    }
    assert forall|p: Seq<Seq<char>>| union.contains(p) implies paths.to_set().contains(p) by {
        let k = choose|k: int| 0 <= k < shape.len() && #[trigger] paths_of(field_errors(shape[k].0, shape[k].1, fields, messages, path)).contains(p);
        let fe = field_errors(shape[k].0, shape[k].1, fields, messages, path);
        let fp = fe.map_values(|e: ErrorModel| e.path);
        let j = choose|j: int| 0 <= j < fp.len() && fp[j] == p;
        assert(fe.contains(fe[j]));
        assert(all.contains(fe[j]));
        let i = choose|i: int| 0 <= i < all.len() && all[i] == fe[j];
        assert(paths[i] == p);
    }
    assert(paths.to_set() =~= union);
    assert(paths_of(all) == paths.to_set());
}

/// No coercion: a value whose kind differs from the schema's gets exactly one
/// `invalid_type` error, at its own path, and no constraint is checked on it.
pub proof fn lemma_no_coercion(schema: Schema, value: Value, path: Seq<Seq<char>>)
    requires
        !kind_matches(schema, value),
    ensures
        schema_errors(schema, value, path) == seq![type_error(schema, path)],
        type_error(schema, path).code == "invalid_type"@,
        type_error(schema, path).path == path,
{
}

/// Required fields: when an object value lacks a field that its object schema
/// declares, a `required` error names that field's path, whatever the other
/// fields hold.
pub proof fn lemma_missing_field_required(schema: Schema, value: Value, path: Seq<Seq<char>>, k: int)
    requires
        schema is Object,
        value is Object,
        0 <= k < schema->shape@.len(),
        lookup(value->Object_0@, schema->shape@[k].0@) is None,
    ensures
        schema_errors(schema, value, path).contains(
            required_error(schema->shape@[k].0@, schema->Object_messages, path.push(schema->shape@[k].0@)),
        ),
        exists|e: ErrorModel| #[trigger] schema_errors(schema, value, path).contains(e)
            && e.code == "required"@ && e.path == path.push(schema->shape@[k].0@),
{
    let key = schema->shape@[k].0;
    let e = required_error(key@, schema->Object_messages, path.push(key@));
    lemma_object_errors_complete(schema, value, path);
    let fe = field_errors(key, schema->shape@[k].1, value->Object_0@, schema->Object_messages, path);
    assert(fe == seq![e]);
    assert(fe[0] == e);
    assert(fe.contains(e));
    assert(schema_errors(schema, value, path).contains(e));
}

proof fn lemma_prefixed_concat(prefix: Seq<Seq<char>>, a: Seq<ErrorModel>, b: Seq<ErrorModel>)
    ensures
        prefixed(prefix, a + b) == prefixed(prefix, a) + prefixed(prefix, b),
{
    assert(prefixed(prefix, a + b) =~= prefixed(prefix, a) + prefixed(prefix, b));
}

/// Validating at a longer path only puts the extra prefix in front of every
/// error's path.
pub proof fn lemma_schema_errors_prefix(schema: Schema, value: Value, prefix: Seq<Seq<char>>, path: Seq<Seq<char>>)
    ensures
        schema_errors(schema, value, prefix + path) == prefixed(prefix, schema_errors(schema, value, path)),
    decreases schema,
{
    let full = prefix + path;
    if !kind_matches(schema, value) {
        assert(prefixed(prefix, seq![type_error(schema, path)]) =~= seq![type_error(schema, full)]);
    } else {
        match schema {
            Schema::String { min, max, email, url, pattern, messages, .. } => {
                lemma_string_errors_prefix(value->String_0@, min, max, email, url, opt_chars(pattern), messages, prefix, path);
            },
            Schema::Number { min, max, integer, positive, messages, .. } => {
                lemma_number_errors_prefix(value->Number_0, min, max, integer, positive, messages, prefix, path);
            },
            Schema::Boolean { .. } => {
                assert(prefixed(prefix, Seq::empty()) =~= Seq::empty());
            },
            Schema::Object { shape, messages, .. } => {
                lemma_shape_errors_prefix(shape@, value->Object_0@, messages, prefix, path);
            },
        }
    }
}

proof fn lemma_string_errors_prefix(
    s: Seq<char>,
    min: Option<usize>,
    max: Option<usize>,
    email: Option<bool>,
    url: Option<bool>,
    pattern: Option<Seq<char>>,
    messages: Option<crate::schema::StringMessages>,
    prefix: Seq<Seq<char>>,
    path: Seq<Seq<char>>,
)
    ensures
        string_errors(s, min, max, email, url, pattern, messages, prefix + path) == prefixed(
            prefix,
            string_errors(s, min, max, email, url, pattern, messages, path),
        ),
{
    let e = string_errors(s, min, max, email, url, pattern, messages, path);
    assert(prefixed(prefix, e) =~= string_errors(s, min, max, email, url, pattern, messages, prefix + path));
}

proof fn lemma_number_errors_prefix(
    n: crate::value::Decimal,
    min: Option<crate::value::Decimal>,
    max: Option<crate::value::Decimal>,
    integer: Option<bool>,
    positive: Option<bool>,
    messages: Option<crate::schema::NumberMessages>,
    prefix: Seq<Seq<char>>,
    path: Seq<Seq<char>>,
)
    ensures
        number_errors(n, min, max, integer, positive, messages, prefix + path) == prefixed(
            prefix,
            number_errors(n, min, max, integer, positive, messages, path),
        ),
{
    let e = number_errors(n, min, max, integer, positive, messages, path);
    assert(prefixed(prefix, e) =~= number_errors(n, min, max, integer, positive, messages, prefix + path));
}

/// The field-by-field form of `lemma_schema_errors_prefix`.
pub proof fn lemma_shape_errors_prefix(
    shape: Seq<(String, Schema)>,
    fields: Seq<(String, Value)>,
    messages: Option<ObjectMessages>,
    prefix: Seq<Seq<char>>,
    path: Seq<Seq<char>>,
)
    ensures
        shape_errors(shape, fields, messages, prefix + path) == prefixed(
            prefix,
            shape_errors(shape, fields, messages, path),
        ),
    decreases shape,
{
    if shape.len() == 0 {
        assert(prefixed(prefix, Seq::empty()) =~= Seq::empty());
    } else {
        let init = shape.drop_last();
        let key = shape.last().0;
        lemma_shape_errors_prefix(init, fields, messages, prefix, path);
        assert((prefix + path).push(key@) =~= prefix + path.push(key@));
        let tail = match lookup(fields, key@) {
            Some(v) => schema_errors(shape.last().1, v, path.push(key@)),
            None => seq![required_error(key@, messages, path.push(key@))],
        };
        match lookup(fields, key@) {
            Some(v) => {
                lemma_schema_errors_prefix(shape.last().1, v, prefix, path.push(key@));
            },
            None => {
                assert(prefixed(prefix, tail) =~= seq![required_error(key@, messages, prefix + path.push(key@))]);
            },
        }
        lemma_prefixed_concat(prefix, shape_errors(init, fields, messages, path), tail);
    }
}

/// Path equivalence: on a path that names a sub-schema, `validate_at_path`
/// reports what validating the sub-value against the sub-schema from the root
/// reports, with the path put in front of every error's path.
pub proof fn lemma_path_equivalence(schema: Schema, value: Value, path: Seq<Seq<char>>)
    requires
        schema_at(schema, path) is Ok,
    ensures
        at_path_errors(schema, value, path) == prefixed(
            path,
            schema_errors(schema_at(schema, path)->Ok_0, value_at(value, path), Seq::empty()),
        ),
{
    let sub = schema_at(schema, path)->Ok_0;
    lemma_schema_errors_prefix(sub, value_at(value, path), path, Seq::empty());
    assert(path + Seq::<Seq<char>>::empty() =~= path);
}

} // verus!
