//! The schema tree, the error records the engine produces, and their models.
use vstd::prelude::*;

use crate::value::{keys_unique, Decimal};

verus! {

/// A declarative description of the values that are accepted.
///
/// Every constraint is optional: an absent constraint is not enforced.
/// `ui` is presentational metadata and never affects the outcome.
#[derive(Debug)]
#[allow(inconsistent_fields)]
pub enum Schema {
    String {
        min: Option<usize>,
        max: Option<usize>,
        email: Option<bool>,
        url: Option<bool>,
        pattern: Option<String>,
        ui: Option<UiConfig>,
        messages: Option<StringMessages>,
    },
    Number {
        min: Option<Decimal>,
        max: Option<Decimal>,
        integer: Option<bool>,
        positive: Option<bool>,
        ui: Option<UiConfig>,
        messages: Option<NumberMessages>,
    },
    Boolean { ui: Option<UiConfig>, messages: Option<BooleanMessages> },
    /// `shape` lists the required fields, each name with the schema of its value.
    Object { shape: Vec<(String, Schema)>, ui: Option<UiConfig>, messages: Option<ObjectMessages> },
}

impl Schema {
    /// Every object node names each of its fields once.
    pub open spec fn well_formed(self) -> bool
        decreases self,
    {
        match self {
            Schema::Object { shape, .. } => keys_unique(shape@) && shape_well_formed(shape@),
            _ => true,
        }
    }

    /// Tests that every object node names each of its fields once.
    pub fn is_well_formed(&self) -> (r: bool)
        ensures
            r == self.well_formed(),
        decreases self,
    {
        match self {
            Schema::Object { shape, .. } => crate::value::has_unique_keys(shape) && Self::all_well_formed(shape),
            _ => true,
        }
    }

    fn all_well_formed(shape: &Vec<(String, Schema)>) -> (r: bool)
        ensures
            r == shape_well_formed(shape@),
        decreases shape,
    {
        let mut i: usize = 0;
        assert(shape@.subrange(0, shape@.len() as int) =~= shape@);
        while i < shape.len()
            invariant
                i <= shape@.len(),
                shape_well_formed(shape@) == shape_well_formed(shape@.subrange(i as int, shape@.len() as int)),
            decreases shape.len() - i,
        {
            let ghost rest = shape@.subrange(i as int, shape@.len() as int);
            assert(rest.drop_first() =~= shape@.subrange(i + 1, shape@.len() as int));
            assert(rest[0] == shape@[i as int]);
            proof {
                assert(decreases_to!(shape => shape@[i as int]));
            }
            if !shape[i].1.is_well_formed() {
                return false;
            }
            i = i + 1;
        }
        true
    }
}

/// Each schema in `shape` is well formed.
pub open spec fn shape_well_formed(shape: Seq<(String, Schema)>) -> bool
    decreases shape,
{
    shape.len() == 0 || (shape[0].1.well_formed() && shape_well_formed(shape.drop_first()))
}

/// Message overrides for the failures of a string schema.
#[derive(Debug, Clone)]
pub struct StringMessages {
    pub invalid_type: Option<String>,
    pub min: Option<String>,
    pub max: Option<String>,
    pub email: Option<String>,
    pub url: Option<String>,
    pub pattern: Option<String>,
}

/// Message overrides for the failures of a number schema.
#[derive(Debug, Clone)]
pub struct NumberMessages {
    pub invalid_type: Option<String>,
    pub min: Option<String>,
    pub max: Option<String>,
    pub integer: Option<String>,
    pub positive: Option<String>,
}

/// Message overrides for the failures of a boolean schema.
#[derive(Debug, Clone)]
pub struct BooleanMessages {
    pub invalid_type: Option<String>,
}

/// Message overrides for the failures of an object schema.
#[derive(Debug, Clone)]
pub struct ObjectMessages {
    pub invalid_type: Option<String>,
    pub required: Option<String>,
}

/// Presentational metadata for form rendering.
#[derive(Debug, Clone)]
pub struct UiConfig {
    pub label: Option<String>,
    pub placeholder: Option<String>,
    pub description: Option<String>,
}

/// The mathematical content of a [`ValidationError`].
pub struct ErrorModel {
    pub path: Seq<Seq<char>>,
    pub code: Seq<char>,
    pub message: Seq<char>,
}

/// One failure, located by the path of field names from the root of the value.
#[derive(Debug, Clone)]
pub struct ValidationError {
    pub path: Vec<String>,
    pub code: String,
    pub message: String,
}

/// The characters of each segment of a path.
pub open spec fn path_view(p: Seq<String>) -> Seq<Seq<char>> {
    p.map_values(|s: String| s@)
}

pub open spec fn error_model(path: Seq<Seq<char>>, code: Seq<char>, message: Seq<char>) -> ErrorModel {
    ErrorModel { path, code, message }
}

impl View for ValidationError {
    type V = ErrorModel;

    open spec fn view(&self) -> ErrorModel {
        error_model(path_view(self.path@), self.code@, self.message@)
    }
}

/// The models of a list of errors, in order.
pub open spec fn models(errors: Seq<ValidationError>) -> Seq<ErrorModel> {
    errors.map_values(|e: ValidationError| e@)
}

impl ValidationError {
    pub fn new(path: Vec<String>, code: String, message: String) -> (r: Self)
        ensures
            r@ == error_model(path_view(path@), code@, message@),
    {
        ValidationError { path, code, message }
    }
}

/// Success, or the non-empty list of every failure found.
pub type ValidationResult = Result<(), Vec<ValidationError>>;

/// `r` is success exactly when `expected` is empty, and otherwise lists `expected`.
pub open spec fn result_is(r: ValidationResult, expected: Seq<ErrorModel>) -> bool {
    match r {
        Ok(()) => expected.len() == 0,
        Err(errors) => expected.len() > 0 && models(errors@) == expected,
    }
}

} // verus!
