//! Validation of structured values against declarative schemas.
pub mod laws;
pub mod schema;
pub mod text;
pub mod validator;
pub mod value;

pub use schema::{
    BooleanMessages, NumberMessages, ObjectMessages, Schema, StringMessages, UiConfig,
    ValidationError, ValidationResult,
};
pub use validator::Validator;
pub use value::{Decimal, Value};
