//! Accumulating validation primitives: the per-field error, the trait that
//! validated types implement, the rejection that carries every collected
//! error, and the decisions of the JSON body and query extractors.

use vstd::prelude::*;

verus! {

/// A single validation failure for a named field.
#[derive(Debug, Clone)]
pub struct FieldError {
    pub field: String,
    pub message: String,
}

impl FieldError {
    /// An error for `field` carrying `message`.
    pub fn new(field: &str, message: &str) -> (r: Self)
        ensures
            r.field@ == field@,
            r.message@ == message@,
    {
        FieldError { field: field.to_owned(), message: message.to_owned() }
    }
}

/// The outcome of validating a value: the value itself, or every error found.
pub type ValidationResult<T> = Result<T, Vec<FieldError>>;

/// The outcome of a request handler that can fail validation.
pub type HandlerResult<T> = Result<T, ValidationRejection>;

/// Types that validate themselves, returning all errors at once.
///
/// `validate` answers `Ok(self)` when every check passes, or `Err` with every
/// accumulated failure; nothing short-circuits.
pub trait Validatable: Sized {
    fn validate(self) -> (r: ValidationResult<Self>)
        ensures
            r matches Ok(v) ==> v == self,
    ;
}

/// The rejection produced when a validating extractor finds errors; it is
/// answered with status 422 and the list of errors.
pub struct ValidationRejection(pub Vec<FieldError>);

impl ValidationRejection {
    /// The HTTP status a rejection is answered with: 422 Unprocessable Entity.
    pub fn status_code(&self) -> (r: u16)
        ensures
            r == 422,
    {
        422
    }
}

/// The rejection that a failed validation maps to, the value it lets through
/// otherwise.
pub open spec fn rejection_of<T>(validated: ValidationResult<T>) -> Result<T, ValidationRejection> {
    match validated {
        Ok(v) => Ok(v),
        Err(errors) => Err(ValidationRejection(errors)),
    }
}

/// A rejection that holds exactly one error, for `field`, carrying `message`.
pub open spec fn single_error(rej: ValidationRejection, field: Seq<char>, message: Seq<char>) -> bool {
    &&& rej.0@.len() == 1
    &&& rej.0@[0].field@ == field
    &&& rej.0@[0].message@ == message
}

fn reject_source(field: &str, message: String) -> (r: ValidationRejection)
    ensures
        single_error(r, field@, message@),
{
    let mut errors: Vec<FieldError> = Vec::new();
    errors.push(FieldError { field: field.to_owned(), message });
    ValidationRejection(errors)
}

/// A request body deserialised from JSON and then validated.
pub struct ValidatedJson<T>(pub T);

impl<T: Validatable> ValidatedJson<T> {
    /// What the extractor answers for a validation outcome.
    pub fn from_validation(validated: ValidationResult<T>) -> (r: Result<Self, ValidationRejection>)
        ensures
            r == match rejection_of(validated) {
                Ok(v) => Ok(ValidatedJson(v)),
                Err(rej) => Err(rej),
            },
    {
        match validated {
            Ok(v) => Ok(ValidatedJson(v)),
            Err(errors) => Err(ValidationRejection(errors)),
        }
    }

    /// What the extractor answers once the body has been deserialised:
    /// a body that did not deserialise is rejected with one error for the
    /// field `body` carrying the deserialiser's message; a body that did is
    /// validated and answered as [`Self::from_validation`] says.
    pub fn from_extraction(extracted: Result<T, String>) -> (r: Result<Self, ValidationRejection>)
        ensures
            extracted matches Err(msg) ==> r matches Err(rej) && single_error(rej, "body"@, msg@),
            extracted matches Ok(v) ==> exists|validated: ValidationResult<T>|
                call_ensures(T::validate, (v,), validated) && r == match rejection_of(validated) {
                    Ok(w) => Ok(ValidatedJson(w)),
                    Err(rej) => Err(rej),
                },
    {
        match extracted {
            Ok(v) => {
                let validated = v.validate();
                Self::from_validation(validated)
            },
            Err(msg) => Err(reject_source("body", msg)),
        }
    }
}

/// Query parameters parsed and then validated.
pub struct ValidatedQuery<T>(pub T);

impl<T: Validatable> ValidatedQuery<T> {
    /// What the extractor answers for a validation outcome.
    pub fn from_validation(validated: ValidationResult<T>) -> (r: Result<Self, ValidationRejection>)
        ensures
            r == match rejection_of(validated) {
                Ok(v) => Ok(ValidatedQuery(v)),
                Err(rej) => Err(rej),
            },
    {
        match validated {
            Ok(v) => Ok(ValidatedQuery(v)),
            Err(errors) => Err(ValidationRejection(errors)),
        }
    }

    /// What the extractor answers once the query string has been parsed:
    /// a query that did not parse is rejected with one error for the field
    /// `query` carrying the parser's message; a query that did is validated
    /// and answered as [`Self::from_validation`] says.
    pub fn from_extraction(extracted: Result<T, String>) -> (r: Result<Self, ValidationRejection>)
        ensures
            extracted matches Err(msg) ==> r matches Err(rej) && single_error(rej, "query"@, msg@),
            extracted matches Ok(v) ==> exists|validated: ValidationResult<T>|
                call_ensures(T::validate, (v,), validated) && r == match rejection_of(validated) {
                    Ok(w) => Ok(ValidatedQuery(w)),
                    Err(rej) => Err(rej),
                },
    {
        match extracted {
            Ok(v) => {
                let validated = v.validate();
                Self::from_validation(validated)
            },
            Err(msg) => Err(reject_source("query", msg)),
        }
    }
}

} // verus!
