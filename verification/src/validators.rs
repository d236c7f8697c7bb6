//! Intrinsic field validators.
//!
//! Every function here is a pure function of its inputs: it checks a property
//! of the value itself (format, length, range) and answers `Ok(())` or a
//! [`FieldError`] naming the field. The accepted formats are stated in
//! [`crate::formats`].

use vstd::prelude::*;
use vstd::std_specs::cmp::{PartialOrdIs, PartialOrdSpec};
use vstd::string::to_string_from_display_ensures;
use crate::chars::{char_vec, decimal, push_decimal};
use crate::formats::{
    ca_postal_chars, email_chars, has_non_white_space, is_ca_postal, is_email, is_http_url,
    is_phone_e164, is_us_zip, is_uuid_v4, non_blank_chars, phone_e164_chars, url_chars,
    us_zip_chars, uuid_chars,
};
use crate::pattern::{regex_compiles, regex_finds, Pattern};
use crate::validation::FieldError;

verus! {

/// `e` names `field` and carries `message`.
pub open spec fn field_error(e: FieldError, field: Seq<char>, message: Seq<char>) -> bool {
    e.field@ == field && e.message@ == message
}

/// Validates that `value` looks like an e-mail address ([`is_email`]).
pub fn validate_email(field: &str, value: &str) -> (r: Result<(), FieldError>)
    ensures
        r is Ok <==> is_email(value@),
        r matches Err(e) ==> field_error(e, field@, "invalid email address"@),
{
    if email_chars(&char_vec(value)) {
        Ok(())
    } else {
        Err(FieldError::new(field, "invalid email address"))
    }
}

/// Validates that `value` is a well-formed HTTP/HTTPS URL ([`is_http_url`]).
pub fn validate_url(field: &str, value: &str) -> (r: Result<(), FieldError>)
    ensures
        r is Ok <==> is_http_url(value@),
        r matches Err(e) ==> field_error(e, field@, "invalid URL"@),
{
    if url_chars(&char_vec(value)) {
        Ok(())
    } else {
        Err(FieldError::new(field, "invalid URL"))
    }
}

/// Validates that `value` is a UUID v4 string ([`is_uuid_v4`]).
pub fn validate_uuid(field: &str, value: &str) -> (r: Result<(), FieldError>)
    ensures
        r is Ok <==> is_uuid_v4(value@),
        r matches Err(e) ==> field_error(e, field@, "invalid UUID v4"@),
{
    if uuid_chars(&char_vec(value)) {
        Ok(())
    } else {
        Err(FieldError::new(field, "invalid UUID v4"))
    }
}

/// Validates that `value` is neither empty nor made only of white space.
pub fn validate_non_empty(field: &str, value: &str) -> (r: Result<(), FieldError>)
    ensures
        r is Ok <==> has_non_white_space(value@),
        r matches Err(e) ==> field_error(e, field@, "must not be empty"@),
{
    if non_blank_chars(&char_vec(value)) {
        Ok(())
    } else {
        Err(FieldError::new(field, "must not be empty"))
    }
}

/// Validates that `value` has at least `min` Unicode characters.
pub fn validate_min_length(field: &str, value: &str, min: usize) -> (r: Result<(), FieldError>)
    ensures
        r is Ok <==> value@.len() >= min,
        r matches Err(e) ==> field_error(
            e,
            field@,
            "must be at least "@ + decimal(min as nat) + " characters"@,
        ),
{
    if value.unicode_len() >= min {
        Ok(())
    } else {
        let mut message = "must be at least ".to_owned();
        push_decimal(&mut message, min);
        message.append(" characters");
        Err(FieldError { field: field.to_owned(), message })
    }
}

/// Validates that `value` has at most `max` Unicode characters.
pub fn validate_max_length(field: &str, value: &str, max: usize) -> (r: Result<(), FieldError>)
    ensures
        r is Ok <==> value@.len() <= max,
        r matches Err(e) ==> field_error(
            e,
            field@,
            "must be at most "@ + decimal(max as nat) + " characters"@,
        ),
{
    if value.unicode_len() <= max {
        Ok(())
    } else {
        let mut message = "must be at most ".to_owned();
        push_decimal(&mut message, max);
        message.append(" characters");
        Err(FieldError { field: field.to_owned(), message })
    }
}

/// What `validate_matches` answers once the pattern has been compiled (or
/// refused, `compiles` false) and, when compiled, searched (`found`): success
/// exactly when the pattern compiled and matched; otherwise an error for
/// `field` that says which of the two went wrong.
pub fn pattern_verdict(field: &str, compiles: bool, found: bool) -> (r: Result<(), FieldError>)
    ensures
        r is Ok <==> compiles && found,
        r matches Err(e) ==> field_error(
            e,
            field@,
            if compiles {
                "does not match required pattern"@
            } else {
                "invalid validation pattern (framework error)"@
            },
        ),
{
    if !compiles {
        Err(FieldError::new(field, "invalid validation pattern (framework error)"))
    } else if found {
        Ok(())
    } else {
        Err(FieldError::new(field, "does not match required pattern"))
    }
}

/// Validates that `value` matches the regular expression `pattern`, compiled
/// by the `regex` crate. A pattern that does not compile is reported as a
/// validation failure, not a panic.
pub fn validate_matches(field: &str, value: &str, pattern: &str) -> (r: Result<(), FieldError>)
    ensures
        r is Ok <==> regex_compiles(pattern@) && regex_finds(pattern@, value@),
        r matches Err(e) ==> field_error(
            e,
            field@,
            if regex_compiles(pattern@) {
                "does not match required pattern"@
            } else {
                "invalid validation pattern (framework error)"@
            },
        ),
{
    match Pattern::compile(pattern) {
        Ok(re) => pattern_verdict(field, true, re.is_match(value)),
        Err(_) => pattern_verdict(field, false, false),
    }
}

/// The text `to_string` produces for `v` through its `Display` impl.
pub open spec fn displays_as<T: core::fmt::Display>(v: &T, text: Seq<char>) -> bool {
    exists|s: String| to_string_from_display_ensures::<T>(v, s) && s@ == text
}

/// Validates that `value` lies between `min` and `max`, both inclusive.
///
/// Whether it does is decided by `T`'s `PartialOrd`; for the types whose
/// comparison vstd specifies (integers, `bool`, `char`, ...) that is the
/// ordinary order. The message shows `min` and `max` as `Display` renders them.
pub fn validate_range<T: PartialOrd + core::fmt::Display>(
    field: &str,
    value: T,
    min: T,
    max: T,
) -> (r: Result<(), FieldError>)
    ensures
        T::obeys_partial_cmp_spec() ==> (r is Ok <==> value.is_ge(&min) && value.is_le(&max)),
        r matches Err(e) ==> e.field@ == field@ && exists|lo: Seq<char>, hi: Seq<char>|
            displays_as(&min, lo) && displays_as(&max, hi) && e.message@ == "must be between "@
                + lo + " and "@ + hi,
{
    if value >= min && value <= max {
        Ok(())
    } else {
        let lo = min.to_string();
        let hi = max.to_string();
        let mut message = "must be between ".to_owned();
        message.append(lo.as_str());
        message.append(" and ");
        message.append(hi.as_str());
        assert(displays_as(&min, lo@));
        assert(displays_as(&max, hi@));
        Err(FieldError { field: field.to_owned(), message })
    }
}

/// Validates that `value` is a US ZIP code, 5-digit or ZIP+4 ([`is_us_zip`]).
pub fn validate_us_zip(field: &str, value: &str) -> (r: Result<(), FieldError>)
    ensures
        r is Ok <==> is_us_zip(value@),
        r matches Err(e) ==> field_error(e, field@, "invalid US ZIP code"@),
{
    if us_zip_chars(&char_vec(value)) {
        Ok(())
    } else {
        Err(FieldError::new(field, "invalid US ZIP code"))
    }
}

/// Validates that `value` is a Canadian postal code, e.g. `A1A 1A1`
/// ([`is_ca_postal`]).
pub fn validate_ca_postal(field: &str, value: &str) -> (r: Result<(), FieldError>)
    ensures
        r is Ok <==> is_ca_postal(value@),
        r matches Err(e) ==> field_error(e, field@, "invalid Canadian postal code"@),
{
    if ca_postal_chars(&char_vec(value)) {
        Ok(())
    } else {
        Err(FieldError::new(field, "invalid Canadian postal code"))
    }
}

/// Validates that `value` is an E.164 international phone number, e.g.
/// `+12125551234` ([`is_phone_e164`]).
pub fn validate_phone_e164(field: &str, value: &str) -> (r: Result<(), FieldError>)
    ensures
        r is Ok <==> is_phone_e164(value@),
        r matches Err(e) ==> field_error(e, field@, "invalid E.164 phone number"@),
{
    if phone_e164_chars(&char_vec(value)) {
        Ok(())
    } else {
        Err(FieldError::new(field, "invalid E.164 phone number"))
    }
}

/// Validates `value` against a caller-supplied predicate, which must be a
/// pure function of the value. The predicate is called once; its answer
/// decides the result.
pub fn validate_custom<T>(
    field: &str,
    value: &T,
    predicate: impl Fn(&T) -> bool,
    message: &str,
) -> (r: Result<(), FieldError>)
    requires
        call_requires(predicate, (value,)),
    ensures
        r is Ok ==> call_ensures(predicate, (value,), true),
        r is Err ==> call_ensures(predicate, (value,), false),
        r matches Err(e) ==> field_error(e, field@, message@),
{
    if predicate(value) {
        Ok(())
    } else {
        Err(FieldError::new(field, message))
    }
}

} // verus!
