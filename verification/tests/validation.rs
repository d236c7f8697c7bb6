use rust_api::validation::{
    FieldError, Validatable, ValidatedJson, ValidatedQuery, ValidationRejection, ValidationResult,
};
use rust_api::validators::{validate_email, validate_min_length};

#[derive(Debug, Clone, PartialEq)]
struct Signup {
    email: String,
    username: String,
}

impl Validatable for Signup {
    fn validate(self) -> ValidationResult<Self> {
        let mut errors = Vec::new();
        if let Err(e) = validate_email("email", &self.email) {
            errors.push(e);
        }
        if let Err(e) = validate_min_length("username", &self.username, 3) {
            errors.push(e);
        }
        if errors.is_empty() {
            Ok(self)
        } else {
            Err(errors)
        }
    }
}

fn signup(email: &str, username: &str) -> Signup {
    Signup { email: email.to_string(), username: username.to_string() }
}

#[test]
fn field_error_new_keeps_field_and_message() {
    let e = FieldError::new("end", "must be after start");
    assert_eq!(e.field, "end");
    assert_eq!(e.message, "must be after start");
}

#[test]
fn valid_body_reaches_the_handler_unchanged() {
    let body = signup("a@b.co", "alice");
    match ValidatedJson::from_extraction(Ok(body.clone())) {
        Ok(ValidatedJson(v)) => assert_eq!(v, body),
        Err(_) => panic!("a valid body was rejected"),
    }
}

#[test]
fn invalid_body_is_rejected_with_every_error() {
    let rejection = match ValidatedJson::from_extraction(Ok(signup("nope", "al"))) {
        Ok(_) => panic!("an invalid body was accepted"),
        Err(r) => r,
    };
    assert_eq!(rejection.status_code(), 422);
    let fields: Vec<&str> = rejection.0.iter().map(|e| e.field.as_str()).collect();
    assert_eq!(fields, vec!["email", "username"]);
    assert_eq!(rejection.0[1].message, "must be at least 3 characters");
}

#[test]
fn unreadable_body_is_one_error_on_body() {
    let extracted: Result<Signup, String> = Err("expected value at line 1 column 1".to_string());
    let rejection = match ValidatedJson::from_extraction(extracted) {
        Ok(_) => panic!("an unreadable body was accepted"),
        Err(r) => r,
    };
    assert_eq!(rejection.0.len(), 1);
    assert_eq!(rejection.0[0].field, "body");
    assert_eq!(rejection.0[0].message, "expected value at line 1 column 1");
}

#[test]
fn query_extractor_mirrors_the_body_extractor() {
    let extracted: Result<Signup, String> = Err("missing field `email`".to_string());
    let rejection = match ValidatedQuery::from_extraction(extracted) {
        Ok(_) => panic!("an unparsable query was accepted"),
        Err(r) => r,
    };
    assert_eq!(rejection.0[0].field, "query");
    assert_eq!(rejection.0[0].message, "missing field `email`");
    match ValidatedQuery::from_extraction(Ok(signup("a@b.co", "bob"))) {
        Ok(ValidatedQuery(v)) => assert_eq!(v.username, "bob"),
        Err(_) => panic!("a valid query was rejected"),
    }
    match ValidatedQuery::<Signup>::from_validation(Err(vec![FieldError::new("x", "y")])) {
        Ok(_) => panic!("errors were let through"),
        Err(ValidationRejection(errors)) => assert_eq!(errors[0].field, "x"),
    }
}

#[test]
fn validation_outcome_maps_straight_to_the_extractor_answer() {
    let ok: ValidationResult<Signup> = Ok(signup("a@b.co", "alice"));
    assert!(ValidatedJson::from_validation(ok).is_ok());
    let errs: ValidationResult<Signup> =
        Err(vec![FieldError::new("a", "1"), FieldError::new("b", "2")]);
    let rejection = match ValidatedJson::from_validation(errs) {
        Ok(_) => panic!("errors were let through"),
        Err(r) => r,
    };
    assert_eq!(rejection.0.len(), 2);
    assert_eq!(rejection.0[1].message, "2");
}
