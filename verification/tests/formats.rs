//! The format validators against the regular expressions that define the
//! formats, run by the `regex` crate on many generated strings.

use regex::Regex;
use rust_api::validators::{
    validate_ca_postal, validate_email, validate_phone_e164, validate_url, validate_us_zip,
    validate_uuid,
};

/// A small deterministic generator of strings over `alphabet`.
struct Strings {
    state: u64,
}

impl Strings {
    fn new(seed: u64) -> Self {
        Strings { state: seed }
    }

    fn next_u64(&mut self) -> u64 {
        self.state = self
            .state
            .wrapping_mul(6364136223846793005)
            .wrapping_add(1442695040888963407);
        self.state >> 33
    }

    fn string(&mut self, alphabet: &[char], max_len: u64) -> String {
        let len = self.next_u64() % (max_len + 1);
        (0..len)
            .map(|_| alphabet[(self.next_u64() % alphabet.len() as u64) as usize])
            .collect()
    }

    /// A mutation of `base`: one character replaced, inserted or removed.
    fn mutate(&mut self, base: &str, alphabet: &[char]) -> String {
        let mut chars: Vec<char> = base.chars().collect();
        let c = alphabet[(self.next_u64() % alphabet.len() as u64) as usize];
        let at = if chars.is_empty() { 0 } else { (self.next_u64() % chars.len() as u64) as usize };
        match self.next_u64() % 3 {
            0 if !chars.is_empty() => chars[at] = c,
            1 => chars.insert(at, c),
            _ if !chars.is_empty() => {
                chars.remove(at);
            }
            _ => chars.push(c),
        }
        chars.into_iter().collect()
    }
}

fn agree(
    pattern: &str,
    validator: fn(&str, &str) -> Result<(), rust_api::validation::FieldError>,
    seeds: &[&str],
    alphabet: &str,
    max_len: u64,
) {
    let re = Regex::new(pattern).unwrap();
    let alphabet: Vec<char> = alphabet.chars().collect();
    let mut gen = Strings::new(0x5eed ^ max_len);
    let mut samples: Vec<String> = seeds.iter().map(|s| s.to_string()).collect();
    for _ in 0..3000 {
        samples.push(gen.string(&alphabet, max_len));
    }
    for seed in seeds {
        let mut s = seed.to_string();
        for _ in 0..400 {
            s = gen.mutate(&s, &alphabet);
            samples.push(s.clone());
            if gen.next_u64() % 8 == 0 {
                s = seed.to_string();
            }
        }
    }
    for s in &samples {
        assert_eq!(
            validator("f", s).is_ok(),
            re.is_match(s),
            "pattern {pattern:?} and the validator disagree on {s:?}"
        );
    }
}

#[test]
fn email_agrees_with_its_pattern() {
    agree(
        r"(?i)^[a-z0-9._%+\-]+@[a-z0-9.\-]+\.[a-z]{2,}$",
        validate_email,
        &["user@example.com", "a.b+c@sub.domain.io", "X_Y%Z@EX-AMPLE.ORG", "a@b.cd"],
        "aZk.@-_%+9\u{212A}\u{17F}é -",
        14,
    );
}

#[test]
fn url_agrees_with_its_pattern() {
    agree(
        // No white space anywhere after the scheme: the second character of
        // the host part is held to that too.
        r"(?i)^https?://[^\s/$.?#][^\s]+$",
        validate_url,
        &["https://example.com", "http://foo.bar/baz?q=1", "HTTPS://x", "http://a.\u{3000}"],
        "htpsHTPS:/.?#$ a\n\t\u{3000}\u{a0}x",
        14,
    );
}

#[test]
fn uuid_agrees_with_its_pattern() {
    agree(
        r"(?i)^[0-9a-f]{8}-[0-9a-f]{4}-4[0-9a-f]{3}-[89ab][0-9a-f]{3}-[0-9a-f]{12}$",
        validate_uuid,
        &[
            "550e8400-e29b-41d4-a716-446655440000",
            "F47AC10B-58CC-4372-A567-0E02B2C3D479",
            "550e8400-e29b-11d4-a716-446655440000",
        ],
        "0123456789abcdefABCDEF-4g",
        40,
    );
}

#[test]
fn us_zip_agrees_with_its_pattern() {
    agree(
        r"^\d{5}(-\d{4})?$",
        validate_us_zip,
        &["12345", "12345-6789", "١٢٣٤٥", "12345-٦٧٨٩"],
        "0123456789-a\u{660}\u{969}\u{ff19}",
        11,
    );
}

#[test]
fn ca_postal_agrees_with_its_pattern() {
    agree(
        r"(?i)^[ABCEGHJ-NPRSTVXY]\d[ABCEGHJ-NPRSTV-Z] ?\d[ABCEGHJ-NPRSTV-Z]\d$",
        validate_ca_postal,
        &["K1A 0A9", "M5V3L9", "k1a 0a9", "\u{212A}1A 0A9", "Z9Z 9Z9"],
        "ABCDEFGHIJKLMNOPQRSTUVWXYZaw0159 \u{212A}\u{17F}\u{660}",
        8,
    );
}

#[test]
fn phone_e164_agrees_with_its_pattern() {
    agree(
        r"^\+[1-9]\d{6,14}$",
        validate_phone_e164,
        &["+12125551234", "+447911123456", "+1", "+123456789012345", "+1234567890123456"],
        "+0123456789 \u{661}\u{967}",
        18,
    );
}

#[test]
fn case_insensitive_classes_include_the_unicode_folds() {
    // Under `(?i)` the class `[a-z]` also holds the Kelvin sign and the long s.
    assert!(validate_email("e", "a@b.\u{212A}\u{17F}").is_ok());
    assert!(validate_ca_postal("p", "\u{212A}1A 0A9").is_ok());
    // Unicode decimal digits count as `\d`.
    assert!(validate_us_zip("z", "١٢٣٤٥").is_ok());
    assert!(validate_phone_e164("p", "+1٢٣٤٥٦٧").is_ok());
}
