//! The rule logic behind `#[derive(Validatable)]` and `#[derive(NewType)]`.
//!
//! A `#[validate(...)]` attribute holds rules such as `email`,
//! `min_length = 3`, `range(min = 0, max = 100)` or
//! `custom(predicate = "fn_name", message = "msg")`. Here the rules arrive as
//! plain syntax (identifiers and expression texts), are checked and turned
//! into [`ValidateRule`]s, and each rule is mapped to the validator call that
//! a derive emits for it. Tokenising the source and printing the emitted code
//! are left to the derive front end.

use vstd::prelude::*;
use crate::chars::same_text;

verus! {

// ---------------------------------------------------------------------------
// Syntax as it arrives
// ---------------------------------------------------------------------------

/// One argument inside a rule group such as `range(min = 0, max = 100)`.
pub struct MetaArg {
    /// The identifier before `=` when the argument is `ident = expr`;
    /// `None` for any other form.
    pub key: Option<String>,
    /// The source text of the expression after `=`.
    pub value: String,
    /// The contents of the expression when it is a string literal.
    pub string_literal: Option<String>,
}

/// One rule inside `#[validate(...)]`, as written.
pub enum RuleSyntax {
    /// `name`
    Flag(String),
    /// `name = value`
    Assign(String, String),
    /// `name(arg, ...)`: the arguments read as `ident = expr` items and
    /// others, or the message of the syntax error met while reading them.
    Group(String, Result<Vec<MetaArg>, String>),
}

/// An attribute on a field: its path when that is a single identifier, and,
/// for a `#[validate(...)]` attribute, the rules inside it in order. Where the
/// attribute's tokens stop making sense, `items` holds the rules read before
/// that point and `syntax_error` the message of the syntax error.
pub struct Attribute {
    pub path: Option<String>,
    pub items: Vec<RuleSyntax>,
    pub syntax_error: Option<String>,
}

/// A named field of a struct.
pub struct NamedField {
    pub name: String,
    pub attrs: Vec<Attribute>,
}

/// An unnamed field of a tuple struct.
pub struct TupleField {
    /// The last segment of the field's type when the type is a path.
    pub inner_type: Option<String>,
    pub attrs: Vec<Attribute>,
}

/// The shape of the item a derive is applied to.
pub enum ItemShape {
    NamedStruct(Vec<NamedField>),
    TupleStruct(Vec<TupleField>),
    UnitStruct,
    NotAStruct,
}

// ---------------------------------------------------------------------------
// Parsed rules and emitted calls
// ---------------------------------------------------------------------------

/// A single validation rule.
pub enum ValidateRule {
    /// `#[validate(email)]`, `#[validate(url)]`, ...
    Flag(String),
    /// `#[validate(min_length = 3)]`
    NameValue { name: String, value: String },
    /// `#[validate(range(min = 0, max = 100))]`
    Range { min: String, max: String },
    /// `#[validate(custom(predicate = "fn_name", message = "msg"))]`
    Custom { predicate: String, message: String },
}

/// An argument of an emitted validator call.
pub enum CallArg {
    /// A reference to the field's value.
    Ref,
    /// The field's value itself.
    Direct,
    /// An expression, by its source text.
    Expr(String),
    /// An identifier (a function name).
    Ident(String),
    /// A string literal with these contents.
    Str(String),
}

/// A call of the validator `function` of the library's `validators` module.
pub struct ValidatorCall {
    pub function: String,
    pub args: Vec<CallArg>,
}

/// A call emitted for a named field.
pub struct FieldCall {
    pub field: String,
    pub call: ValidatorCall,
}

/// What `#[derive(NewType)]` generates beyond the fixed items: the validator
/// calls on the inner value (reported under the field name `value`), and
/// whether an `as_str` accessor is added (the inner type is `String`).
pub struct NewTypePlan {
    pub calls: Vec<ValidatorCall>,
    pub as_str: bool,
}

// ---------------------------------------------------------------------------
// Mathematical views
// ---------------------------------------------------------------------------

/// A rule, its texts as character sequences.
pub enum RuleView {
    Flag(Seq<char>),
    NameValue(Seq<char>, Seq<char>),
    Range(Seq<char>, Seq<char>),
    Custom(Seq<char>, Seq<char>),
}

impl View for ValidateRule {
    type V = RuleView;

    open spec fn view(&self) -> RuleView {
        match self {
            ValidateRule::Flag(name) => RuleView::Flag(name@),
            ValidateRule::NameValue { name, value } => RuleView::NameValue(name@, value@),
            ValidateRule::Range { min, max } => RuleView::Range(min@, max@),
            ValidateRule::Custom { predicate, message } => RuleView::Custom(predicate@, message@),
        }
    }
}

/// A call argument, its texts as character sequences.
pub enum ArgView {
    Ref,
    Direct,
    Expr(Seq<char>),
    Ident(Seq<char>),
    Str(Seq<char>),
}

impl View for CallArg {
    type V = ArgView;

    open spec fn view(&self) -> ArgView {
        match self {
            CallArg::Ref => ArgView::Ref,
            CallArg::Direct => ArgView::Direct,
            CallArg::Expr(e) => ArgView::Expr(e@),
            CallArg::Ident(i) => ArgView::Ident(i@),
            CallArg::Str(s) => ArgView::Str(s@),
        }
    }
}

/// A validator call: the function's name and its arguments.
pub struct CallView {
    pub function: Seq<char>,
    pub args: Seq<ArgView>,
}

impl View for ValidatorCall {
    type V = CallView;

    open spec fn view(&self) -> CallView {
        CallView { function: self.function@, args: self.args@.map_values(|a: CallArg| a@) }
    }
}

/// A result whose success and error are taken by their views.
pub open spec fn rule_result_view(r: Result<ValidateRule, String>) -> Result<RuleView, Seq<char>> {
    match r {
        Ok(rule) => Ok(rule@),
        Err(e) => Err(e@),
    }
}

// ---------------------------------------------------------------------------
// From syntax to rules
// ---------------------------------------------------------------------------

/// Argument `a` is `key = ...`.
pub open spec fn has_key(a: MetaArg, key: Seq<char>) -> bool {
    a.key matches Some(k) && k@ == key
}

/// The expression text of the last argument `key = ...`, if any.
pub open spec fn last_value(args: Seq<MetaArg>, key: Seq<char>) -> Option<Seq<char>>
    decreases args.len(),
{
    if args.len() == 0 {
        None
    } else if has_key(args.last(), key) {
        Some(args.last().value@)
    } else {
        last_value(args.drop_last(), key)
    }
}

/// The contents of the last argument `key = "..."` whose value is a string
/// literal, if any.
pub open spec fn last_literal(args: Seq<MetaArg>, key: Seq<char>) -> Option<Seq<char>>
    decreases args.len(),
{
    if args.len() == 0 {
        None
    } else if has_key(args.last(), key) && args.last().string_literal is Some {
        Some(args.last().string_literal->0@)
    } else {
        last_literal(args.drop_last(), key)
    }
}

/// The rule that a piece of syntax denotes, or the message of the error it
/// is refused with.
pub open spec fn rule_of(s: RuleSyntax) -> Result<RuleView, Seq<char>> {
    match s {
        RuleSyntax::Flag(name) => Ok(RuleView::Flag(name@)),
        RuleSyntax::Assign(name, value) => Ok(RuleView::NameValue(name@, value@)),
        RuleSyntax::Group(name, args) => if name@ == "range"@ {
            match args {
                Err(e) => Err(e@),
                Ok(args) => match (last_value(args@, "min"@), last_value(args@, "max"@)) {
                    (Some(min), Some(max)) => Ok(RuleView::Range(min, max)),
                    (None, _) => Err("range requires min"@),
                    (Some(_), None) => Err("range requires max"@),
                },
            }
        } else if name@ == "custom"@ {
            match args {
                Err(e) => Err(e@),
                Ok(args) => match (
                    last_literal(args@, "predicate"@),
                    last_literal(args@, "message"@),
                ) {
                    (Some(p), Some(m)) => Ok(RuleView::Custom(p, m)),
                    (None, _) => Err("custom requires predicate"@),
                    (Some(_), None) => Err("custom requires message"@),
                },
            }
        } else {
            Err("unknown validate rule `"@ + name@ + "`"@)
        },
    }
}

fn last_value_exec(args: &Vec<MetaArg>, key: &str) -> (r: Option<String>)
    ensures
        match r {
            Some(v) => last_value(args@, key@) == Some(v@),
            None => last_value(args@, key@) is None,
        },
{
    let mut found: Option<String> = None;
    let mut i: usize = 0;
    while i < args.len()
        invariant
            i <= args@.len(),
            match found {
                Some(v) => last_value(args@.take(i as int), key@) == Some(v@),
                None => last_value(args@.take(i as int), key@) is None,
            },
        decreases args@.len() - i,
    {
        let a = &args[i];
        let hit = match &a.key {
            Some(k) => same_text(k.as_str(), key),
            None => false,
        };
        if hit {
            found = Some(a.value.clone());
        }
        proof {
            assert(args@.take(i + 1).drop_last() =~= args@.take(i as int));
        }
        i = i + 1;
    }
    proof {
        assert(args@.take(args@.len() as int) =~= args@);
    }
    found
}

fn last_literal_exec(args: &Vec<MetaArg>, key: &str) -> (r: Option<String>)
    ensures
        match r {
            Some(v) => last_literal(args@, key@) == Some(v@),
            None => last_literal(args@, key@) is None,
        },
{
    let mut found: Option<String> = None;
    let mut i: usize = 0;
    while i < args.len()
        invariant
            i <= args@.len(),
            match found {
                Some(v) => last_literal(args@.take(i as int), key@) == Some(v@),
                None => last_literal(args@.take(i as int), key@) is None,
            },
        decreases args@.len() - i,
    {
        let a = &args[i];
        let hit = match &a.key {
            Some(k) => same_text(k.as_str(), key),
            None => false,
        };
        if hit {
            match &a.string_literal {
                Some(s) => {
                    found = Some(s.clone());
                },
                None => {},
            }
        }
        proof {
            assert(args@.take(i + 1).drop_last() =~= args@.take(i as int));
        }
        i = i + 1;
    }
    proof {
        assert(args@.take(args@.len() as int) =~= args@);
    }
    found
}

/// `prefix` followed by `middle` and a closing backtick.
fn quoted_message(prefix: &str, middle: &str) -> (r: String)
    ensures
        r@ == prefix@ + middle@ + "`"@,
{
    let mut m = prefix.to_owned();
    m.append(middle);
    m.append("`");
    m
}

impl ValidateRule {
    /// The rule a piece of `#[validate(...)]` syntax denotes: `name` is a
    /// flag, `name = value` a named value, `range(...)` needs `min = ...`
    /// and `max = ...`, `custom(...)` needs `predicate = "..."` and
    /// `message = "..."` (string literals); the last occurrence of a key
    /// counts and other arguments are ignored; arguments that could not be
    /// read make the rule that syntax error. Any other group is an unknown
    /// rule, whatever its arguments.
    pub fn parse(syntax: &RuleSyntax) -> (r: Result<ValidateRule, String>)
        ensures
            rule_result_view(r) == rule_of(*syntax),
    {
        match syntax {
            RuleSyntax::Flag(name) => Ok(ValidateRule::Flag(name.clone())),
            RuleSyntax::Assign(name, value) => Ok(
                ValidateRule::NameValue { name: name.clone(), value: value.clone() },
            ),
            RuleSyntax::Group(name, args) => {
                if same_text(name.as_str(), "range") {
                    let args = match args {
                        Ok(args) => args,
                        Err(e) => {
                            return Err(e.clone());
                        },
                    };
                    let min = last_value_exec(args, "min");
                    let max = last_value_exec(args, "max");
                    match (min, max) {
                        (Some(min), Some(max)) => Ok(ValidateRule::Range { min, max }),
                        (None, _) => Err("range requires min".to_owned()),
                        (Some(_), None) => Err("range requires max".to_owned()),
                    }
                } else if same_text(name.as_str(), "custom") {
                    let args = match args {
                        Ok(args) => args,
                        Err(e) => {
                            return Err(e.clone());
                        },
                    };
                    let predicate = last_literal_exec(args, "predicate");
                    let message = last_literal_exec(args, "message");
                    match (predicate, message) {
                        (Some(predicate), Some(message)) => Ok(
                            ValidateRule::Custom { predicate, message },
                        ),
                        (None, _) => Err("custom requires predicate".to_owned()),
                        (Some(_), None) => Err("custom requires message".to_owned()),
                    }
                } else {
                    Err(quoted_message("unknown validate rule `", name.as_str()))
                }
            },
        }
    }
}


// ---------------------------------------------------------------------------
// From rules to validator calls
// ---------------------------------------------------------------------------

/// The validator that a flag rule calls, if the flag is known.
pub open spec fn flag_validator(name: Seq<char>) -> Option<Seq<char>> {
    if name == "email"@ {
        Some("validate_email"@)
    } else if name == "url"@ {
        Some("validate_url"@)
    } else if name == "uuid"@ {
        Some("validate_uuid"@)
    } else if name == "non_empty"@ {
        Some("validate_non_empty"@)
    } else if name == "us_zip"@ {
        Some("validate_us_zip"@)
    } else if name == "ca_postal"@ {
        Some("validate_ca_postal"@)
    } else if name == "phone_e164"@ {
        Some("validate_phone_e164"@)
    } else {
        None
    }
}

/// The validator that a `key = value` rule calls, if the key is known.
pub open spec fn key_validator(name: Seq<char>) -> Option<Seq<char>> {
    if name == "min_length"@ {
        Some("validate_min_length"@)
    } else if name == "max_length"@ {
        Some("validate_max_length"@)
    } else if name == "matches"@ {
        Some("validate_matches"@)
    } else {
        None
    }
}

/// The call emitted for `rule` on the field named `field`, or the message of
/// the error the rule is refused with. String validators take the value by
/// reference; `range` takes it directly.
pub open spec fn call_of(rule: RuleView, field: Seq<char>) -> Result<CallView, Seq<char>> {
    match rule {
        RuleView::Flag(name) => match flag_validator(name) {
            Some(f) => Ok(CallView { function: f, args: seq![ArgView::Str(field), ArgView::Ref] }),
            None => Err("unknown validate flag `"@ + name + "`"@),
        },
        RuleView::NameValue(name, value) => match key_validator(name) {
            Some(f) => Ok(
                CallView {
                    function: f,
                    args: seq![ArgView::Str(field), ArgView::Ref, ArgView::Expr(value)],
                },
            ),
            None => Err("unknown validate key `"@ + name + "`"@),
        },
        RuleView::Range(min, max) => Ok(
            CallView {
                function: "validate_range"@,
                args: seq![
                    ArgView::Str(field),
                    ArgView::Direct,
                    ArgView::Expr(min),
                    ArgView::Expr(max),
                ],
            },
        ),
        RuleView::Custom(predicate, message) => Ok(
            CallView {
                function: "validate_custom"@,
                args: seq![
                    ArgView::Str(field),
                    ArgView::Ref,
                    ArgView::Ident(predicate),
                    ArgView::Str(message),
                ],
            },
        ),
    }
}

/// A call result whose success and error are taken by their views.
pub open spec fn call_result_view(r: Result<ValidatorCall, String>) -> Result<CallView, Seq<char>> {
    match r {
        Ok(c) => Ok(c@),
        Err(e) => Err(e@),
    }
}

fn flag_validator_exec(name: &str) -> (r: Option<&'static str>)
    ensures
        match r {
            Some(f) => flag_validator(name@) == Some(f@),
            None => flag_validator(name@) is None,
        },
{
    if same_text(name, "email") {
        Some("validate_email")
    } else if same_text(name, "url") {
        Some("validate_url")
    } else if same_text(name, "uuid") {
        Some("validate_uuid")
    } else if same_text(name, "non_empty") {
        Some("validate_non_empty")
    } else if same_text(name, "us_zip") {
        Some("validate_us_zip")
    } else if same_text(name, "ca_postal") {
        Some("validate_ca_postal")
    } else if same_text(name, "phone_e164") {
        Some("validate_phone_e164")
    } else {
        None
    }
}

fn key_validator_exec(name: &str) -> (r: Option<&'static str>)
    ensures
        match r {
            Some(f) => key_validator(name@) == Some(f@),
            None => key_validator(name@) is None,
        },
{
    if same_text(name, "min_length") {
        Some("validate_min_length")
    } else if same_text(name, "max_length") {
        Some("validate_max_length")
    } else if same_text(name, "matches") {
        Some("validate_matches")
    } else {
        None
    }
}

/// The validator call that `rule` emits for the field named `field_name`:
/// the field name as a string literal comes first, then the value (by
/// reference, or directly for `range`), then the rule's own arguments. An
/// unknown flag or key is an error.
pub fn emit_call(rule: &ValidateRule, field_name: &str) -> (r: Result<ValidatorCall, String>)
    ensures
        call_result_view(r) == call_of(rule@, field_name@),
{
    let mut args: Vec<CallArg> = Vec::new();
    args.push(CallArg::Str(field_name.to_owned()));
    match rule {
        ValidateRule::Flag(name) => match flag_validator_exec(name.as_str()) {
            Some(f) => {
                args.push(CallArg::Ref);
                let call = ValidatorCall { function: f.to_owned(), args };
                proof {
                    assert(call@.args =~= seq![ArgView::Str(field_name@), ArgView::Ref]);
                }
                Ok(call)
            },
            None => Err(quoted_message("unknown validate flag `", name.as_str())),
        },
        ValidateRule::NameValue { name, value } => match key_validator_exec(name.as_str()) {
            Some(f) => {
                args.push(CallArg::Ref);
                args.push(CallArg::Expr(value.clone()));
                let call = ValidatorCall { function: f.to_owned(), args };
                proof {
                    assert(call@.args =~= seq![
                        ArgView::Str(field_name@),
                        ArgView::Ref,
                        ArgView::Expr(value@),
                    ]);
                }
                Ok(call)
            },
            None => Err(quoted_message("unknown validate key `", name.as_str())),
        },
        ValidateRule::Range { min, max } => {
            args.push(CallArg::Direct);
            args.push(CallArg::Expr(min.clone()));
            args.push(CallArg::Expr(max.clone()));
            let call = ValidatorCall { function: "validate_range".to_owned(), args };
            proof {
                assert(call@.args =~= seq![
                    ArgView::Str(field_name@),
                    ArgView::Direct,
                    ArgView::Expr(min@),
                    ArgView::Expr(max@),
                ]);
            }
            Ok(call)
        },
        ValidateRule::Custom { predicate, message } => {
            args.push(CallArg::Ref);
            args.push(CallArg::Ident(predicate.clone()));
            args.push(CallArg::Str(message.clone()));
            let call = ValidatorCall { function: "validate_custom".to_owned(), args };
            proof {
                assert(call@.args =~= seq![
                    ArgView::Str(field_name@),
                    ArgView::Ref,
                    ArgView::Ident(predicate@),
                    ArgView::Str(message@),
                ]);
            }
            Ok(call)
        },
    }
}

// ---------------------------------------------------------------------------
// Collecting the rules of a field
// ---------------------------------------------------------------------------

/// The views of a sequence of rules.
pub open spec fn rule_views(rules: Seq<ValidateRule>) -> Seq<RuleView> {
    rules.map_values(|r: ValidateRule| r@)
}

/// A rules result whose success and error are taken by their views.
pub open spec fn rules_result_view(r: Result<Vec<ValidateRule>, String>) -> Result<Seq<RuleView>, Seq<char>> {
    match r {
        Ok(v) => Ok(rule_views(v@)),
        Err(e) => Err(e@),
    }
}

/// The rules that the items of one attribute denote, read in order: the
/// first item that is refused gives the error.
pub open spec fn items_rules(items: Seq<RuleSyntax>) -> Result<Seq<RuleView>, Seq<char>>
    decreases items.len(),
{
    if items.len() == 0 {
        Ok(Seq::empty())
    } else {
        match items_rules(items.drop_last()) {
            Err(e) => Err(e),
            Ok(rules) => match rule_of(items.last()) {
                Ok(rule) => Ok(rules.push(rule)),
                Err(e) => Err(e),
            },
        }
    }
}

/// The rules of a `#[validate(...)]` attribute; a syntax error after the
/// items read is reported once those items are accepted.
pub open spec fn attr_rules(a: Attribute) -> Result<Seq<RuleView>, Seq<char>> {
    match items_rules(a.items@) {
        Err(e) => Err(e),
        Ok(rules) => match a.syntax_error {
            Some(e) => Err(e@),
            None => Ok(rules),
        },
    }
}

/// The attribute's path is the single identifier `validate`.
pub open spec fn is_validate(a: Attribute) -> bool {
    a.path matches Some(p) && p@ == "validate"@
}

/// All rules of the `#[validate(...)]` attributes among `attrs`, in order;
/// other attributes are skipped, and the first refusal is the error.
pub open spec fn attrs_rules(attrs: Seq<Attribute>) -> Result<Seq<RuleView>, Seq<char>>
    decreases attrs.len(),
{
    if attrs.len() == 0 {
        Ok(Seq::empty())
    } else {
        match attrs_rules(attrs.drop_last()) {
            Err(e) => Err(e),
            Ok(rules) => if is_validate(attrs.last()) {
                match attr_rules(attrs.last()) {
                    Ok(more) => Ok(rules + more),
                    Err(e) => Err(e),
                }
            } else {
                Ok(rules)
            },
        }
    }
}

/// Appends the rules of one attribute's items to `rules`, or gives the first
/// refusal.
fn push_item_rules(items: &Vec<RuleSyntax>, rules: &mut Vec<ValidateRule>) -> (r: Result<(), String>)
    ensures
        match items_rules(items@) {
            Ok(more) => r is Ok && rule_views(final(rules)@) == rule_views(old(rules)@) + more,
            Err(e) => r matches Err(m) && m@ == e,
        },
{
    let ghost start = rule_views(rules@);
    let mut j: usize = 0;
    while j < items.len()
        invariant
            j <= items@.len(),
            items_rules(items@.take(j as int)) is Ok,
            rule_views(rules@) == start + items_rules(items@.take(j as int))->Ok_0,
        decreases items@.len() - j,
    {
        proof {
            assert(items@.take(j + 1).drop_last() =~= items@.take(j as int));
            assert(items@.take(j + 1).last() == items@[j as int]);
        }
        match ValidateRule::parse(&items[j]) {
            Ok(rule) => {
                let ghost before = rules@;
                rules.push(rule);
                proof {
                    assert(rule_views(rules@) =~= rule_views(before).push(rule@));
                    assert(rule_views(rules@) =~= start + items_rules(items@.take(j + 1))->Ok_0);
                }
            },
            Err(e) => {
                proof {
                    lemma_items_error_persists(items@, j as int + 1);
                }
                return Err(e);
            },
        }
        j = j + 1;
    }
    proof {
        assert(items@.take(items@.len() as int) =~= items@);
    }
    Ok(())
}

/// Once a prefix of the items is refused, so are all the items.
proof fn lemma_items_error_persists(items: Seq<RuleSyntax>, k: int)
    requires
        0 <= k <= items.len(),
        items_rules(items.take(k)) is Err,
    ensures
        items_rules(items) == items_rules(items.take(k)),
    decreases items.len() - k,
{
    if k == items.len() {
        assert(items.take(k) =~= items);
    } else {
        assert(items.take(k + 1).drop_last() =~= items.take(k));
        lemma_items_error_persists(items, k + 1);
    }
}

/// Once a prefix of the attributes is refused, so are all the attributes.
proof fn lemma_attrs_error_persists(attrs: Seq<Attribute>, k: int)
    requires
        0 <= k <= attrs.len(),
        attrs_rules(attrs.take(k)) is Err,
    ensures
        attrs_rules(attrs) == attrs_rules(attrs.take(k)),
    decreases attrs.len() - k,
{
    if k == attrs.len() {
        assert(attrs.take(k) =~= attrs);
    } else {
        assert(attrs.take(k + 1).drop_last() =~= attrs.take(k));
        lemma_attrs_error_persists(attrs, k + 1);
    }
}

/// The rules of all `#[validate(...)]` attributes among `attrs`, in order,
/// or the first error met while reading them.
pub fn parse_validate_attrs(attrs: &Vec<Attribute>) -> (r: Result<Vec<ValidateRule>, String>)
    ensures
        rules_result_view(r) == attrs_rules(attrs@),
{
    let mut rules: Vec<ValidateRule> = Vec::new();
    let mut i: usize = 0;
    while i < attrs.len()
        invariant
            i <= attrs@.len(),
            attrs_rules(attrs@.take(i as int)) is Ok,
            rule_views(rules@) == attrs_rules(attrs@.take(i as int))->Ok_0,
        decreases attrs@.len() - i,
    {
        proof {
            assert(attrs@.take(i + 1).drop_last() =~= attrs@.take(i as int));
            assert(attrs@.take(i + 1).last() == attrs@[i as int]);
        }
        let attr = &attrs[i];
        let wanted = match &attr.path {
            Some(p) => same_text(p.as_str(), "validate"),
            None => false,
        };
        if wanted {
            match push_item_rules(&attr.items, &mut rules) {
                Ok(()) => {},
                Err(e) => {
                    proof {
                        lemma_attrs_error_persists(attrs@, i as int + 1);
                    }
                    return Err(e);
                },
            }
            match &attr.syntax_error {
                Some(e) => {
                    proof {
                        lemma_attrs_error_persists(attrs@, i as int + 1);
                    }
                    return Err(e.clone());
                },
                None => {},
            }
        }
        i = i + 1;
    }
    proof {
        assert(attrs@.take(attrs@.len() as int) =~= attrs@);
    }
    Ok(rules)
}

// ---------------------------------------------------------------------------
// The derives
// ---------------------------------------------------------------------------

/// The calls emitted for `rules` on the field named `field`, one per rule in
/// order, or the first refusal.
pub open spec fn calls_of(rules: Seq<RuleView>, field: Seq<char>) -> Result<Seq<CallView>, Seq<char>>
    decreases rules.len(),
{
    if rules.len() == 0 {
        Ok(Seq::empty())
    } else {
        match calls_of(rules.drop_last(), field) {
            Err(e) => Err(e),
            Ok(calls) => match call_of(rules.last(), field) {
                Ok(c) => Ok(calls.push(c)),
                Err(e) => Err(e),
            },
        }
    }
}

/// The calls of `calls`, each tagged with the field it is on.
pub open spec fn on_field(field: Seq<char>, calls: Seq<CallView>) -> Seq<(Seq<char>, CallView)> {
    calls.map_values(|c: CallView| (field, c))
}

/// The calls emitted for the named fields, field by field in order, or the
/// first refusal: a field's attributes are read before its calls are emitted.
pub open spec fn field_calls(fields: Seq<NamedField>) -> Result<Seq<(Seq<char>, CallView)>, Seq<char>>
    decreases fields.len(),
{
    if fields.len() == 0 {
        Ok(Seq::empty())
    } else {
        match field_calls(fields.drop_last()) {
            Err(e) => Err(e),
            Ok(done) => {
                let f = fields.last();
                match attrs_rules(f.attrs@) {
                    Err(e) => Err(e),
                    Ok(rules) => match calls_of(rules, f.name@) {
                        Err(e) => Err(e),
                        Ok(calls) => Ok(done + on_field(f.name@, calls)),
                    },
                }
            },
        }
    }
}

/// What `#[derive(Validatable)]` makes of an item: the validator calls of its
/// `validate`, or the message of the error it reports.
pub open spec fn validatable_plan(shape: ItemShape) -> Result<Seq<(Seq<char>, CallView)>, Seq<char>> {
    match shape {
        ItemShape::NamedStruct(fields) => field_calls(fields@),
        ItemShape::NotAStruct => Err("#[derive(Validatable)] only supports structs"@),
        _ => Err("#[derive(Validatable)] only supports structs with named fields"@),
    }
}

impl View for FieldCall {
    type V = (Seq<char>, CallView);

    open spec fn view(&self) -> (Seq<char>, CallView) {
        (self.field@, self.call@)
    }
}

/// The views of a sequence of field calls.
pub open spec fn field_call_views(calls: Seq<FieldCall>) -> Seq<(Seq<char>, CallView)> {
    calls.map_values(|c: FieldCall| c@)
}

/// A field-calls result whose success and error are taken by their views.
pub open spec fn field_calls_result_view(r: Result<Vec<FieldCall>, String>) -> Result<Seq<(Seq<char>, CallView)>, Seq<char>> {
    match r {
        Ok(v) => Ok(field_call_views(v@)),
        Err(e) => Err(e@),
    }
}

/// Once a prefix of the rules is refused, so are all the rules.
proof fn lemma_calls_error_persists(rules: Seq<RuleView>, field: Seq<char>, k: int)
    requires
        0 <= k <= rules.len(),
        calls_of(rules.take(k), field) is Err,
    ensures
        calls_of(rules, field) == calls_of(rules.take(k), field),
    decreases rules.len() - k,
{
    if k == rules.len() {
        assert(rules.take(k) =~= rules);
    } else {
        assert(rules.take(k + 1).drop_last() =~= rules.take(k));
        lemma_calls_error_persists(rules, field, k + 1);
    }
}

/// Once a prefix of the fields is refused, so are all the fields.
proof fn lemma_fields_error_persists(fields: Seq<NamedField>, k: int)
    requires
        0 <= k <= fields.len(),
        field_calls(fields.take(k)) is Err,
    ensures
        field_calls(fields) == field_calls(fields.take(k)),
    decreases fields.len() - k,
{
    if k == fields.len() {
        assert(fields.take(k) =~= fields);
    } else {
        assert(fields.take(k + 1).drop_last() =~= fields.take(k));
        lemma_fields_error_persists(fields, k + 1);
    }
}

/// The calls that `rules` emit on the field named `field`, one per rule, or
/// the first refusal.
fn emit_calls(rules: &Vec<ValidateRule>, field: &str) -> (r: Result<Vec<ValidatorCall>, String>)
    ensures
        match calls_of(rule_views(rules@), field@) {
            Ok(calls) => r matches Ok(v) && v@.map_values(|c: ValidatorCall| c@) == calls,
            Err(e) => r matches Err(m) && m@ == e,
        },
{
    let ghost views = rule_views(rules@);
    let mut out: Vec<ValidatorCall> = Vec::new();
    let mut j: usize = 0;
    while j < rules.len()
        invariant
            j <= rules@.len(),
            views == rule_views(rules@),
            calls_of(views.take(j as int), field@) is Ok,
            out@.map_values(|c: ValidatorCall| c@) == calls_of(views.take(j as int), field@)->Ok_0,
        decreases rules@.len() - j,
    {
        proof {
            assert(views.take(j + 1).drop_last() =~= views.take(j as int));
            assert(views.take(j + 1).last() == rules@[j as int]@);
        }
        match emit_call(&rules[j], field) {
            Ok(call) => {
                let ghost before = out@;
                out.push(call);
                proof {
                    assert(out@.map_values(|c: ValidatorCall| c@) =~= before.map_values(
                        |c: ValidatorCall| c@,
                    ).push(call@));
                }
            },
            Err(e) => {
                proof {
                    lemma_calls_error_persists(views, field@, j as int + 1);
                }
                return Err(e);
            },
        }
        j = j + 1;
    }
    proof {
        assert(views.take(rules@.len() as int) =~= views);
    }
    Ok(out)
}

/// The plan of `#[derive(Validatable)]` for an item of the given shape: for
/// a struct with named fields, the validator calls of every rule of every
/// field, in order (they are all run, nothing short-circuits); for another
/// shape, the error the derive reports.
pub fn expand_validatable(shape: &ItemShape) -> (r: Result<Vec<FieldCall>, String>)
    ensures
        field_calls_result_view(r) == validatable_plan(*shape),
{
    let fields = match shape {
        ItemShape::NamedStruct(fields) => fields,
        ItemShape::NotAStruct => {
            return Err("#[derive(Validatable)] only supports structs".to_owned());
        },
        _ => {
            return Err("#[derive(Validatable)] only supports structs with named fields".to_owned());
        },
    };
    assert(validatable_plan(*shape) == field_calls(fields@));
    let mut out: Vec<FieldCall> = Vec::new();
    let mut i: usize = 0;
    while i < fields.len()
        invariant
            validatable_plan(*shape) == field_calls(fields@),
            i <= fields@.len(),
            field_calls(fields@.take(i as int)) is Ok,
            field_call_views(out@) == field_calls(fields@.take(i as int))->Ok_0,
        decreases fields@.len() - i,
    {
        proof {
            assert(fields@.take(i + 1).drop_last() =~= fields@.take(i as int));
            assert(fields@.take(i + 1).last() == fields@[i as int]);
        }
        let field = &fields[i];
        let rules = match parse_validate_attrs(&field.attrs) {
            Ok(rules) => rules,
            Err(e) => {
                proof {
                    assert(field_calls(fields@.take(i + 1)) == Err::<Seq<(Seq<char>, CallView)>, Seq<char>>(e@));
                    lemma_fields_error_persists(fields@, i as int + 1);
                }
                return Err(e);
            },
        };
        let ghost views = rule_views(rules@);
        let ghost before = field_call_views(out@);
        proof {
            assert(field_calls(fields@.take(i + 1)) == match calls_of(views, field.name@) {
                Err(e) => Err(e),
                Ok(calls) => Ok(before + on_field(field.name@, calls)),
            });
        }
        let mut j: usize = 0;
        while j < rules.len()
            invariant
                validatable_plan(*shape) == field_calls(fields@),
                i < fields@.len(),
                *field == fields@[i as int],
                fields@.take(i + 1).drop_last() == fields@.take(i as int),
                fields@.take(i + 1).last() == fields@[i as int],
                field_calls(fields@.take(i as int)) == Ok::<Seq<(Seq<char>, CallView)>, Seq<char>>(before),
                attrs_rules(field.attrs@) == Ok::<Seq<RuleView>, Seq<char>>(views),
                j <= rules@.len(),
                views == rule_views(rules@),
                calls_of(views.take(j as int), field.name@) is Ok,
                field_call_views(out@) == before + on_field(
                    field.name@,
                    calls_of(views.take(j as int), field.name@)->Ok_0,
                ),
            decreases rules@.len() - j,
        {
            proof {
                assert(views.take(j + 1).drop_last() =~= views.take(j as int));
                assert(views.take(j + 1).last() == rules@[j as int]@);
            }
            match emit_call(&rules[j], field.name.as_str()) {
                Ok(call) => {
                    let ghost prev = out@;
                    let ghost done = calls_of(views.take(j as int), field.name@)->Ok_0;
                    out.push(FieldCall { field: field.name.clone(), call });
                    proof {
                        assert(on_field(field.name@, done.push(call@)) =~= on_field(
                            field.name@,
                            done,
                        ).push((field.name@, call@)));
                        assert(field_call_views(out@) =~= field_call_views(prev).push(
                            (field.name@, call@),
                        ));
                    }
                },
                Err(e) => {
                    proof {
                        lemma_calls_error_persists(views, field.name@, j as int + 1);
                        lemma_fields_error_persists(fields@, i as int + 1);
                    }
                    return Err(e);
                },
            }
            j = j + 1;
        }
        proof {
            assert(views.take(rules@.len() as int) =~= views);
        }
        i = i + 1;
    }
    proof {
        assert(fields@.take(fields@.len() as int) =~= fields@);
    }
    Ok(out)
}

/// What `#[derive(NewType)]` makes of an item, by view: the validator calls
/// on the inner value and whether `as_str` is added.
pub struct NewTypeView {
    pub calls: Seq<CallView>,
    pub as_str: bool,
}

impl View for NewTypePlan {
    type V = NewTypeView;

    open spec fn view(&self) -> NewTypeView {
        NewTypeView { calls: self.calls@.map_values(|c: ValidatorCall| c@), as_str: self.as_str }
    }
}

/// The field's type is a path whose last segment is `String`.
pub open spec fn names_string(f: TupleField) -> bool {
    f.inner_type matches Some(t) && t@ == "String"@
}

/// What `#[derive(NewType)]` makes of an item: for a tuple struct with one
/// field, the calls of that field's rules under the name `value`; otherwise
/// the error the derive reports.
pub open spec fn newtype_plan(shape: ItemShape) -> Result<NewTypeView, Seq<char>> {
    match shape {
        ItemShape::NotAStruct => Err("#[derive(NewType)] only supports tuple structs"@),
        ItemShape::TupleStruct(fields) => if fields.len() != 1 {
            Err("#[derive(NewType)] requires exactly one inner field"@)
        } else {
            match attrs_rules(fields@[0].attrs@) {
                Err(e) => Err(e),
                Ok(rules) => match calls_of(rules, "value"@) {
                    Err(e) => Err(e),
                    Ok(calls) => Ok(NewTypeView { calls, as_str: names_string(fields@[0]) }),
                },
            }
        },
        _ => Err("#[derive(NewType)] requires a tuple struct: `pub struct Foo(InnerType);`"@),
    }
}

/// A newtype-plan result whose success and error are taken by their views.
pub open spec fn newtype_result_view(r: Result<NewTypePlan, String>) -> Result<NewTypeView, Seq<char>> {
    match r {
        Ok(p) => Ok(p@),
        Err(e) => Err(e@),
    }
}

/// Whether the field's type is the bare path `String` (by its last segment).
pub fn is_string_type(field: &TupleField) -> (r: bool)
    ensures
        r == names_string(*field),
{
    match &field.inner_type {
        Some(t) => same_text(t.as_str(), "String"),
        None => false,
    }
}

/// The plan of `#[derive(NewType)]` for an item of the given shape: the
/// single inner field's rules become validator calls reported under the
/// field name `value`, all of them run by the smart constructor and by
/// `validate`; `as_str` is added when the inner type is `String`. Any other
/// shape is refused with the derive's error.
pub fn expand_newtype(shape: &ItemShape) -> (r: Result<NewTypePlan, String>)
    ensures
        newtype_result_view(r) == newtype_plan(*shape),
{
    match shape {
        ItemShape::NotAStruct => Err("#[derive(NewType)] only supports tuple structs".to_owned()),
        ItemShape::TupleStruct(fields) => {
            if fields.len() != 1 {
                return Err("#[derive(NewType)] requires exactly one inner field".to_owned());
            }
            let field = &fields[0];
            let rules = match parse_validate_attrs(&field.attrs) {
                Ok(rules) => rules,
                Err(e) => {
                    return Err(e);
                },
            };
            let calls = match emit_calls(&rules, "value") {
                Ok(calls) => calls,
                Err(e) => {
                    return Err(e);
                },
            };
            Ok(NewTypePlan { calls, as_str: is_string_type(field) })
        },
        _ => Err(
            "#[derive(NewType)] requires a tuple struct: `pub struct Foo(InnerType);`".to_owned(),
        ),
    }
}

/// Every rule of a field gets a call of its own, in the order of the rules:
/// the calls are emitted exactly when each rule is known, and then there is
/// one call per rule, the call of that rule. Nothing is dropped or merged,
/// so every check runs and every failure is reported.
pub proof fn law_one_call_per_rule(rules: Seq<RuleView>, field: Seq<char>)
    ensures
        calls_of(rules, field) is Ok <==> forall|i: int|
            0 <= i < rules.len() ==> #[trigger] call_of(rules[i], field) is Ok,
        calls_of(rules, field) matches Ok(calls) ==> {
            &&& calls.len() == rules.len()
            &&& forall|i: int|
                0 <= i < rules.len() ==> #[trigger] call_of(rules[i], field) == Ok::<
                    CallView,
                    Seq<char>,
                >(calls[i])
        },
    decreases rules.len(),
{
    if rules.len() > 0 {
        let prefix = rules.drop_last();
        law_one_call_per_rule(prefix, field);
        assert forall|i: int| 0 <= i < prefix.len() implies prefix[i] == rules[i] by {}
        if calls_of(rules, field) is Ok {
            assert forall|i: int| 0 <= i < rules.len() implies #[trigger] call_of(
                rules[i],
                field,
            ) is Ok by {
                if i < prefix.len() {
                    assert(call_of(prefix[i], field) is Ok);
                }
            }
        }
        if forall|i: int| 0 <= i < rules.len() ==> #[trigger] call_of(rules[i], field) is Ok {
            assert forall|i: int| 0 <= i < prefix.len() implies #[trigger] call_of(
                prefix[i],
                field,
            ) is Ok by {
                assert(call_of(rules[i], field) is Ok);
            }
            assert(call_of(rules[rules.len() - 1], field) is Ok);
        }
    }
}

/// Inserting an attribute that is not `#[validate(...)]` anywhere among a
/// field's attributes changes none of the rules read from them.
proof fn lemma_other_attribute_inert(attrs: Seq<Attribute>, p: int, a: Attribute)
    requires
        0 <= p <= attrs.len(),
        !(a.path matches Some(name) && name@ == "validate"@),
    ensures
        attrs_rules(attrs.insert(p, a)) == attrs_rules(attrs),
    decreases attrs.len(),
{
    let more = attrs.insert(p, a);
    if p == attrs.len() {
        assert(more.drop_last() =~= attrs);
        assert(more.last() == a);
    } else {
        assert(more.drop_last() =~= attrs.drop_last().insert(p, a));
        assert(more.last() == attrs.last());
        lemma_other_attribute_inert(attrs.drop_last(), p, a);
    }
}

/// [`lemma_other_attribute_inert`], carried over a list of fields.
proof fn lemma_other_attribute_inert_fields(
    f1: Seq<NamedField>,
    f2: Seq<NamedField>,
    i: int,
    p: int,
    a: Attribute,
)
    requires
        f1.len() == f2.len(),
        0 <= i < f1.len(),
        0 <= p <= f1[i].attrs@.len(),
        !(a.path matches Some(name) && name@ == "validate"@),
        forall|j: int| 0 <= j < f1.len() && j != i ==> f2[j] == f1[j],
        f2[i].name@ == f1[i].name@,
        f2[i].attrs@ == f1[i].attrs@.insert(p, a),
    ensures
        field_calls(f2) == field_calls(f1),
    decreases f1.len(),
{
    if i == f1.len() - 1 {
        assert(f2.drop_last() =~= f1.drop_last());
        lemma_other_attribute_inert(f1[i].attrs@, p, a);
    } else {
        lemma_other_attribute_inert_fields(f1.drop_last(), f2.drop_last(), i, p, a);
        assert(f2.last() == f1.last());
    }
}

/// Attributes other than `#[validate(...)]` (doc comments, serde options,
/// ...) contribute nothing and hide nothing: inserting one anywhere among
/// the attributes of one field of a struct leaves the plan of
/// `#[derive(Validatable)]` for the struct exactly as it was.
pub proof fn law_other_attributes_change_nothing(
    s1: ItemShape,
    s2: ItemShape,
    i: int,
    p: int,
    a: Attribute,
)
    requires
        s1 matches ItemShape::NamedStruct(f1) && s2 matches ItemShape::NamedStruct(f2) && {
            &&& f1@.len() == f2@.len()
            &&& 0 <= i < f1@.len()
            &&& 0 <= p <= f1@[i].attrs@.len()
            &&& forall|j: int| 0 <= j < f1@.len() && j != i ==> f2@[j] == f1@[j]
            &&& f2@[i].name@ == f1@[i].name@
            &&& f2@[i].attrs@ == f1@[i].attrs@.insert(p, a)
        },
        !(a.path matches Some(name) && name@ == "validate"@),
    ensures
        validatable_plan(s2) == validatable_plan(s1),
{
    match (s1, s2) {
        (ItemShape::NamedStruct(f1), ItemShape::NamedStruct(f2)) => {
            lemma_other_attribute_inert_fields(f1@, f2@, i, p, a);
        },
        _ => {},
    }
}

/// The calls of a `#[derive(NewType)]` plan do not depend on the inner type:
/// two single-field tuple structs whose fields carry the same attributes get
/// the same calls, or the same error; only `as_str` may differ.
pub proof fn law_newtype_calls_ignore_inner_type(s1: ItemShape, s2: ItemShape)
    requires
        s1 matches ItemShape::TupleStruct(f1) && s2 matches ItemShape::TupleStruct(f2) && f1@.len()
            == 1 && f2@.len() == 1 && f1@[0].attrs@ == f2@[0].attrs@,
    ensures
        newtype_plan(s1) is Ok <==> newtype_plan(s2) is Ok,
        newtype_plan(s1) is Err ==> newtype_plan(s1) == newtype_plan(s2),
        newtype_plan(s1) is Ok ==> newtype_plan(s1)->Ok_0.calls == newtype_plan(s2)->Ok_0.calls,
{
}

/// The smart constructor of `#[derive(NewType)]` runs one call per rule of
/// its field, in order, each reporting under the field name `value`: when
/// the plan succeeds, the field's rules were all accepted and the `i`-th
/// call is the call of the `i`-th rule.
pub proof fn law_newtype_one_call_per_rule(s: ItemShape)
    requires
        newtype_plan(s) is Ok,
    ensures
        s is TupleStruct,
        s->TupleStruct_0@.len() == 1,
        attrs_rules(s->TupleStruct_0@[0].attrs@) is Ok,
        newtype_plan(s)->Ok_0.calls.len() == attrs_rules(s->TupleStruct_0@[0].attrs@)->Ok_0.len(),
        forall|i: int|
            0 <= i < attrs_rules(s->TupleStruct_0@[0].attrs@)->Ok_0.len() ==> #[trigger] call_of(
                attrs_rules(s->TupleStruct_0@[0].attrs@)->Ok_0[i],
                "value"@,
            ) == Ok::<CallView, Seq<char>>(newtype_plan(s)->Ok_0.calls[i]),
{
    match s {
        ItemShape::TupleStruct(f) => {
            let rules = attrs_rules(f@[0].attrs@)->Ok_0;
            law_one_call_per_rule(rules, "value"@);
        },
        _ => {},
    }
}

/// The plan of a struct is the plans of its fields, field by field: the
/// calls planned for the fields `f1` followed by `f2` are those of `f1`
/// followed by those of `f2`, and the first refusal among them is the error.
pub proof fn law_fields_plan_in_order(f1: Seq<NamedField>, f2: Seq<NamedField>)
    ensures
        field_calls(f1 + f2) == match field_calls(f1) {
            Err(e) => Err(e),
            Ok(a) => match field_calls(f2) {
                Err(e) => Err(e),
                Ok(b) => Ok(a + b),
            },
        },
    decreases f2.len(),
{
    if f2.len() == 0 {
        assert(f1 + f2 =~= f1);
    } else {
        law_fields_plan_in_order(f1, f2.drop_last());
        assert((f1 + f2).drop_last() =~= f1 + f2.drop_last());
        assert((f1 + f2).last() == f2.last());
        match (field_calls(f1), field_calls(f2.drop_last())) {
            (Ok(a), Ok(b)) => {
                let f = f2.last();
                match attrs_rules(f.attrs@) {
                    Ok(rules) => match calls_of(rules, f.name@) {
                        Ok(calls) => {
                            assert(a + b + on_field(f.name@, calls) =~= a + (b + on_field(
                                f.name@,
                                calls,
                            )));
                        },
                        Err(_) => {},
                    },
                    Err(_) => {},
                }
            },
            _ => {},
        }
    }
}

/// A field whose one attribute is `#[validate(min_length = v)]` is planned
/// exactly one call, `validate_min_length("name", &value, v)`, whatever the
/// field's name and the bound's text.
pub proof fn law_min_length_field(f: NamedField)
    requires
        f.attrs@.len() == 1,
        f.attrs@[0].path matches Some(p) && p@ == "validate"@,
        f.attrs@[0].syntax_error is None,
        f.attrs@[0].items@.len() == 1,
        f.attrs@[0].items@[0] matches RuleSyntax::Assign(k, _) && k@ == "min_length"@,
    ensures
        field_calls(seq![f]) == Ok::<Seq<(Seq<char>, CallView)>, Seq<char>>(
            seq![
                (
                    f.name@,
                    CallView {
                        function: "validate_min_length"@,
                        args: seq![
                            ArgView::Str(f.name@),
                            ArgView::Ref,
                            ArgView::Expr(f.attrs@[0].items@[0]->Assign_1@),
                        ],
                    },
                ),
            ],
        ),
{
    reveal_strlit("min_length");
    reveal_strlit("validate_min_length");
    reveal_strlit("email");
    reveal_strlit("url");
    reveal_strlit("uuid");
    reveal_strlit("non_empty");
    reveal_strlit("us_zip");
    reveal_strlit("ca_postal");
    reveal_strlit("phone_e164");
    reveal_strlit("max_length");
    reveal_strlit("matches");
    let one = seq![f];
    assert(one.drop_last() =~= Seq::<NamedField>::empty());
    let items = f.attrs@[0].items@;
    assert(items.drop_last() =~= Seq::<RuleSyntax>::empty());
    let attrs = f.attrs@;
    assert(attrs.drop_last() =~= Seq::<Attribute>::empty());
    assert(items.last() == items[0]);
    assert(rule_of(items[0]) is Ok);
    let rule = rule_of(items[0])->Ok_0;
    assert(Seq::<RuleView>::empty().push(rule) =~= seq![rule]);
    assert(items_rules(items.drop_last()) == Ok::<Seq<RuleView>, Seq<char>>(Seq::empty()));
    assert(items_rules(items) == Ok::<Seq<RuleView>, Seq<char>>(seq![rule]));
    assert(attrs.last() == attrs[0]);
    assert(is_validate(attrs[0]));
    assert(attr_rules(attrs[0]) == Ok::<Seq<RuleView>, Seq<char>>(seq![rule]));
    assert(Seq::<RuleView>::empty() + seq![rule] =~= seq![rule]);
    assert(attrs_rules(attrs.drop_last()) == Ok::<Seq<RuleView>, Seq<char>>(Seq::empty()));
    assert(attrs_rules(attrs) == Ok::<Seq<RuleView>, Seq<char>>(seq![rule]));
    let rules = seq![rule];
    assert(rules.drop_last() =~= Seq::<RuleView>::empty());
    assert(key_validator(rule->NameValue_0) == Some("validate_min_length"@));
    assert(rules.last() == rule);
    let call = call_of(rule, f.name@)->Ok_0;
    assert(Seq::<CallView>::empty().push(call) =~= seq![call]);
    assert(calls_of(rules.drop_last(), f.name@) == Ok::<Seq<CallView>, Seq<char>>(Seq::empty()));
    assert(calls_of(rules, f.name@) == Ok::<Seq<CallView>, Seq<char>>(seq![call]));
    assert(field_calls(one.drop_last()) == Ok::<Seq<(Seq<char>, CallView)>, Seq<char>>(Seq::empty()));
    assert(one.last() == f);
    assert(on_field(f.name@, seq![call]) =~= seq![(f.name@, call)]);
    assert(Seq::<(Seq<char>, CallView)>::empty() + seq![(f.name@, call)] =~= seq![(f.name@, call)]);
}

} // verus!
