//! Phantom-typed entity identity: a UUID branded with the type it
//! identifies. `Id<User>` and `Id<Post>` are distinct types; at run time an
//! identifier is just its 128 bits.

use vstd::prelude::*;
use vstd::std_specs::cmp::{PartialEqSpec, PartialEqSpecImpl};
use crate::formats::{all_in, in_class, is_uuid_v4, CharClass};
use crate::chars::{folded, is_ascii_digit};
use crate::repository::lawful_eq;

verus! {

#[verifier::external_type_specification]
#[verifier::external_body]
pub struct ExUuid(uuid::Uuid);

/// The lower-case hexadecimal digit for `d < 16`.
pub open spec fn hex_lower(d: u128) -> char {
    if d < 10 {
        (('0' as u32) + d) as char
    } else {
        (('a' as u32) + (d - 10)) as char
    }
}

/// The `k`-th of the 32 hexadecimal digits of `v`, most significant first.
pub open spec fn nibble(v: u128, k: int) -> u128 {
    (v >> ((4 * (31 - k)) as u128)) & 0xF
}

/// The digit of a hyphenated UUID shown at text position `i`.
pub open spec fn digit_index(i: int) -> int {
    if i < 8 {
        i
    } else if i < 13 {
        i - 1
    } else if i < 18 {
        i - 2
    } else if i < 23 {
        i - 3
    } else {
        i - 4
    }
}

/// The hyphenated lower-case text of a UUID with bits `v`, e.g.
/// `67e55044-10b1-426f-9247-bb680e5fe0c8`: its 32 hexadecimal digits, most
/// significant first, with dashes after the 8th, 12th, 16th and 20th.
pub open spec fn hyphenated(v: u128) -> Seq<char> {
    Seq::new(
        36,
        |i: int|
            if i == 8 || i == 13 || i == 18 || i == 23 {
                '-'
            } else {
                hex_lower(nibble(v, digit_index(i)))
            },
    )
}

/// The bits of a random (version 4, RFC 4122 variant) UUID: the version
/// digit is 4 and the two top bits of the variant digit are `10`.
pub open spec fn is_random_uuid(v: u128) -> bool {
    &&& (v >> 76u128) & 0xF == 4
    &&& (v >> 62u128) & 0x3 == 2
}

/// `uuid::Uuid::new_v4`, read back with `as_u128` (big-endian). The
/// contract claims what the crate documents and its source shows: the
/// version digit is 4 and the variant is RFC 4122. The other 122 bits are
/// random, and nothing is said of them.
#[verifier::external_body]
fn random_uuid_bits() -> (v: u128)
    ensures
        is_random_uuid(v),
{
    uuid::Uuid::new_v4().as_u128()
}

/// What `uuid::Uuid::from_u128` returns for `v`: the UUID whose big-endian
/// value is `v`.
pub uninterp spec fn uuid_from_u128(v: u128) -> uuid::Uuid;

/// `uuid::Uuid::from_u128`: the UUID whose big-endian value is `v`. The
/// `Uuid` is opaque here; the contract claims only that the result is the
/// one the crate builds from `v` (the call is a pure function of `v`).
#[verifier::external_body]
fn uuid_from_bits(v: u128) -> (u: uuid::Uuid)
    ensures
        u == uuid_from_u128(v),
{
    uuid::Uuid::from_u128(v)
}

/// The `Display` text of `uuid::Uuid::from_u128(v)`. The contract claims the
/// format the crate documents for `Display`: hyphenated, lower case.
#[verifier::external_body]
fn uuid_text(v: u128) -> (s: String)
    ensures
        s@ == hyphenated(v),
{
    uuid::Uuid::from_u128(v).to_string()
}

/// A UUID branded with the type `T` it identifies.
#[derive(Hash)]
pub struct Id<T> {
    value: u128,
    _marker: core::marker::PhantomData<T>,
}

impl<T> Id<T> {
    /// The 128 bits of the identifier (the UUID's big-endian value).
    pub closed spec fn bits(&self) -> u128 {
        self.value
    }

    /// A fresh random (version 4) identifier.
    pub fn new() -> (r: Self)
        ensures
            is_random_uuid(r.bits()),
    {
        Id { value: random_uuid_bits(), _marker: core::marker::PhantomData }
    }

    /// The nil identifier, all zeros: the "not yet assigned" sentinel.
    pub fn nil() -> (r: Self)
        ensures
            r.bits() == 0,
    {
        Id { value: 0, _marker: core::marker::PhantomData }
    }

    /// The identifier whose 128 bits are `v` (a UUID's big-endian value).
    pub fn from_bits(v: u128) -> (r: Self)
        ensures
            r.bits() == v,
    {
        Id { value: v, _marker: core::marker::PhantomData }
    }

    /// The underlying UUID: the one whose big-endian value is the
    /// identifier's bits.
    pub fn value(&self) -> (u: uuid::Uuid)
        ensures
            u == uuid_from_u128(self.bits()),
    {
        uuid_from_bits(self.value)
    }

    /// The identifier as text: the hyphenated lower-case UUID.
    pub fn to_string(&self) -> (r: String)
        ensures
            r@ == hyphenated(self.bits()),
    {
        uuid_text(self.value)
    }
}

impl<T> Clone for Id<T> {
    fn clone(&self) -> (r: Self)
        ensures
            r == *self,
    {
        Id { value: self.value, _marker: core::marker::PhantomData }
    }
}

impl<T> Copy for Id<T> {
}

impl<T> PartialEq for Id<T> {
    fn eq(&self, other: &Self) -> (r: bool) {
        self.value == other.value
    }
}

impl<T> PartialEqSpecImpl for Id<T> {
    open spec fn obeys_eq_spec() -> bool {
        true
    }

    open spec fn eq_spec(&self, other: &Self) -> bool {
        self.bits() == other.bits()
    }
}

impl<T> Eq for Id<T> {
}

impl<T> Default for Id<T> {
    /// The nil identifier.
    fn default() -> (r: Self)
        ensures
            r.bits() == 0,
    {
        Id::nil()
    }
}

/// Identifiers are equal exactly when their bits are.
pub proof fn lemma_id_equality<T>(a: Id<T>, b: Id<T>)
    ensures
        PartialEqSpec::eq_spec(&a, &b) <==> a == b,
{
    if a.bits() == b.bits() {
        assert(a.value == b.value);
        assert(a._marker == b._marker);
    }
}

/// `==` on identifiers is lawful: it holds exactly of equal identifiers, so
/// `Id<T>` can key an in-memory repository (`with_id_gen`).
pub proof fn lemma_id_lawful_eq<T>()
    ensures
        lawful_eq::<Id<T>>(),
{
    assert forall|a: Id<T>, b: Id<T>| #[trigger] PartialEqSpec::eq_spec(&a, &b) <==> a == b by {
        lemma_id_equality(a, b);
    }
}

/// A freshly minted identifier is never the nil identifier, the default
/// that marks an entity as not yet assigned: what `Id::new` returns differs,
/// under `==` too, from what `Id::nil` and `Id::default` return.
pub proof fn law_fresh_id_is_not_nil<T>(fresh: Id<T>, nil: Id<T>)
    requires
        is_random_uuid(fresh.bits()),
        nil.bits() == 0,
    ensures
        fresh != nil,
        !PartialEqSpec::eq_spec(&fresh, &nil),
{
    let v = fresh.bits();
    assert(v == 0 ==> (v >> 76u128) & 0xF == 0) by (bit_vector);
}

proof fn lemma_hex_lower_is_hex(d: u128)
    requires
        d < 16,
    ensures
        in_class(CharClass::Hex, hex_lower(d)),
{
}

/// The text of every random UUID is accepted as a UUID v4: a freshly minted
/// identifier renders as a string that `validate_uuid` accepts.
pub proof fn law_random_uuid_text_is_uuid_v4(v: u128)
    requires
        is_random_uuid(v),
    ensures
        is_uuid_v4(hyphenated(v)),
{
    let s = hyphenated(v);
    assert forall|i: int| 0 <= i < 36 && i != 8 && i != 13 && i != 18 && i != 23 implies
        #[trigger] in_class(CharClass::Hex, s[i]) by {
        let k = digit_index(i);
        let sh = (4 * (31 - k)) as u128;
        assert((v >> sh) & 0xF < 16) by (bit_vector);
        lemma_hex_lower_is_hex(nibble(v, k));
    }
    assert(nibble(v, 12) == 4);
    assert(8 <= (v >> 60u128) & 0xF <= 11) by (bit_vector)
        requires
            (v >> 62u128) & 0x3 == 2,
    ;
    assert(nibble(v, 16) == (v >> 60u128) & 0xF);
}

} // verus!
