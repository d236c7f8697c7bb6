# rust_api

The verified core of a small REST toolkit, written in Verus.

- `src/validators.rs`, `src/formats.rs`, `src/chars.rs`: the intrinsic field
  validators (e-mail, URL, UUID v4, ZIP, Canadian postal code, E.164 phone,
  lengths, ranges, patterns, custom predicates). Each fixed format is stated
  as a predicate on the character sequence and recognised by code proved
  equal to it; caller-supplied patterns go to the `regex` crate.
- `src/validation.rs`: the field error, the `Validatable` trait, the 422
  rejection and the decisions of the validating body and query extractors.
- `src/query.rs`, `src/paging.rs`, `src/repository.rs`: composable queries
  (filters, ordering, paging) and an in-memory repository whose view is a map
  from identifiers to entities. `find` answers over the stored entities and
  ensures that they list the view, each once; laws relate save to look-up,
  delete to look-up, and a query's answer to the entities of the view.
- `src/id.rs`: phantom-typed UUID identifiers; fresh ones are random v4 UUIDs.
- `src/rules.rs`: the rule logic of the `Validatable` and `NewType` derives,
  from attribute syntax to the list of validator calls.

`app/` holds what Verus does not see: the axum extractors and response, the
async repository trait over a locked store, serde for identifiers, and the
token front end of the derives (syn and quote).
