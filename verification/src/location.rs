//! Resolution of two-letter country codes to display names.  The lookup
//! table itself lives in an outside crate; the library only fixes how its
//! answer is used.

use vstd::prelude::*;

verus! {

/// The ISO short name that a two-letter country code resolves to, or `None`
/// when the code is not a known ISO 3166-1 alpha-2 code.  The name a code
/// maps to depends on the code's characters alone.
pub uninterp spec fn country_name_of(code: Seq<char>) -> Option<Seq<char>>;

/// Relies on `isocountry::CountryCode::for_alpha2_caseless` (which code
/// resolves, caselessly) and `isocountry::CountryCode::name` (its ISO short
/// name): both depend only on the characters of `code`.
#[verifier::external_body]
fn lookup_country_name(code: &str) -> (r: Option<String>)
    ensures
        r is Some <==> country_name_of(code@) is Some,
        r matches Some(n) ==> country_name_of(code@) == Some(n@),
{
    match isocountry::CountryCode::for_alpha2_caseless(code) {
        Ok(c) => Some(c.name().to_string()),
        Err(_) => None,
    }
}

/// The location key a country code is displayed and grouped under: its ISO
/// short name when the code resolves, the code itself otherwise.
pub open spec fn display_location_spec(code: Seq<char>) -> Seq<char> {
    match country_name_of(code) {
        Some(n) => n,
        None => code,
    }
}

/// Resolves a two-letter country code to the location key used in the
/// message, falling back to the code itself when it is not a known code.
pub fn display_location(code: &str) -> (r: String)
    ensures
        r@ == display_location_spec(code@),
{
    match lookup_country_name(code) {
        Some(n) => n,
        None => code.to_owned(),
    }
}

} // verus!
