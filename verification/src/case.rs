//! The ways of writing an identifier, and the conversion between them.

use vstd::prelude::*;

verus! {

/// The ways of writing an identifier that a target language may ask for:
/// those cases of `convert_case` that put no blank into a name.
#[derive(Clone, Copy, Debug, PartialEq, Eq)]
pub enum Case {
    /// `camelCase`
    Camel,
    /// `UpperCamelCase`
    UpperCamel,
    /// `snake_case`
    Snake,
    /// `UPPER_SNAKE_CASE`
    UpperSnake,
    /// `kebab-case`
    Kebab,
    /// `UPPER-KEBAB-CASE`
    UpperKebab,
    /// `Train-Case`
    Train,
    /// `flatcase`
    Flat,
    /// `UPPERFLATCASE`
    UpperFlat,
}

/// The string that `convert_case` makes of `s` for the given case.
pub uninterp spec fn cased(s: Seq<char>, case: Case) -> Seq<char>;

/// Calls `convert_case::Casing::to_case` on `s`, with the case of that crate
/// that has the same name. The crate splits `s` into words at its default
/// boundaries and joins them again as the case asks. The contract is not
/// proved: it claims that the result depends on `s` and the case alone, and
/// gives it a name without saying more of it.
#[verifier::external_body]
pub(crate) fn to_case(s: &str, case: Case) -> (r: String)
    ensures
        r@ == cased(s@, case),
{
    let outside = match case {
        Case::Camel => convert_case::Case::Camel,
        Case::UpperCamel => convert_case::Case::UpperCamel,
        Case::Snake => convert_case::Case::Snake,
        Case::UpperSnake => convert_case::Case::UpperSnake,
        Case::Kebab => convert_case::Case::Kebab,
        Case::UpperKebab => convert_case::Case::UpperKebab,
        Case::Train => convert_case::Case::Train,
        Case::Flat => convert_case::Case::Flat,
        Case::UpperFlat => convert_case::Case::UpperFlat,
    };
    convert_case::Casing::to_case(&s, outside)
}

} // verus!
