//! Case conversion for enum variant names.
//!
//! Default table keys for enum variants are the snake_case transform of
//! the variant's declared name (`FooBar` becomes `foo_bar`).  The
//! transform itself is supplied by the `Inflector` crate; the codec only
//! relies on it being a pure function of the characters, applied
//! identically when encoding and when decoding.

use vstd::prelude::*;

verus! {

/// The snake_case form of a sequence of characters, as computed by the
/// `Inflector` crate's `to_snake_case`.
pub uninterp spec fn snake_of(s: Seq<char>) -> Seq<char>;

/// Relies on `inflector::cases::snakecase::to_snake_case`: the result is
/// a pure case transform, depending on the input characters alone.
#[verifier::external_body]
pub(crate) fn to_snake_case(s: &str) -> (r: String)
    ensures
        r@ == snake_of(s@),
{
    inflector::cases::snakecase::to_snake_case(s)
}

} // verus!
