//! A verified struct/enum to dynamic-table codec.
//!
//! The crate models the dynamic, ordered-by-insertion tables of an
//! embedded scripting environment ([`value`]), resolves per-type
//! layout attributes into immutable type descriptors ([`attrs`] and
//! [`shape`]), and converts typed values to tables and back
//! ([`encode`] and [`decode`]) under contracts that pin the layout
//! down exactly.  Default keys for enum variants are the snake_case
//! transform of the variant name ([`case`]).  The round-trip guarantee
//! and its companions are stated and proved in [`laws`].

pub mod attrs;
pub mod case;
pub mod decode;
pub mod encode;
pub mod laws;
pub mod shape;
pub mod value;
