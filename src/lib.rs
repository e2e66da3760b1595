//! Serializers for values laid out as TL-B style cells: a small layout
//! language, a compiler from type descriptors to serialization plans, and the
//! leaf encoders that the plans bottom out in.

pub mod error;
pub mod text;
pub mod cell;
pub mod varuint;
pub mod ton;
pub mod layout;
pub mod literal;
pub mod plan;
pub mod variants;
