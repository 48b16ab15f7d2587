//! Conversion of Serde data-model values into Typst runtime values.
//!
//! The serializer's decisions stand in [`serializer`]: each part of Serde's
//! data model becomes a [`value::Node`], and [`value::Node::into_typst`]
//! turns the finished node into a `typst::foundations::Value`.

pub mod error;
pub mod serializer;
pub mod text;
pub mod typst_value;
pub mod value;
