//! Derivation of markup emitters from record declarations.
//!
//! A record declaration is classified field by field, the classification is
//! turned into an emission procedure, and the procedure is run on record
//! instances against an event-based markup writer.
//!
//! - [`shape`]: from a field's declared type to its structural shape.
//! - [`schema`]: the declaration of a record, its fields and annotations.
//! - [`classify`]: the roles of the fields of a record.
//! - [`emit`]: the emission procedure of a record.
//! - [`value`]: record instances, and the writing of their events.
//! - [`writer`]: the handle on the event writer.
//! - [`stringify`]: the text of scalar values.
//! - [`laws`]: what holds of every record and every instance.

pub mod classify;
pub mod emit;
pub mod laws;
pub mod schema;
pub mod shape;
pub mod stringify;
pub mod text;
pub mod value;
pub mod writer;
