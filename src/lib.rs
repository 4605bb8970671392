//! A contact submission pipeline: a record of five optional text fields,
//! its JSON document, the object-store key it is written under, and the
//! decisions taken around the single storage write.

pub mod json;
pub mod contact;
pub mod object_key;
pub mod upload;
