//! A schema-driven dynamic protocol-buffer message engine.
//!
//! A [`descriptor::DescriptorPool`] holds the shape of every message and
//! service declared by a compiled schema bundle.  A [`message::DynamicMessage`]
//! is a container of field values bound to one message declaration; reads and
//! writes are validated against the declared field kinds.  Codecs convert a
//! dynamic message to and from the protobuf binary wire format, the protobuf
//! text format, and JSON.

use vstd::prelude::*;

pub mod descriptor;
pub mod json;
pub mod message;
pub mod schema;
pub mod text;
pub mod wire;

verus! {

/// Every failure the engine can report.  All are recoverable by the caller.
#[derive(Clone, Copy, Debug, PartialEq, Eq, Structural)]
pub enum Error {
    /// The schema bundle handed to pool construction was malformed.
    SchemaDecode,
    /// No message or service with the requested fully-qualified name.
    NotFound,
    /// No field with the requested name or number on the target descriptor.
    FieldNotFound,
    /// An assigned value's kind does not match the field's declared kind.
    TypeMismatch,
    /// Malformed binary wire input during decode.
    WireDecode,
    /// Malformed protobuf text input during parse.
    TextParse,
    /// Malformed JSON input, or a JSON value unfit for its field, during parse.
    JsonParse,
    /// The operation touched a part of the model the engine does not
    /// implement: repeated fields, or rendering of floating-point values.
    Unsupported,
}

impl Error {
    /// A short stable label for the error, for hosts that show messages.
    pub fn describe(&self) -> (r: &'static str)
        ensures
            r@ == self.describe_spec(),
    {
        match self {
            Error::SchemaDecode => "schema decode error",
            Error::NotFound => "not found",
            Error::FieldNotFound => "field not found",
            Error::TypeMismatch => "type mismatch",
            Error::WireDecode => "wire decode error",
            Error::TextParse => "text parse error",
            Error::JsonParse => "json parse error",
            Error::Unsupported => "unsupported",
        }
    }

    pub open spec fn describe_spec(self) -> Seq<char> {
        match self {
            Error::SchemaDecode => "schema decode error"@,
            Error::NotFound => "not found"@,
            Error::FieldNotFound => "field not found"@,
            Error::TypeMismatch => "type mismatch"@,
            Error::WireDecode => "wire decode error"@,
            Error::TextParse => "text parse error"@,
            Error::JsonParse => "json parse error"@,
            Error::Unsupported => "unsupported"@,
        }
    }
}

} // verus!
