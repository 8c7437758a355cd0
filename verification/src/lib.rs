//! A binary document codec: an order-preserving string-keyed document of
//! tagged values, an encoder and decoder for the length-prefixed, type-tagged
//! wire format, an extended-document bridge for value kinds that a generic
//! tree notation cannot represent, and adapters that carry arbitrary
//! structured values through the same model.

pub mod calendar;
pub mod decimal;
pub mod decode;
pub mod doc;
pub mod encode;
pub mod extended;
pub mod hex;
pub mod object_id;
pub mod roundtrip;
pub mod ser;
pub mod text;
pub mod value;

pub use doc::Document;
pub use object_id::ObjectId;
pub use value::{Array, Value};
