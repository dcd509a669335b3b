//! A reader for GGUF files: typed metadata, tensor descriptors and tensor payloads,
//! decoded from the bytes of a file.

pub mod bytes;
pub mod error;
pub mod header;
pub mod laws;
pub mod metadata;
pub mod model;
pub mod prefix;
pub mod quant;
pub mod roundtrip;
pub mod tensor;
pub mod tokenizer;
pub mod value;
