//! Compilation of GPU kernel interfaces into canonical descriptors, the
//! layout rules that turn a descriptor into binding assignments and push
//! constant blocks, and the binary cache protocol (encode, decode, version
//! gate, lookup) that lets pre-compiled descriptors be embedded in generated
//! source and consumed later by a possibly different tool version.

pub mod blob;
pub mod cache;
pub mod codec;
pub mod desc;
pub mod device;
pub mod features;
pub mod host;
pub mod layout;
pub mod lookup;
pub mod scalar;
pub mod sequtil;
pub mod signature;
pub mod strutil;
pub mod version;
