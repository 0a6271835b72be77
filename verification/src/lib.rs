//! A verified core for pulling a container image from a registry.
//!
//! The library holds the logic of the pull pipeline: parsing an image
//! reference, building the endpoint URLs, deciding what each HTTP status
//! means, decoding a layer archive, and combining per-layer outcomes.
//! The surrounding binary performs the network and filesystem I/O and
//! hands this crate plain values.

pub mod archive;
pub mod errors;
pub mod image_ref;
pub mod manifest;
pub mod orchestrate;
pub mod overlay;
pub mod urls;
