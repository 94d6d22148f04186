//! Decoders for two binary asset containers: a KTX-style texture container
//! and an SB6M-style chunked mesh container.
//!
//! Both decoders are pure functions from a byte slice to structured
//! descriptors. Nothing here talks to a graphics driver: the texture side ends
//! in an [`ktx::UploadPlan`], the mesh side in an [`object::Assembly`] and,
//! once the caller has created the GPU resources, an [`object::Object`].

pub mod bytes;
pub mod error;
pub mod glenum;
pub mod ktx;
pub mod object;
pub mod size;
pub mod text;
