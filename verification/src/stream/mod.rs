//! Stream sourcing: a video id in, a growing buffer of playable
//! audio bytes out.
pub mod buffer;
pub mod disk_cache;
pub mod chain;
pub mod sources;
