//! A file-system-backed coordination cache for a developer-environment CLI:
//! the verified core of its serialized store and of the shared-tool
//! installation schema that layers TTL and reference-count bookkeeping on
//! it, together with the readers for the configuration that surrounds them.
pub mod asdf_operation;
pub mod clock;
pub mod codec;
pub mod config_value;
pub mod gomod;
pub mod parser;
pub mod strutil;
pub mod up_bundler;
pub mod up_custom;
