//! Ingestion core of a log platform: the registry of user transforms, the
//! per-node caches kept in step with it, and the per-record ingestion rules.

pub mod functions;
pub mod text;
pub mod cache;
pub mod json;
pub mod decimal;
pub mod codec;
pub mod ingest;
pub mod naming;
pub mod otel;
