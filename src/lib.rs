//! User-space side of a kernel-tracing event pipeline: the lifecycle of a
//! compiled tracing program, the set of live hook attachments it owns, a
//! ring-buffer consumer, and the decoder for the fixed-layout event records.
pub mod consumer;
pub mod lifecycle;
pub mod record;
