//! Ingestion and query-gateway core for gallery records: a binary record
//! codec, block compression of encoded records, the batching decisions of the
//! ingestion pipeline, and the validation and streaming rules of the SQL
//! gateway.

pub mod text;
pub mod dto;
pub mod wire;
pub mod gallery;
pub mod codec;
pub mod compress;
pub mod pipeline;
pub mod gateway;
pub mod input;
pub mod dates;
