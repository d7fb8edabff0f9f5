//! Build-time schema pipeline: migration registry ordering, sequential
//! migration application against a scratch schema, catalog introspection
//! filtering, and deterministic entity emission, together with the server
//! configuration model that surrounds it.

pub mod bytestr;
pub mod config;
pub mod dbms;
pub mod entity;
pub mod order;
pub mod pipeline;
pub mod registry;
pub mod schema;
pub mod sql;
pub mod utils;
