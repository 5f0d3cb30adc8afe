//! Verified core of a Durable Object host.
#[allow(unused_imports)]
use vstd::prelude::*;

pub mod cell_runtime;
pub mod digests;
pub mod engine_api;
pub mod facet_streams;
pub mod generation;
pub mod headers;
pub mod host_channels;
pub mod http_proxy;
pub mod http_streams;
pub mod json;
pub mod kv_blob;
pub mod ltx_repl;
pub mod maps;
pub mod queue_policy;
pub mod r2_ops;
pub mod r2_record;
pub mod r2_store;
pub mod sql_model;
pub mod sql_policy;
pub mod statement_cache;
pub mod storage;
pub mod storage_plans;
pub mod text;
pub mod websocket;
pub mod ws_flush;
pub mod ws_frames;
pub mod ws_registry;

verus! {

} // verus!
