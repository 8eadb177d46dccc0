//! Verified core of a Binance USD-M futures trading runtime and its backtesting engine.
pub mod assets;
pub mod backoff;
pub mod binance;
pub mod clock;
pub mod collector;
pub mod config;
pub mod depth_sync;
pub mod engine;
pub mod grid;
pub mod hash_depth;
pub mod id;
pub mod in_flight;
pub mod keyed;
pub mod latency_data;
pub mod market_stream;
pub mod npy;
pub mod npy_header;
pub mod npy_roundtrip;
pub mod order_flow;
pub mod order_id_table;
pub mod order_keys;
pub mod orders;
pub mod ports;
pub mod protocol;
pub mod proxy;
pub mod readiness;
pub mod roi_depth;
pub mod runtime;
pub mod safety;
pub mod service;
pub mod subscriptions;
pub mod symbol_set;
pub mod supervisor;
pub mod text;
pub mod types;
pub mod user_stream;
