//! Persistence edge of an event-sourcing kernel: value newtypes, envelopes,
//! the chunked backup box, the importer's planning rules, and the small
//! policies (triggers, batch sizes, upcaster chains) that sit around them.
pub mod text;
pub mod version;
pub mod value;
pub mod envelope;
pub mod portable;
pub mod stream_id;
pub mod error;
pub mod import;
pub mod cbor;
pub mod roundtrip;
pub mod batch;
pub mod saga;
pub mod trigger;
pub mod upcast;
pub mod repository;
pub mod projection;
pub mod snapshot;
pub mod state;
pub mod facade;
pub mod notify;
pub mod services;
pub mod conformance;
