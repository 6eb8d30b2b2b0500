//! A quantum key management service: a key store, the HTTP/1.1 message
//! handling of its ETSI GS QKD 014 interface, and the decisions of its key
//! poller, with their behaviour stated and proved.

pub mod key_store;
pub mod text;
pub mod framing;
pub mod http_syntax;
pub mod http_message;
pub mod query;
pub mod http_protocol;
pub mod enrollment_models;
pub mod etsi014_handler;
pub mod etsi014_poller;
pub mod sample_service;
