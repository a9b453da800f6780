//! A small HTTP/1.1 server core with a TLS 1.2 termination layer: byte
//! helpers, the TLS record and handshake codecs, the session key schedule and
//! state machine, the HTTP request parser and response encoder, the route
//! matcher and the rules of the static-file service.
//!
//! Text is handled as it travels: as bytes.

pub mod api;
pub mod error;
pub mod http;
pub mod mime;
pub mod php;
pub mod server;
pub mod service;
pub mod tcp;
pub mod text;
pub mod utils;
pub mod tls;
