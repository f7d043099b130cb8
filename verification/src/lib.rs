//! Resumable retrieval of a fixed-size payload over a minimal HTTP/1.1
//! exchange: response parsing, range requests, the transfer state machine and
//! the final integrity check, each with a machine-checked contract.

pub mod ascii;
pub mod decimal;
pub mod error;
pub mod response;
pub mod request;
pub mod digest;
pub mod transfer;
pub mod laws;
pub mod header_order;
