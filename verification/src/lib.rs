//! Host and enclave sides of an AWS Nitro Enclave deployment.
//!
//! * Attestation: `keys` makes and tries a key, `attestation` has a document vouch for
//!   it.
//! * Computation: `compute` answers one request, `binding` ties a document to its input
//!   and output, `frame` carries them.
//! * Service: `upload` hashes a body, `websocket` paces a connection, `host` is the
//!   client of both.
//! * Benchmark: `options` and `launch` set a run up, `bench_host` and `bench_enclave`
//!   are its two sides, over `control`, `transfer` and `io`.
//!
//! `protocol` states what holds of host and enclave together. `crypto` holds every
//! call into an outside crate.

pub mod attestation;
pub mod bench_enclave;
pub mod bench_host;
pub mod binding;
pub mod compute;
pub mod control;
pub mod crypto;
pub mod frame;
pub mod host;
pub mod io;
pub mod keys;
pub mod launch;
pub mod options;
pub mod protocol;
pub mod size;
pub mod text;
pub mod transfer;
pub mod upload;
pub mod websocket;
pub mod wire;
