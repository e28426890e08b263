//! A verified core for a CI step that retrieves secrets from a
//! secrets-management backend and republishes them to the running job.
//!
//! The library holds the logic worth proving: the file-command record
//! framing that carries arbitrary (including multi-line) values through
//! line-oriented files, the CI capability abstraction, configuration
//! validation and service-URL inference, and the parsing of the
//! "identifier > name" request batch.  Process I/O, the network client,
//! and the job runtime's files stay outside, handing this library plain
//! values.

pub mod ci;
pub mod config;
pub mod errors;
pub mod filecmd;
pub mod orchestrate;
pub mod secrets;
pub mod text;
