//! Timing of TLS 1.3 handshakes with s2n-tls and rustls: what the benchmark
//! computes and decides, with contracts that Verus proves.
//!
//! Checkpoints become durations (`checkpoint`, `durations`), durations become groups
//! and tables (`groups`, `summary`, `units`), and `measure` puts a run together.
//! `keys`, `certs`, `s2n_run` and `rustls_run` make certificates and drive handshakes in
//! memory; `workload` and `signing` do one handshake or one signature at a time and
//! note it down, `hotloop` and `microbench` repeat them. `cli`, `profile` and
//! `compare` decide what is run and with which arguments.
//!
//! What holds of these across calls is stated next to them, and in `duration_laws`,
//! `record_laws`, `command_laws` and `handshake_laws`.
//!
//! What other crates do is stated, not proved, in `rcgen_backend`, `rustls_backend`,
//! `s2n_backend`, `aws_lc_backend` and `clock`.

pub mod aws_lc_backend;
pub mod certs;
pub mod checkpoint;
pub mod cli;
pub mod clock;
pub mod command_laws;
pub mod compare;
pub mod cpuinfo;
pub mod duration_laws;
pub mod durations;
pub mod groups;
pub mod handshake_laws;
pub mod hosts;
pub mod hotloop;
pub mod keys;
pub mod measure;
pub mod microbench;
pub mod order;
pub mod profile;
pub mod rcgen_backend;
pub mod record_laws;
pub mod rustls_backend;
pub mod rustls_run;
pub mod s2n_backend;
pub mod s2n_run;
pub mod signing;
pub mod summary;
pub mod text;
pub mod units;
pub mod workload;
