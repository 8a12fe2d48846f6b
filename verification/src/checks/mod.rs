//! One module per audited area; each turns gathered facts into findings.
pub mod frankenphp;
pub mod go_runtime;
pub mod laravel;
pub mod mysql;
pub mod php;
pub mod redis;
pub mod libc;
pub mod system;
