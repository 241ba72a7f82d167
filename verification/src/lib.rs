//! A verified core for a Cloudflare dynamic DNS client: it finds the API
//! token and the configuration, reads the public IPv4 address that IP
//! endpoints report, compares it with the cached address and with the DNS
//! record, and decides how to bring the record up to date.

pub mod text;
pub mod ipv4;
pub mod envfile;
pub mod config;
pub mod cloudflare;
pub mod sync;
