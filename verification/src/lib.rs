//! Verified core of an h2load-compatible HTTP benchmark client.

pub mod bench;
pub mod cli;
pub mod counts;
pub mod distributed;
pub mod driver;
pub mod h1;
pub mod h2;
pub mod h3;
pub mod histogram;
pub mod metrics;
pub mod output;
pub mod runner;
pub mod step;
pub mod text;
pub mod tls;
