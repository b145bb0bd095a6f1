//! Core building blocks for a session-multiplexed SSE message relay:
//!
//! - `auth`: token authentication decisions (Bearer and Basic schemes)
//! - `config`: server configuration values and derived addresses
//! - `hex`: digit rendering of machine words
//! - `queue`: the bounded FIFO message queue backing each session direction
//! - `safe_path`: path confinement for user-supplied file paths
//! - `token`: random hex token generation
//! - `transport`: session registry, duplex channels, and the relay state
//!   machine

pub mod auth;

pub mod config;

pub mod hex;

pub mod queue;

pub mod safe_path;

mod text;

pub mod token;

pub mod transport;
