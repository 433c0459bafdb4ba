//! PortPeek: the decision logic of a lightweight TCP port scanner.
//!
//! The library parses port specifications, classifies connection outcomes,
//! orders scan results and lays out every output format. Network access,
//! timing and printing are done by the program around it.

pub mod services;
pub mod text;
pub mod error;
pub mod ports;
pub mod cli;
pub mod scanner;
pub mod style;
pub mod output;
pub mod laws;
