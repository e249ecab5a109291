//! A small fine-grained reactive runtime and a declarative element builder
//! over an in-memory model of a host surface.

pub mod reactive;
pub mod dom;
