//! A small networked key-value cache: a length-prefixed frame codec, an
//! operation parser, and a store that keeps an in-memory map and a modelled
//! on-disk mirror consistent, serializing colliding writes per key through
//! lock markers and a single pending-write slot.

pub mod cache;
pub mod client;
pub mod codec;
pub mod config;
pub mod digits;
pub mod error;
pub mod op;
pub mod scan;
pub mod service;
pub mod text;
