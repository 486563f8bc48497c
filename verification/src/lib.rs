//! Configuration state manager for a small desktop launcher.
//!
//! The library owns the persisted configuration document (a list of data
//! collection paths and the path of an object-detection model), the codec
//! that renders and parses its durable form, and the controller that applies
//! user intents to the live configuration. All filesystem and process work
//! stays with the hosting application, which hands the library plain values
//! (file contents, existence flags) and takes plain values back.

pub mod codec;
pub mod config;
pub mod controller;
