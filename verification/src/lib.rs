//! A miniature resource control plane: commands (get/list/set/delete) over
//! namespaced JSON objects in a transactional key-value store, dispatched
//! through a staged handler pipeline, with soft deletion completed by a
//! reconcile pass and successful mutations fanned out to subscribers.

pub mod assoc;
pub mod cli;
pub mod command;
pub mod commands;
pub mod error;
pub mod executor;
pub mod in_memory_store;
pub mod json;
pub mod laws;
pub mod observer;
pub mod reconcile;
pub mod resource;
pub mod routing;
pub mod runtime;
pub mod store;
pub mod text;
pub mod version;

pub use command::CommandType;
pub use error::CommandError;
