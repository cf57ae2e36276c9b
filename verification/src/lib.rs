//! Decision logic of the Bluetooth manager daemon and of the adapter
//! service's command line, with their contracts.
pub mod decimal;
pub mod manager;
pub mod media;
pub mod service;

pub use service::{get_adapter_index, make_object_name};
