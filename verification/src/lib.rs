pub mod api;
pub mod registry;
pub mod room;
pub mod service;
pub mod store;
