pub mod datetime;
pub mod store;
pub mod task;
