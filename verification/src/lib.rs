pub mod ids;
pub mod model;
pub mod store;
