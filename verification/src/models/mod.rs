pub mod error;
pub mod external;
pub mod internal;
pub mod note;
pub mod order;
pub mod sources;
pub mod store;
