pub mod cli;
pub mod controller;
pub mod models;
pub mod reconcile;
pub mod util;
