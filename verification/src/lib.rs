pub mod configuration;
pub mod datasource;
pub mod domain;
pub mod format;
pub mod utils;
