pub mod app;
pub mod bundle;
