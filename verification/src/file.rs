pub mod file_init;
pub mod file_json;
