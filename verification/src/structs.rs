pub mod keyed;
pub mod structs_json;
pub mod structs_process_data;
pub mod totals;
