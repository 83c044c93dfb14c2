pub mod csv_input;
pub mod decimal;
pub mod filter_data;
pub mod process_data;
pub mod ranking;
pub mod tally;
