pub mod asset_file;
pub mod assoc;
pub mod errors;
pub mod integrity;
pub mod manifest;
pub mod month_year;
pub mod process_data;
pub mod start_dates;
pub mod text;
