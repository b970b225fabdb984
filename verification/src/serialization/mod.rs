pub mod checksum;
pub mod save_format;
