pub mod helpers;

pub use helpers::format_file_size;
