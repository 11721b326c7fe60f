pub mod app_state;
pub mod decision;
pub mod discovery;
pub mod error;
pub mod file_entry;
pub mod file_type;
pub mod sorting;
pub mod text;
pub mod timestamp;

pub use app_state::AppState;
pub use decision::{Decision, DecisionStatistics};
pub use discovery::{
    discover_files, discover_files_with_options, Candidate, DiscoveryOptions, SortBy,
};
pub use error::{FilesystemError, FilesystemErrorKind};
pub use file_entry::{FileEntry, FileMetadata, PathParts};
pub use file_type::FileType;
pub use timestamp::Timestamp;
