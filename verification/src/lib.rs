//! Content-addressed snapshots of a workspace: the rules of selection,
//! storage and restore, stated and proved over plain values.

pub mod clock;
pub mod commands;
pub mod config;
pub mod file_hash;
pub mod history;
pub mod ignore;
pub mod load;
pub mod manifest;
pub mod order;
pub mod paths;
pub mod progress;
pub mod select;
pub mod size;
pub mod snapshot;
pub mod store;
pub mod table;
pub mod text;

pub use commands::validate_snapshot_name;
pub use config::{Config, DatabaseConfig};
pub use file_hash::HashCache;
pub use history::{filter_by_snapshot, read_history, take_last, HistoryEntry};
pub use load::LoadStats;
pub use manifest::{DirectoryEntry, FileEntry, Manifest};
pub use paths::{CONFIG_FILENAME, HISTORY_LOG_FILE, KIBO_DIR};
pub use progress::ProgressConfig;
pub use size::format_size;
pub use store::Store;
