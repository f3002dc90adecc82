//! A typed key-value store whose contents survive restarts: a registry of
//! keys with defaults, a self-describing byte format for the whole store, a
//! debounced write-back monitor and an atomic commit protocol; and the reading
//! of Rockchip boot files and USB boot modes.
pub mod codec;
pub mod blob;
pub mod store;
pub mod monitor;
pub mod commit;
pub mod persistency;
pub mod boot_mode;
pub mod boot_image;

pub use blob::Record;
pub use boot_image::{BootHeaderEntry, BootImage, BootParseError, parse_boot_entries, parse_boot_header_entry};
pub use boot_mode::BootMode;
pub use commit::{CommitStep, DiskState};
pub use monitor::{DebounceState, MonitorAction, MonitorEvent};
pub use persistency::{ApplicationPersistency, MonitorContext, PersistencyBuilder, WRITE_BACK_TIMEOUT_MS};
pub use store::{KeySpec, PersistencyError, PersistencyStore};
