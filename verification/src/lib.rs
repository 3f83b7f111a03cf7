//! Scan, categorise and clean reclaimable disk storage.
//!
//! The library decides; it touches neither the file system nor the
//! environment. What the host has to say (its volumes, its environment
//! variables, its install records, the listing of a directory, whether a
//! file could be deleted) is handed in as plain values.
//!
//! - `registry` and `builtin`: the categories that can be cleaned.
//! - `resolve`: from a category's path specs to concrete roots.
//! - `aggregate`: the walk that measures what lies below some roots.
//! - `scan`: one entry per category, in registry order.
//! - `clean`: the check of a selection, and the cleaner that deletes what
//!   lies below some roots and keeps the account.
//! - `inventory`, `appdata`, `wechat`: the files of an application's data
//!   and their breakdown into buckets.
//! - `disk`: the usage of the system volume.
//! - `paths`, `text`: paths as text.

pub mod aggregate;
pub mod appdata;
pub mod builtin;
pub mod clean;
pub mod disk;
pub mod inventory;
pub mod paths;
pub mod registry;
pub mod resolve;
pub mod scan;
pub mod text;
pub mod wechat;

pub use crate::clean::{clean_files, CleanResult};
pub use crate::disk::{get_disk_info, DiskInfo};
pub use crate::resolve::{get_installed_software, Software};
pub use crate::scan::{scan_clean_items, CleanItem};
pub use crate::wechat::{get_wechat_info, WeChatInfo};
