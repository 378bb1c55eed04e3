//! A bucket of an S3-compatible store as a file system, without any metadata
//! of its own: paths are object keys, and the bucket is the only source of
//! truth.
//!
//! The library holds what a mount decides and computes, with its contracts
//! proved by Verus. It makes no requests: each operation is a step that says
//! what is to be asked of the store, the disk or the budget, and a step that
//! takes the answer.
//!
//! * Names: [`paths`], [`entry`], [`listing`].
//! * Mounts: [`settings`], [`budget`], [`caches`], [`metrics`], [`object_fs`].
//! * Disk cache: [`disk_cache`] for its files, [`block_index`] for the order in
//!   which blocks leave.
//! * Writing: [`content`], [`load`], [`upload`], [`file_upload`].
//! * Adapters: [`fuse_file`] and [`fuse_table`] for FUSE; [`win_file`],
//!   [`win_mount`] and [`refresh`] for WinFsp; [`mount`] for both.
//! * Trash: [`tombstone`] and [`recycle`] for its indexes, [`trash`] for keeping
//!   them up to date, [`trash_ops`] for deleting, [`system_trash`] and
//!   [`trash_view`] for the recycle bin, [`restore`], [`collect`] and [`gc`].
//! * Below all of it: [`text`], [`numeral`], [`calendar`], [`date`],
//!   [`checksum`], [`keymap`].

pub mod block_index;
pub mod budget;
pub mod caches;
pub mod calendar;
pub mod checksum;
pub mod collect;
pub mod content;
pub mod date;
pub mod disk_cache;
pub mod entry;
pub mod file_upload;
pub mod fuse_file;
pub mod fuse_table;
pub mod gc;
pub mod keymap;
pub mod listing;
pub mod load;
pub mod metrics;
pub mod mount;
pub mod numeral;
pub mod object_fs;
pub mod paths;
pub mod recycle;
pub mod refresh;
pub mod restore;
pub mod settings;
pub mod system_trash;
pub mod text;
pub mod tombstone;
pub mod trash;
pub mod trash_ops;
pub mod trash_view;
pub mod upload;
pub mod win_file;
pub mod win_mount;
