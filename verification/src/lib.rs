//! A virtual filesystem over three storage tiers: a local disk, a NAS and an object
//! store.
//!
//! The library decides; whoever uses it touches the disks, the network and the clock.
//! Operations that need them are values that name one [`action::Action`] after another
//! and take the [`action::Event`] that each is answered with.

pub mod action;
pub mod calls;
pub mod config;
pub mod digest;
pub mod error;
pub mod eviction;
pub mod eviction_task;
pub mod faults;
pub mod fuse;
pub mod fuse_daemon;
pub mod guarantees;
pub mod http_api;
pub mod http_client;
pub mod local;
pub mod local_cache;
pub mod masks;
pub mod mdns;
pub mod metadata;
pub mod migrate;
pub mod path;
pub mod promotion;
pub mod reads;
pub mod recovery;
pub mod report;
pub mod router;
pub mod s3;
pub mod s3_uploader;
pub mod setup;
pub mod text;
pub mod tier;
pub mod totals;
pub mod transfer;
pub mod types;
pub mod waits;
pub mod wal_replay;
pub mod world;

pub use error::FvfsError;
pub use path::VfsPath;
pub use tier::Tier;
pub use tier::TierBitmask;
pub use types::now_unix;
pub use types::DaemonStatus;
pub use types::DeviceInfo;
pub use types::EntryKind;
pub use types::FileEntry;
pub use types::FileMetadata;
pub use types::TierStats;
pub use types::WalEntry;
pub use types::WalOp;
