//! Configuration values, their defaults, and the sizes that follow from them.

use crate::error::ErrorView;
use crate::error::FvfsError;
use crate::text::concat2;
use vstd::prelude::*;

verus! {

/// The daemon.
#[derive(Debug, PartialEq, Eq)]
pub struct DaemonConfig {
    pub mount_path: String,
    pub http_port: u16,
    pub metadata_db: String,
}

impl Default for DaemonConfig {
    fn default() -> (r: Self)
        ensures
            r.mount_path@ == "/mnt/fvfs"@,
            r.http_port == 7734,
            r.metadata_db@ == "/var/fvfsd/meta.db"@,
    {
        DaemonConfig {
            mount_path: "/mnt/fvfs".to_owned(),
            http_port: 7734,
            metadata_db: "/var/fvfsd/meta.db".to_owned(),
        }
    }
}

/// The tiers.
#[derive(Debug, PartialEq, Eq)]
pub struct TiersConfig {
    pub local: LocalTierConfig,
    pub nas: NasTierConfig,
    pub s3: S3TierConfig,
}

/// The local disk.
#[derive(Debug, PartialEq, Eq)]
pub struct LocalTierConfig {
    pub path: String,
    pub high_watermark_gb: u64,
    pub low_watermark_gb: u64,
}

/// The NAS.
#[derive(Debug, PartialEq, Eq)]
pub struct NasTierConfig {
    pub path: String,
    pub high_watermark_gb: u64,
    pub low_watermark_gb: u64,
}

/// The object store.
#[derive(Debug, PartialEq, Eq)]
pub struct S3TierConfig {
    pub bucket: String,
    pub region: String,
    pub prefix: String,
}

impl TiersConfig {
    /// The tiers of a configuration that names none.
    pub fn default_tiers() -> (r: TiersConfig)
        ensures
            r.local.path@ == "/tmp/fvfs-local"@,
            r.local.high_watermark_gb == 200,
            r.local.low_watermark_gb == 150,
            r.nas.path@ == "/tmp/fvfs-nas"@,
            r.nas.high_watermark_gb == 2000,
            r.nas.low_watermark_gb == 1500,
            r.s3.bucket@ == "freddie-fvfs"@,
            r.s3.region@ == "us-east-1"@,
            r.s3.prefix@ == "fvfs/"@,
    {
        TiersConfig {
            local: LocalTierConfig {
                path: "/tmp/fvfs-local".to_owned(),
                high_watermark_gb: 200,
                low_watermark_gb: 150,
            },
            nas: NasTierConfig {
                path: "/tmp/fvfs-nas".to_owned(),
                high_watermark_gb: 2000,
                low_watermark_gb: 1500,
            },
            s3: S3TierConfig {
                bucket: "freddie-fvfs".to_owned(),
                region: "us-east-1".to_owned(),
                prefix: "fvfs/".to_owned(),
            },
        }
    }
}

/// Uploads.
#[derive(Debug, PartialEq, Eq)]
pub struct UploadConfig {
    /// Flush to S3 when the pending size exceeds this (MB).
    pub flush_size_mb: u64,
    /// Flush to S3 every this many seconds, regardless of size.
    pub flush_interval_secs: u64,
}

impl Default for UploadConfig {
    fn default() -> (r: Self)
        ensures
            r.flush_size_mb == 256,
            r.flush_interval_secs == 300,
    {
        UploadConfig { flush_size_mb: 256, flush_interval_secs: 300 }
    }
}

impl UploadConfig {
    /// The flush size in bytes.
    pub fn flush_size_bytes(&self) -> (r: u64)
        requires
            self.flush_size_mb * 0x10_0000 <= u64::MAX,
        ensures
            r == self.flush_size_mb * 0x10_0000,
    {
        self.flush_size_mb * 1024 * 1024
    }
}

/// The client.
#[derive(Debug, PartialEq, Eq)]
pub struct ClientConfig {
    pub mount_path: String,
    pub local_cache_path: String,
    pub local_cache_gb: u64,
}

impl Default for ClientConfig {
    fn default() -> (r: Self)
        ensures
            r.mount_path@ == "/mnt/fvfs"@,
            r.local_cache_path@ == "/tmp/fvfsc-cache"@,
            r.local_cache_gb == 20,
    {
        ClientConfig {
            mount_path: "/mnt/fvfs".to_owned(),
            local_cache_path: "/tmp/fvfsc-cache".to_owned(),
            local_cache_gb: 20,
        }
    }
}

impl ClientConfig {
    /// The size of the cache in bytes.
    pub fn local_cache_bytes(&self) -> (r: u64)
        requires
            self.local_cache_gb * 0x4000_0000 <= u64::MAX,
        ensures
            r == self.local_cache_gb * 0x4000_0000,
    {
        self.local_cache_gb * 1024 * 1024 * 1024
    }
}

/// The error for a configuration file that cannot be read.
pub fn unreadable(message: &str) -> (r: FvfsError)
    ensures
        r@ == ErrorView::Config("reading config: "@ + message@),
{
    FvfsError::Config(concat2("reading config: ", message))
}

/// The error for a configuration file that cannot be parsed.
pub fn unparsable(message: &str) -> (r: FvfsError)
    ensures
        r@ == ErrorView::Config("parsing config: "@ + message@),
{
    FvfsError::Config(concat2("parsing config: ", message))
}

} // verus!
