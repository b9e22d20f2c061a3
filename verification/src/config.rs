//! Configuration of the filesystem core: the storage backend selection, the
//! per-section storage settings with their fall-through defaults, and the
//! derivation of object keys from an object's identity.

use crate::errors::{error, ErrorKind, SqlFileSystemError, EINVAL};
use crate::obj_storage::ObjInfo;
use crate::strutil::{str_eq, trim_leading_slashes, strip_leading_slashes};
use vstd::prelude::*;

verus! {

/// The concrete storage backends.
#[derive(Debug, Clone, Copy, PartialEq, Eq, Structural)]
pub enum StorageOption {
    FileSystem,
    Sqlar,
    S3,
    RocksDb,
}

/// One storage section: a backend plus its settings.
#[derive(Debug, Clone)]
pub struct StorageConfig {
    pub storage_backend: StorageOption,
    pub blob_storage: String,
    pub s3_endpoint_url: String,
    pub s3_region: String,
    pub s3_bucket: String,
    pub s3_base_path: String,
    pub s3_access_key: String,
    pub s3_secret_key: String,
    pub encryption_key: String,
    pub compression_level: u32,
    pub use_hash_as_filename: bool,
}

/// The resolved configuration of the whole system.
#[derive(Debug, Clone)]
pub struct Config {
    pub database_file: String,
    pub mount_point: String,
    pub primary: StorageConfig,
    pub replicas: Vec<StorageConfig>,
    pub update_access_time: bool,
    pub store_file_change_history: bool,
}

/// A storage section as it appears in the configuration file: every field
/// optional, falling through to the file-level defaults.
#[derive(Debug, Clone)]
pub struct YamlStorageConfig {
    pub storage_backend: Option<String>,
    pub blob_storage: Option<String>,
    pub s3_endpoint_url: Option<String>,
    pub s3_region: Option<String>,
    pub s3_bucket: Option<String>,
    pub s3_base_path: Option<String>,
    pub s3_access_key: Option<String>,
    pub s3_secret_key: Option<String>,
    pub encryption_key: Option<String>,
    pub compression_level: Option<u32>,
    pub use_hash_as_filename: Option<bool>,
}

impl YamlStorageConfig {
    /// A section with nothing set.
    pub fn empty() -> (r: YamlStorageConfig)
        ensures
            r.storage_backend is None,
            r.blob_storage is None,
            r.s3_endpoint_url is None,
            r.s3_region is None,
            r.s3_bucket is None,
            r.s3_base_path is None,
            r.s3_access_key is None,
            r.s3_secret_key is None,
            r.encryption_key is None,
            r.compression_level is None,
            r.use_hash_as_filename is None,
    {
        YamlStorageConfig {
            storage_backend: None,
            blob_storage: None,
            s3_endpoint_url: None,
            s3_region: None,
            s3_bucket: None,
            s3_base_path: None,
            s3_access_key: None,
            s3_secret_key: None,
            encryption_key: None,
            compression_level: None,
            use_hash_as_filename: None,
        }
    }
}

/// The numeric value of a character folded to ASCII lowercase.
pub open spec fn lower_val(c: char) -> int {
    if 65 <= c as int && c as int <= 90 {
        c as int + 32
    } else {
        c as int
    }
}

/// Case-insensitive (ASCII) equality of two strings.
pub open spec fn eq_ignore_ascii(s: Seq<char>, t: Seq<char>) -> bool {
    s.len() == t.len() && forall|i: int| 0 <= i < s.len() ==> lower_val(s[i]) == lower_val(t[i])
}

/// Compare a string to another, ignoring ASCII case.
fn str_eq_ignore_case(s: &str, t: &str) -> (r: bool)
    ensures
        r == eq_ignore_ascii(s@, t@),
{
    let ns = s.unicode_len();
    let nt = t.unicode_len();
    if ns != nt {
        return false;
    }
    let mut i: usize = 0;
    while i < ns
        invariant
            ns == s@.len(),
            ns == t@.len(),
            i <= ns,
            forall|j: int| 0 <= j < i ==> lower_val(s@[j]) == lower_val(t@[j]),
        decreases ns - i,
    {
        let cs = s.get_char(i) as u32;
        let ct = t.get_char(i) as u32;
        let ls = if 65 <= cs && cs <= 90 {
            cs + 32
        } else {
            cs
        };
        let lt = if 65 <= ct && ct <= 90 {
            ct + 32
        } else {
            ct
        };
        if ls != lt {
            return false;
        }
        i = i + 1;
    }
    true
}

impl StorageOption {
    /// Which backend a configured name denotes, at the specification level:
    /// the comparison ignores ASCII case, and a missing name means the
    /// filesystem backend.
    pub open spec fn spec_from_string(s: Option<Seq<char>>) -> Option<StorageOption> {
        match s {
            None => Some(StorageOption::FileSystem),
            Some(n) => if eq_ignore_ascii(n, "filesystem"@) {
                Some(StorageOption::FileSystem)
            } else if eq_ignore_ascii(n, "sqlar"@) {
                Some(StorageOption::Sqlar)
            } else if eq_ignore_ascii(n, "s3"@) {
                Some(StorageOption::S3)
            } else if eq_ignore_ascii(n, "rocksdb"@) {
                Some(StorageOption::RocksDb)
            } else {
                None
            },
        }
    }

    /// Parse a configured backend name. An unknown name is invalid.
    pub fn from_string(storage_backend: &Option<String>) -> (r: Result<
        StorageOption,
        SqlFileSystemError,
    >)
        ensures
            match r {
                Ok(o) => StorageOption::spec_from_string(
                    match *storage_backend {
                        Some(ref s) => Some(s@),
                        None => None,
                    },
                ) == Some(o),
                Err(e) => StorageOption::spec_from_string(
                    match *storage_backend {
                        Some(ref s) => Some(s@),
                        None => None,
                    },
                ) is None && e.code == EINVAL && e.kind == ErrorKind::InvalidArg,
            },
    {
        match storage_backend {
            None => Ok(StorageOption::FileSystem),
            Some(s) => {
                if str_eq_ignore_case(s.as_str(), "filesystem") {
                    Ok(StorageOption::FileSystem)
                } else if str_eq_ignore_case(s.as_str(), "sqlar") {
                    Ok(StorageOption::Sqlar)
                } else if str_eq_ignore_case(s.as_str(), "s3") {
                    Ok(StorageOption::S3)
                } else if str_eq_ignore_case(s.as_str(), "rocksdb") {
                    Ok(StorageOption::RocksDb)
                } else {
                    error(EINVAL, ErrorKind::InvalidArg)
                }
            },
        }
    }

    /// The lowercase name a backend is stored under in persistent settings.
    pub fn to_str(&self) -> (r: &'static str)
        ensures
            *self == StorageOption::FileSystem ==> r@ == "filesystem"@,
            *self == StorageOption::Sqlar ==> r@ == "sqlar"@,
            *self == StorageOption::S3 ==> r@ == "s3"@,
            *self == StorageOption::RocksDb ==> r@ == "rocksdb"@,
    {
        match self {
            StorageOption::FileSystem => "filesystem",
            StorageOption::Sqlar => "sqlar",
            StorageOption::S3 => "s3",
            StorageOption::RocksDb => "rocksdb",
        }
    }
}

/// The object key a storage section derives from an object identity: the
/// first 32 hex characters of the content hash plus `.dat` under hash
/// addressing (or `null` for an empty hash), else the logical path with
/// leading slashes trimmed.
pub open spec fn spec_path_of(use_hash: bool, sha512: Seq<char>, full_path: Seq<char>) -> Seq<
    char,
> {
    if use_hash {
        if sha512.len() == 0 {
            "null"@
        } else {
            sha512.take(32) + ".dat"@
        }
    } else {
        trim_leading_slashes(full_path)
    }
}

impl StorageConfig {
    /// Derive the object key of an identity under this section's settings.
    pub fn path_of(&self, info: &ObjInfo) -> (r: String)
        requires
            info.sha512@.len() == 0 || info.sha512@.len() >= 32,
        ensures
            r@ == spec_path_of(self.use_hash_as_filename, info.sha512@, info.full_path@),
    {
        if self.use_hash_as_filename {
            if info.sha512.as_str().unicode_len() == 0 {
                let r = String::from_str("null");
                r
            } else {
                let prefix = info.sha512.as_str().substring_char(0, 32);
                let mut r = prefix.to_owned();
                r.append(".dat");
                proof {
                    assert(info.sha512@.subrange(0, 32) =~= info.sha512@.take(32));
                }
                r
            }
        } else {
            strip_leading_slashes(info.full_path.as_str())
        }
    }

    /// A deep copy of the section.
    pub fn duplicate(&self) -> (r: StorageConfig)
        ensures
            r.storage_backend == self.storage_backend,
            r.blob_storage@ == self.blob_storage@,
            r.s3_endpoint_url@ == self.s3_endpoint_url@,
            r.s3_region@ == self.s3_region@,
            r.s3_bucket@ == self.s3_bucket@,
            r.s3_base_path@ == self.s3_base_path@,
            r.s3_access_key@ == self.s3_access_key@,
            r.s3_secret_key@ == self.s3_secret_key@,
            r.encryption_key@ == self.encryption_key@,
            r.compression_level == self.compression_level,
            r.use_hash_as_filename == self.use_hash_as_filename,
    {
        StorageConfig {
            storage_backend: self.storage_backend,
            blob_storage: self.blob_storage.clone(),
            s3_endpoint_url: self.s3_endpoint_url.clone(),
            s3_region: self.s3_region.clone(),
            s3_bucket: self.s3_bucket.clone(),
            s3_base_path: self.s3_base_path.clone(),
            s3_access_key: self.s3_access_key.clone(),
            s3_secret_key: self.s3_secret_key.clone(),
            encryption_key: self.encryption_key.clone(),
            compression_level: self.compression_level,
            use_hash_as_filename: self.use_hash_as_filename,
        }
    }
}

/// What a valid storage section must provide: S3 needs credentials, a
/// bucket and a region or endpoint; the filesystem backend needs a blob
/// directory.
pub open spec fn spec_storage_valid(cfg: StorageConfig) -> bool {
    &&& cfg.storage_backend == StorageOption::S3 ==> cfg.s3_access_key@.len() > 0
        && cfg.s3_secret_key@.len() > 0 && cfg.s3_bucket@.len() > 0 && (cfg.s3_region@.len() > 0
        || cfg.s3_endpoint_url@.len() > 0)
    &&& cfg.storage_backend == StorageOption::FileSystem ==> cfg.blob_storage@.len() > 0
}

/// Check a storage section for the settings its backend requires.
pub fn validate_storage(cfg: &StorageConfig) -> (r: Result<(), SqlFileSystemError>)
    ensures
        r is Ok <==> spec_storage_valid(*cfg),
        r matches Err(e) ==> e.code == EINVAL && e.kind == ErrorKind::InvalidArg,
{
    let mut ok = true;
    match cfg.storage_backend {
        StorageOption::S3 => {
            if cfg.s3_access_key.as_str().unicode_len() == 0 {
                ok = false;
            }
            if cfg.s3_secret_key.as_str().unicode_len() == 0 {
                ok = false;
            }
            if cfg.s3_bucket.as_str().unicode_len() == 0 {
                ok = false;
            }
            if cfg.s3_region.as_str().unicode_len() == 0 && cfg.s3_endpoint_url.as_str().unicode_len() == 0 {
                ok = false;
            }
        },
        StorageOption::FileSystem => {
            if cfg.blob_storage.as_str().unicode_len() == 0 {
                ok = false;
            }
        },
        _ => {},
    }
    if ok {
        Ok(())
    } else {
        error(EINVAL, ErrorKind::InvalidArg)
    }
}

/// The value of an optional field with a fall-through default.
pub open spec fn pick_str(a: Option<String>, b: Option<String>, d: Seq<char>) -> Seq<char> {
    match a {
        Some(s) => s@,
        None => match b {
            Some(s) => s@,
            None => d,
        },
    }
}

/// Pick an optional string field, falling through to the default section
/// and then to a literal default.
fn pick_string(a: &Option<String>, b: &Option<String>, d: &str) -> (r: String)
    ensures
        r@ == pick_str(*a, *b, d@),
{
    match a {
        Some(s) => s.clone(),
        None => match b {
            Some(s) => s.clone(),
            None => d.to_owned(),
        },
    }
}

/// Resolve one storage section against the file-level defaults. The
/// compression level is clamped to the range a gzip encoder accepts.
pub fn resolve_storage_config(section: &YamlStorageConfig, defaults: &YamlStorageConfig) -> (r:
    Result<StorageConfig, SqlFileSystemError>)
    ensures
        match r {
            Ok(cfg) => {
                &&& Some(cfg.storage_backend) == StorageOption::spec_from_string(
                    match section.storage_backend {
                        Some(ref s) => Some(s@),
                        None => match defaults.storage_backend {
                            Some(ref s) => Some(s@),
                            None => None,
                        },
                    },
                )
                &&& cfg.blob_storage@ == pick_str(
                    section.blob_storage,
                    defaults.blob_storage,
                    "./blob"@,
                )
                &&& cfg.s3_endpoint_url@ == pick_str(
                    section.s3_endpoint_url,
                    defaults.s3_endpoint_url,
                    ""@,
                )
                &&& cfg.s3_region@ == pick_str(section.s3_region, defaults.s3_region, ""@)
                &&& cfg.s3_bucket@ == pick_str(section.s3_bucket, defaults.s3_bucket, ""@)
                &&& cfg.s3_base_path@ == pick_str(
                    section.s3_base_path,
                    defaults.s3_base_path,
                    ""@,
                )
                &&& cfg.s3_access_key@ == pick_str(
                    section.s3_access_key,
                    defaults.s3_access_key,
                    ""@,
                )
                &&& cfg.s3_secret_key@ == pick_str(
                    section.s3_secret_key,
                    defaults.s3_secret_key,
                    ""@,
                )
                &&& cfg.encryption_key@ == pick_str(
                    section.encryption_key,
                    defaults.encryption_key,
                    ""@,
                )
                &&& cfg.compression_level == (match section.compression_level {
                    Some(l) => if l > 9 {
                        9u32
                    } else {
                        l
                    },
                    None => match defaults.compression_level {
                        Some(l) => if l > 9 {
                            9u32
                        } else {
                            l
                        },
                        None => 0u32,
                    },
                })
                &&& cfg.use_hash_as_filename == (match section.use_hash_as_filename {
                    Some(h) => h,
                    None => match defaults.use_hash_as_filename {
                        Some(h) => h,
                        None => false,
                    },
                })
            },
            Err(e) => StorageOption::spec_from_string(
                match section.storage_backend {
                    Some(ref s) => Some(s@),
                    None => match defaults.storage_backend {
                        Some(ref s) => Some(s@),
                        None => None,
                    },
                },
            ) is None && e.code == EINVAL && e.kind == ErrorKind::InvalidArg,
        },
{
    let picked_backend: Option<String> = match &section.storage_backend {
        Some(s) => Some(s.clone()),
        None => match &defaults.storage_backend {
            Some(s) => Some(s.clone()),
            None => None,
        },
    };
    let backend = match StorageOption::from_string(&picked_backend) {
        Ok(o) => o,
        Err(e) => {
            return Err(e);
        },
    };
    let level = match section.compression_level {
        Some(l) => if l > 9 {
            9u32
        } else {
            l
        },
        None => match defaults.compression_level {
            Some(l) => if l > 9 {
                9u32
            } else {
                l
            },
            None => 0u32,
        },
    };
    let use_hash = match section.use_hash_as_filename {
        Some(h) => h,
        None => match defaults.use_hash_as_filename {
            Some(h) => h,
            None => false,
        },
    };
    Ok(
        StorageConfig {
            storage_backend: backend,
            blob_storage: pick_string(&section.blob_storage, &defaults.blob_storage, "./blob"),
            s3_endpoint_url: pick_string(&section.s3_endpoint_url, &defaults.s3_endpoint_url, ""),
            s3_region: pick_string(&section.s3_region, &defaults.s3_region, ""),
            s3_bucket: pick_string(&section.s3_bucket, &defaults.s3_bucket, ""),
            s3_base_path: pick_string(&section.s3_base_path, &defaults.s3_base_path, ""),
            s3_access_key: pick_string(&section.s3_access_key, &defaults.s3_access_key, ""),
            s3_secret_key: pick_string(&section.s3_secret_key, &defaults.s3_secret_key, ""),
            encryption_key: pick_string(&section.encryption_key, &defaults.encryption_key, ""),
            compression_level: level,
            use_hash_as_filename: use_hash,
        },
    )
}

} // verus!
