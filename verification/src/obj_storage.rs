//! The identity of a stored object, derived from a file row at a logical
//! path, and the deduplication policies a backend may apply when objects
//! are shared between files.

use crate::metadata_db::FileRow;
use vstd::prelude::*;

verus! {

/// The identity of a content blob: name, logical path, content hash, size,
/// mode, timestamps, and the per-object encryption and compression
/// descriptors.
#[derive(Debug, Clone)]
pub struct ObjInfo {
    pub name: String,
    pub full_path: String,
    pub sha512: String,
    pub created_at: i64,
    pub accessed_at: i64,
    pub updated_at: i64,
    pub mode: u32,
    pub size: u64,
    pub encryption_key: String,
    pub compression: String,
}

/// The mathematical value of an object identity.
#[verifier::ext_equal]
pub ghost struct ObjInfoV {
    pub name: Seq<char>,
    pub full_path: Seq<char>,
    pub sha512: Seq<char>,
    pub created_at: int,
    pub accessed_at: int,
    pub updated_at: int,
    pub mode: int,
    pub size: int,
    pub encryption_key: Seq<char>,
    pub compression: Seq<char>,
}

impl ObjInfo {
    /// The mathematical view of the identity.
    pub open spec fn v(&self) -> ObjInfoV {
        ObjInfoV {
            name: self.name@,
            full_path: self.full_path@,
            sha512: self.sha512@,
            created_at: self.created_at as int,
            accessed_at: self.accessed_at as int,
            updated_at: self.updated_at as int,
            mode: self.mode as int,
            size: self.size as int,
            encryption_key: self.encryption_key@,
            compression: self.compression@,
        }
    }

    /// Derive the identity of a file's object at a logical path.
    pub fn new(file: &FileRow, full_path: &str) -> (r: ObjInfo)
        ensures
            r.v() == (ObjInfoV {
                name: file.name@,
                full_path: full_path@,
                sha512: file.sha512@,
                created_at: file.created_at as int,
                accessed_at: file.accessed_at as int,
                updated_at: file.updated_at as int,
                mode: (file.perms as u32) as int,
                size: (file.size as u64) as int,
                encryption_key: file.encryption_key@,
                compression: file.compression@,
            }),
    {
        let r = ObjInfo {
            name: file.name.clone(),
            full_path: full_path.to_owned(),
            sha512: file.sha512.clone(),
            created_at: file.created_at,
            accessed_at: file.accessed_at,
            updated_at: file.updated_at,
            mode: #[verifier::truncate] (file.perms as u32),
            size: #[verifier::truncate] (file.size as u64),
            encryption_key: file.encryption_key.clone(),
            compression: file.compression.clone(),
        };
        proof {
            assert(r.v() =~= (ObjInfoV {
                name: file.name@,
                full_path: full_path@,
                sha512: file.sha512@,
                created_at: file.created_at as int,
                accessed_at: file.accessed_at as int,
                updated_at: file.updated_at as int,
                mode: (file.perms as u32) as int,
                size: (file.size as u64) as int,
                encryption_key: file.encryption_key@,
                compression: file.compression@,
            }));
        }
        r
    }

    /// A deep copy whose view is the same.
    pub fn duplicate(&self) -> (r: ObjInfo)
        ensures
            r.v() == self.v(),
    {
        ObjInfo {
            name: self.name.clone(),
            full_path: self.full_path.clone(),
            sha512: self.sha512.clone(),
            created_at: self.created_at,
            accessed_at: self.accessed_at,
            updated_at: self.updated_at,
            mode: self.mode,
            size: self.size,
            encryption_key: self.encryption_key.clone(),
            compression: self.compression.clone(),
        }
    }

    /// Whether two identities carry the same value.
    pub fn same_as(&self, other: &ObjInfo) -> (r: bool)
        ensures
            r == (self.v() == other.v()),
    {
        let r = self.name == other.name && self.full_path == other.full_path && self.sha512
            == other.sha512 && self.created_at == other.created_at && self.accessed_at
            == other.accessed_at && self.updated_at == other.updated_at && self.mode == other.mode
            && self.size == other.size && self.encryption_key == other.encryption_key
            && self.compression == other.compression;
        proof {
            if r {
                assert(self.v() =~= other.v());
            }
        }
        r
    }
}

/// The deduplication test a backend applies before deleting an object that
/// several files may share: by logical path, or by content hash.
#[derive(Debug, Clone, Copy, PartialEq, Eq, Structural)]
pub enum UniquenessTest {
    Path,
    Sha512,
}

} // verus!
