//! Gzip compression over an inner store. On write the payload is
//! compressed at the configured level and the identity's compression
//! descriptor is set; on read a blob is decompressed unless the identity
//! says it was stored raw.

use crate::compress::{gunzip_of, gzip_compress, gzip_decompress};
use crate::config::spec_path_of;
use crate::errors::{error, ErrorKind, SqlFileSystemError, EIO, ENOENT};
use crate::metadata_db::MetadataDB;
use crate::obj_storage::ObjInfo;
use crate::sqlar_object_storage::SqlarObjectStorage;
use crate::utils::{dec_str_of, u128_to_string};
use vstd::prelude::*;

verus! {

/// The compression descriptor recorded for a gzip-compressed object.
pub open spec fn spec_gzip_tag(level: u32) -> Seq<char> {
    "gzip:"@ + dec_str_of(level as int)
}

/// Gzip compression in front of an archive store.
#[derive(Debug)]
pub struct CompressedObjectStorage {
    pub proxy: SqlarObjectStorage,
    pub level: u32,
}

impl CompressedObjectStorage {
    /// Wrap an archive store with compression at a level.
    pub fn new(proxy: SqlarObjectStorage, level: u32) -> (r: CompressedObjectStorage)
        ensures
            r.proxy == proxy,
            r.level == level,
    {
        CompressedObjectStorage { proxy, level }
    }

    /// Fetch an object's content. A blob whose identity carries no
    /// compression descriptor is returned raw; anything else is
    /// decompressed.
    pub fn get(&self, info: &ObjInfo) -> (r: Result<Vec<u8>, SqlFileSystemError>)
        requires
            self.proxy.wf(),
            info.sha512@.len() == 0 || info.sha512@.len() >= 32,
        ensures
            ({
                let k = spec_path_of(
                    self.proxy.config.use_hash_as_filename,
                    info.sha512@,
                    info.full_path@,
                );
                &&& r is Ok <==> self.proxy.has_obj(k) && (info.compression@.len() == 0
                    || gunzip_of(self.proxy.obj(k)) is Some)
                &&& r matches Ok(d) ==> (if info.compression@.len() == 0 {
                    d@ == self.proxy.obj(k)
                } else {
                    Some(d@) == gunzip_of(self.proxy.obj(k))
                })
                &&& r matches Err(e) ==> e.kind == ErrorKind::NotFound || e.kind
                    == ErrorKind::IoError
            }),
    {
        let bytes = match self.proxy.get(info) {
            Ok(b) => b,
            Err(e) => {
                return Err(e);
            },
        };
        if info.compression.as_str().unicode_len() == 0 {
            return Ok(bytes);
        }
        match gzip_decompress(bytes.as_slice()) {
            Ok(d) => Ok(d),
            Err(_) => error(EIO, ErrorKind::IoError),
        }
    }

    /// Compress and store an object's content, recording the gzip level in
    /// the identity's compression descriptor.
    pub fn put(&mut self, info: &mut ObjInfo, content: &[u8]) -> (r: Result<
        (),
        SqlFileSystemError,
    >)
        requires
            old(self).proxy.wf(),
            old(self).level <= 9,
            old(info).sha512@.len() == 0 || old(info).sha512@.len() >= 32,
        ensures
            r is Ok,
            final(self).proxy.wf(),
            final(self).proxy.config == old(self).proxy.config,
            final(self).level == old(self).level,
            r is Ok ==> {
                let k = spec_path_of(
                    old(self).proxy.config.use_hash_as_filename,
                    old(info).sha512@,
                    old(info).full_path@,
                );
                &&& final(info).compression@ == spec_gzip_tag(old(self).level)
                &&& final(info).name@ == old(info).name@
                &&& final(info).full_path@ == old(info).full_path@
                &&& final(info).sha512@ == old(info).sha512@
                &&& final(info).encryption_key@ == old(info).encryption_key@
                &&& final(info).size == old(info).size
                &&& final(info).mode == old(info).mode
                &&& final(info).created_at == old(info).created_at
                &&& final(info).accessed_at == old(info).accessed_at
                &&& final(info).updated_at == old(info).updated_at
                &&& final(self).proxy.has_obj(k)
                &&& gunzip_of(final(self).proxy.obj(k)) == Some(content@)
                &&& SqlarObjectStorage::frame(old(self).proxy, final(self).proxy, k)
            },
    {
        let buff = match gzip_compress(content, self.level) {
            Ok(b) => b,
            Err(_) => {
                return error(EIO, ErrorKind::IoError);
            },
        };
        let mut tag = String::new();
        proof {
            reveal_strlit("gzip:");
        }
        tag.append("gzip:");
        let lvl = u128_to_string(self.level as u128);
        tag.append(lvl.as_str());
        info.compression = tag;
        let rr = self.proxy.put(&*info, buff.as_slice());
        proof {
            assert(final(info).compression@ =~= spec_gzip_tag(self.level));
        }
        Ok(())
    }

    /// Remove an object's blob unless the deduplication test shows it is
    /// still used by some file.
    pub fn remove(&mut self, info: &ObjInfo, db: &MetadataDB) -> (r: Result<
        (),
        SqlFileSystemError,
    >)
        requires
            old(self).proxy.wf(),
            db.wf(),
            info.sha512@.len() == 0 || info.sha512@.len() >= 32,
        ensures
            r is Ok,
            final(self).proxy.wf(),
            final(self).proxy.config == old(self).proxy.config,
            final(self).level == old(self).level,
            SqlarObjectStorage::spec_in_use(
                *db,
                old(self).proxy.config.use_hash_as_filename,
                *info,
            ) ==> *final(self) == *old(self),
            !SqlarObjectStorage::spec_in_use(
                *db,
                old(self).proxy.config.use_hash_as_filename,
                *info,
            ) ==> {
                let k = spec_path_of(
                    old(self).proxy.config.use_hash_as_filename,
                    info.sha512@,
                    info.full_path@,
                );
                &&& !final(self).proxy.has_obj(k)
                &&& SqlarObjectStorage::frame(old(self).proxy, final(self).proxy, k)
            },
    {
        self.proxy.remove(info, db)
    }

    /// Move an object's blob between the keys two identities derive.
    pub fn rename(&mut self, prev_info: &ObjInfo, new_info: &ObjInfo) -> (r: Result<
        (),
        SqlFileSystemError,
    >)
        requires
            old(self).proxy.wf(),
            prev_info.sha512@.len() == 0 || prev_info.sha512@.len() >= 32,
            new_info.sha512@.len() == 0 || new_info.sha512@.len() >= 32,
        ensures
            r is Ok,
            final(self).proxy.wf(),
            final(self).proxy.config == old(self).proxy.config,
            final(self).level == old(self).level,
            ({
                let kp = spec_path_of(
                    old(self).proxy.config.use_hash_as_filename,
                    prev_info.sha512@,
                    prev_info.full_path@,
                );
                let kn = spec_path_of(
                    old(self).proxy.config.use_hash_as_filename,
                    new_info.sha512@,
                    new_info.full_path@,
                );
                &&& kp == kn ==> *final(self) == *old(self)
                &&& !old(self).proxy.has_obj(kp) ==> *final(self) == *old(self)
                &&& kp != kn && old(self).proxy.has_obj(kp) ==> {
                    &&& !final(self).proxy.has_obj(kp)
                    &&& final(self).proxy.has_obj(kn)
                    &&& final(self).proxy.obj(kn) == old(self).proxy.obj(kp)
                    &&& forall|n: Seq<char>|
                        #![trigger final(self).proxy.has_obj(n)]
                        #![trigger final(self).proxy.obj(n)]
                        n != kp && n != kn ==> (final(self).proxy.has_obj(n)
                            == old(self).proxy.has_obj(n)) && (old(self).proxy.has_obj(n)
                            ==> final(self).proxy.obj(n) == old(self).proxy.obj(n))
                }
            }),
    {
        let prev_name = self.proxy.path(prev_info);
        let new_name = self.proxy.path(new_info);
        self.proxy.rename_sqlar_file(prev_name.as_str(), new_name.as_str())
    }

    /// Empty the inner store.
    pub fn nuke(&mut self) -> (r: Result<(), SqlFileSystemError>)
        requires
            old(self).proxy.wf(),
        ensures
            r is Ok,
            final(self).proxy.wf(),
            final(self).proxy.config == old(self).proxy.config,
            final(self).level == old(self).level,
            forall|n: Seq<char>| !final(self).proxy.has_obj(n),
    {
        self.proxy.nuke()
    }
}

} // verus!
