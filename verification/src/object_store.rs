//! The composed object store: a concrete backend behind at most one
//! wrapper. Encryption and compression are mutually exclusive — when an
//! encryption key is configured, compression is disabled, since
//! authenticated encryption on ciphertext is what protects integrity.

use crate::compress::gunzip_of;
use crate::compressed_object_storage::CompressedObjectStorage;
use crate::config::{spec_path_of, StorageConfig};
use crate::crypto::{aes256gcm_sealed, derived_key_of};
use crate::encrypted_object_storage::{
    enc_store_key, spec_parse_key, EncryptedObjectStorage,
};
use crate::errors::{ErrorKind, SqlFileSystemError};
use crate::hexcodec::is_hex_seq;
use crate::metadata_db::MetadataDB;
use crate::obj_storage::{ObjInfo, ObjInfoV};
use crate::sqlar_object_storage::SqlarObjectStorage;
use vstd::prelude::*;

verus! {

/// A wrapper chain in front of the archive backend.
#[derive(Debug)]
pub enum ObjectStore {
    Plain(SqlarObjectStorage),
    Compressed(CompressedObjectStorage),
    Encrypted(EncryptedObjectStorage),
}

impl ObjectStore {
    /// The archive store at the bottom of the chain.
    pub open spec fn inner(&self) -> SqlarObjectStorage {
        match self {
            ObjectStore::Plain(s) => *s,
            ObjectStore::Compressed(c) => c.proxy,
            ObjectStore::Encrypted(e) => e.fs,
        }
    }

    /// The storage section that drives the chain.
    pub open spec fn cfg(&self) -> StorageConfig {
        match self {
            ObjectStore::Plain(s) => s.config,
            ObjectStore::Compressed(c) => c.proxy.config,
            ObjectStore::Encrypted(e) => e.config,
        }
    }

    /// Chain well-formedness.
    pub open spec fn wf(&self) -> bool {
        &&& self.inner().wf()
        &&& match self {
            ObjectStore::Compressed(c) => c.level <= 9,
            _ => true,
        }
    }

    /// Two chains of the same shape: same wrappers, same settings.
    pub open spec fn shape_eq(a: Self, b: Self) -> bool {
        match (a, b) {
            (ObjectStore::Plain(x), ObjectStore::Plain(y)) => x.config == y.config,
            (ObjectStore::Compressed(x), ObjectStore::Compressed(y)) => x.proxy.config
                == y.proxy.config && x.level == y.level,
            (ObjectStore::Encrypted(x), ObjectStore::Encrypted(y)) => x.config == y.config
                && x.fs.config == y.fs.config,
            _ => false,
        }
    }

    /// The archive key under which an identity's blob is stored.
    pub open spec fn blob_key(&self, i: ObjInfoV) -> Seq<char> {
        match self {
            ObjectStore::Encrypted(e) => enc_store_key(
                e.config.use_hash_as_filename,
                i.full_path,
                (spec_parse_key(i.encryption_key)->0).1,
            ),
            _ => spec_path_of(self.cfg().use_hash_as_filename, i.sha512, i.full_path),
        }
    }

    /// The store holds the identity's blob and it decodes to this content.
    pub open spec fn blob_matches(&self, i: ObjInfoV, content: Seq<u8>) -> bool {
        let k = self.blob_key(i);
        match self {
            ObjectStore::Plain(s) => s.has_obj(k) && s.obj(k) == content,
            ObjectStore::Compressed(c) => c.proxy.has_obj(k) && (if i.compression.len() == 0 {
                c.proxy.obj(k) == content
            } else {
                gunzip_of(c.proxy.obj(k)) == Some(content)
            }),
            ObjectStore::Encrypted(e) => spec_parse_key(i.encryption_key) matches Some(p)
                && e.fs.has_obj(k) && e.fs.obj(k).len() <= crate::crypto::GCM_C_MAX && e.fs.obj(
                k,
            ) == aes256gcm_sealed(
                derived_key_of(e.config.encryption_key@, p.0),
                p.1,
                vstd::utf8::encode_utf8(p.2),
                content,
            ),
        }
    }

    /// Fetch an identity's content through the chain. When the store holds
    /// the identity's blob, the call succeeds and returns the one content
    /// it decodes to.
    pub fn get(&self, info: &ObjInfo) -> (r: Result<Vec<u8>, SqlFileSystemError>)
        requires
            self.wf(),
            info.sha512@.len() == 0 || info.sha512@.len() >= 32,
        ensures
            forall|c: Seq<u8>| #[trigger] self.blob_matches(info.v(), c) ==> r is Ok,
            r matches Ok(d) ==> self.blob_matches(info.v(), d@) && forall|c: Seq<u8>|
                #[trigger] self.blob_matches(info.v(), c) ==> c == d@,
            r matches Err(e) ==> e.kind == ErrorKind::NotFound || e.kind
                == ErrorKind::IntegrityError || e.kind == ErrorKind::IoError,
    {
        match self {
            ObjectStore::Plain(s) => {
                match s.get(info) {
                    Ok(d) => Ok(d),
                    Err(e) => Err(e),
                }
            },
            ObjectStore::Compressed(c) => {
                match c.get(info) {
                    Ok(d) => Ok(d),
                    Err(e) => Err(e),
                }
            },
            ObjectStore::Encrypted(e) => {
                match e.get(info) {
                    Ok(d) => Ok(d),
                    Err(er) => Err(er),
                }
            },
        }
    }

    /// Store an identity's content through the chain. The identity's
    /// encryption or compression descriptor is rewritten to say how the
    /// blob was actually stored; everything else about it is kept.
    pub fn put(&mut self, info: &mut ObjInfo, content: &[u8]) -> (r: Result<
        (),
        SqlFileSystemError,
    >)
        requires
            old(self).wf(),
            old(info).sha512@.len() == 128,
            is_hex_seq(old(info).sha512@),
        ensures
            final(self).wf(),
            ObjectStore::shape_eq(*old(self), *final(self)),
            r is Ok ==> {
                &&& final(info).name@ == old(info).name@
                &&& final(info).full_path@ == old(info).full_path@
                &&& final(info).sha512@ == old(info).sha512@
                &&& final(info).size == old(info).size
                &&& final(info).mode == old(info).mode
                &&& final(info).created_at == old(info).created_at
                &&& final(info).accessed_at == old(info).accessed_at
                &&& final(info).updated_at == old(info).updated_at
                &&& final(self).blob_matches(final(info).v(), content@)
                &&& SqlarObjectStorage::frame(
                    old(self).inner(),
                    final(self).inner(),
                    final(self).blob_key(final(info).v()),
                )
            },
            content@.len() <= crate::crypto::GCM_P_MAX ==> r is Ok,
            r matches Err(e) ==> *final(self) == *old(self) && *final(info) == *old(info) && e.kind
                == ErrorKind::InvalidArg && content@.len() > crate::crypto::GCM_P_MAX,
            (*old(self)) is Plain ==> *final(info) == *old(info) && r is Ok,
    {
        proof {
            assert forall|j: int| 0 <= j < 10 implies crate::hexcodec::hex_val(
                #[trigger] info.sha512@.take(10)[j],
            ) >= 0 by {
                assert(info.sha512@.take(10)[j] == info.sha512@[j]);
                assert(crate::hexcodec::hex_val(info.sha512@[j]) >= 0);
            }
        }
        match self {
            ObjectStore::Plain(s) => {
                let rr = s.put(&*info, content);
                Ok(())
            },
            ObjectStore::Compressed(c) => {
                match c.put(info, content) {
                    Ok(_) => Ok(()),
                    Err(e) => Err(e),
                }
            },
            ObjectStore::Encrypted(e) => {
                let ghost pre_info = *info;
                let ghost pre_store = *e;
                match e.put(info, content) {
                    Ok(_) => {
                        proof {
                            let aead = pre_info.sha512@.take(10);
                            assert(aead.len() == 10);
                            assert(is_hex_seq(aead));
                            crate::encrypted_object_storage::lemma_hex_seq_no_colon(aead);
                            let (salt, nonce) = choose|salt: Seq<u8>, nonce: Seq<u8>|
                                {
                                    &&& salt.len() == 32
                                    &&& nonce.len() == 12
                                    &&& #[trigger] info.encryption_key@
                                        == crate::encrypted_object_storage::spec_serialize_key(
                                        salt,
                                        nonce,
                                        pre_info.sha512@.take(10),
                                    )
                                    &&& info.name@ == pre_info.name@
                                    &&& info.full_path@ == pre_info.full_path@
                                    &&& info.sha512@ == pre_info.sha512@
                                    &&& info.compression@ == pre_info.compression@
                                    &&& info.size == pre_info.size
                                    &&& info.mode == pre_info.mode
                                    &&& info.created_at == pre_info.created_at
                                    &&& info.accessed_at == pre_info.accessed_at
                                    &&& info.updated_at == pre_info.updated_at
                                    &&& {
                                        let k = enc_store_key(
                                            pre_store.config.use_hash_as_filename,
                                            pre_info.full_path@,
                                            nonce,
                                        );
                                        &&& e.fs.has_obj(k)
                                        &&& e.fs.obj(k) == aes256gcm_sealed(
                                            derived_key_of(pre_store.config.encryption_key@, salt),
                                            nonce,
                                            vstd::utf8::encode_utf8(pre_info.sha512@.take(10)),
                                            content@,
                                        )
                                        &&& e.fs.obj(k).len() == content@.len() + 16
                                        &&& SqlarObjectStorage::frame(pre_store.fs, e.fs, k)
                                    }
                                };
                            crate::encrypted_object_storage::lemma_filekey_round_trip(
                                salt,
                                nonce,
                                aead,
                            );
                        }
                        Ok(())
                    },
                    Err(er) => Err(er),
                }
            },
        }
    }

    /// Remove an identity's blob unless the deduplication test shows the
    /// object is still used by some file.
    pub fn remove(&mut self, info: &ObjInfo, db: &MetadataDB) -> (r: Result<
        (),
        SqlFileSystemError,
    >)
        requires
            old(self).wf(),
            db.wf(),
            info.sha512@.len() == 0 || info.sha512@.len() >= 32,
        ensures
            final(self).wf(),
            ObjectStore::shape_eq(*old(self), *final(self)),
            r matches Err(e) ==> *final(self) == *old(self) && e.kind
                == ErrorKind::IntegrityError,
            r is Ok && SqlarObjectStorage::spec_in_use(
                *db,
                old(self).cfg().use_hash_as_filename,
                *info,
            ) ==> *final(self) == *old(self),
            r is Ok && !SqlarObjectStorage::spec_in_use(
                *db,
                old(self).cfg().use_hash_as_filename,
                *info,
            ) ==> {
                let k = old(self).blob_key(info.v());
                &&& !final(self).inner().has_obj(k)
                &&& SqlarObjectStorage::frame(old(self).inner(), final(self).inner(), k)
            },
    {
        match self {
            ObjectStore::Plain(s) => {
                match s.remove(info, db) {
                    Ok(_) => Ok(()),
                    Err(e) => Err(e),
                }
            },
            ObjectStore::Compressed(c) => {
                match c.remove(info, db) {
                    Ok(_) => Ok(()),
                    Err(e) => Err(e),
                }
            },
            ObjectStore::Encrypted(e) => {
                match e.remove(info, db) {
                    Ok(_) => Ok(()),
                    Err(er) => Err(er),
                }
            },
        }
    }

    /// Move a blob between the keys two identities derive. A missing
    /// source is a no-op, as is an unchanged key.
    pub fn rename(&mut self, prev_info: &ObjInfo, new_info: &ObjInfo) -> (r: Result<
        (),
        SqlFileSystemError,
    >)
        requires
            old(self).wf(),
            prev_info.sha512@.len() == 0 || prev_info.sha512@.len() >= 32,
            new_info.sha512@.len() == 0 || new_info.sha512@.len() >= 32,
        ensures
            r is Ok,
            final(self).wf(),
            ObjectStore::shape_eq(*old(self), *final(self)),
            ({
                let kp = old(self).blob_key(prev_info.v());
                let kn = old(self).blob_key(new_info.v());
                let movable = match *old(self) {
                    ObjectStore::Encrypted(_) => spec_parse_key(prev_info.encryption_key@) is Some
                        && spec_parse_key(new_info.encryption_key@) is Some,
                    _ => true,
                };
                &&& !movable ==> *final(self) == *old(self)
                &&& movable && kp == kn ==> *final(self) == *old(self)
                &&& movable && !old(self).inner().has_obj(kp) ==> *final(self) == *old(self)
                &&& movable && kp != kn && old(self).inner().has_obj(kp) ==> {
                    &&& !final(self).inner().has_obj(kp)
                    &&& final(self).inner().has_obj(kn)
                    &&& final(self).inner().obj(kn) == old(self).inner().obj(kp)
                    &&& forall|n: Seq<char>|
                        #![trigger final(self).inner().has_obj(n)]
                        #![trigger final(self).inner().obj(n)]
                        n != kp && n != kn ==> (final(self).inner().has_obj(n)
                            == old(self).inner().has_obj(n)) && (old(self).inner().has_obj(n)
                            ==> final(self).inner().obj(n) == old(self).inner().obj(n))
                }
            }),
    {
        match self {
            ObjectStore::Plain(s) => {
                let prev_name = s.path(prev_info);
                let new_name = s.path(new_info);
                s.rename_sqlar_file(prev_name.as_str(), new_name.as_str())
            },
            ObjectStore::Compressed(c) => c.rename(prev_info, new_info),
            ObjectStore::Encrypted(e) => e.rename(prev_info, new_info),
        }
    }

    /// Empty the store.
    pub fn nuke(&mut self) -> (r: Result<(), SqlFileSystemError>)
        requires
            old(self).wf(),
        ensures
            r is Ok,
            final(self).wf(),
            ObjectStore::shape_eq(*old(self), *final(self)),
            forall|n: Seq<char>| !final(self).inner().has_obj(n),
    {
        match self {
            ObjectStore::Plain(s) => s.nuke(),
            ObjectStore::Compressed(c) => c.nuke(),
            ObjectStore::Encrypted(e) => e.nuke(),
        }
    }
}

/// Build the wrapper chain a storage section asks for: encryption when a
/// key is configured, else compression when a level is configured, else
/// the bare backend.
pub fn create_object_storage(config: StorageConfig) -> (r: ObjectStore)
    requires
        config.compression_level <= 9,
    ensures
        r.wf(),
        r.cfg().use_hash_as_filename == config.use_hash_as_filename,
        r.cfg().encryption_key@ == config.encryption_key@,
        forall|n: Seq<char>| !r.inner().has_obj(n),
        config.encryption_key@.len() > 0 <==> r is Encrypted,
        config.encryption_key@.len() == 0 && config.compression_level > 0 <==> r is Compressed,
        r matches ObjectStore::Compressed(c) ==> c.level == config.compression_level,
{
    let backend = SqlarObjectStorage { files: Vec::new(), config: config.duplicate() };
    proof {
        assert forall|n: Seq<char>| !backend.has_obj(n) by {
            if backend.has_obj(n) {
                let k = choose|k: int|
                    0 <= k < backend.files@.len() && #[trigger] backend.files@[k].name@ == n;
            }
        }
    }
    if config.encryption_key.as_str().unicode_len() > 0 {
        ObjectStore::Encrypted(EncryptedObjectStorage::new(config, backend))
    } else if config.compression_level > 0 {
        ObjectStore::Compressed(CompressedObjectStorage::new(backend, config.compression_level))
    } else {
        ObjectStore::Plain(backend)
    }
}

/// The blob key and the match relation read only the identity fields that
/// name the blob, so identities differing in other fields agree.
pub proof fn lemma_blob_congruence(s: ObjectStore, i1: ObjInfoV, i2: ObjInfoV, c: Seq<u8>)
    requires
        i1.full_path == i2.full_path,
        i1.sha512 == i2.sha512,
        i1.encryption_key == i2.encryption_key,
        i1.compression == i2.compression,
    ensures
        s.blob_key(i1) == s.blob_key(i2),
        s.blob_matches(i1, c) == s.blob_matches(i2, c),
{
}

/// Chains of one shape derive the same blob keys and settings.
pub proof fn lemma_shape_key(a: ObjectStore, b: ObjectStore)
    requires
        ObjectStore::shape_eq(a, b),
    ensures
        a.cfg() == b.cfg(),
        forall|i: ObjInfoV| #[trigger] a.blob_key(i) == b.blob_key(i),
{
    match (a, b) {
        (ObjectStore::Plain(_), ObjectStore::Plain(_)) => {},
        (ObjectStore::Compressed(_), ObjectStore::Compressed(_)) => {},
        (ObjectStore::Encrypted(_), ObjectStore::Encrypted(_)) => {},
        _ => {},
    }
}

} // verus!
