//! Replication fan-out: one primary store and an ordered list of replicas.
//! Reads go to the primary alone; writes, removals, renames and purges are
//! applied to the primary and then to each replica in order, stopping at
//! the first error.

use crate::encrypted_object_storage::spec_parse_key;
use crate::errors::{ErrorKind, SqlFileSystemError};
use crate::hexcodec::is_hex_seq;
use crate::metadata_db::MetadataDB;
use crate::obj_storage::ObjInfo;
use crate::object_store::ObjectStore;
use crate::sqlar_object_storage::SqlarObjectStorage;
use vstd::prelude::*;

verus! {

/// A chain always has its own shape.
pub proof fn lemma_shape_refl(a: ObjectStore)
    ensures
        ObjectStore::shape_eq(a, a),
{
    match a {
        ObjectStore::Plain(_) => {},
        ObjectStore::Compressed(_) => {},
        ObjectStore::Encrypted(_) => {},
    }
}

/// A primary store and its replicas.
#[derive(Debug)]
pub struct ReplicatedObjectStorage {
    pub primary: ObjectStore,
    pub replicas: Vec<ObjectStore>,
}

impl ReplicatedObjectStorage {
    /// Every member of the group is well formed.
    pub open spec fn wf(&self) -> bool {
        &&& self.primary.wf()
        &&& forall|j: int| 0 <= j < self.replicas@.len() ==> (#[trigger] self.replicas@[j]).wf()
    }

    /// The group keeps its shape: the primary and each replica keep their
    /// wrappers and settings, and the replica count is unchanged.
    pub open spec fn shape_eq(a: Self, b: Self) -> bool {
        &&& ObjectStore::shape_eq(a.primary, b.primary)
        &&& a.replicas@.len() == b.replicas@.len()
        &&& forall|j: int|
            0 <= j < a.replicas@.len() ==> ObjectStore::shape_eq(
                #[trigger] a.replicas@[j],
                b.replicas@[j],
            )
    }

    /// Every replica is a bare backend: no compression, no encryption.
    pub open spec fn replicas_plain(&self) -> bool {
        forall|j: int| 0 <= j < self.replicas@.len() ==> (#[trigger] self.replicas@[j]) is Plain
    }

    /// Build a group.
    pub fn new(primary: ObjectStore, replicas: Vec<ObjectStore>) -> (r: ReplicatedObjectStorage)
        ensures
            r.primary == primary,
            r.replicas == replicas,
    {
        ReplicatedObjectStorage { primary, replicas }
    }

    /// Read an object from the primary alone.
    pub fn get(&self, info: &ObjInfo) -> (r: Result<Vec<u8>, SqlFileSystemError>)
        requires
            self.wf(),
            info.sha512@.len() == 0 || info.sha512@.len() >= 32,
        ensures
            forall|c: Seq<u8>| #[trigger] self.primary.blob_matches(info.v(), c) ==> r is Ok,
            r matches Ok(d) ==> self.primary.blob_matches(info.v(), d@) && forall|c: Seq<u8>|
                #[trigger] self.primary.blob_matches(info.v(), c) ==> c == d@,
            r matches Err(e) ==> e.kind == ErrorKind::NotFound || e.kind
                == ErrorKind::IntegrityError || e.kind == ErrorKind::IoError,
    {
        self.primary.get(info)
    }

    /// Store an object on the primary and then on each replica in order.
    /// When every replica is a bare backend, the identity leaves the call
    /// exactly as the primary wrote it, and every replica holds the raw
    /// content under its own derived key.
    pub fn put(&mut self, info: &mut ObjInfo, content: &[u8]) -> (r: Result<
        (),
        SqlFileSystemError,
    >)
        requires
            old(self).wf(),
            old(info).sha512@.len() == 128,
            is_hex_seq(old(info).sha512@),
        ensures
            final(self).wf(),
            ReplicatedObjectStorage::shape_eq(*old(self), *final(self)),
            r is Ok && old(self).replicas_plain() ==> {
                &&& final(info).name@ == old(info).name@
                &&& final(info).full_path@ == old(info).full_path@
                &&& final(info).sha512@ == old(info).sha512@
                &&& final(info).size == old(info).size
                &&& final(info).mode == old(info).mode
                &&& final(info).created_at == old(info).created_at
                &&& final(info).accessed_at == old(info).accessed_at
                &&& final(info).updated_at == old(info).updated_at
                &&& final(self).primary.blob_matches(final(info).v(), content@)
                &&& SqlarObjectStorage::frame(
                    old(self).primary.inner(),
                    final(self).primary.inner(),
                    final(self).primary.blob_key(final(info).v()),
                )
                &&& forall|j: int|
                    0 <= j < final(self).replicas@.len() ==> (
                    #[trigger] final(self).replicas@[j]).blob_matches(final(info).v(), content@)
            },
            content@.len() <= crate::crypto::GCM_P_MAX ==> r is Ok,
            r matches Err(e) ==> e.kind == ErrorKind::InvalidArg && content@.len()
                > crate::crypto::GCM_P_MAX,
    {
        match self.primary.put(info, content) {
            Ok(_) => {},
            Err(e) => {
                proof {
                    lemma_replicas_shape_refl(self.replicas@);
                }
                return Err(e);
            },
        }
        let n = self.replicas.len();
        let mut j: usize = 0;
        proof {
            lemma_replicas_shape_refl(self.replicas@);
        }
        while j < n
            invariant
                n == self.replicas@.len(),
                j <= n,
                self.replicas@.len() == old(self).replicas@.len(),
                info.sha512@.len() == 128,
                is_hex_seq(info.sha512@),
                self.primary.wf(),
                ObjectStore::shape_eq(old(self).primary, self.primary),
                forall|x: int| 0 <= x < n ==> (#[trigger] self.replicas@[x]).wf(),
                forall|x: int|
                    0 <= x < n ==> ObjectStore::shape_eq(
                        #[trigger] old(self).replicas@[x],
                        self.replicas@[x],
                    ),
                old(self).replicas_plain() ==> {
                    &&& info.name@ == old(info).name@
                    &&& info.full_path@ == old(info).full_path@
                    &&& info.sha512@ == old(info).sha512@
                    &&& info.size == old(info).size
                    &&& info.mode == old(info).mode
                    &&& info.created_at == old(info).created_at
                    &&& info.accessed_at == old(info).accessed_at
                    &&& info.updated_at == old(info).updated_at
                    &&& self.primary.blob_matches(info.v(), content@)
                    &&& SqlarObjectStorage::frame(
                        old(self).primary.inner(),
                        self.primary.inner(),
                        self.primary.blob_key(info.v()),
                    )
                    &&& forall|x: int|
                        0 <= x < j ==> (#[trigger] self.replicas@[x]).blob_matches(
                            info.v(),
                            content@,
                        )
                },
            decreases n - j,
        {
            let ghost pre_loop = *self;
            let ghost pre_info = *info;
            proof {
                if old(self).replicas_plain() {
                    assert(old(self).replicas@[j as int] is Plain);
                    assert(self.replicas@[j as int] is Plain);
                }
            }
            let rep = &mut self.replicas[j];
            match rep.put(info, content) {
                Ok(_) => {},
                Err(e) => {
                    proof {
                        lemma_replicas_shape_trans(
                            old(self).replicas@,
                            pre_loop.replicas@,
                            self.replicas@,
                        );
                    }
                    return Err(e);
                },
            }
            proof {
                lemma_replicas_shape_trans(
                    old(self).replicas@,
                    pre_loop.replicas@,
                    self.replicas@,
                );
                if old(self).replicas_plain() {
                    assert(*info == pre_info);
                    assert forall|x: int| 0 <= x < j + 1 implies (
                    #[trigger] self.replicas@[x]).blob_matches(info.v(), content@) by {
                        if x < j {
                            assert(self.replicas@[x] == pre_loop.replicas@[x]);
                            assert(pre_loop.replicas@[x].blob_matches(pre_info.v(), content@));
                        }
                    }
                }
            }
            j = j + 1;
        }
        Ok(())
    }

    /// Remove an object's blob from the primary and each replica, honoring
    /// each member's deduplication policy.
    pub fn remove(&mut self, info: &ObjInfo, db: &MetadataDB) -> (r: Result<
        (),
        SqlFileSystemError,
    >)
        requires
            old(self).wf(),
            db.wf(),
            info.sha512@.len() == 0 || info.sha512@.len() >= 32,
        ensures
            final(self).wf(),
            ObjectStore::shape_eq(old(self).primary, final(self).primary),
            r matches Err(e) ==> e.kind == ErrorKind::IntegrityError,
            r is Ok && SqlarObjectStorage::spec_in_use(
                *db,
                old(self).primary.cfg().use_hash_as_filename,
                *info,
            ) ==> final(self).primary == old(self).primary,
            r is Ok && !SqlarObjectStorage::spec_in_use(
                *db,
                old(self).primary.cfg().use_hash_as_filename,
                *info,
            ) ==> {
                let k = old(self).primary.blob_key(info.v());
                &&& !final(self).primary.inner().has_obj(k)
                &&& SqlarObjectStorage::frame(
                    old(self).primary.inner(),
                    final(self).primary.inner(),
                    k,
                )
            },
    {
        match self.primary.remove(info, db) {
            Ok(_) => {},
            Err(e) => {
                return Err(e);
            },
        }
        let ghost prim = self.primary;
        let n = self.replicas.len();
        let mut j: usize = 0;
        while j < n
            invariant
                n == self.replicas@.len(),
                j <= n,
                db.wf(),
                info.sha512@.len() == 0 || info.sha512@.len() >= 32,
                self.primary.wf(),
                ObjectStore::shape_eq(old(self).primary, self.primary),
                forall|x: int| 0 <= x < n ==> (#[trigger] self.replicas@[x]).wf(),
                SqlarObjectStorage::spec_in_use(
                    *db,
                    old(self).primary.cfg().use_hash_as_filename,
                    *info,
                ) ==> self.primary == old(self).primary,
                !SqlarObjectStorage::spec_in_use(
                    *db,
                    old(self).primary.cfg().use_hash_as_filename,
                    *info,
                ) ==> {
                    let k = old(self).primary.blob_key(info.v());
                    &&& !self.primary.inner().has_obj(k)
                    &&& SqlarObjectStorage::frame(
                        old(self).primary.inner(),
                        self.primary.inner(),
                        k,
                    )
                },
            decreases n - j,
        {
            let rep = &mut self.replicas[j];
            match rep.remove(info, db) {
                Ok(_) => {},
                Err(e) => {
                    return Err(e);
                },
            }
            j = j + 1;
        }
        Ok(())
    }

    /// Move an object's blob on the primary and each replica.
    pub fn rename(&mut self, prev_info: &ObjInfo, new_info: &ObjInfo) -> (r: Result<
        (),
        SqlFileSystemError,
    >)
        requires
            old(self).wf(),
            prev_info.sha512@.len() == 0 || prev_info.sha512@.len() >= 32,
            new_info.sha512@.len() == 0 || new_info.sha512@.len() >= 32,
        ensures
            r is Ok,
            final(self).wf(),
            ({
                let kp = old(self).primary.blob_key(prev_info.v());
                let kn = old(self).primary.blob_key(new_info.v());
                let movable = match old(self).primary {
                    ObjectStore::Encrypted(_) => spec_parse_key(prev_info.encryption_key@) is Some
                        && spec_parse_key(new_info.encryption_key@) is Some,
                    _ => true,
                };
                &&& !movable ==> final(self).primary == old(self).primary
                &&& movable && kp == kn ==> final(self).primary == old(self).primary
                &&& movable && !old(self).primary.inner().has_obj(kp) ==> final(self).primary
                    == old(self).primary
                &&& movable && kp != kn && old(self).primary.inner().has_obj(kp) ==> {
                    &&& !final(self).primary.inner().has_obj(kp)
                    &&& final(self).primary.inner().has_obj(kn)
                    &&& final(self).primary.inner().obj(kn) == old(self).primary.inner().obj(kp)
                    &&& forall|m: Seq<char>|
                        #![trigger final(self).primary.inner().has_obj(m)]
                        #![trigger final(self).primary.inner().obj(m)]
                        m != kp && m != kn ==> (final(self).primary.inner().has_obj(m)
                            == old(self).primary.inner().has_obj(m)) && (old(
                            self,
                        ).primary.inner().has_obj(m) ==> final(self).primary.inner().obj(m)
                            == old(self).primary.inner().obj(m))
                }
            }),
    {
        let rr = self.primary.rename(prev_info, new_info);
        let n = self.replicas.len();
        let mut j: usize = 0;
        while j < n
            invariant
                n == self.replicas@.len(),
                j <= n,
                prev_info.sha512@.len() == 0 || prev_info.sha512@.len() >= 32,
                new_info.sha512@.len() == 0 || new_info.sha512@.len() >= 32,
                self.primary.wf(),
                forall|x: int| 0 <= x < n ==> (#[trigger] self.replicas@[x]).wf(),
                ({
                    let kp = old(self).primary.blob_key(prev_info.v());
                    let kn = old(self).primary.blob_key(new_info.v());
                    let movable = match old(self).primary {
                        ObjectStore::Encrypted(_) => spec_parse_key(
                            prev_info.encryption_key@,
                        ) is Some && spec_parse_key(new_info.encryption_key@) is Some,
                        _ => true,
                    };
                    &&& !movable ==> self.primary == old(self).primary
                    &&& movable && kp == kn ==> self.primary == old(self).primary
                    &&& movable && !old(self).primary.inner().has_obj(kp) ==> self.primary == old(
                        self,
                    ).primary
                    &&& movable && kp != kn && old(self).primary.inner().has_obj(kp) ==> {
                        &&& !self.primary.inner().has_obj(kp)
                        &&& self.primary.inner().has_obj(kn)
                        &&& self.primary.inner().obj(kn) == old(self).primary.inner().obj(kp)
                        &&& forall|m: Seq<char>|
                            #![trigger self.primary.inner().has_obj(m)]
                            #![trigger self.primary.inner().obj(m)]
                            m != kp && m != kn ==> (self.primary.inner().has_obj(m)
                                == old(self).primary.inner().has_obj(m)) && (old(
                                self,
                            ).primary.inner().has_obj(m) ==> self.primary.inner().obj(m)
                                == old(self).primary.inner().obj(m))
                    }
                }),
            decreases n - j,
        {
            let rep = &mut self.replicas[j];
            let rr2 = rep.rename(prev_info, new_info);
            j = j + 1;
        }
        Ok(())
    }

    /// Empty the primary and each replica.
    pub fn nuke(&mut self) -> (r: Result<(), SqlFileSystemError>)
        requires
            old(self).wf(),
        ensures
            r is Ok,
            final(self).wf(),
            forall|m: Seq<char>| !final(self).primary.inner().has_obj(m),
    {
        let rr = self.primary.nuke();
        let n = self.replicas.len();
        let mut j: usize = 0;
        while j < n
            invariant
                n == self.replicas@.len(),
                j <= n,
                self.primary.wf(),
                forall|x: int| 0 <= x < n ==> (#[trigger] self.replicas@[x]).wf(),
                forall|m: Seq<char>| !self.primary.inner().has_obj(m),
            decreases n - j,
        {
            let rep = &mut self.replicas[j];
            let rr2 = rep.nuke();
            j = j + 1;
        }
        Ok(())
    }
}

/// Every chain of a list has its own shape.
pub proof fn lemma_replicas_shape_refl(s: Seq<ObjectStore>)
    ensures
        forall|x: int|
            0 <= x < s.len() ==> ObjectStore::shape_eq(#[trigger] s[x], s[x]),
{
    assert forall|x: int| 0 <= x < s.len() implies ObjectStore::shape_eq(
        #[trigger] s[x],
        s[x],
    ) by {
        lemma_shape_refl(s[x]);
    }
}

/// Shape agreement composes along a chain of updates.
pub proof fn lemma_replicas_shape_trans(a: Seq<ObjectStore>, b: Seq<ObjectStore>, c: Seq<
    ObjectStore,
>)
    requires
        a.len() == b.len(),
        b.len() == c.len(),
        forall|x: int|
            0 <= x < a.len() ==> ObjectStore::shape_eq(#[trigger] a[x], b[x]),
        forall|x: int|
            0 <= x < b.len() ==> ObjectStore::shape_eq(#[trigger] b[x], c[x]),
    ensures
        forall|x: int|
            0 <= x < a.len() ==> ObjectStore::shape_eq(#[trigger] a[x], c[x]),
{
    assert forall|x: int| 0 <= x < a.len() implies ObjectStore::shape_eq(
        #[trigger] a[x],
        c[x],
    ) by {
        assert(ObjectStore::shape_eq(a[x], b[x]));
        assert(ObjectStore::shape_eq(b[x], c[x]));
    }
}

} // verus!
