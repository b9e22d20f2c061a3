//! The archive backend: rows of `(name, mode, mtime, sz, data)` keyed by
//! the derived object path, with insert-or-replace semantics. It is the
//! concrete store the wrapper chain ends in, and the model of the
//! archive-table layout.

use crate::config::{spec_path_of, StorageConfig};
use crate::errors::{error, ErrorKind, SqlFileSystemError, ENOENT};
use crate::metadata_db::MetadataDB;
use crate::obj_storage::ObjInfo;
use crate::strutil::str_eq;
use vstd::prelude::*;

verus! {

/// One archive row.
#[derive(Debug, Clone)]
pub struct SqlarFile {
    pub name: String,
    pub mode: i64,
    pub mtime: i64,
    pub sz: i64,
    pub data: Vec<u8>,
}

/// The archive backend: rows with unique names, plus the storage section
/// that drives key derivation and the deduplication policy.
#[derive(Debug)]
pub struct SqlarObjectStorage {
    pub files: Vec<SqlarFile>,
    pub config: StorageConfig,
}

impl SqlarObjectStorage {
    /// Row names are unique.
    pub open spec fn wf(&self) -> bool {
        forall|i: int, j: int|
            0 <= i < j < self.files@.len() ==> #[trigger] self.files@[i].name@
                != #[trigger] self.files@[j].name@
    }

    /// Whether a row with this name exists.
    pub open spec fn has_obj(&self, name: Seq<char>) -> bool {
        exists|i: int| 0 <= i < self.files@.len() && #[trigger] self.files@[i].name@ == name
    }

    /// The table position of the row with this name.
    pub open spec fn obj_idx(&self, name: Seq<char>) -> int {
        choose|i: int| 0 <= i < self.files@.len() && #[trigger] self.files@[i].name@ == name
    }

    /// The stored bytes of the row with this name.
    pub open spec fn obj(&self, name: Seq<char>) -> Seq<u8> {
        self.files@[self.obj_idx(name)].data@
    }

    /// Nothing changed among the rows but (possibly) the named one.
    pub open spec fn frame(pre: Self, post: Self, name: Seq<char>) -> bool {
        forall|n: Seq<char>|
            #![trigger post.has_obj(n)]
            #![trigger post.obj(n)]
            n != name ==> (post.has_obj(n) == pre.has_obj(n)) && (pre.has_obj(n) ==> post.obj(n)
                == pre.obj(n))
    }

    /// Pin the table position of a row name.
    proof fn lemma_obj_at(&self, i: int)
        requires
            self.wf(),
            0 <= i < self.files@.len(),
        ensures
            self.has_obj(self.files@[i].name@),
            self.obj_idx(self.files@[i].name@) == i,
            self.obj(self.files@[i].name@) == self.files@[i].data@,
    {
        let nm = self.files@[i].name@;
        assert(self.has_obj(nm));
        let k = self.obj_idx(nm);
        if k != i {
            if k < i {
                assert(self.files@[k].name@ != self.files@[i].name@);
            } else {
                assert(self.files@[i].name@ != self.files@[k].name@);
            }
        }
    }

    /// Look up the table position of a row name.
    fn find_row_index(&self, name: &str) -> (r: Option<usize>)
        requires
            self.wf(),
        ensures
            match r {
                Some(i) => i < self.files@.len() && self.files@[i as int].name@ == name@
                    && self.has_obj(name@) && self.obj_idx(name@) == i,
                None => !self.has_obj(name@),
            },
    {
        let n = self.files.len();
        let mut i: usize = 0;
        while i < n
            invariant
                self.wf(),
                n == self.files@.len(),
                i <= n,
                forall|j: int| 0 <= j < i ==> #[trigger] self.files@[j].name@ != name@,
            decreases n - i,
        {
            if str_eq(self.files[i].name.as_str(), name) {
                proof {
                    self.lemma_obj_at(i as int);
                }
                return Some(i);
            }
            i = i + 1;
        }
        proof {
            if self.has_obj(name@) {
                let k = choose|k: int|
                    0 <= k < self.files@.len() && #[trigger] self.files@[k].name@ == name@;
                assert(self.files@[k].name@ != name@);
            }
        }
        None
    }

    /// Fetch an archive row by name.
    pub fn get_sqlar_file(&self, name: &str) -> (r: Option<SqlarFile>)
        requires
            self.wf(),
        ensures
            r is Some <==> self.has_obj(name@),
            r matches Some(f) ==> f.data@ == self.obj(name@) && f.name@ == name@,
    {
        match self.find_row_index(name) {
            Some(i) => {
                let row = &self.files[i];
                Some(
                    SqlarFile {
                        name: row.name.clone(),
                        mode: row.mode,
                        mtime: row.mtime,
                        sz: row.sz,
                        data: row.data.clone(),
                    },
                )
            },
            None => None,
        }
    }

    /// Insert or replace an archive row.
    pub fn set_sqlar_file(&mut self, name: &str, file: SqlarFile) -> (r: Result<
        (),
        SqlFileSystemError,
    >)
        requires
            old(self).wf(),
            file.name@ == name@,
        ensures
            r is Ok,
            final(self).wf(),
            final(self).has_obj(name@),
            final(self).obj(name@) == file.data@,
            SqlarObjectStorage::frame(*old(self), *final(self), name@),
            final(self).config == old(self).config,
    {
        let ghost pre = *self;
        match self.find_row_index(name) {
            Some(i) => {
                self.files[i] = file;
                proof {
                    assert forall|a: int, b: int| 0 <= a < b < self.files@.len() implies
                        #[trigger] self.files@[a].name@ != #[trigger] self.files@[b].name@ by {
                        assert(pre.files@[a].name@ != pre.files@[b].name@);
                    }
                    self.lemma_obj_at(i as int);
                    assert forall|n: Seq<char>| n != name@ implies (self.has_obj(n) == pre.has_obj(
                        n,
                    )) && (pre.has_obj(n) ==> self.obj(n) == pre.obj(n)) by {
                        if pre.has_obj(n) {
                            let k = choose|k: int|
                                0 <= k < pre.files@.len() && #[trigger] pre.files@[k].name@ == n;
                            assert(k != i as int);
                            assert(self.files@[k].name@ == n);
                            self.lemma_obj_at(k);
                            pre.lemma_obj_at(k);
                        }
                        if self.has_obj(n) {
                            let k = choose|k: int|
                                0 <= k < self.files@.len() && #[trigger] self.files@[k].name@ == n;
                            assert(k != i as int);
                            assert(pre.files@[k].name@ == n);
                        }
                    }
                }
            },
            None => {
                self.files.push(file);
                proof {
                    let n0 = pre.files@.len() as int;
                    assert forall|a: int, b: int| 0 <= a < b < self.files@.len() implies
                        #[trigger] self.files@[a].name@ != #[trigger] self.files@[b].name@ by {
                        if b == n0 {
                            assert(pre.files@[a].name@ != name@);
                        } else {
                            assert(pre.files@[a].name@ != pre.files@[b].name@);
                        }
                    }
                    self.lemma_obj_at(n0);
                    assert forall|n: Seq<char>| n != name@ implies (self.has_obj(n) == pre.has_obj(
                        n,
                    )) && (pre.has_obj(n) ==> self.obj(n) == pre.obj(n)) by {
                        if pre.has_obj(n) {
                            let k = choose|k: int|
                                0 <= k < pre.files@.len() && #[trigger] pre.files@[k].name@ == n;
                            assert(self.files@[k].name@ == n);
                            self.lemma_obj_at(k);
                            pre.lemma_obj_at(k);
                        }
                        if self.has_obj(n) {
                            let k = choose|k: int|
                                0 <= k < self.files@.len() && #[trigger] self.files@[k].name@ == n;
                            assert(k < n0);
                            assert(pre.files@[k].name@ == n);
                        }
                    }
                }
            },
        }
        Ok(())
    }

    /// Delete an archive row by name, if present.
    pub fn remove_sqlar_file(&mut self, name: &str) -> (r: Result<(), SqlFileSystemError>)
        requires
            old(self).wf(),
        ensures
            r is Ok,
            final(self).wf(),
            !final(self).has_obj(name@),
            SqlarObjectStorage::frame(*old(self), *final(self), name@),
            final(self).config == old(self).config,
    {
        let ghost pre = *self;
        match self.find_row_index(name) {
            Some(i) => {
                self.files.remove(i);
                proof {
                    assert forall|a: int, b: int| 0 <= a < b < self.files@.len() implies
                        #[trigger] self.files@[a].name@ != #[trigger] self.files@[b].name@ by {
                        let pa = if a < i as int {
                            a
                        } else {
                            a + 1
                        };
                        let pb = if b < i as int {
                            b
                        } else {
                            b + 1
                        };
                        assert(pre.files@[pa].name@ != pre.files@[pb].name@);
                    }
                    if self.has_obj(name@) {
                        let k = choose|k: int|
                            0 <= k < self.files@.len() && #[trigger] self.files@[k].name@ == name@;
                        let pk = if k < i as int {
                            k
                        } else {
                            k + 1
                        };
                        assert(pre.files@[pk].name@ == name@);
                        pre.lemma_obj_at(pk);
                        pre.lemma_obj_at(i as int);
                    }
                    assert forall|n: Seq<char>| n != name@ implies (self.has_obj(n) == pre.has_obj(
                        n,
                    )) && (pre.has_obj(n) ==> self.obj(n) == pre.obj(n)) by {
                        if pre.has_obj(n) {
                            let k = choose|k: int|
                                0 <= k < pre.files@.len() && #[trigger] pre.files@[k].name@ == n;
                            assert(k != i as int);
                            let nk = if k < i as int {
                                k
                            } else {
                                k - 1
                            };
                            assert(self.files@[nk].name@ == n);
                            self.lemma_obj_at(nk);
                            pre.lemma_obj_at(k);
                        }
                        if self.has_obj(n) {
                            let k = choose|k: int|
                                0 <= k < self.files@.len() && #[trigger] self.files@[k].name@ == n;
                            let pk = if k < i as int {
                                k
                            } else {
                                k + 1
                            };
                            assert(pre.files@[pk].name@ == n);
                        }
                    }
                }
            },
            None => {},
        }
        Ok(())
    }

    /// Move an archive row to a new name. A missing source is a no-op, as
    /// is an unchanged name; an existing destination row is replaced.
    pub fn rename_sqlar_file(&mut self, prev_name: &str, new_name: &str) -> (r: Result<
        (),
        SqlFileSystemError,
    >)
        requires
            old(self).wf(),
        ensures
            r is Ok,
            final(self).wf(),
            final(self).config == old(self).config,
            prev_name@ == new_name@ ==> *final(self) == *old(self),
            !old(self).has_obj(prev_name@) ==> *final(self) == *old(self),
            prev_name@ != new_name@ && old(self).has_obj(prev_name@) ==> {
                &&& !final(self).has_obj(prev_name@)
                &&& final(self).has_obj(new_name@)
                &&& final(self).obj(new_name@) == old(self).obj(prev_name@)
                &&& forall|n: Seq<char>|
                    #![trigger final(self).has_obj(n)]
                    #![trigger final(self).obj(n)]
                    n != prev_name@ && n != new_name@ ==> (final(self).has_obj(n) == old(
                        self,
                    ).has_obj(n)) && (old(self).has_obj(n) ==> final(self).obj(n) == old(self).obj(
                        n,
                    ))
            },
    {
        if str_eq(prev_name, new_name) {
            return Ok(());
        }
        let row = match self.get_sqlar_file(prev_name) {
            Some(r) => r,
            None => {
                return Ok(());
            },
        };
        let ghost pre = *self;
        let moved = SqlarFile {
            name: new_name.to_owned(),
            mode: row.mode,
            mtime: row.mtime,
            sz: row.sz,
            data: row.data,
        };
        let r1 = self.remove_sqlar_file(prev_name);
        let ghost mid = *self;
        let r2 = self.set_sqlar_file(new_name, moved);
        proof {
            assert(!self.has_obj(prev_name@));
        }
        Ok(())
    }

    /// The object key of an identity under this backend's settings.
    pub fn path(&self, info: &ObjInfo) -> (r: String)
        requires
            info.sha512@.len() == 0 || info.sha512@.len() >= 32,
        ensures
            r@ == spec_path_of(self.config.use_hash_as_filename, info.sha512@, info.full_path@),
    {
        self.config.path_of(info)
    }

    /// Fetch the bytes stored under an identity's key.
    pub fn get(&self, info: &ObjInfo) -> (r: Result<Vec<u8>, SqlFileSystemError>)
        requires
            self.wf(),
            info.sha512@.len() == 0 || info.sha512@.len() >= 32,
        ensures
            ({
                let key = spec_path_of(
                    self.config.use_hash_as_filename,
                    info.sha512@,
                    info.full_path@,
                );
                &&& r is Ok <==> self.has_obj(key)
                &&& r matches Ok(d) ==> d@ == self.obj(key)
                &&& r matches Err(e) ==> e.code == ENOENT && e.kind == ErrorKind::NotFound
            }),
    {
        let name = self.path(info);
        match self.get_sqlar_file(name.as_str()) {
            Some(f) => Ok(f.data),
            None => error(ENOENT, ErrorKind::NotFound),
        }
    }

    /// Store bytes under an identity's key, replacing any previous blob.
    pub fn put(&mut self, info: &ObjInfo, content: &[u8]) -> (r: Result<(), SqlFileSystemError>)
        requires
            old(self).wf(),
            info.sha512@.len() == 0 || info.sha512@.len() >= 32,
        ensures
            ({
                let key = spec_path_of(
                    old(self).config.use_hash_as_filename,
                    info.sha512@,
                    info.full_path@,
                );
                &&& r is Ok
                &&& final(self).wf()
                &&& final(self).has_obj(key)
                &&& final(self).obj(key) == content@
                &&& SqlarObjectStorage::frame(*old(self), *final(self), key)
                &&& final(self).config == old(self).config
            }),
    {
        let name = self.path(info);
        let row = SqlarFile {
            name: name.clone(),
            mode: info.mode as i64,
            mtime: info.updated_at,
            sz: #[verifier::truncate] (info.size as i64),
            data: vstd::slice::slice_to_vec(content),
        };
        self.set_sqlar_file(name.as_str(), row)
    }

    /// Whether another file still uses this object under the backend's
    /// deduplication policy.
    pub open spec fn spec_in_use(db: MetadataDB, use_hash: bool, info: ObjInfo) -> bool {
        if use_hash {
            exists|i: int|
                0 <= i < db.files@.len() && #[trigger] db.files@[i].sha512@ == info.sha512@
        } else {
            db.resolve_path(info.full_path@) matches Some(fid) && db.has_file(fid)
        }
    }

    /// Remove an identity's blob unless the deduplication test shows the
    /// object is still used by some file. Hash-addressed stores test by
    /// content hash; path-addressed stores test by logical path.
    pub fn remove(&mut self, info: &ObjInfo, db: &MetadataDB) -> (r: Result<
        (),
        SqlFileSystemError,
    >)
        requires
            old(self).wf(),
            db.wf(),
            info.sha512@.len() == 0 || info.sha512@.len() >= 32,
        ensures
            r is Ok,
            final(self).wf(),
            final(self).config == old(self).config,
            SqlarObjectStorage::spec_in_use(*db, old(self).config.use_hash_as_filename, *info)
                ==> *final(self) == *old(self),
            !SqlarObjectStorage::spec_in_use(*db, old(self).config.use_hash_as_filename, *info)
                ==> {
                let key = spec_path_of(
                    old(self).config.use_hash_as_filename,
                    info.sha512@,
                    info.full_path@,
                );
                &&& !final(self).has_obj(key)
                &&& SqlarObjectStorage::frame(*old(self), *final(self), key)
            },
    {
        let in_use: bool = if self.config.use_hash_as_filename {
            db.get_file_by_sha512(info.sha512.as_str()).is_some()
        } else {
            db.get_file_by_path(info.full_path.as_str()).is_some()
        };
        if in_use {
            return Ok(());
        }
        let name = self.path(info);
        self.remove_sqlar_file(name.as_str())
    }

    /// Empty the backend.
    pub fn nuke(&mut self) -> (r: Result<(), SqlFileSystemError>)
        requires
            old(self).wf(),
        ensures
            r is Ok,
            final(self).wf(),
            final(self).files@ =~= Seq::<SqlarFile>::empty(),
            forall|n: Seq<char>| !final(self).has_obj(n),
            final(self).config == old(self).config,
    {
        self.files.clear();
        proof {
            assert forall|n: Seq<char>| !self.has_obj(n) by {
                if self.has_obj(n) {
                    let k = choose|k: int|
                        0 <= k < self.files@.len() && #[trigger] self.files@[k].name@ == n;
                }
            }
        }
        Ok(())
    }
}

} // verus!
