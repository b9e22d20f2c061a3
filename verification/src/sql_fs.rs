//! The filesystem service: the orchestrator that translates logical
//! filesystem operations into metadata-index and session-cache actions,
//! enforces the tree invariants, and emits change-history entries.

use crate::config::Config;
use crate::errors::{error, ErrorKind, SqlFileSystemError, EEXIST, EINVAL, EIO, ENOENT, ENOTDIR};
use crate::metadata_db::{
    is_parent_link, DirectoryEntry, FileChangeKind, FileRow, FileV, MetadataDB,
    FILE_KIND_DIRECTORY, FILE_KIND_REGULAR, ROOT_DIRECTORY_ID,
};
use crate::storage_interface::StorageInterface;
use crate::strutil::{str_contains_char, str_eq};
use crate::utils::current_timestamp;
use vstd::prelude::*;
use vstd::string::StringSliceAdditionalSpecFns;

verus! {

/// Entry `i` is the parent link of file `id`: it points at the file and is
/// neither `.` nor `..`.
pub open spec fn parent_link_at(db: MetadataDB, i: int, id: int) -> bool {
    &&& 0 <= i < db.entries@.len()
    &&& db.entries@[i].entry_file_id == id
    &&& is_parent_link(db.entries@[i].v())
}

/// The tree invariants over the metadata index:
/// every entry hangs off an existing directory; every non-root file has
/// exactly one parent link and the root none; every directory holds its
/// two synthetic self-entries; entries reference ids below the counter.
pub open spec fn tree_wf(db: MetadataDB) -> bool {
    &&& forall|i: int|
        0 <= i < db.entries@.len() ==> db.has_file(
            (#[trigger] db.entries@[i]).directory_file_id as int,
        ) && db.file(db.entries@[i].directory_file_id as int).kind == FILE_KIND_DIRECTORY as int
    &&& forall|i: int|
        0 <= i < db.entries@.len() ==> 1 <= (#[trigger] db.entries@[i]).entry_file_id
            < db.next_file_id
    &&& forall|id: int|
        #[trigger] db.has_file(id) && id != ROOT_DIRECTORY_ID as int ==> exists|i: int|
            parent_link_at(db, i, id)
    &&& forall|id: int, i: int, j: int|
        parent_link_at(db, i, id) && parent_link_at(db, j, id) ==> i == j
    &&& forall|i: int| !parent_link_at(db, i, ROOT_DIRECTORY_ID as int)
    &&& forall|id: int|
        #[trigger] db.has_file(id) && db.file(id).kind == FILE_KIND_DIRECTORY as int
            ==> db.has_entry(id, "."@) && db.has_entry(id, ".."@)
}

/// Every stored content hash is either absent or a full hex SHA-512.
pub open spec fn sha_wf(db: MetadataDB) -> bool {
    forall|i: int|
        0 <= i < db.files@.len() ==> (#[trigger] db.files@[i]).sha512@.len() == 0
            || db.files@[i].sha512@.len() == 128
}

/// The filesystem service.
pub struct SqlFileSystem {
    pub sql: MetadataDB,
    pub config: Config,
    pub storage: StorageInterface,
}

impl SqlFileSystem {
    /// Service well-formedness: the index tables, the tree invariants, the
    /// hash shapes, the session cache, and the pre-seeded root directory.
    pub open spec fn wf(&self) -> bool {
        &&& self.sql.wf()
        &&& self.storage.wf()
        &&& tree_wf(self.sql)
        &&& sha_wf(self.sql)
        &&& self.sql.has_file(ROOT_DIRECTORY_ID as int)
        &&& self.sql.file(ROOT_DIRECTORY_ID as int).kind == FILE_KIND_DIRECTORY as int
    }

    /// Assemble a service over an index, a configuration and a cache.
    pub fn new(sql: MetadataDB, config: Config, storage: StorageInterface) -> (r: SqlFileSystem)
        ensures
            r.sql == sql,
            r.config == config,
            r.storage == storage,
    {
        SqlFileSystem { sql, config, storage }
    }

    /// Whether a name may appear in a directory: non-empty, at most 255
    /// bytes, free of `/`, and neither `.` nor `..`.
    pub open spec fn spec_valid_name(name: &str) -> bool {
        &&& name@.len() > 0
        &&& name.spec_bytes().len() <= 255
        &&& !name@.contains('/')
        &&& name@ != "."@
        &&& name@ != ".."@
    }

    /// Validate a file name.
    pub fn is_validate_file_name(&self, name: &str) -> (r: bool)
        ensures
            r == SqlFileSystem::spec_valid_name(name),
    {
        if name.is_empty() {
            return false;
        }
        if name.as_bytes().len() > 255 {
            return false;
        }
        if str_contains_char(name, '/') {
            return false;
        }
        if str_eq(name, ".") || str_eq(name, "..") {
            return false;
        }
        true
    }

    /// Fetch a file row or fail with NOT_FOUND.
    pub fn get_file_or_err(&mut self, id: i64) -> (r: Result<FileRow, SqlFileSystemError>)
        requires
            old(self).wf(),
        ensures
            *final(self) == *old(self),
            r is Ok <==> old(self).sql.has_file(id as int),
            r matches Ok(f) ==> f.v() == old(self).sql.file(id as int),
            r matches Err(e) ==> e.code == ENOENT && e.kind == ErrorKind::NotFound,
    {
        match self.sql.get_file(id) {
            Some(f) => Ok(f),
            None => error(ENOENT, ErrorKind::NotFound),
        }
    }

    /// Fetch a directory entry or fail with NOT_FOUND.
    pub fn find_directory_entry_or_err(&mut self, id: i64, name: &str) -> (r: Result<
        DirectoryEntry,
        SqlFileSystemError,
    >)
        requires
            old(self).wf(),
        ensures
            *final(self) == *old(self),
            r is Ok <==> old(self).sql.has_entry(id as int, name@),
            r matches Ok(e) ==> e.v() == old(self).sql.entry(id as int, name@),
            r matches Err(e) ==> e.code == ENOENT && e.kind == ErrorKind::NotFound,
    {
        match self.sql.find_directory_entry(id, name) {
            Some(e) => Ok(e),
            None => error(ENOENT, ErrorKind::NotFound),
        }
    }

    /// Fetch a file's attributes.
    pub fn getattr(&mut self, id: i64) -> (r: Result<FileRow, SqlFileSystemError>)
        requires
            old(self).wf(),
        ensures
            *final(self) == *old(self),
            r is Ok <==> old(self).sql.has_file(id as int),
            r matches Ok(f) ==> f.v() == old(self).sql.file(id as int),
            r matches Err(e) ==> e.code == ENOENT && e.kind == ErrorKind::NotFound,
    {
        self.get_file_or_err(id)
    }

    /// Look a name up in a directory. A missing entry is not an error.
    #[verifier::rlimit(100)]
    pub fn lookup(&mut self, parent: i64, name: &str) -> (r: Result<
        Option<FileRow>,
        SqlFileSystemError,
    >)
        requires
            old(self).wf(),
        ensures
            final(self).wf(),
            final(self).sql.entries@ == old(self).sql.entries@,
            final(self).storage == old(self).storage,
            MetadataDB::files_frame(old(self).sql, final(self).sql, parent as int),
            !old(self).sql.has_file(parent as int) ==> (r matches Err(e) && e.code == ENOENT
                && e.kind == ErrorKind::NotFound && *final(self) == *old(self)),
            old(self).sql.has_file(parent as int) && old(self).sql.file(parent as int).kind
                != FILE_KIND_DIRECTORY as int ==> (r matches Err(e) && e.code == ENOTDIR && e.kind
                == ErrorKind::NotDir && *final(self) == *old(self)),
            old(self).sql.has_file(parent as int) && old(self).sql.file(parent as int).kind
                == FILE_KIND_DIRECTORY as int ==> {
                &&& r matches Ok(Some(f)) ==> old(self).sql.has_entry(parent as int, name@)
                    && final(self).sql.has_file(
                    old(self).sql.entry(parent as int, name@).entry_file_id,
                ) && f.v() == final(self).sql.file(
                    old(self).sql.entry(parent as int, name@).entry_file_id,
                )
                &&& r matches Ok(None) ==> !old(self).sql.has_entry(parent as int, name@)
                &&& (!old(self).sql.has_entry(parent as int, name@) ==> (r matches Ok(x) && x
                    is None))
                &&& (old(self).sql.has_entry(parent as int, name@) && old(self).sql.has_file(
                    old(self).sql.entry(parent as int, name@).entry_file_id,
                ) ==> (r matches Ok(x) && x is Some))
            },
    {
        let dir_file = match self.get_file_or_err(parent) {
            Ok(f) => f,
            Err(e) => {
                return Err(e);
            },
        };
        if dir_file.kind != FILE_KIND_DIRECTORY {
            return error(ENOTDIR, ErrorKind::NotDir);
        }
        if self.config.update_access_time {
            let now = current_timestamp();
            let ghost pre = *self;
            let rr = self.sql.file_set_access_time(parent, now);
            proof {
                MetadataDB::lemma_entries_agree(pre.sql, self.sql);
                assert(tree_wf(self.sql)) by {
                    Self::lemma_tree_wf_files_frame(pre.sql, self.sql, parent as int);
                }
                assert(sha_wf(self.sql)) by {
                    assert forall|i: int| 0 <= i < self.sql.files@.len() implies (
                    #[trigger] self.sql.files@[i]).sha512@.len() == 0
                        || self.sql.files@[i].sha512@.len() == 128 by {
                        Self::lemma_sha_at(pre.sql, self.sql, i, parent as int);
                    }
                }
            }
        }
        let entry = match self.sql.find_directory_entry(parent, name) {
            Some(e) => e,
            None => {
                return Ok(None);
            },
        };
        match self.get_file_or_err(entry.entry_file_id) {
            Ok(f) => Ok(Some(f)),
            Err(e) => Err(e),
        }
    }

    /// A files-frame with an unchanged entry table preserves the tree
    /// invariants when the touched file keeps its kind, or is absent on
    /// both sides, or only its timestamps moved.
    proof fn lemma_tree_wf_files_frame(pre: MetadataDB, post: MetadataDB, id: int)
        requires
            pre.wf(),
            post.wf(),
            tree_wf(pre),
            post.entries@ == pre.entries@,
            post.next_file_id == pre.next_file_id,
            MetadataDB::files_frame(pre, post, id),
            post.has_file(id) == pre.has_file(id),
            pre.has_file(id) ==> post.file(id).kind == pre.file(id).kind,
        ensures
            tree_wf(post),
    {
        MetadataDB::lemma_entries_agree(pre, post);
        assert forall|i: int| 0 <= i < post.entries@.len() implies post.has_file(
            (#[trigger] post.entries@[i]).directory_file_id as int,
        ) && post.file(post.entries@[i].directory_file_id as int).kind
            == FILE_KIND_DIRECTORY as int by {
            let d = pre.entries@[i].directory_file_id as int;
            assert(pre.has_file(d) && pre.file(d).kind == FILE_KIND_DIRECTORY as int);
        }
        assert forall|fid: int|
            #[trigger] post.has_file(fid) && fid != ROOT_DIRECTORY_ID as int implies exists|i: int|
            parent_link_at(post, i, fid) by {
            assert(pre.has_file(fid));
            let i = choose|i: int| parent_link_at(pre, i, fid);
            assert(parent_link_at(post, i, fid));
        }
        assert forall|fid: int, i: int, j: int|
            parent_link_at(post, i, fid) && parent_link_at(post, j, fid) implies i == j by {
            assert(parent_link_at(pre, i, fid) && parent_link_at(pre, j, fid));
        }
        assert forall|i: int| !parent_link_at(post, i, ROOT_DIRECTORY_ID as int) by {
            if parent_link_at(post, i, ROOT_DIRECTORY_ID as int) {
                assert(parent_link_at(pre, i, ROOT_DIRECTORY_ID as int));
            }
        }
        assert forall|fid: int|
            #[trigger] post.has_file(fid) && post.file(fid).kind
                == FILE_KIND_DIRECTORY as int implies post.has_entry(fid, "."@) && post.has_entry(
            fid,
            ".."@,
        ) by {
            assert(pre.has_file(fid));
            if fid != id {
                assert(pre.file(fid) == post.file(fid));
            }
            assert(pre.file(fid).kind == FILE_KIND_DIRECTORY as int);
            assert(pre.has_entry(fid, "."@) && pre.has_entry(fid, ".."@));
        }
    }

    /// One file's hash shape after a frame keyed on another field set.
    proof fn lemma_sha_at(pre: MetadataDB, post: MetadataDB, i: int, id: int)
        requires
            pre.wf(),
            post.wf(),
            sha_wf(pre),
            0 <= i < post.files@.len(),
            MetadataDB::files_frame(pre, post, id),
            post.has_file(id) == pre.has_file(id),
            pre.has_file(id) ==> post.file(id).sha512 == pre.file(id).sha512,
        ensures
            post.files@[i].sha512@.len() == 0 || post.files@[i].sha512@.len() == 128,
    {
        post.lemma_file_at(i);
        let fid = post.files@[i].id as int;
        if fid == id {
            assert(pre.has_file(fid));
            let k = pre.file_idx(fid);
            assert(pre.files@[k].id == fid);
            assert(pre.files@[k].sha512@.len() == 0 || pre.files@[k].sha512@.len() == 128);
            assert(pre.file(fid).sha512 == pre.files@[k].sha512@);
        } else {
            assert(post.has_file(fid));
            assert(pre.has_file(fid));
            assert(post.file(fid) == pre.file(fid));
            let k = pre.file_idx(fid);
            assert(pre.files@[k].sha512@.len() == 0 || pre.files@[k].sha512@.len() == 128);
        }
    }

    /// List up to 1024 entries of a directory from an offset; `.` and `..`
    /// are included. A negative offset reads from the start.
    pub fn readdir(&mut self, id: i64, offset: i64) -> (r: Result<
        Vec<DirectoryEntry>,
        SqlFileSystemError,
    >)
        requires
            old(self).wf(),
        ensures
            final(self).wf(),
            final(self).sql.entries@ == old(self).sql.entries@,
            final(self).storage == old(self).storage,
            r matches Ok(v) ==> v@.map_values(|e: DirectoryEntry| e.v()) == MetadataDB::window(
                MetadataDB::listing(old(self).sql.entries@, id as int),
                if offset < 0 {
                    0
                } else {
                    offset as int
                },
                1024,
            ),
            r is Ok,
    {
        let off = if offset < 0 {
            0
        } else {
            offset
        };
        let entries = self.sql.get_directory_entries(id, 1024, off);
        if self.config.update_access_time {
            let now = current_timestamp();
            let ghost pre = *self;
            let rr = self.sql.file_set_access_time(id, now);
            proof {
                assert(tree_wf(self.sql)) by {
                    Self::lemma_tree_wf_files_frame(pre.sql, self.sql, id as int);
                }
                assert(sha_wf(self.sql)) by {
                    assert forall|i: int| 0 <= i < self.sql.files@.len() implies (
                    #[trigger] self.sql.files@[i]).sha512@.len() == 0
                        || self.sql.files@[i].sha512@.len() == 128 by {
                        Self::lemma_sha_at(pre.sql, self.sql, i, id as int);
                    }
                }
            }
        }
        Ok(entries)
    }

    /// Run the deferred object removals against the index.
    pub fn cleanup(&mut self) -> (r: Result<(), SqlFileSystemError>)
        requires
            old(self).wf(),
        ensures
            final(self).wf(),
            final(self).sql == old(self).sql,
            final(self).storage.cache@ == old(self).storage.cache@,
            r is Ok ==> final(self).storage.pending_remove@ =~= Seq::<
                crate::obj_storage::ObjInfo,
            >::empty(),
            r is Ok ==> forall|x: int|
                0 <= x < old(self).storage.pending_remove@.len()
                    && !crate::sqlar_object_storage::SqlarObjectStorage::spec_in_use(
                    old(self).sql,
                    old(self).storage.obj_storage.primary.cfg().use_hash_as_filename,
                    old(self).storage.pending_remove@[x],
                ) ==> !final(self).storage.obj_storage.primary.inner().has_obj(
                    #[trigger] old(self).storage.obj_storage.primary.blob_key(
                        old(self).storage.pending_remove@[x].v(),
                    ),
                ),
            r is Err ==> final(self).storage.pending_remove@ == old(self).storage.pending_remove@,
            old(self).storage.pending_remove@.len() == 0 ==> r is Ok && final(self).storage.obj_storage == old(self).storage.obj_storage,
            r is Ok ==> forall|n: Seq<char>|
                #![trigger final(self).storage.obj_storage.primary.inner().has_obj(n)]
                #![trigger final(self).storage.obj_storage.primary.inner().obj(n)]
                !crate::storage_interface::StorageInterface::pending_clears(
                    old(self).storage,
                    old(self).sql,
                    old(self).storage.pending_remove@.len() as int,
                    n,
                ) ==> (final(self).storage.obj_storage.primary.inner().has_obj(n) == old(self).storage.obj_storage.primary.inner().has_obj(n)) && (old(self).storage.obj_storage.primary.inner().has_obj(n) ==> final(self).storage.obj_storage.primary.inner().obj(n) == old(self).storage.obj_storage.primary.inner().obj(n)),
    {
        let r = self.storage.cleanup(&self.sql);
        r
    }

    /// Update a file's access time, preserving every invariant.
    fn touch(&mut self, id: i64, now: i64) -> (r: Result<(), SqlFileSystemError>)
        requires
            old(self).wf(),
        ensures
            r is Ok,
            final(self).wf(),
            final(self).sql.entries@ == old(self).sql.entries@,
            final(self).sql.changes@ == old(self).sql.changes@,
            final(self).sql.settings@ == old(self).sql.settings@,
            final(self).storage == old(self).storage,
            final(self).config == old(self).config,
            MetadataDB::files_frame(old(self).sql, final(self).sql, id as int),
            final(self).sql.has_file(id as int) == old(self).sql.has_file(id as int),
            old(self).sql.has_file(id as int) ==> final(self).sql.file(id as int) == (FileV {
                accessed_at: now as int,
                ..old(self).sql.file(id as int)
            }),
            final(self).sql.next_file_id == old(self).sql.next_file_id,
            final(self).sql.next_entry_id == old(self).sql.next_entry_id,
    {
        let ghost pre = *self;
        let rr = self.sql.file_set_access_time(id, now);
        proof {
            MetadataDB::lemma_entries_agree(pre.sql, self.sql);
            assert(tree_wf(self.sql)) by {
                Self::lemma_tree_wf_files_frame(pre.sql, self.sql, id as int);
            }
            assert(sha_wf(self.sql)) by {
                assert forall|i: int| 0 <= i < self.sql.files@.len() implies (
                #[trigger] self.sql.files@[i]).sha512@.len() == 0
                    || self.sql.files@[i].sha512@.len() == 128 by {
                    Self::lemma_sha_at(pre.sql, self.sql, i, id as int);
                }
            }
        }
        Ok(())
    }

    /// Append a change record, preserving every invariant.
    fn record_change(&mut self, file: &FileRow, kind: FileChangeKind) -> (r: Result<
        (),
        SqlFileSystemError,
    >)
        requires
            old(self).wf(),
        ensures
            r is Ok,
            final(self).wf(),
            final(self).sql.entries@ == old(self).sql.entries@,
            final(self).sql.files@ == old(self).sql.files@,
            final(self).sql.settings@ == old(self).sql.settings@,
            final(self).storage == old(self).storage,
            final(self).config == old(self).config,
            final(self).sql.next_file_id == old(self).sql.next_file_id,
            final(self).sql.next_entry_id == old(self).sql.next_entry_id,
    {
        let ghost pre = *self;
        let rr = self.sql.register_file_change(file, kind);
        proof {
            MetadataDB::lemma_entries_agree(pre.sql, self.sql);
            MetadataDB::lemma_files_agree(pre.sql, self.sql);
            assert(tree_wf(self.sql)) by {
                Self::lemma_tree_wf_files_frame(pre.sql, self.sql, 0);
            }
            assert(sha_wf(self.sql));
        }
        Ok(())
    }

    /// Write a file row back into the index, preserving every invariant.
    /// The row must keep the stored kind and carry a plausible hash.
    fn store_row(&mut self, file: &FileRow) -> (r: Result<(), SqlFileSystemError>)
        requires
            old(self).wf(),
            file.sha512@.len() == 0 || file.sha512@.len() == 128,
            old(self).sql.has_file(file.id as int) ==> file.kind as int == old(self).sql.file(
                file.id as int,
            ).kind,
        ensures
            final(self).wf(),
            final(self).sql.entries@ == old(self).sql.entries@,
            final(self).sql.changes@ == old(self).sql.changes@,
            final(self).sql.settings@ == old(self).sql.settings@,
            final(self).storage == old(self).storage,
            final(self).config == old(self).config,
            MetadataDB::files_frame(old(self).sql, final(self).sql, file.id as int),
            final(self).sql.has_file(file.id as int) == old(self).sql.has_file(file.id as int),
            final(self).sql.next_file_id == old(self).sql.next_file_id,
            final(self).sql.next_entry_id == old(self).sql.next_entry_id,
            r is Ok && old(self).sql.has_file(file.id as int) ==> final(self).sql.file(
                file.id as int,
            ) == (FileV { version: old(self).sql.file(file.id as int).version + 1, ..file.v() }),
            r matches Err(e) ==> *final(self) == *old(self) && e.code == EIO && e.kind
                == ErrorKind::IoError && old(self).sql.has_file(file.id as int) && old(self).sql.file(file.id as int).version == i64::MAX,
    {
        let ghost pre = *self;
        match self.sql.update_file(file) {
            Ok(_) => {},
            Err(e) => {
                return Err(e);
            },
        }
        proof {
            MetadataDB::lemma_entries_agree(pre.sql, self.sql);
            assert(tree_wf(self.sql)) by {
                Self::lemma_tree_wf_files_frame(pre.sql, self.sql, file.id as int);
            }
            assert(sha_wf(self.sql)) by {
                assert forall|i: int| 0 <= i < self.sql.files@.len() implies (
                #[trigger] self.sql.files@[i]).sha512@.len() == 0
                    || self.sql.files@[i].sha512@.len() == 128 by {
                    Self::lemma_sha_at2(pre.sql, self.sql, i, file.id as int, file.sha512@.len() as int);
                }
            }
        }
        Ok(())
    }

    /// One file's hash shape after a frame whose touched row has a stated
    /// hash length.
    proof fn lemma_sha_at2(pre: MetadataDB, post: MetadataDB, i: int, id: int, shalen: int)
        requires
            pre.wf(),
            post.wf(),
            sha_wf(pre),
            0 <= i < post.files@.len(),
            MetadataDB::files_frame(pre, post, id),
            post.has_file(id) == pre.has_file(id),
            post.has_file(id) ==> post.file(id).sha512.len() == shalen,
            shalen == 0 || shalen == 128,
        ensures
            post.files@[i].sha512@.len() == 0 || post.files@[i].sha512@.len() == 128,
    {
        post.lemma_file_at(i);
        let fid = post.files@[i].id as int;
        if fid == id {
            assert(post.file(fid).sha512 == post.files@[i].sha512@);
        } else {
            assert(post.has_file(fid));
            assert(pre.has_file(fid));
            assert(post.file(fid) == pre.file(fid));
            let k = pre.file_idx(fid);
            assert(pre.files@[k].sha512@.len() == 0 || pre.files@[k].sha512@.len() == 128);
        }
    }

    /// Overlay the supplied attribute fields onto a file row.
    fn apply_attrs(
        file: FileRow,
        mode: Option<u32>,
        uid: Option<u32>,
        gid: Option<u32>,
        size: Option<u64>,
        atime: Option<i64>,
        mtime: Option<i64>,
        crtime: Option<i64>,
    ) -> (r: FileRow)
        ensures
            r.id == file.id,
            r.version == file.version,
            r.kind == file.kind,
            r.name@ == file.name@,
            r.sha512@ == file.sha512@,
            r.encryption_key@ == file.encryption_key@,
            r.compression@ == file.compression@,
            r.perms == (match mode {
                Some(m) => m as i64,
                None => file.perms,
            }),
            r.uid == (match uid {
                Some(u) => u as i64,
                None => file.uid,
            }),
            r.gid == (match gid {
                Some(g) => g as i64,
                None => file.gid,
            }),
            r.size == (match size {
                Some(sz) => sz as i64,
                None => file.size,
            }),
            r.accessed_at == (match atime {
                Some(t) => t,
                None => file.accessed_at,
            }),
            r.updated_at == (match mtime {
                Some(t) => t,
                None => file.updated_at,
            }),
            r.created_at == (match crtime {
                Some(t) => t,
                None => file.created_at,
            }),
    {
        let mut file = file;
        match mode {
            Some(m) => {
                file.perms = m as i64;
            },
            None => {},
        }
        match uid {
            Some(u) => {
                file.uid = u as i64;
            },
            None => {},
        }
        match gid {
            Some(g) => {
                file.gid = g as i64;
            },
            None => {},
        }
        match size {
            Some(sz) => {
                file.size = #[verifier::truncate] (sz as i64);
            },
            None => {},
        }
        match atime {
            Some(t) => {
                file.accessed_at = t;
            },
            None => {},
        }
        match mtime {
            Some(t) => {
                file.updated_at = t;
            },
            None => {},
        }
        match crtime {
            Some(t) => {
                file.created_at = t;
            },
            None => {},
        }
        file
    }

    /// Write a row back and record the change, preserving every invariant
    /// and framing every other file.
    fn persist_update(&mut self, file: &FileRow, kind: FileChangeKind) -> (r: Result<
        (),
        SqlFileSystemError,
    >)
        requires
            old(self).wf(),
            file.sha512@.len() == 0 || file.sha512@.len() == 128,
            old(self).sql.has_file(file.id as int),
            file.kind as int == old(self).sql.file(file.id as int).kind,
        ensures
            final(self).wf(),
            final(self).sql.entries@ == old(self).sql.entries@,
            final(self).storage == old(self).storage,
            final(self).config == old(self).config,
            final(self).sql.has_file(file.id as int),
            final(self).sql.next_file_id == old(self).sql.next_file_id,
            final(self).sql.next_entry_id == old(self).sql.next_entry_id,
            r is Ok ==> final(self).sql.file(file.id as int) == (FileV {
                version: old(self).sql.file(file.id as int).version + 1,
                ..file.v()
            }),
            forall|o: int|
                #![trigger final(self).sql.has_file(o)]
                #![trigger final(self).sql.file(o)]
                o != file.id as int ==> (final(self).sql.has_file(o) == old(self).sql.has_file(o))
                    && (old(self).sql.has_file(o) ==> final(self).sql.file(o) == old(self).sql.file(
                    o,
                )),
            r matches Err(e) ==> *final(self) == *old(self) && e.code == EIO && e.kind
                == ErrorKind::IoError && old(self).sql.file(file.id as int).version == i64::MAX,
    {
        match self.store_row(file) {
            Ok(_) => {},
            Err(e) => {
                return Err(e);
            },
        }
        let ghost s1 = *self;
        if self.config.store_file_change_history {
            let rr = self.record_change(file, kind);
        }
        proof {
            MetadataDB::lemma_files_agree(s1.sql, self.sql);
            MetadataDB::lemma_entries_agree(s1.sql, self.sql);
            assert forall|o: int|
                #![trigger final(self).sql.has_file(o)]
                #![trigger final(self).sql.file(o)]
                o != file.id as int implies (self.sql.has_file(o) == old(self).sql.has_file(o))
                && (old(self).sql.has_file(o) ==> self.sql.file(o) == old(self).sql.file(o)) by {
                assert(s1.sql.has_file(o) == old(self).sql.has_file(o));
                if old(self).sql.has_file(o) {
                    assert(s1.sql.file(o) == old(self).sql.file(o));
                }
            }
            assert(self.sql.has_file(file.id as int) == s1.sql.has_file(file.id as int));
            assert(self.sql.file(file.id as int) == s1.sql.file(file.id as int));
        }
        Ok(())
    }

    /// Apply the supplied attribute changes to a file and write it back;
    /// its version rises by one.
    #[verifier::rlimit(100)]
    #[verifier::spinoff_prover]
    pub fn setattr(
        &mut self,
        id: i64,
        mode: Option<u32>,
        uid: Option<u32>,
        gid: Option<u32>,
        size: Option<u64>,
        atime: Option<i64>,
        mtime: Option<i64>,
        crtime: Option<i64>,
    ) -> (r: Result<FileRow, SqlFileSystemError>)
        requires
            old(self).wf(),
        ensures
            final(self).wf(),
            final(self).sql.entries@ == old(self).sql.entries@,
            final(self).storage == old(self).storage,
            MetadataDB::files_frame(old(self).sql, final(self).sql, id as int),
            final(self).sql.has_file(id as int) == old(self).sql.has_file(id as int),
            !old(self).sql.has_file(id as int) <==> (r matches Err(e) && e.code == ENOENT
                && e.kind == ErrorKind::NotFound),
            r matches Err(e) && e.kind == ErrorKind::NotFound ==> *final(self) == *old(self),
            r matches Ok(f) ==> {
                let prev = old(self).sql.file(id as int);
                &&& old(self).sql.has_file(id as int)
                &&& f.v() == final(self).sql.file(id as int)
                &&& final(self).sql.file(id as int).version == prev.version + 1
                &&& final(self).sql.file(id as int).kind == prev.kind
                &&& final(self).sql.file(id as int).name == prev.name
                &&& final(self).sql.file(id as int).sha512 == prev.sha512
                &&& f.perms as int == (match mode {
                    Some(m) => m as int,
                    None => prev.perms,
                })
                &&& f.uid as int == (match uid {
                    Some(u) => u as int,
                    None => prev.uid,
                })
                &&& f.gid as int == (match gid {
                    Some(g) => g as int,
                    None => prev.gid,
                })
                &&& f.size as int == (match size {
                    Some(sz) => (sz as i64) as int,
                    None => prev.size,
                })
                &&& f.accessed_at as int == (match atime {
                    Some(t) => t as int,
                    None => prev.accessed_at,
                })
                &&& f.updated_at as int == (match mtime {
                    Some(t) => t as int,
                    None => prev.updated_at,
                })
                &&& f.created_at as int == (match crtime {
                    Some(t) => t as int,
                    None => prev.created_at,
                })
            },
    {
        let file0 = match self.get_file_or_err(id) {
            Ok(f) => f,
            Err(e) => {
                return Err(e);
            },
        };
        let file = SqlFileSystem::apply_attrs(file0, mode, uid, gid, size, atime, mtime, crtime);
        proof {
            let k = old(self).sql.file_idx(id as int);
            old(self).sql.lemma_file_at(k);
        }
        match self.persist_update(&file, FileChangeKind::UpdatedMetadata) {
            Ok(_) => {},
            Err(e) => {
                return Err(e);
            },
        }
        let mut out = file;
        out.version = out.version + 1;
        proof {
            assert(out.v() =~= final(self).sql.file(id as int));
        }
        Ok(out)
    }

    /// Insert a fresh file row and its parent-directory entry; shared by
    /// node and directory creation. For a directory the two synthetic
    /// self-entries are added as well.
    #[verifier::rlimit(100)]
    fn create_node(&mut self, parent: i64, name: &str, uid: u32, gid: u32, mode: u32, kind: i64)
        -> (r: Result<i64, SqlFileSystemError>)
        requires
            old(self).wf(),
            SqlFileSystem::spec_valid_name(name),
            old(self).sql.has_file(parent as int),
            old(self).sql.file(parent as int).kind == FILE_KIND_DIRECTORY as int,
            !old(self).sql.has_entry(parent as int, name@),
            kind == FILE_KIND_REGULAR || kind == FILE_KIND_DIRECTORY,
        ensures
            r is Ok ==> final(self).wf(),
            final(self).sql.wf(),
            final(self).storage == old(self).storage,
            final(self).config == old(self).config,
            r matches Ok(id) ==> {
                &&& !old(self).sql.has_file(id as int)
                &&& final(self).sql.has_file(id as int)
                &&& final(self).sql.file(id as int).kind == kind as int
                &&& final(self).sql.file(id as int).name == name@
                &&& final(self).sql.file(id as int).uid == uid as int
                &&& final(self).sql.file(id as int).gid == gid as int
                &&& final(self).sql.file(id as int).perms == mode as int
                &&& final(self).sql.file(id as int).size == 0
                &&& final(self).sql.file(id as int).sha512 == Seq::<char>::empty()
                &&& final(self).sql.file(id as int).version == (if kind == FILE_KIND_DIRECTORY {
                    3int
                } else {
                    1int
                })
                &&& final(self).sql.has_entry(parent as int, name@)
                &&& final(self).sql.entry(parent as int, name@).entry_file_id == id as int
                &&& final(self).sql.entry(parent as int, name@).kind == kind as int
                &&& (kind == FILE_KIND_DIRECTORY ==> final(self).sql.has_entry(id as int, "."@)
                    && final(self).sql.has_entry(id as int, ".."@) && final(self).sql.entry(
                    id as int,
                    "."@,
                ).entry_file_id == id as int && final(self).sql.entry(
                    id as int,
                    ".."@,
                ).entry_file_id == parent as int)
                &&& forall|o: int|
                    #![trigger final(self).sql.has_file(o)]
                    o != id as int && o != parent as int ==> (final(self).sql.has_file(o) == old(self).sql.has_file(o) && (old(self).sql.has_file(o) ==> final(self).sql.file(o)
                        == old(self).sql.file(o)))
                &&& final(self).sql.has_file(parent as int)
                &&& final(self).sql.file(parent as int).kind == FILE_KIND_DIRECTORY as int
                &&& final(self).sql.file(parent as int).version > old(self).sql.file(
                    parent as int,
                ).version
                &&& forall|d: int, n: Seq<char>|
                    #![trigger final(self).sql.has_entry(d, n)]
                    !(d == parent as int && n == name@) && d != id as int ==> (final(self).sql.has_entry(d, n) == old(self).sql.has_entry(d, n) && (old(self).sql.has_entry(d, n) ==> final(self).sql.entry(d, n) == old(self).sql.entry(
                        d,
                        n,
                    )))
                &&& ({
                    let n0 = old(self).sql.entries@.len() as int;
                    let e0 = old(self).sql.next_entry_id as int;
                    &&& final(self).sql.entries@.len() == n0 + (
                    if kind == FILE_KIND_DIRECTORY {
                        3int
                    } else {
                        1int
                    })
                    &&& forall|j: int|
                        0 <= j < n0 ==> #[trigger] final(self).sql.entries@[j] == old(self).sql.entries@[j]
                    &&& final(self).sql.entries@.last().v() == (crate::metadata_db::EntryV {
                        id: e0 + (if kind == FILE_KIND_DIRECTORY {
                            2int
                        } else {
                            0int
                        }),
                        directory_file_id: parent as int,
                        entry_file_id: id as int,
                        name: name@,
                        kind: kind as int,
                    })
                    &&& (kind == FILE_KIND_DIRECTORY ==> final(self).sql.entries@[n0].v() == (
                    crate::metadata_db::EntryV {
                        id: e0,
                        directory_file_id: id as int,
                        entry_file_id: id as int,
                        name: "."@,
                        kind: FILE_KIND_DIRECTORY as int,
                    }) && final(self).sql.entries@[n0 + 1].v() == (crate::metadata_db::EntryV {
                        id: e0 + 1,
                        directory_file_id: id as int,
                        entry_file_id: parent as int,
                        name: ".."@,
                        kind: FILE_KIND_DIRECTORY as int,
                    }))
                })
            },
            r matches Err(e) ==> e.code == EIO && e.kind == ErrorKind::IoError && (old(self).sql.next_file_id == i64::MAX || old(self).sql.next_entry_id > i64::MAX - 3 || old(self).sql.file(parent as int).version == i64::MAX),
    {
        let now = current_timestamp();
        let file = FileRow {
            id: 0,
            version: 1,
            kind,
            name: name.to_owned(),
            uid: uid as i64,
            gid: gid as i64,
            perms: mode as i64,
            size: 0,
            sha512: String::new(),
            encryption_key: String::new(),
            compression: String::new(),
            accessed_at: if self.config.update_access_time {
                now
            } else {
                0
            },
            created_at: now,
            updated_at: now,
        };
        let ghost s0 = *self;
        let id = match self.sql.add_file(&file) {
            Ok(i) => i,
            Err(e) => {
                return Err(e);
            },
        };
        proof {
            reveal_strlit("");
            assert(""@ =~= Seq::<char>::empty());
            MetadataDB::lemma_entries_agree(s0.sql, self.sql);
        }
        let ghost s1 = *self;
        if kind == FILE_KIND_DIRECTORY {
            let dot = DirectoryEntry {
                id: 0,
                directory_file_id: id,
                entry_file_id: id,
                name: String::from_str("."),
                kind: FILE_KIND_DIRECTORY,
            };
            match self.sql.add_directory_entry(&dot) {
                Ok(_) => {},
                Err(e) => {
                    proof {
                        reveal_strlit(".");
                    }
                    return error(EIO, ErrorKind::IoError);
                },
            }
            proof {
                reveal_strlit(".");
            }
            let dotdot = DirectoryEntry {
                id: 0,
                directory_file_id: id,
                entry_file_id: parent,
                name: String::from_str(".."),
                kind: FILE_KIND_DIRECTORY,
            };
            match self.sql.add_directory_entry(&dotdot) {
                Ok(_) => {},
                Err(e) => {
                    proof {
                        reveal_strlit("..");
                        assert(("."@).len() == 1);
                        assert((".."@).len() == 2);
                    }
                    return error(EIO, ErrorKind::IoError);
                },
            }
            proof {
                reveal_strlit("..");
                assert(("."@).len() == 1);
                assert((".."@).len() == 2);
            }
        }
        let link = DirectoryEntry {
            id: 0,
            directory_file_id: parent,
            entry_file_id: id,
            name: name.to_owned(),
            kind,
        };
        let ghost s2 = *self;
        match self.sql.add_directory_entry(&link) {
            Ok(_) => {},
            Err(e) => {
                proof {
                    assert(!s2.sql.has_entry(parent as int, name@)) by {
                        if kind == FILE_KIND_DIRECTORY {
                            assert(name@ != "."@ && name@ != ".."@);
                        }
                    }
                }
                return error(EIO, ErrorKind::IoError);
            },
        }
        proof {
            Self::lemma_create_tree_wf(s0.sql, self.sql, id as int, parent as int, name@, kind as int);
        }
        Ok(id)
    }

    /// After a fresh file and its entries were inserted, the tree
    /// invariants hold again.
    #[verifier::rlimit(100)]
    proof fn lemma_create_tree_wf(
        pre: MetadataDB,
        post: MetadataDB,
        id: int,
        parent: int,
        name: Seq<char>,
        kind: int,
    )
        requires
            pre.wf(),
            post.wf(),
            tree_wf(pre),
            sha_wf(pre),
            pre.has_file(parent),
            pre.file(parent).kind == FILE_KIND_DIRECTORY as int,
            !pre.has_file(id),
            id >= pre.next_file_id,
            id < post.next_file_id,
            name != "."@,
            name != ".."@,
            kind == FILE_KIND_REGULAR as int || kind == FILE_KIND_DIRECTORY as int,
            post.has_file(id),
            post.file(id).kind == kind,
            post.file(id).sha512 == Seq::<char>::empty(),
            post.has_file(parent),
            post.file(parent).kind == FILE_KIND_DIRECTORY as int,
            post.file(parent).sha512 == pre.file(parent).sha512,
            forall|o: int|
                #![trigger post.has_file(o)]
                #![trigger post.file(o)]
                o != id && o != parent ==> (post.has_file(o) == pre.has_file(o)) && (pre.has_file(
                    o,
                ) ==> post.file(o) == pre.file(o)),
            post.entries@.len() == pre.entries@.len() + (if kind == FILE_KIND_DIRECTORY as int {
                3int
            } else {
                1int
            }),
            forall|j: int|
                0 <= j < pre.entries@.len() ==> #[trigger] post.entries@[j] == pre.entries@[j],
            ({
                let last = post.entries@.len() - 1;
                &&& post.entries@[last].directory_file_id == parent
                &&& post.entries@[last].entry_file_id == id
                &&& post.entries@[last].name@ == name
                &&& (kind == FILE_KIND_DIRECTORY as int ==> {
                    let n0 = pre.entries@.len() as int;
                    &&& post.entries@[n0].directory_file_id == id
                    &&& post.entries@[n0].entry_file_id == id
                    &&& post.entries@[n0].name@ == "."@
                    &&& post.entries@[n0 + 1].directory_file_id == id
                    &&& post.entries@[n0 + 1].entry_file_id == parent
                    &&& post.entries@[n0 + 1].name@ == ".."@
                })
            }),
        ensures
            tree_wf(post),
            sha_wf(post),
    {
        let n0 = pre.entries@.len() as int;
        let last = post.entries@.len() - 1;
        reveal_strlit(".");
        reveal_strlit("..");
        assert(("."@).len() == 1);
        assert((".."@).len() == 2);
        // Ids referenced by the old entries are below the old counter.
        assert(parent < pre.next_file_id) by {
            let k = pre.file_idx(parent);
            assert(pre.files@[k].id == parent);
        }
        assert(1 <= parent) by {
            let k = pre.file_idx(parent);
            assert(pre.files@[k].id == parent);
        }
        assert(1 < pre.next_file_id) by {
            assert(pre.has_file(parent));
        }
        assert forall|i: int| 0 <= i < post.entries@.len() implies post.has_file(
            (#[trigger] post.entries@[i]).directory_file_id as int,
        ) && post.file(post.entries@[i].directory_file_id as int).kind
            == FILE_KIND_DIRECTORY as int by {
            if i < n0 {
                let d = pre.entries@[i].directory_file_id as int;
                assert(pre.has_file(d) && pre.file(d).kind == FILE_KIND_DIRECTORY as int);
                assert(d != id);
            }
        }
        assert forall|i: int| 0 <= i < post.entries@.len() implies 1 <= (
        #[trigger] post.entries@[i]).entry_file_id < post.next_file_id by {
            if i < n0 {
                assert(1 <= pre.entries@[i].entry_file_id < pre.next_file_id);
            }
        }
        assert forall|fid: int|
            #[trigger] post.has_file(fid) && fid != ROOT_DIRECTORY_ID as int implies exists|i: int|
            parent_link_at(post, i, fid) by {
            if fid == id {
                assert(parent_link_at(post, last, fid));
            } else {
                assert(pre.has_file(fid));
                let i = choose|i: int| parent_link_at(pre, i, fid);
                assert(post.entries@[i] == pre.entries@[i]);
                assert(parent_link_at(post, i, fid));
            }
        }
        assert forall|fid: int, i: int, j: int|
            parent_link_at(post, i, fid) && parent_link_at(post, j, fid) implies i == j by {
            if i < n0 && j < n0 {
                assert(parent_link_at(pre, i, fid) && parent_link_at(pre, j, fid));
            } else {
                if i >= n0 {
                    assert(i == last);
                }
                if j >= n0 {
                    assert(j == last);
                }
                if i == last && j < n0 {
                    assert(pre.entries@[j].entry_file_id == id);
                    assert(1 <= pre.entries@[j].entry_file_id < pre.next_file_id);
                    assert(false);
                }
                if j == last && i < n0 {
                    assert(pre.entries@[i].entry_file_id == id);
                    assert(false);
                }
            }
        }
        assert forall|i: int| !parent_link_at(post, i, ROOT_DIRECTORY_ID as int) by {
            if parent_link_at(post, i, ROOT_DIRECTORY_ID as int) {
                if i < n0 {
                    assert(parent_link_at(pre, i, ROOT_DIRECTORY_ID as int));
                } else {
                    assert(i == last);
                    assert(id != ROOT_DIRECTORY_ID as int);
                }
            }
        }
        assert forall|fid: int|
            #[trigger] post.has_file(fid) && post.file(fid).kind
                == FILE_KIND_DIRECTORY as int implies post.has_entry(fid, "."@) && post.has_entry(
            fid,
            ".."@,
        ) by {
            if fid == id {
                assert(kind == FILE_KIND_DIRECTORY as int);
                assert(post.entries@[n0].directory_file_id == id && post.entries@[n0].name@
                    == "."@);
                assert(post.has_entry(fid, "."@));
                assert(post.entries@[n0 + 1].directory_file_id == id && post.entries@[n0
                    + 1].name@ == ".."@);
                assert(post.has_entry(fid, ".."@));
            } else {
                assert(pre.has_file(fid));
                if fid != parent {
                    assert(pre.file(fid) == post.file(fid));
                }
                assert(pre.file(fid).kind == FILE_KIND_DIRECTORY as int);
                assert(pre.has_entry(fid, "."@) && pre.has_entry(fid, ".."@));
                let kd = pre.entry_idx(fid, "."@);
                assert(post.entries@[kd] == pre.entries@[kd]);
                assert(post.has_entry(fid, "."@));
                let ku = pre.entry_idx(fid, ".."@);
                assert(post.entries@[ku] == pre.entries@[ku]);
                assert(post.has_entry(fid, ".."@));
            }
        }
        assert forall|i: int| 0 <= i < post.files@.len() implies (
        #[trigger] post.files@[i]).sha512@.len() == 0 || post.files@[i].sha512@.len() == 128 by {
            post.lemma_file_at(i);
            let fid = post.files@[i].id as int;
            if fid == id {
                assert(post.file(fid).sha512 == post.files@[i].sha512@);
            } else {
                assert(pre.has_file(fid)) by {
                    if fid == parent {
                    } else {
                        assert(post.has_file(fid));
                    }
                }
                assert(post.file(fid).sha512 == pre.file(fid).sha512) by {
                    if fid == parent {
                    } else {
                        assert(post.file(fid) == pre.file(fid));
                    }
                }
                let k = pre.file_idx(fid);
                assert(pre.files@[k].sha512@.len() == 0 || pre.files@[k].sha512@.len() == 128);
                assert(pre.file(fid).sha512 == pre.files@[k].sha512@);
                assert(post.file(fid).sha512 == post.files@[i].sha512@);
            }
        }
    }

    /// Create a regular file under a directory. Fails with INVALID on a bad
    /// name, NOT_FOUND on a missing parent, NOT_DIR when the parent is no
    /// directory, and EXISTS on a duplicate name.
    pub fn mknod(&mut self, parent: i64, name: &str, uid: u32, gid: u32, mode: u32) -> (r: Result<
        FileRow,
        SqlFileSystemError,
    >)
        requires
            old(self).wf(),
        ensures
            r is Ok ==> final(self).wf(),
            final(self).sql.wf(),
            final(self).storage == old(self).storage,
            !SqlFileSystem::spec_valid_name(name) <==> (r matches Err(e) && e.code == EINVAL
                && e.kind == ErrorKind::InvalidName),
            SqlFileSystem::spec_valid_name(name) && !old(self).sql.has_file(parent as int) <==> (
            r matches Err(e) && e.code == ENOENT && e.kind == ErrorKind::NotFound),
            SqlFileSystem::spec_valid_name(name) && old(self).sql.has_file(parent as int) && old(self).sql.file(parent as int).kind != FILE_KIND_DIRECTORY as int <==> (r matches Err(e)
                && e.code == ENOTDIR && e.kind == ErrorKind::NotDir),
            SqlFileSystem::spec_valid_name(name) && old(self).sql.has_file(parent as int) && old(self).sql.file(parent as int).kind == FILE_KIND_DIRECTORY as int && old(self).sql.has_entry(parent as int, name@) <==> (r matches Err(e) && e.code == EEXIST
                && e.kind == ErrorKind::AlreadyExists),
            r matches Err(e) && e.kind != ErrorKind::IoError ==> *final(self) == *old(self),
            r matches Err(e) && e.kind == ErrorKind::IoError ==> old(self).sql.next_file_id
                == i64::MAX || old(self).sql.next_entry_id > i64::MAX - 3 || old(self).sql.file(
                parent as int,
            ).version == i64::MAX,
            r matches Ok(f) ==> {
                &&& !old(self).sql.has_file(f.id as int)
                &&& final(self).sql.has_file(f.id as int)
                &&& f.v() == final(self).sql.file(f.id as int)
                &&& f.kind == FILE_KIND_REGULAR
                &&& f.version == 1
                &&& f.name@ == name@
                &&& f.uid == uid as i64
                &&& f.gid == gid as i64
                &&& f.perms == mode as i64
                &&& f.size == 0
                &&& f.sha512@ == Seq::<char>::empty()
                &&& final(self).sql.has_entry(parent as int, name@)
                &&& final(self).sql.entry(parent as int, name@).entry_file_id == f.id as int
                &&& final(self).sql.file(parent as int).version > old(self).sql.file(
                    parent as int,
                ).version
                &&& final(self).sql.entries@.len() == old(self).sql.entries@.len() + 1
                &&& forall|j: int|
                    0 <= j < old(self).sql.entries@.len() ==> #[trigger] final(self).sql.entries@[j] == old(self).sql.entries@[j]
                &&& final(self).sql.entries@.last().v() == (crate::metadata_db::EntryV {
                    id: old(self).sql.next_entry_id as int,
                    directory_file_id: parent as int,
                    entry_file_id: f.id as int,
                    name: name@,
                    kind: FILE_KIND_REGULAR as int,
                })
            },
    {
        if !self.is_validate_file_name(name) {
            return error(EINVAL, ErrorKind::InvalidName);
        }
        let parent_directory = match self.get_file_or_err(parent) {
            Ok(f) => f,
            Err(e) => {
                return Err(e);
            },
        };
        if parent_directory.kind != FILE_KIND_DIRECTORY {
            return error(ENOTDIR, ErrorKind::NotDir);
        }
        if self.sql.find_directory_entry(parent, name).is_some() {
            return error(EEXIST, ErrorKind::AlreadyExists);
        }
        let id = match self.create_node(parent, name, uid, gid, mode, FILE_KIND_REGULAR) {
            Ok(i) => i,
            Err(e) => {
                return Err(e);
            },
        };
        let ghost s1 = *self;
        let file = match self.get_file_or_err(id) {
            Ok(f) => f,
            Err(e) => {
                return Err(e);
            },
        };
        if self.config.store_file_change_history {
            let rr = self.record_change(&file, FileChangeKind::Created);
            let rr2 = self.record_change(&parent_directory, FileChangeKind::UpdatedContents);
            proof {
                MetadataDB::lemma_files_agree(s1.sql, self.sql);
                MetadataDB::lemma_entries_agree(s1.sql, self.sql);
            }
        }
        Ok(file)
    }

    /// Create a directory under a directory, with its two synthetic
    /// self-entries. The same failures as node creation apply.
    pub fn mkdir(&mut self, parent: i64, name: &str, uid: u32, gid: u32, mode: u32) -> (r: Result<
        FileRow,
        SqlFileSystemError,
    >)
        requires
            old(self).wf(),
        ensures
            r is Ok ==> final(self).wf(),
            final(self).sql.wf(),
            final(self).storage == old(self).storage,
            !SqlFileSystem::spec_valid_name(name) <==> (r matches Err(e) && e.code == EINVAL
                && e.kind == ErrorKind::InvalidName),
            SqlFileSystem::spec_valid_name(name) && !old(self).sql.has_file(parent as int) <==> (
            r matches Err(e) && e.code == ENOENT && e.kind == ErrorKind::NotFound),
            SqlFileSystem::spec_valid_name(name) && old(self).sql.has_file(parent as int) && old(self).sql.file(parent as int).kind != FILE_KIND_DIRECTORY as int <==> (r matches Err(e)
                && e.code == ENOTDIR && e.kind == ErrorKind::NotDir),
            SqlFileSystem::spec_valid_name(name) && old(self).sql.has_file(parent as int) && old(self).sql.file(parent as int).kind == FILE_KIND_DIRECTORY as int && old(self).sql.has_entry(parent as int, name@) <==> (r matches Err(e) && e.code == EEXIST
                && e.kind == ErrorKind::AlreadyExists),
            r matches Err(e) && e.kind != ErrorKind::IoError ==> *final(self) == *old(self),
            r matches Err(e) && e.kind == ErrorKind::IoError ==> old(self).sql.next_file_id
                == i64::MAX || old(self).sql.next_entry_id > i64::MAX - 3 || old(self).sql.file(
                parent as int,
            ).version == i64::MAX,
            r matches Ok(f) ==> {
                &&& !old(self).sql.has_file(f.id as int)
                &&& final(self).sql.has_file(f.id as int)
                &&& f.v() == final(self).sql.file(f.id as int)
                &&& f.kind == FILE_KIND_DIRECTORY
                &&& f.version == 3
                &&& f.name@ == name@
                &&& f.uid == uid as i64
                &&& f.gid == gid as i64
                &&& f.perms == mode as i64
                &&& f.size == 0
                &&& f.sha512@ == Seq::<char>::empty()
                &&& final(self).sql.has_entry(parent as int, name@)
                &&& final(self).sql.entry(parent as int, name@).entry_file_id == f.id as int
                &&& final(self).sql.has_entry(f.id as int, "."@)
                &&& final(self).sql.has_entry(f.id as int, ".."@)
                &&& final(self).sql.entry(f.id as int, "."@).entry_file_id == f.id as int
                &&& final(self).sql.entry(f.id as int, ".."@).entry_file_id == parent as int
                &&& final(self).sql.file(parent as int).version > old(self).sql.file(
                    parent as int,
                ).version
                &&& final(self).sql.entries@.len() == old(self).sql.entries@.len() + 3
                &&& forall|j: int|
                    0 <= j < old(self).sql.entries@.len() ==> #[trigger] final(self).sql.entries@[j] == old(self).sql.entries@[j]
                &&& final(self).sql.entries@[old(self).sql.entries@.len() as int].v() == (
                crate::metadata_db::EntryV {
                    id: old(self).sql.next_entry_id as int,
                    directory_file_id: f.id as int,
                    entry_file_id: f.id as int,
                    name: "."@,
                    kind: FILE_KIND_DIRECTORY as int,
                })
                &&& final(self).sql.entries@[old(self).sql.entries@.len() as int + 1].v() == (
                crate::metadata_db::EntryV {
                    id: old(self).sql.next_entry_id + 1 as int,
                    directory_file_id: f.id as int,
                    entry_file_id: parent as int,
                    name: ".."@,
                    kind: FILE_KIND_DIRECTORY as int,
                })
                &&& final(self).sql.entries@.last().v() == (crate::metadata_db::EntryV {
                    id: old(self).sql.next_entry_id + 2 as int,
                    directory_file_id: parent as int,
                    entry_file_id: f.id as int,
                    name: name@,
                    kind: FILE_KIND_DIRECTORY as int,
                })
            },
    {
        if !self.is_validate_file_name(name) {
            return error(EINVAL, ErrorKind::InvalidName);
        }
        let parent_directory = match self.get_file_or_err(parent) {
            Ok(f) => f,
            Err(e) => {
                return Err(e);
            },
        };
        if parent_directory.kind != FILE_KIND_DIRECTORY {
            return error(ENOTDIR, ErrorKind::NotDir);
        }
        if self.sql.find_directory_entry(parent, name).is_some() {
            return error(EEXIST, ErrorKind::AlreadyExists);
        }
        let id = match self.create_node(parent, name, uid, gid, mode, FILE_KIND_DIRECTORY) {
            Ok(i) => i,
            Err(e) => {
                return Err(e);
            },
        };
        let ghost s1 = *self;
        let file = match self.get_file_or_err(id) {
            Ok(f) => f,
            Err(e) => {
                return Err(e);
            },
        };
        if self.config.store_file_change_history {
            let rr = self.record_change(&file, FileChangeKind::Created);
            let rr2 = self.record_change(&parent_directory, FileChangeKind::UpdatedContents);
            proof {
                MetadataDB::lemma_files_agree(s1.sql, self.sql);
                MetadataDB::lemma_entries_agree(s1.sql, self.sql);
            }
        }
        Ok(file)
    }

    /// The stored hash of a file row is absent or a full hex digest.
    proof fn lemma_file_sha_shape(&self, id: int)
        requires
            self.wf(),
            self.sql.has_file(id),
        ensures
            self.sql.file(id).sha512.len() == 0 || self.sql.file(id).sha512.len() == 128,
    {
        let k = self.sql.file_idx(id);
        self.sql.lemma_file_at(k);
        assert(self.sql.files@[k].sha512@.len() == 0 || self.sql.files@[k].sha512@.len() == 128);
    }

    /// Open a file by id: resolve its logical path and start (or share) a
    /// buffered session under the open-mode compatibility rules.
    pub fn open(&mut self, id: i64, flags: u32) -> (r: Result<(), SqlFileSystemError>)
        requires
            old(self).wf(),
        ensures
            final(self).wf(),
            final(self).sql.entries@ == old(self).sql.entries@,
            !old(self).sql.has_file(id as int) ==> (r matches Err(e) && e.code == ENOENT && e.kind
                == ErrorKind::NotFound && *final(self) == *old(self)),
            old(self).sql.has_file(id as int) && old(self).sql.path_ok(
                id as int,
                old(self).sql.files@.len() as nat,
            ) && ((flags as i32) & crate::storage_interface::O_APPEND == 0) && !old(self).storage.has_session(id as int) ==> r is Ok && final(self).storage.has_session(
                id as int,
            ) && final(self).storage.session(id as int).content =~= Seq::<u8>::empty()
                && final(self).storage.session(id as int).count == 1
                && !final(self).storage.session(id as int).modified,
    {
        let mut file = match self.get_file_or_err(id) {
            Ok(f) => f,
            Err(e) => {
                return Err(e);
            },
        };
        let full_path = match self.sql.get_file_path(id) {
            Ok(p) => p,
            Err(e) => {
                return Err(e);
            },
        };
        match self.storage.open(&mut file, full_path.as_str(), flags) {
            Ok(_) => {},
            Err(e) => {
                return Err(e);
            },
        }
        if self.config.update_access_time {
            let now = current_timestamp();
            let rr = self.touch(id, now);
        }
        Ok(())
    }

    /// Read up to `size` bytes from an open file at an offset.
    pub fn read(&mut self, id: i64, offset: i64, size: usize) -> (r: Result<
        Vec<u8>,
        SqlFileSystemError,
    >)
        requires
            old(self).wf(),
            offset >= 0,
        ensures
            final(self).wf(),
            final(self).sql == old(self).sql,
            old(self).storage.has_session(id as int) && old(self).sql.has_file(id as int) && old(self).storage.session(id as int).retrieved && old(self).storage.session(id as int).mode
                & crate::storage_interface::O_ACCMODE
                != crate::storage_interface::O_WRONLY ==> (r matches Ok(d) && d@
                == crate::storage_interface::read_window(
                old(self).storage.session(id as int).content,
                offset as int,
                size as int,
            ) && final(self).storage.has_session(id as int) && final(self).storage.session(
                id as int,
            ) == old(self).storage.session(id as int)),
            old(self).storage.has_session(id as int) && old(self).sql.has_file(id as int) && !old(self).storage.session(id as int).retrieved && old(self).storage.session(id as int).mode
                & crate::storage_interface::O_ACCMODE
                != crate::storage_interface::O_WRONLY && old(self).sql.file(
                id as int,
            ).sha512.len() == 0 ==> (r matches Ok(d) && d@
                == crate::storage_interface::read_window(
                Seq::empty(),
                offset as int,
                size as int,
            )),
            old(self).storage.has_session(id as int) && old(self).sql.has_file(id as int) && !old(self).storage.session(id as int).retrieved && old(self).storage.session(id as int).mode
                & crate::storage_interface::O_ACCMODE
                != crate::storage_interface::O_WRONLY && old(self).sql.file(
                id as int,
            ).sha512.len() > 0 ==> forall|c: Seq<u8>|
                #[trigger] old(self).storage.obj_storage.primary.blob_matches(
                    crate::storage_interface::file_info(
                        old(self).sql.file(id as int),
                        old(self).storage.session(id as int).full_path,
                    ),
                    c,
                ) ==> (r matches Ok(d) && d@ == crate::storage_interface::read_window(
                    c,
                    offset as int,
                    size as int,
                ) && final(self).storage.has_session(id as int) && final(self).storage.session(
                    id as int,
                ) == (crate::storage_interface::SessionV {
                    content: c,
                    retrieved: true,
                    ..old(self).storage.session(id as int)
                })),
    {
        let file = match self.get_file_or_err(id) {
            Ok(f) => f,
            Err(e) => {
                return Err(e);
            },
        };
        proof {
            self.lemma_file_sha_shape(id as int);
        }
        self.storage.read(&file, offset as u64, size)
    }

    /// Write bytes into an open file's buffer at an offset.
    pub fn write(&mut self, id: i64, offset: i64, data: &[u8]) -> (r: Result<
        usize,
        SqlFileSystemError,
    >)
        requires
            old(self).wf(),
            offset >= 0,
        ensures
            final(self).wf(),
            final(self).sql == old(self).sql,
            final(self).storage.pending_remove@ == old(self).storage.pending_remove@,
            final(self).storage.obj_storage == old(self).storage.obj_storage,
            old(self).sql.has_file(id as int) && old(self).storage.has_session(id as int) && old(self).storage.session(id as int).mode & crate::storage_interface::O_ACCMODE
                != crate::storage_interface::O_RDONLY && offset + data@.len() <= usize::MAX ==> {
                &&& r == Ok::<usize, SqlFileSystemError>(data@.len() as usize)
                &&& final(self).storage.has_session(id as int)
                &&& final(self).storage.session(id as int) == (
                crate::storage_interface::SessionV {
                    content: crate::storage_interface::spliced(
                        if old(self).storage.session(id as int).retrieved {
                            Seq::empty()
                        } else {
                            old(self).storage.session(id as int).content
                        },
                        offset as int,
                        data@,
                    ),
                    retrieved: false,
                    modified: true,
                    ..old(self).storage.session(id as int)
                })
            },
            !old(self).sql.has_file(id as int) ==> r is Err && *final(self) == *old(self),
    {
        let file = match self.get_file_or_err(id) {
            Ok(f) => f,
            Err(e) => {
                return Err(e);
            },
        };
        let r = self.storage.write(&file, offset as u64, data);
        r
    }

    /// Close an open file: flush buffered changes through the pipeline,
    /// write the file row back, record the change, and run cleanup.
    #[verifier::rlimit(100)]
    pub fn release(&mut self, id: i64) -> (r: Result<(), SqlFileSystemError>)
        requires
            old(self).wf(),
        ensures
            final(self).wf(),
            !old(self).sql.has_file(id as int) ==> r is Err && *final(self) == *old(self),
            old(self).storage.has_session(id as int) && old(self).sql.has_file(id as int) && !old(self).storage.session(id as int).modified && old(self).storage.pending_remove@.len()
                == 0 ==> r is Ok && final(self).sql == old(self).sql && final(self).storage.obj_storage == old(self).storage.obj_storage,
            old(self).storage.has_session(id as int) && old(self).sql.has_file(id as int) && old(self).storage.session(id as int).modified && old(self).storage.session(
                id as int,
            ).content.len() <= crate::crypto::GCM_P_MAX && old(self).sql.file(
                id as int,
            ).version < i64::MAX && old(self).sql.file(id as int).sha512.len() == 0 && old(self).storage.pending_remove@.len() == 0 && old(self).storage.obj_storage.replicas_plain()
                ==> {
                let sess = old(self).storage.session(id as int);
                let new_sha = crate::hexcodec::hex_of(crate::crypto::sha512_of(sess.content));
                &&& r is Ok
                &&& final(self).sql.has_file(id as int)
                &&& final(self).sql.file(id as int).sha512 == new_sha
                &&& final(self).sql.file(id as int).size == sess.content.len()
                &&& final(self).sql.file(id as int).version == old(self).sql.file(
                    id as int,
                ).version + 1
                &&& final(self).sql.file(id as int).kind == old(self).sql.file(id as int).kind
                &&& final(self).sql.file(id as int).name == old(self).sql.file(id as int).name
                &&& final(self).storage.obj_storage.primary.blob_matches(
                    crate::storage_interface::file_info(
                        final(self).sql.file(id as int),
                        sess.full_path,
                    ),
                    sess.content,
                )
                &&& (sess.count <= 1 ==> !final(self).storage.has_session(id as int))
            },
    {
        let mut file = match self.get_file_or_err(id) {
            Ok(f) => f,
            Err(e) => {
                return Err(e);
            },
        };
        proof {
            self.lemma_file_sha_shape(id as int);
        }
        let ghost s0 = *self;
        let modified = match self.storage.close(&mut file) {
            Ok(m) => m,
            Err(e) => {
                return Err(e);
            },
        };
        if modified {
            let ghost s1 = *self;
            match self.store_row(&file) {
                Ok(_) => {},
                Err(e) => {
                    return Err(e);
                },
            }
            proof {
                if s0.storage.obj_storage.replicas_plain() {
                    crate::object_store::lemma_blob_congruence(
                        self.storage.obj_storage.primary,
                        crate::storage_interface::file_info(
                            file.v(),
                            s0.storage.session(id as int).full_path,
                        ),
                        crate::storage_interface::file_info(
                            self.sql.file(id as int),
                            s0.storage.session(id as int).full_path,
                        ),
                        s0.storage.session(id as int).content,
                    );
                }
            }
            let ghost s2 = *self;
            if self.config.store_file_change_history {
                let rr = self.record_change(&file, FileChangeKind::UpdatedContents);
                proof {
                    MetadataDB::lemma_files_agree(s2.sql, self.sql);
                    MetadataDB::lemma_entries_agree(s2.sql, self.sql);
                }
            }
        }
        let r2 = self.cleanup();
        match r2 {
            Ok(_) => Ok(()),
            Err(e) => Err(e),
        }
    }

    /// Every file but the root has exactly one directory entry pointing at
    /// it whose name is neither `.` nor `..`, and the root has none.
    pub proof fn lemma_unique_parent_link(&self, id: int)
        requires
            self.wf(),
            self.sql.has_file(id),
        ensures
            id != ROOT_DIRECTORY_ID as int ==> exists|i: int| parent_link_at(self.sql, i, id),
            forall|i: int, j: int|
                parent_link_at(self.sql, i, id) && parent_link_at(self.sql, j, id) ==> i == j,
            id == ROOT_DIRECTORY_ID as int ==> forall|i: int| !parent_link_at(self.sql, i, id),
    {
    }

    /// Every directory holds its two synthetic self-entries.
    pub proof fn lemma_directory_self_entries(&self, id: int)
        requires
            self.wf(),
            self.sql.has_file(id),
            self.sql.file(id).kind == FILE_KIND_DIRECTORY as int,
        ensures
            self.sql.has_entry(id, "."@),
            self.sql.has_entry(id, ".."@),
    {
    }

}

} // verus!
