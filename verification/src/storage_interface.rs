//! The session cache for open files: a per-file whole-object buffer with
//! open-mode compatibility rules, read-through fetch, write-through on
//! close, and the pending-delete set reconciled by cleanup.

use crate::errors::{error, ErrorKind, SqlFileSystemError, EINVAL, EIO, ENOSYS};
use crate::hexcodec::{hex_of, is_hex_seq};
use crate::metadata_db::{FileRow, MetadataDB, FILE_KIND_DIRECTORY};
use crate::obj_storage::{ObjInfo, ObjInfoV};
use crate::object_store::ObjectStore;
use crate::replicated_object_storage::ReplicatedObjectStorage;
use crate::sqlar_object_storage::SqlarObjectStorage;
use crate::crypto::{sha512, sha512_of};
use crate::utils::current_timestamp;
use vstd::prelude::*;

verus! {

pub const O_ACCMODE: i32 = 0o3;

pub const O_RDONLY: i32 = 0o0;

pub const O_WRONLY: i32 = 0o1;

pub const O_RDWR: i32 = 0o2;

pub const O_CREAT: i32 = 0o100;

pub const O_EXCL: i32 = 0o200;

pub const O_NOCTTY: i32 = 0o400;

pub const O_TRUNC: i32 = 0o1000;

pub const O_APPEND: i32 = 0o2000;

pub const O_NONBLOCK: i32 = 0o4000;

pub const O_DSYNC: i32 = 0o10000;

pub const O_SYNC: i32 = 0o4010000;

pub const O_NOATIME: i32 = 0o1000000;

pub const O_PATH: i32 = 0o10000000;

pub const O_TMPFILE: i32 = 0o20200000;

/// The decoded view of a set of POSIX open flags.
#[derive(Debug, Clone, Copy, PartialEq, Eq, Structural)]
pub struct OpenFlags {
    pub read_only: bool,
    pub write_only: bool,
    pub read_write: bool,
    pub append: bool,
    pub create: bool,
    pub exclusive: bool,
    pub truncate: bool,
    pub no_tty: bool,
    pub non_block: bool,
    pub sync: bool,
    pub data_sync: bool,
    pub no_access_time: bool,
    pub path_only: bool,
    pub tmp_file: bool,
    pub other: i32,
}

impl OpenFlags {
    /// Decode a raw flag word.
    pub fn from(flags: i32) -> (r: OpenFlags)
        ensures
            r.read_only == (flags & O_ACCMODE == O_RDONLY),
            r.write_only == (flags & O_ACCMODE == O_WRONLY),
            r.read_write == (flags & O_ACCMODE == O_RDWR),
            r.append == (flags & O_APPEND != 0),
            r.create == (flags & O_CREAT != 0),
            r.exclusive == (flags & O_EXCL != 0),
            r.truncate == (flags & O_TRUNC != 0),
    {
        OpenFlags {
            read_only: flags & O_ACCMODE == O_RDONLY,
            write_only: flags & O_ACCMODE == O_WRONLY,
            read_write: flags & O_ACCMODE == O_RDWR,
            append: flags & O_APPEND != 0,
            create: flags & O_CREAT != 0,
            exclusive: flags & O_EXCL != 0,
            truncate: flags & O_TRUNC != 0,
            no_tty: flags & O_NOCTTY != 0,
            non_block: flags & O_NONBLOCK != 0,
            sync: flags & O_SYNC != 0,
            data_sync: flags & O_DSYNC != 0,
            no_access_time: flags & O_NOATIME != 0,
            path_only: flags & O_PATH != 0,
            tmp_file: flags & O_TMPFILE != 0,
            other: flags & !(O_WRONLY | O_APPEND | O_CREAT | O_EXCL | O_TRUNC | O_NOCTTY
                | O_NONBLOCK | O_SYNC | O_DSYNC | O_NOATIME | O_PATH | O_TMPFILE),
        }
    }

    /// Re-encode the flags that are safe to hand to a backend open.
    pub fn to_safe_flags(&self) -> (r: i32)
        ensures
            r == ((if self.read_only {
                O_RDONLY
            } else {
                0
            }) | (if self.write_only {
                O_WRONLY
            } else {
                0
            }) | (if self.read_write {
                O_RDWR
            } else {
                0
            }) | (if self.append {
                O_APPEND
            } else {
                0
            }) | (if self.create {
                O_CREAT
            } else {
                0
            }) | self.other),
    {
        (if self.read_only {
            O_RDONLY
        } else {
            0
        }) | (if self.write_only {
            O_WRONLY
        } else {
            0
        }) | (if self.read_write {
            O_RDWR
        } else {
            0
        }) | (if self.append {
            O_APPEND
        } else {
            0
        }) | (if self.create {
            O_CREAT
        } else {
            0
        }) | self.other
    }
}

/// Whether two opens of one file may coexist: both must be strictly
/// read-only and neither exclusive.
pub open spec fn spec_open_compatible(prev_mode: i32, new_mode: i32) -> bool {
    &&& prev_mode & O_ACCMODE == O_RDONLY
    &&& new_mode & O_ACCMODE == O_RDONLY
    &&& prev_mode & O_EXCL == 0
    &&& new_mode & O_EXCL == 0
}

/// One open session: the buffered whole-object content plus its state.
#[derive(Debug)]
pub struct StorageInterfaceCache {
    pub full_path: String,
    pub mode: i32,
    pub content: Vec<u8>,
    pub retrieved: bool,
    pub modified: bool,
    pub count: i32,
}

/// The mathematical value of a session.
#[verifier::ext_equal]
pub ghost struct SessionV {
    pub full_path: Seq<char>,
    pub mode: i32,
    pub content: Seq<u8>,
    pub retrieved: bool,
    pub modified: bool,
    pub count: int,
}

impl StorageInterfaceCache {
    /// The mathematical view of the session.
    pub open spec fn v(&self) -> SessionV {
        SessionV {
            full_path: self.full_path@,
            mode: self.mode,
            content: self.content@,
            retrieved: self.retrieved,
            modified: self.modified,
            count: self.count as int,
        }
    }
}

/// The session cache in front of the storage pipeline.
pub struct StorageInterface {
    pub obj_storage: ReplicatedObjectStorage,
    pub cache: Vec<(i64, StorageInterfaceCache)>,
    pub pending_remove: Vec<ObjInfo>,
}

/// The bytes a read returns: the window of the buffer starting at
/// `offset`, at most `size` long; empty when the offset is past the end.
pub open spec fn read_window(content: Seq<u8>, offset: int, size: int) -> Seq<u8> {
    if offset >= content.len() {
        Seq::empty()
    } else if offset + size <= content.len() {
        content.subrange(offset, offset + size)
    } else {
        content.subrange(offset, content.len() as int)
    }
}

/// The content of a buffer after splicing `b` in at `off`, growing with
/// zero fill as needed.
pub open spec fn spliced(base: Seq<u8>, off: int, b: Seq<u8>) -> Seq<u8> {
    let n = if off + b.len() > base.len() {
        off + b.len()
    } else {
        base.len() as int
    };
    Seq::new(
        n as nat,
        |i: int|
            if off <= i < off + b.len() {
                b[i - off]
            } else if i < base.len() {
                base[i]
            } else {
                0u8
            },
    )
}

impl StorageInterface {
    /// Cache keys are unique, the pipeline is well formed, and every
    /// pending identity carries a plausible hash.
    pub open spec fn wf(&self) -> bool {
        &&& self.obj_storage.wf()
        &&& forall|i: int, j: int|
            0 <= i < j < self.cache@.len() ==> #[trigger] self.cache@[i].0
                != #[trigger] self.cache@[j].0
        &&& forall|i: int|
            0 <= i < self.pending_remove@.len() ==> (#[trigger] self.pending_remove@[i]).sha512@.len()
                == 0 || self.pending_remove@[i].sha512@.len() >= 32
    }

    /// Whether a session for this file id exists.
    pub open spec fn has_session(&self, id: int) -> bool {
        exists|i: int| 0 <= i < self.cache@.len() && (#[trigger] self.cache@[i]).0 == id
    }

    /// The table position of the session for this id.
    pub open spec fn session_idx(&self, id: int) -> int {
        choose|i: int| 0 <= i < self.cache@.len() && (#[trigger] self.cache@[i]).0 == id
    }

    /// The session for this id.
    pub open spec fn session(&self, id: int) -> SessionV {
        self.cache@[self.session_idx(id)].1.v()
    }

    /// Nothing changed among the sessions but (possibly) the one with this
    /// id.
    pub open spec fn sessions_frame(pre: Self, post: Self, id: int) -> bool {
        forall|o: int|
            #![trigger post.has_session(o)]
            #![trigger post.session(o)]
            o != id ==> (post.has_session(o) == pre.has_session(o)) && (pre.has_session(o)
                ==> post.session(o) == pre.session(o))
    }

    /// Pin the table position of a session id.
    proof fn lemma_session_at(&self, i: int)
        requires
            self.wf(),
            0 <= i < self.cache@.len(),
        ensures
            self.has_session(self.cache@[i].0 as int),
            self.session_idx(self.cache@[i].0 as int) == i,
            self.session(self.cache@[i].0 as int) == self.cache@[i].1.v(),
    {
        let id = self.cache@[i].0 as int;
        assert(self.has_session(id));
        let k = self.session_idx(id);
        if k != i {
            if k < i {
                assert(self.cache@[k].0 != self.cache@[i].0);
            } else {
                assert(self.cache@[i].0 != self.cache@[k].0);
            }
        }
    }

    /// Look up the table position of a session id.
    fn find_session_index(&self, id: i64) -> (r: Option<usize>)
        requires
            self.wf(),
        ensures
            match r {
                Some(i) => i < self.cache@.len() && self.cache@[i as int].0 == id
                    && self.has_session(id as int) && self.session_idx(id as int) == i,
                None => !self.has_session(id as int),
            },
    {
        let n = self.cache.len();
        let mut i: usize = 0;
        while i < n
            invariant
                self.wf(),
                n == self.cache@.len(),
                i <= n,
                forall|j: int| 0 <= j < i ==> (#[trigger] self.cache@[j]).0 != id,
            decreases n - i,
        {
            if self.cache[i].0 == id {
                proof {
                    self.lemma_session_at(i as int);
                }
                return Some(i);
            }
            i = i + 1;
        }
        proof {
            if self.has_session(id as int) {
                let k = choose|k: int|
                    0 <= k < self.cache@.len() && (#[trigger] self.cache@[k]).0 == id;
                assert(self.cache@[k].0 != id);
            }
        }
        None
    }

    /// A fresh cache in front of a pipeline.
    pub fn new(obj_storage: ReplicatedObjectStorage) -> (r: StorageInterface)
        ensures
            r.obj_storage == obj_storage,
            r.cache@ =~= Seq::<(i64, StorageInterfaceCache)>::empty(),
            r.pending_remove@ =~= Seq::<ObjInfo>::empty(),
            forall|id: int| !r.has_session(id),
            obj_storage.wf() ==> r.wf(),
    {
        let r = StorageInterface { obj_storage, cache: Vec::new(), pending_remove: Vec::new() };
        proof {
            assert forall|id: int| !r.has_session(id) by {
                if r.has_session(id) {
                    let k = choose|k: int|
                        0 <= k < r.cache@.len() && (#[trigger] r.cache@[k]).0 == id;
                }
            }
        }
        r
    }

    /// Open a file. Append mode is unsupported; a second open of the same
    /// file is allowed only when both opens are strictly read-only and
    /// neither is exclusive, and then shares the buffered session.
    pub fn open(&mut self, file: &mut FileRow, full_path: &str, mode: u32) -> (r: Result<
        bool,
        SqlFileSystemError,
    >)
        requires
            old(self).wf(),
        ensures
            final(self).wf(),
            *final(file) == *old(file),
            final(self).obj_storage == old(self).obj_storage,
            final(self).pending_remove@ == old(self).pending_remove@,
            ({
                let id = old(file).id as int;
                let m = mode as i32;
                &&& ((mode as i32) & O_APPEND != 0) ==> (r matches Err(e) && e.code == ENOSYS
                    && e.kind == ErrorKind::Unsupported && *final(self) == *old(self))
                &&& ((mode as i32) & O_APPEND == 0 && old(self).has_session(id)
                    && !spec_open_compatible(old(self).session(id).mode, m)) ==> (r matches Err(e)
                    && e.code == EIO && e.kind == ErrorKind::Busy && *final(self) == *old(self))
                &&& ((mode as i32) & O_APPEND == 0 && old(self).has_session(id)
                    && spec_open_compatible(old(self).session(id).mode, m) && old(self).session(
                    id,
                ).count < i32::MAX) ==> (r == Ok::<bool, SqlFileSystemError>(false)
                    && final(self).has_session(id) && final(self).session(id) == (SessionV {
                    count: old(self).session(id).count + 1,
                    ..old(self).session(id)
                }) && StorageInterface::sessions_frame(*old(self), *final(self), id))
                &&& ((mode as i32) & O_APPEND == 0 && !old(self).has_session(id)) ==> (r == Ok::<
                    bool,
                    SqlFileSystemError,
                >(false) && final(self).has_session(id) && final(self).session(id) == (SessionV {
                    full_path: full_path@,
                    mode: m,
                    content: Seq::empty(),
                    retrieved: false,
                    modified: false,
                    count: 1,
                }) && StorageInterface::sessions_frame(*old(self), *final(self), id))
            }),
    {
        let imode = mode as i32;
        if imode & O_APPEND != 0 {
            return error(ENOSYS, ErrorKind::Unsupported);
        }
        let ghost pre = *self;
        match self.find_session_index(file.id) {
            Some(i) => {
                let prev_flags = OpenFlags::from(self.cache[i].1.mode);
                let new_flags = OpenFlags::from(imode);
                let valid = prev_flags.read_only && new_flags.read_only && !prev_flags.exclusive
                    && !new_flags.exclusive;
                if !valid {
                    proof {
                        assert(!spec_open_compatible(pre.session(file.id as int).mode, imode));
                    }
                    return error(EIO, ErrorKind::Busy);
                }
                if self.cache[i].1.count == i32::MAX {
                    return error(EIO, ErrorKind::IoError);
                }
                let entry = &mut self.cache[i];
                entry.1.count = entry.1.count + 1;
                proof {
                    assert forall|a: int, b: int| 0 <= a < b < self.cache@.len() implies
                        #[trigger] self.cache@[a].0 != #[trigger] self.cache@[b].0 by {
                        assert(pre.cache@[a].0 != pre.cache@[b].0);
                    }
                    self.lemma_session_at(i as int);
                    assert(self.session(file.id as int) =~= (SessionV {
                        count: pre.session(file.id as int).count + 1,
                        ..pre.session(file.id as int)
                    }));
                    Self::lemma_frame_update(pre, *self, i as int);
                    assert(spec_open_compatible(pre.session(file.id as int).mode, imode));
                }
                Ok(false)
            },
            None => {
                let session = StorageInterfaceCache {
                    full_path: full_path.to_owned(),
                    mode: imode,
                    content: Vec::new(),
                    retrieved: false,
                    modified: false,
                    count: 1,
                };
                self.cache.push((file.id, session));
                proof {
                    let n0 = pre.cache@.len() as int;
                    assert forall|a: int, b: int| 0 <= a < b < self.cache@.len() implies
                        #[trigger] self.cache@[a].0 != #[trigger] self.cache@[b].0 by {
                        if b == n0 {
                            if pre.has_session(file.id as int) {
                            } else {
                                if pre.cache@[a].0 == file.id {
                                    pre.lemma_session_at(a);
                                }
                            }
                        } else {
                            assert(pre.cache@[a].0 != pre.cache@[b].0);
                        }
                    }
                    self.lemma_session_at(n0);
                    assert(self.session(file.id as int) =~= (SessionV {
                        full_path: full_path@,
                        mode: imode,
                        content: Seq::empty(),
                        retrieved: false,
                        modified: false,
                        count: 1,
                    }));
                    Self::lemma_frame_push(pre, *self);
                }
                Ok(false)
            },
        }
    }

    /// Two states with the same cache table answer every session lookup
    /// alike.
    proof fn lemma_sessions_agree(a: Self, b: Self)
        requires
            forall|i: int, j: int|
                0 <= i < j < a.cache@.len() ==> #[trigger] a.cache@[i].0
                    != #[trigger] a.cache@[j].0,
            b.cache@ == a.cache@,
        ensures
            forall|o: int| #![trigger b.has_session(o)] b.has_session(o) == a.has_session(o),
            forall|o: int|
                #![trigger b.session(o)]
                a.has_session(o) ==> b.session(o) == a.session(o),
    {
        assert forall|o: int| b.has_session(o) == a.has_session(o) by {
            if a.has_session(o) {
                let k = choose|k: int|
                    0 <= k < a.cache@.len() && (#[trigger] a.cache@[k]).0 == o;
                assert(b.cache@[k].0 == o);
            }
            if b.has_session(o) {
                let k = choose|k: int|
                    0 <= k < b.cache@.len() && (#[trigger] b.cache@[k]).0 == o;
                assert(a.cache@[k].0 == o);
            }
        }
        assert forall|o: int| a.has_session(o) implies b.session(o) == a.session(o) by {
            let ka = a.session_idx(o);
            let kb = b.session_idx(o);
            assert(a.cache@[ka].0 == o);
            assert(b.cache@[kb].0 == o);
            if ka != kb {
                if ka < kb {
                    assert(a.cache@[ka].0 != a.cache@[kb].0);
                } else {
                    assert(a.cache@[kb].0 != a.cache@[ka].0);
                }
            }
        }
    }

    /// Read up to `size` bytes at `offset` from an open file's buffer,
    /// fetching the whole object through the pipeline on first use.
    pub fn read(&mut self, file: &FileRow, offset: u64, size: usize) -> (r: Result<
        Vec<u8>,
        SqlFileSystemError,
    >)
        requires
            old(self).wf(),
            file.sha512@.len() == 0 || file.sha512@.len() >= 32,
        ensures
            final(self).wf(),
            final(self).pending_remove@ == old(self).pending_remove@,
            final(self).obj_storage == old(self).obj_storage,
            StorageInterface::sessions_frame(*old(self), *final(self), file.id as int),
            !old(self).has_session(file.id as int) ==> r is Err && *final(self) == *old(self),
            old(self).has_session(file.id as int) ==> {
                let sess = old(self).session(file.id as int);
                &&& (sess.mode & O_ACCMODE == O_WRONLY) ==> r is Err && *final(self) == *old(self)
                &&& (sess.mode & O_ACCMODE != O_WRONLY && sess.retrieved) ==> (r matches Ok(d)
                    && d@ == read_window(sess.content, offset as int, size as int)
                    && final(self).has_session(file.id as int)
                    && final(self).session(file.id as int) == sess)
                &&& (sess.mode & O_ACCMODE != O_WRONLY && !sess.retrieved && file.sha512@.len()
                    == 0) ==> (r matches Ok(d) && d@ == read_window(
                    Seq::empty(),
                    offset as int,
                    size as int,
                ) && final(self).has_session(file.id as int) && final(self).session(
                    file.id as int,
                ) == (SessionV {
                    content: Seq::empty(),
                    retrieved: true,
                    ..sess
                }))
                &&& (sess.mode & O_ACCMODE != O_WRONLY && !sess.retrieved && file.sha512@.len()
                    > 0) ==> {
                    let info = ObjInfoV {
                        name: file.name@,
                        full_path: sess.full_path,
                        sha512: file.sha512@,
                        created_at: file.created_at as int,
                        accessed_at: file.accessed_at as int,
                        updated_at: file.updated_at as int,
                        mode: (file.perms as u32) as int,
                        size: (file.size as u64) as int,
                        encryption_key: file.encryption_key@,
                        compression: file.compression@,
                    };
                    &&& (forall|c: Seq<u8>|
                        #[trigger] old(self).obj_storage.primary.blob_matches(info, c)
                            ==> (r matches Ok(d) && d@ == read_window(
                            c,
                            offset as int,
                            size as int,
                        ) && final(self).has_session(file.id as int) && final(self).session(
                            file.id as int,
                        ) == (SessionV {
                            content: c,
                            retrieved: true,
                            ..sess
                        })))
                    &&& r is Err ==> *final(self) == *old(self)
                }
            },
    {
        let idx = match self.find_session_index(file.id) {
            Some(i) => i,
            None => {
                return error(EIO, ErrorKind::IoError);
            },
        };
        if self.cache[idx].1.mode & O_ACCMODE == O_WRONLY {
            return error(EIO, ErrorKind::InvalidArg);
        }
        let ghost pre = *self;
        if !self.cache[idx].1.retrieved {
            let content: Vec<u8> = if file.sha512.as_str().unicode_len() > 0 {
                let info = ObjInfo::new(file, self.cache[idx].1.full_path.as_str());
                match self.obj_storage.get(&info) {
                    Ok(c) => c,
                    Err(e) => {
                        return Err(e);
                    },
                }
            } else {
                Vec::new()
            };
            let entry = &mut self.cache[idx];
            entry.1.content = content;
            entry.1.retrieved = true;
            proof {
                assert forall|a: int, b: int| 0 <= a < b < self.cache@.len() implies
                    #[trigger] self.cache@[a].0 != #[trigger] self.cache@[b].0 by {
                    assert(pre.cache@[a].0 != pre.cache@[b].0);
                }
                self.lemma_session_at(idx as int);
                Self::lemma_frame_update(pre, *self, idx as int);
            }
        }
        let row = &self.cache[idx].1;
        let n = row.content.len();
        let off = if offset > n as u64 {
            n
        } else {
            offset as usize
        };
        let end = if n - off < size {
            n
        } else {
            off + size
        };
        let out = vstd::slice::slice_to_vec(
            vstd::slice::slice_subrange(row.content.as_slice(), off, end),
        );
        proof {
            self.lemma_session_at(idx as int);
            assert(out@ =~= read_window(
                self.cache@[idx as int].1.content@,
                offset as int,
                size as int,
            ));
        }
        Ok(out)
    }

    /// Write bytes at an offset into an open file's buffer. A write
    /// invalidates any read-through cache, and grows the buffer with zero
    /// fill when it reaches past the end.
    pub fn write(&mut self, file: &FileRow, offset: u64, buff: &[u8]) -> (r: Result<
        usize,
        SqlFileSystemError,
    >)
        requires
            old(self).wf(),
        ensures
            final(self).wf(),
            final(self).pending_remove@ == old(self).pending_remove@,
            final(self).obj_storage == old(self).obj_storage,
            StorageInterface::sessions_frame(*old(self), *final(self), file.id as int),
            !old(self).has_session(file.id as int) ==> r is Err && *final(self) == *old(self),
            old(self).has_session(file.id as int) ==> {
                let sess = old(self).session(file.id as int);
                &&& (sess.mode & O_ACCMODE == O_RDONLY) ==> r is Err && *final(self) == *old(self)
                &&& (sess.mode & O_ACCMODE != O_RDONLY && offset + buff@.len() <= usize::MAX)
                    ==> r == Ok::<usize, SqlFileSystemError>(buff@.len() as usize)
                    && final(self).has_session(file.id as int)
                    && final(self).session(file.id as int) == (SessionV {
                    content: spliced(
                        if sess.retrieved {
                            Seq::empty()
                        } else {
                            sess.content
                        },
                        offset as int,
                        buff@,
                    ),
                    retrieved: false,
                    modified: true,
                    ..sess
                })
            },
    {
        let idx = match self.find_session_index(file.id) {
            Some(i) => i,
            None => {
                return error(EIO, ErrorKind::IoError);
            },
        };
        if self.cache[idx].1.mode & O_ACCMODE == O_RDONLY {
            return error(EIO, ErrorKind::InvalidArg);
        }
        if offset > usize::MAX as u64 || offset as usize > usize::MAX - buff.len() {
            return error(EINVAL, ErrorKind::InvalidArg);
        }
        let ghost pre = *self;
        let off = offset as usize;
        let entry = &mut self.cache[idx];
        if entry.1.retrieved {
            entry.1.content.clear();
            entry.1.retrieved = false;
        }
        let ghost base = entry.1.content@;
        // Grow with zero fill, then splice the bytes in.
        if off + buff.len() > entry.1.content.len() {
            entry.1.content.resize(off + buff.len(), 0u8);
        }
        let mut i: usize = 0;
        while i < buff.len()
            invariant
                off + buff@.len() <= usize::MAX,
                off + buff@.len() <= entry.1.content@.len(),
                idx < pre.cache@.len(),
                entry.0 == pre.cache@[idx as int].0,
                entry.1.mode == pre.cache@[idx as int].1.mode,
                entry.1.full_path@ == pre.cache@[idx as int].1.full_path@,
                entry.1.count == pre.cache@[idx as int].1.count,
                entry.1.retrieved == false,
                entry.1.content@.len() == (if off + buff@.len() > base.len() {
                    off + buff@.len()
                } else {
                    base.len() as int
                }),
                i <= buff@.len(),
                forall|j: int|
                    0 <= j < entry.1.content@.len() && !(off <= j < off + i) ==> (
                    #[trigger] entry.1.content@[j]) == (if j < base.len() {
                        base[j]
                    } else {
                        0u8
                    }),
                forall|j: int|
                    off <= j < off + i ==> (#[trigger] entry.1.content@[j]) == buff@[j - off],
            decreases buff@.len() - i,
        {
            let pos = off + i;
            entry.1.content[pos] = buff[i];
            i = i + 1;
        }
        entry.1.modified = true;
        proof {
            assert(entry.1.content@ =~= spliced(base, off as int, buff@));
            assert forall|a: int, b: int| 0 <= a < b < self.cache@.len() implies
                #[trigger] self.cache@[a].0 != #[trigger] self.cache@[b].0 by {
                assert(pre.cache@[a].0 != pre.cache@[b].0);
            }
            self.lemma_session_at(idx as int);
            Self::lemma_frame_update(pre, *self, idx as int);
            assert(self.session(file.id as int) =~= (SessionV {
                content: spliced(
                    if pre.session(file.id as int).retrieved {
                        Seq::empty()
                    } else {
                        pre.session(file.id as int).content
                    },
                    offset as int,
                    buff@,
                ),
                retrieved: false,
                modified: true,
                ..pre.session(file.id as int)
            }));
        }
        Ok(buff.len())
    }

    /// After replacing one session in place, every other lookup is
    /// unchanged.
    proof fn lemma_frame_update(pre: Self, post: Self, idx: int)
        requires
            pre.wf(),
            post.wf(),
            0 <= idx < pre.cache@.len(),
            post.cache@.len() == pre.cache@.len(),
            post.cache@[idx].0 == pre.cache@[idx].0,
            forall|k: int|
                0 <= k < pre.cache@.len() && k != idx ==> #[trigger] post.cache@[k]
                    == pre.cache@[k],
        ensures
            StorageInterface::sessions_frame(pre, post, pre.cache@[idx].0 as int),
    {
        let id = pre.cache@[idx].0 as int;
        assert forall|o: int| o != id implies (post.has_session(o) == pre.has_session(o)) && (
        pre.has_session(o) ==> post.session(o) == pre.session(o)) by {
            if pre.has_session(o) {
                let k = choose|k: int|
                    0 <= k < pre.cache@.len() && (#[trigger] pre.cache@[k]).0 == o;
                assert(k != idx);
                assert(post.cache@[k].0 == o);
                post.lemma_session_at(k);
                pre.lemma_session_at(k);
            }
            if post.has_session(o) {
                let k = choose|k: int|
                    0 <= k < post.cache@.len() && (#[trigger] post.cache@[k]).0 == o;
                assert(k != idx);
                assert(pre.cache@[k].0 == o);
            }
        }
    }

    /// After pushing a fresh session, every other lookup is unchanged.
    proof fn lemma_frame_push(pre: Self, post: Self)
        requires
            pre.wf(),
            post.wf(),
            post.cache@.len() == pre.cache@.len() + 1,
            forall|k: int|
                0 <= k < pre.cache@.len() ==> #[trigger] post.cache@[k] == pre.cache@[k],
        ensures
            StorageInterface::sessions_frame(pre, post, post.cache@.last().0 as int),
    {
        let id = post.cache@.last().0 as int;
        let n0 = pre.cache@.len() as int;
        assert forall|o: int| o != id implies (post.has_session(o) == pre.has_session(o)) && (
        pre.has_session(o) ==> post.session(o) == pre.session(o)) by {
            if pre.has_session(o) {
                let k = choose|k: int|
                    0 <= k < pre.cache@.len() && (#[trigger] pre.cache@[k]).0 == o;
                assert(post.cache@[k].0 == o);
                post.lemma_session_at(k);
                pre.lemma_session_at(k);
            }
            if post.has_session(o) {
                let k = choose|k: int|
                    0 <= k < post.cache@.len() && (#[trigger] post.cache@[k]).0 == o;
                assert(k < n0);
                assert(pre.cache@[k].0 == o);
            }
        }
    }
}

/// The object identity a file denotes at a logical path.
pub open spec fn file_info(f: crate::metadata_db::FileV, path: Seq<char>) -> ObjInfoV {
    ObjInfoV {
        name: f.name,
        full_path: path,
        sha512: f.sha512,
        created_at: f.created_at,
        accessed_at: f.accessed_at,
        updated_at: f.updated_at,
        mode: (f.perms as u32) as int,
        size: (f.size as u64) as int,
        encryption_key: f.encryption_key,
        compression: f.compression,
    }
}

impl StorageInterface {
    /// Write the buffered content of an open file through the pipeline:
    /// compute its hash, schedule the previous object for deletion when
    /// the content identity changed, store the new object, and copy the
    /// storage descriptors back into the file row. Returns whether the
    /// session had been modified.
    pub fn flush(&mut self, file: &mut FileRow) -> (r: Result<bool, SqlFileSystemError>)
        requires
            old(self).wf(),
            old(file).sha512@.len() == 0 || old(file).sha512@.len() == 128,
        ensures
            final(self).wf(),
            final(self).cache@ == old(self).cache@,
            !old(self).has_session(old(file).id as int) ==> r is Err && *final(self) == *old(self)
                && *final(file) == *old(file),
            old(self).has_session(old(file).id as int) && !old(self).session(
                old(file).id as int,
            ).modified ==> r == Ok::<bool, SqlFileSystemError>(false) && *final(self) == *old(self)
                && *final(file) == *old(file),
            old(self).has_session(old(file).id as int) && old(self).session(
                old(file).id as int,
            ).modified ==> {
                let sess = old(self).session(old(file).id as int);
                let new_sha = hex_of(sha512_of(sess.content));
                &&& sess.content.len() <= crate::crypto::GCM_P_MAX ==> r is Ok
                &&& r matches Ok(m) ==> m == true
                &&& r is Ok ==> {
                    &&& final(file).sha512@ == new_sha
                    &&& final(file).sha512@.len() == 128
                    &&& final(file).id == old(file).id
                    &&& final(file).version == old(file).version
                    &&& final(file).kind == old(file).kind
                    &&& final(file).name@ == old(file).name@
                    &&& final(file).uid == old(file).uid
                    &&& final(file).gid == old(file).gid
                    &&& final(file).perms == old(file).perms
                    &&& final(file).size as int == sess.content.len()
                    &&& final(file).accessed_at == old(file).accessed_at
                    &&& final(file).created_at == old(file).created_at
                    &&& final(file).updated_at >= 0
                    &&& (old(self).obj_storage.replicas_plain() ==> final(self).obj_storage.primary.blob_matches(
                        file_info(final(file).v(), sess.full_path),
                        sess.content,
                    ))
                    &&& (old(self).obj_storage.replicas_plain()
                        ==> SqlarObjectStorage::frame(
                        old(self).obj_storage.primary.inner(),
                        final(self).obj_storage.primary.inner(),
                        final(self).obj_storage.primary.blob_key(
                            file_info(final(file).v(), sess.full_path),
                        ),
                    ))
                    &&& (old(file).sha512@.len() > 0 && old(file).sha512@ != new_sha
                        ==> final(self).pending_remove@.len() == old(self).pending_remove@.len()
                        + 1 && final(self).pending_remove@.last().v() == file_info(
                        old(file).v(),
                        sess.full_path,
                    ) && final(self).pending_remove@.take(
                        old(self).pending_remove@.len() as int,
                    ) == old(self).pending_remove@)
                    &&& (!(old(file).sha512@.len() > 0 && old(file).sha512@ != new_sha)
                        ==> final(self).pending_remove@ == old(self).pending_remove@)
                }
            },
    {
        let idx = match self.find_session_index(file.id) {
            Some(i) => i,
            None => {
                return error(EIO, ErrorKind::IoError);
            },
        };
        if !self.cache[idx].1.modified {
            return Ok(false);
        }
        if self.cache[idx].1.content.len() as u64 > (i64::MAX as u64) {
            return error(EINVAL, ErrorKind::InvalidArg);
        }
        let ghost pre = *self;
        let ghost pre_file = *file;
        let digest = sha512(self.cache[idx].1.content.as_slice());
        let sha = crate::hexcodec::hex_encode(digest.as_slice());
        proof {
            crate::hexcodec::lemma_hex_of_is_hex_seq(digest@);
        }
        // The content identity changed: schedule the previous object.
        if file.sha512.as_str().unicode_len() > 0 && !crate::strutil::str_eq(
            file.sha512.as_str(),
            sha.as_str(),
        ) {
            let prev_info = ObjInfo::new(file, self.cache[idx].1.full_path.as_str());
            self.pending_remove.push(prev_info);
            proof {
                assert(self.pending_remove@.take(pre.pending_remove@.len() as int)
                    =~= pre.pending_remove@);
                assert(self.pending_remove@.last().v() =~= file_info(
                    pre_file.v(),
                    pre.session(pre_file.id as int).full_path,
                ));
            }
        }
        file.sha512 = sha;
        let mut info = ObjInfo::new(file, self.cache[idx].1.full_path.as_str());
        info.size = self.cache[idx].1.content.len() as u64;
        let ghost mid = *self;
        match self.obj_storage.put(&mut info, self.cache[idx].1.content.as_slice()) {
            Ok(_) => {},
            Err(e) => {
                return Err(e);
            },
        }
        file.encryption_key = info.encryption_key;
        file.compression = info.compression;
        file.size = self.cache[idx].1.content.len() as i64;
        file.updated_at = current_timestamp();
        proof {
            if pre.obj_storage.replicas_plain() {
                crate::object_store::lemma_blob_congruence(
                    self.obj_storage.primary,
                    info.v(),
                    file_info(file.v(), pre.session(pre_file.id as int).full_path),
                    self.cache@[idx as int].1.content@,
                );
            }
        }
        Ok(true)
    }

    /// Close an open file: decrement its refcount, flush any buffered
    /// changes, and drop the session on the final close. Returns whether
    /// the session had been modified.
    pub fn close(&mut self, file: &mut FileRow) -> (r: Result<bool, SqlFileSystemError>)
        requires
            old(self).wf(),
            old(file).sha512@.len() == 0 || old(file).sha512@.len() == 128,
        ensures
            final(self).wf(),
            !old(self).has_session(old(file).id as int) ==> r is Err && *final(self) == *old(self)
                && *final(file) == *old(file),
            old(self).has_session(old(file).id as int) ==> {
                let sess = old(self).session(old(file).id as int);
                let new_sha = hex_of(sha512_of(sess.content));
                &&& (sess.modified ==> sess.content.len() <= crate::crypto::GCM_P_MAX) ==> r
                    is Ok
                &&& (sess.count <= 1 ==> !final(self).has_session(old(file).id as int))
                &&& (sess.count > 1 ==> final(self).has_session(old(file).id as int) && final(self).session(old(file).id as int) == (SessionV { count: sess.count - 1, ..sess }))
                &&& StorageInterface::sessions_frame(*old(self), *final(self), old(file).id as int)
                &&& (!sess.modified ==> r == Ok::<bool, SqlFileSystemError>(false) && *final(file)
                    == *old(file) && final(self).obj_storage == old(self).obj_storage && final(self).pending_remove@ == old(self).pending_remove@)
                &&& (sess.modified && r is Ok ==> {
                    &&& r == Ok::<bool, SqlFileSystemError>(true)
                    &&& final(file).sha512@ == new_sha
                    &&& final(file).sha512@.len() == 128
                    &&& final(file).id == old(file).id
                    &&& final(file).version == old(file).version
                    &&& final(file).kind == old(file).kind
                    &&& final(file).name@ == old(file).name@
                    &&& final(file).uid == old(file).uid
                    &&& final(file).gid == old(file).gid
                    &&& final(file).perms == old(file).perms
                    &&& final(file).size as int == sess.content.len()
                    &&& final(file).accessed_at == old(file).accessed_at
                    &&& final(file).created_at == old(file).created_at
                    &&& final(file).updated_at >= 0
                    &&& (old(self).obj_storage.replicas_plain() ==> final(self).obj_storage.primary.blob_matches(
                        file_info(final(file).v(), sess.full_path),
                        sess.content,
                    ))
                    &&& (old(self).obj_storage.replicas_plain()
                        ==> SqlarObjectStorage::frame(
                        old(self).obj_storage.primary.inner(),
                        final(self).obj_storage.primary.inner(),
                        final(self).obj_storage.primary.blob_key(
                            file_info(final(file).v(), sess.full_path),
                        ),
                    ))
                    &&& (old(file).sha512@.len() > 0 && old(file).sha512@ != new_sha
                        ==> final(self).pending_remove@.len() == old(self).pending_remove@.len()
                        + 1 && final(self).pending_remove@.last().v() == file_info(
                        old(file).v(),
                        sess.full_path,
                    ) && final(self).pending_remove@.take(
                        old(self).pending_remove@.len() as int,
                    ) == old(self).pending_remove@)
                    &&& (!(old(file).sha512@.len() > 0 && old(file).sha512@ != new_sha)
                        ==> final(self).pending_remove@ == old(self).pending_remove@)
                })
            },
    {
        let idx = match self.find_session_index(file.id) {
            Some(i) => i,
            None => {
                return error(EIO, ErrorKind::IoError);
            },
        };
        let ghost pre = *self;
        let entry = &mut self.cache[idx];
        if entry.1.count > i32::MIN {
            entry.1.count = entry.1.count - 1;
        }
        let remaining = entry.1.count;
        proof {
            assert forall|a: int, b: int| 0 <= a < b < self.cache@.len() implies
                #[trigger] self.cache@[a].0 != #[trigger] self.cache@[b].0 by {
                assert(pre.cache@[a].0 != pre.cache@[b].0);
            }
            self.lemma_session_at(idx as int);
            Self::lemma_frame_update(pre, *self, idx as int);
        }
        let ghost mid = *self;
        let res = self.flush(file);
        proof {
            assert(self.cache@ == mid.cache@);
            Self::lemma_sessions_agree(mid, *self);
        }
        if remaining <= 0 {
            let ghost before_drop = *self;
            self.cache.remove(idx);
            proof {
                assert forall|a: int, b: int| 0 <= a < b < self.cache@.len() implies
                    #[trigger] self.cache@[a].0 != #[trigger] self.cache@[b].0 by {
                    let pa = if a < idx as int { a } else { a + 1 };
                    let pb = if b < idx as int { b } else { b + 1 };
                    assert(before_drop.cache@[pa].0 != before_drop.cache@[pb].0);
                }
                if self.has_session(file.id as int) {
                    let k = choose|k: int|
                        0 <= k < self.cache@.len() && (#[trigger] self.cache@[k]).0 == file.id;
                    let pk = if k < idx as int { k } else { k + 1 };
                    assert(before_drop.cache@[pk].0 == file.id);
                    before_drop.lemma_session_at(pk);
                    before_drop.lemma_session_at(idx as int);
                }
                assert forall|o: int| o != old(file).id as int implies (self.has_session(o)
                    == before_drop.has_session(o)) && (before_drop.has_session(o)
                    ==> self.session(o) == before_drop.session(o)) by {
                    if before_drop.has_session(o) {
                        let k = choose|k: int|
                            0 <= k < before_drop.cache@.len() && (
                            #[trigger] before_drop.cache@[k]).0 == o;
                        assert(k != idx as int);
                        let nk = if k < idx as int { k } else { k - 1 };
                        assert(self.cache@[nk].0 == o);
                        self.lemma_session_at(nk);
                        before_drop.lemma_session_at(k);
                    }
                    if self.has_session(o) {
                        let k = choose|k: int|
                            0 <= k < self.cache@.len() && (#[trigger] self.cache@[k]).0 == o;
                        let pk = if k < idx as int { k } else { k + 1 };
                        assert(before_drop.cache@[pk].0 == o);
                    }
                }
                assert forall|o: int| o != old(file).id as int implies (self.has_session(o)
                    == old(self).has_session(o)) && (old(self).has_session(o) ==> self.session(o)
                    == old(self).session(o)) by {
                    assert(self.has_session(o) == before_drop.has_session(o));
                    assert(before_drop.has_session(o) == mid.has_session(o));
                    assert(mid.has_session(o) == old(self).has_session(o));
                    if old(self).has_session(o) {
                        assert(mid.session(o) == old(self).session(o));
                        assert(before_drop.session(o) == mid.session(o));
                        assert(self.session(o) == before_drop.session(o));
                    }
                }
            }
            res
        } else {
            proof {
                assert forall|o: int| o != old(file).id as int implies (self.has_session(o)
                    == old(self).has_session(o)) && (old(self).has_session(o) ==> self.session(o)
                    == old(self).session(o)) by {
                    assert(self.has_session(o) == mid.has_session(o));
                    assert(mid.has_session(o) == old(self).has_session(o));
                    if old(self).has_session(o) {
                        assert(mid.session(o) == old(self).session(o));
                        assert(self.session(o) == mid.session(o));
                    }
                }
            }
            res
        }
    }

    /// Schedule the removal of a file's object. Refused while the file is
    /// open; a file that never had content written has no object.
    pub fn remove(&mut self, file: &FileRow, full_path: &str) -> (r: Result<
        (),
        SqlFileSystemError,
    >)
        requires
            old(self).wf(),
            file.sha512@.len() == 0 || file.sha512@.len() >= 32,
        ensures
            final(self).wf(),
            final(self).cache@ == old(self).cache@,
            final(self).obj_storage == old(self).obj_storage,
            old(self).has_session(file.id as int) ==> (r matches Err(e) && e.code == ENOSYS
                && e.kind == ErrorKind::Busy && *final(self) == *old(self)),
            !old(self).has_session(file.id as int) ==> r is Ok && (if file.sha512@.len() > 0 {
                final(self).pending_remove@.len() == old(self).pending_remove@.len() + 1 && final(self).pending_remove@.last().v() == file_info(file.v(), full_path@) && final(self).pending_remove@.take(old(self).pending_remove@.len() as int) == old(self).pending_remove@
            } else {
                final(self).pending_remove@ == old(self).pending_remove@
            }),
    {
        if self.find_session_index(file.id).is_some() {
            return error(ENOSYS, ErrorKind::Busy);
        }
        if file.sha512.as_str().unicode_len() > 0 {
            let ghost pre = *self;
            let info = ObjInfo::new(file, full_path);
            self.pending_remove.push(info);
            proof {
                assert(self.pending_remove@.take(pre.pending_remove@.len() as int)
                    =~= pre.pending_remove@);
                assert(self.pending_remove@.last().v() =~= file_info(file.v(), full_path@));
            }
        }
        Ok(())
    }

    /// Move a file's object between two logical paths. Refused while the
    /// file is open; directories are not stored as objects.
    pub fn rename(&mut self, file: &FileRow, prev_full_path: &str, new_full_path: &str) -> (r:
        Result<(), SqlFileSystemError>)
        requires
            old(self).wf(),
            file.sha512@.len() == 0 || file.sha512@.len() >= 32,
        ensures
            final(self).wf(),
            final(self).cache@ == old(self).cache@,
            final(self).pending_remove@ == old(self).pending_remove@,
            old(self).has_session(file.id as int) ==> (r matches Err(e) && e.code == ENOSYS
                && e.kind == ErrorKind::Busy && *final(self) == *old(self)),
            !old(self).has_session(file.id as int) && file.kind == FILE_KIND_DIRECTORY ==> r is Ok
                && *final(self) == *old(self),
            !old(self).has_session(file.id as int) && file.kind != FILE_KIND_DIRECTORY ==> {
                let ip = file_info(file.v(), prev_full_path@);
                let inn = file_info(file.v(), new_full_path@);
                let kp = old(self).obj_storage.primary.blob_key(ip);
                let kn = old(self).obj_storage.primary.blob_key(inn);
                let movable = match old(self).obj_storage.primary {
                    ObjectStore::Encrypted(_) => crate::encrypted_object_storage::spec_parse_key(
                        file.encryption_key@,
                    ) is Some,
                    _ => true,
                };
                &&& r is Ok
                &&& !movable ==> final(self).obj_storage.primary == old(self).obj_storage.primary
                &&& movable && kp == kn ==> final(self).obj_storage.primary == old(self).obj_storage.primary
                &&& movable && !old(self).obj_storage.primary.inner().has_obj(kp) ==> final(self).obj_storage.primary == old(self).obj_storage.primary
                &&& movable && kp != kn && old(self).obj_storage.primary.inner().has_obj(kp)
                    ==> {
                    &&& !final(self).obj_storage.primary.inner().has_obj(kp)
                    &&& final(self).obj_storage.primary.inner().has_obj(kn)
                    &&& final(self).obj_storage.primary.inner().obj(kn) == old(self).obj_storage.primary.inner().obj(kp)
                    &&& forall|m: Seq<char>|
                        #![trigger final(self).obj_storage.primary.inner().has_obj(m)]
                        #![trigger final(self).obj_storage.primary.inner().obj(m)]
                        m != kp && m != kn ==> (final(self).obj_storage.primary.inner().has_obj(m)
                            == old(self).obj_storage.primary.inner().has_obj(m)) && (old(self).obj_storage.primary.inner().has_obj(m) ==> final(self).obj_storage.primary.inner().obj(m) == old(self).obj_storage.primary.inner().obj(m))
                }
            },
    {
        if self.find_session_index(file.id).is_some() {
            return error(ENOSYS, ErrorKind::Busy);
        }
        if file.kind == FILE_KIND_DIRECTORY {
            return Ok(());
        }
        let prev_info = ObjInfo::new(file, prev_full_path);
        let new_info = ObjInfo::new(file, new_full_path);
        match self.obj_storage.rename(&prev_info, &new_info) {
            Ok(_) => Ok(()),
            Err(e) => Err(e),
        }
    }

    /// Some deferred identity up to position `upto` is out of use under the
    /// primary's policy and addresses this archive key; only such keys may
    /// change during cleanup.
    pub open spec fn pending_clears(pre: Self, db: MetadataDB, upto: int, n: Seq<char>) -> bool {
        exists|x: int|
            0 <= x < upto && !SqlarObjectStorage::spec_in_use(
                db,
                pre.obj_storage.primary.cfg().use_hash_as_filename,
                #[trigger] pre.pending_remove@[x],
            ) && n == pre.obj_storage.primary.blob_key(pre.pending_remove@[x].v())
    }

    /// Apply the deferred removals against the index's deduplication
    /// tests, then forget them. A failure leaves the set for the next
    /// cleanup.
    pub fn cleanup(&mut self, db: &MetadataDB) -> (r: Result<(), SqlFileSystemError>)
        requires
            old(self).wf(),
            db.wf(),
        ensures
            final(self).wf(),
            final(self).cache@ == old(self).cache@,
            r is Ok ==> {
                &&& final(self).pending_remove@ =~= Seq::<ObjInfo>::empty()
                &&& forall|x: int|
                    0 <= x < old(self).pending_remove@.len()
                        && !SqlarObjectStorage::spec_in_use(
                        *db,
                        old(self).obj_storage.primary.cfg().use_hash_as_filename,
                        old(self).pending_remove@[x],
                    ) ==> !final(self).obj_storage.primary.inner().has_obj(
                        #[trigger] old(self).obj_storage.primary.blob_key(
                            old(self).pending_remove@[x].v(),
                        ),
                    )
            },
            r is Ok ==> forall|n: Seq<char>|
                #![trigger final(self).obj_storage.primary.inner().has_obj(n)]
                #![trigger final(self).obj_storage.primary.inner().obj(n)]
                !StorageInterface::pending_clears(
                    *old(self),
                    *db,
                    old(self).pending_remove@.len() as int,
                    n,
                ) ==> (final(self).obj_storage.primary.inner().has_obj(n) == old(self).obj_storage.primary.inner().has_obj(n)) && (old(self).obj_storage.primary.inner().has_obj(n) ==> final(self).obj_storage.primary.inner().obj(n) == old(self).obj_storage.primary.inner().obj(
                    n,
                )),
            r is Err ==> final(self).pending_remove@ == old(self).pending_remove@,
            old(self).pending_remove@.len() == 0 ==> r is Ok && final(self).obj_storage == old(self).obj_storage,
    {
        let n = self.pending_remove.len();
        let mut j: usize = 0;
        while j < n
            invariant
                db.wf(),
                n == self.pending_remove@.len(),
                j <= n,
                self.pending_remove@ == old(self).pending_remove@,
                forall|x: int|
                    0 <= x < self.pending_remove@.len() ==> (
                    #[trigger] self.pending_remove@[x]).sha512@.len() == 0
                        || self.pending_remove@[x].sha512@.len() >= 32,
                self.cache@ == old(self).cache@,
                self.obj_storage.wf(),
                forall|i: int, x: int|
                    0 <= i < x < self.cache@.len() ==> #[trigger] self.cache@[i].0
                        != #[trigger] self.cache@[x].0,
                ObjectStore::shape_eq(
                    old(self).obj_storage.primary,
                    self.obj_storage.primary,
                ),
                forall|x: int|
                    0 <= x < j && !SqlarObjectStorage::spec_in_use(
                        *db,
                        old(self).obj_storage.primary.cfg().use_hash_as_filename,
                        old(self).pending_remove@[x],
                    ) ==> !self.obj_storage.primary.inner().has_obj(
                        #[trigger] old(self).obj_storage.primary.blob_key(
                            old(self).pending_remove@[x].v(),
                        ),
                    ),
                old(self).pending_remove@.len() == 0 ==> self.obj_storage == old(self).obj_storage,
                forall|m: Seq<char>|
                    #![trigger self.obj_storage.primary.inner().has_obj(m)]
                    #![trigger self.obj_storage.primary.inner().obj(m)]
                    !StorageInterface::pending_clears(*old(self), *db, j as int, m) ==> (
                    self.obj_storage.primary.inner().has_obj(m) == old(self).obj_storage.primary.inner().has_obj(m)) && (old(self).obj_storage.primary.inner().has_obj(m) ==> self.obj_storage.primary.inner().obj(
                        m,
                    ) == old(self).obj_storage.primary.inner().obj(m)),
            decreases n - j,
        {
            let ghost before = *self;
            proof {
                crate::object_store::lemma_shape_key(
                    old(self).obj_storage.primary,
                    self.obj_storage.primary,
                );
            }
            match self.obj_storage.remove(&self.pending_remove[j], db) {
                Ok(_) => {},
                Err(e) => {
                    return Err(e);
                },
            }
            proof {
                crate::object_store::lemma_shape_key(
                    before.obj_storage.primary,
                    self.obj_storage.primary,
                );
            }
            j = j + 1;
        }
        self.pending_remove.clear();
        Ok(())
    }

    /// Forget every session and pending removal and empty the store.
    pub fn nuke(&mut self) -> (r: Result<(), SqlFileSystemError>)
        requires
            old(self).wf(),
        ensures
            r is Ok,
            final(self).wf(),
            final(self).cache@ =~= Seq::<(i64, StorageInterfaceCache)>::empty(),
            final(self).pending_remove@ =~= Seq::<ObjInfo>::empty(),
            forall|m: Seq<char>| !final(self).obj_storage.primary.inner().has_obj(m),
    {
        self.cache.clear();
        self.pending_remove.clear();
        self.obj_storage.nuke()
    }
}

} // verus!
