//! The metadata index: files, directory entries, persistent settings and
//! the append-only change log, with the parent/child graph rooted at the
//! well-known root id. The index is held in memory as plain tables whose
//! contracts are stated over id-keyed mathematical views.

use crate::errors::{error, ErrorKind, SqlFileSystemError, EEXIST, EIO};
use crate::hexcodec::hex_of;
use crate::crypto::{sha512, sha512_of};
use crate::strutil::{split_slashes, str_eq};
use crate::utils::{current_timestamp, dec_str_of, i64_to_string};
use vstd::prelude::*;

verus! {

pub const ROOT_DIRECTORY_ID: i64 = 1;

pub const FILE_KIND_REGULAR: i64 = 0;

pub const FILE_KIND_DIRECTORY: i64 = 1;

/// A row of the files table.
#[derive(Debug, Clone)]
pub struct FileRow {
    pub id: i64,
    pub version: i64,
    pub kind: i64,
    pub name: String,
    pub uid: i64,
    pub gid: i64,
    pub perms: i64,
    pub size: i64,
    pub sha512: String,
    pub encryption_key: String,
    pub compression: String,
    pub accessed_at: i64,
    pub created_at: i64,
    pub updated_at: i64,
}

/// The mathematical value of a file row.
#[verifier::ext_equal]
pub ghost struct FileV {
    pub id: int,
    pub version: int,
    pub kind: int,
    pub name: Seq<char>,
    pub uid: int,
    pub gid: int,
    pub perms: int,
    pub size: int,
    pub sha512: Seq<char>,
    pub encryption_key: Seq<char>,
    pub compression: Seq<char>,
    pub accessed_at: int,
    pub created_at: int,
    pub updated_at: int,
}

impl FileRow {
    /// The mathematical view of the row.
    pub open spec fn v(&self) -> FileV {
        FileV {
            id: self.id as int,
            version: self.version as int,
            kind: self.kind as int,
            name: self.name@,
            uid: self.uid as int,
            gid: self.gid as int,
            perms: self.perms as int,
            size: self.size as int,
            sha512: self.sha512@,
            encryption_key: self.encryption_key@,
            compression: self.compression@,
            accessed_at: self.accessed_at as int,
            created_at: self.created_at as int,
            updated_at: self.updated_at as int,
        }
    }

    /// A deep copy whose view is the same.
    pub fn duplicate(&self) -> (r: FileRow)
        ensures
            r.v() == self.v(),
    {
        FileRow {
            id: self.id,
            version: self.version,
            kind: self.kind,
            name: self.name.clone(),
            uid: self.uid,
            gid: self.gid,
            perms: self.perms,
            size: self.size,
            sha512: self.sha512.clone(),
            encryption_key: self.encryption_key.clone(),
            compression: self.compression.clone(),
            accessed_at: self.accessed_at,
            created_at: self.created_at,
            updated_at: self.updated_at,
        }
    }

    /// The string whose SHA-512 digest serves as the row's content-derived
    /// short identity in the change log.
    pub open spec fn digest_str(f: FileV) -> Seq<char> {
        dec_str_of(f.id) + dec_str_of(f.kind) + f.name + dec_str_of(f.uid) + dec_str_of(f.gid)
            + dec_str_of(f.perms) + dec_str_of(f.size) + f.sha512 + f.encryption_key + dec_str_of(
            f.created_at,
        ) + dec_str_of(f.updated_at)
    }

    /// The hex SHA-512 digest over the row's identifying fields.
    pub fn hash(&self) -> (r: String)
        ensures
            r@ == hex_of(sha512_of(vstd::utf8::encode_utf8(FileRow::digest_str(self.v())))),
            r@.len() == 128,
    {
        let mut s = String::new();
        s.append(i64_to_string(self.id).as_str());
        s.append(i64_to_string(self.kind).as_str());
        s.append(self.name.as_str());
        s.append(i64_to_string(self.uid).as_str());
        s.append(i64_to_string(self.gid).as_str());
        s.append(i64_to_string(self.perms).as_str());
        s.append(i64_to_string(self.size).as_str());
        s.append(self.sha512.as_str());
        s.append(self.encryption_key.as_str());
        s.append(i64_to_string(self.created_at).as_str());
        s.append(i64_to_string(self.updated_at).as_str());
        proof {
            assert(s@ =~= FileRow::digest_str(self.v()));
        }
        let digest = sha512(s.as_str().as_bytes());
        let r = crate::hexcodec::hex_encode(digest.as_slice());
        proof {
            crate::hexcodec::lemma_hex_of_is_hex_seq(digest@);
        }
        r
    }
}

/// A row of the directory-entry table.
#[derive(Debug, Clone)]
pub struct DirectoryEntry {
    pub id: i64,
    pub directory_file_id: i64,
    pub entry_file_id: i64,
    pub name: String,
    pub kind: i64,
}

/// The mathematical value of a directory entry.
#[verifier::ext_equal]
pub ghost struct EntryV {
    pub id: int,
    pub directory_file_id: int,
    pub entry_file_id: int,
    pub name: Seq<char>,
    pub kind: int,
}

impl DirectoryEntry {
    /// The mathematical view of the entry.
    pub open spec fn v(&self) -> EntryV {
        EntryV {
            id: self.id as int,
            directory_file_id: self.directory_file_id as int,
            entry_file_id: self.entry_file_id as int,
            name: self.name@,
            kind: self.kind as int,
        }
    }

    /// A deep copy whose view is the same.
    pub fn duplicate(&self) -> (r: DirectoryEntry)
        ensures
            r.v() == self.v(),
    {
        DirectoryEntry {
            id: self.id,
            directory_file_id: self.directory_file_id,
            entry_file_id: self.entry_file_id,
            name: self.name.clone(),
            kind: self.kind,
        }
    }
}

/// An entry that is neither `.` nor `..`: a real parent link.
pub open spec fn is_parent_link(e: EntryV) -> bool {
    e.name != "."@ && e.name != ".."@
}

/// The kinds of change recorded in the file-change log.
#[derive(Debug, Clone, Copy, PartialEq, Eq, Structural)]
pub enum FileChangeKind {
    Created,
    UpdatedMetadata,
    UpdatedContents,
    Deleted,
}

impl FileChangeKind {
    /// The numeric code a change kind is stored under.
    pub fn to_i64(&self) -> (r: i64)
        ensures
            r == self.spec_i64(),
    {
        match self {
            FileChangeKind::Created => 0,
            FileChangeKind::UpdatedMetadata => 1,
            FileChangeKind::UpdatedContents => 2,
            FileChangeKind::Deleted => 3,
        }
    }

    /// The numeric code, at the specification level.
    pub open spec fn spec_i64(&self) -> int {
        match self {
            FileChangeKind::Created => 0,
            FileChangeKind::UpdatedMetadata => 1,
            FileChangeKind::UpdatedContents => 2,
            FileChangeKind::Deleted => 3,
        }
    }
}

/// A row of the append-only change log.
#[derive(Debug, Clone)]
pub struct FileChange {
    pub file_id: i64,
    pub file_version: i64,
    pub kind: i64,
    pub file_hash: String,
    pub changed_at: i64,
}

/// A persistent setting row.
#[derive(Debug, Clone)]
pub struct Setting {
    pub name: String,
    pub value: String,
    pub updated_at: i64,
}

/// The metadata index itself: plain tables plus the id counters.
pub struct MetadataDB {
    pub files: Vec<FileRow>,
    pub entries: Vec<DirectoryEntry>,
    pub changes: Vec<FileChange>,
    pub settings: Vec<Setting>,
    pub next_file_id: i64,
    pub next_entry_id: i64,
}

impl MetadataDB {
    /// Table well-formedness: ids are positive, unique, and below the
    /// counters; directory entries are unique per (directory, name) pair.
    pub open spec fn wf(&self) -> bool {
        &&& 1 <= self.next_file_id
        &&& 1 <= self.next_entry_id
        &&& forall|i: int|
            0 <= i < self.files@.len() ==> 1 <= #[trigger] self.files@[i].id
                < self.next_file_id
        &&& forall|i: int, j: int|
            0 <= i < j < self.files@.len() ==> #[trigger] self.files@[i].id
                != #[trigger] self.files@[j].id
        &&& forall|i: int|
            0 <= i < self.files@.len() ==> #[trigger] self.files@[i].version >= 1
        &&& forall|i: int|
            0 <= i < self.entries@.len() ==> 1 <= #[trigger] self.entries@[i].id
                < self.next_entry_id
        &&& forall|i: int, j: int|
            0 <= i < j < self.entries@.len() ==> #[trigger] self.entries@[i].id
                != #[trigger] self.entries@[j].id
        &&& forall|i: int, j: int|
            0 <= i < j < self.entries@.len() ==> !(#[trigger] self.entries@[i].directory_file_id
                == #[trigger] self.entries@[j].directory_file_id && self.entries@[i].name@
                == self.entries@[j].name@)
        &&& forall|i: int, j: int|
            0 <= i < j < self.settings@.len() ==> #[trigger] self.settings@[i].name@
                != #[trigger] self.settings@[j].name@
    }

    /// Whether a file with this id exists.
    pub open spec fn has_file(&self, id: int) -> bool {
        exists|i: int| 0 <= i < self.files@.len() && #[trigger] self.files@[i].id == id
    }

    /// The table position of the file with this id.
    pub open spec fn file_idx(&self, id: int) -> int {
        choose|i: int| 0 <= i < self.files@.len() && #[trigger] self.files@[i].id == id
    }

    /// The file with this id.
    pub open spec fn file(&self, id: int) -> FileV {
        self.files@[self.file_idx(id)].v()
    }

    /// Whether the directory holds an entry of this name.
    pub open spec fn has_entry(&self, dir: int, name: Seq<char>) -> bool {
        exists|i: int|
            0 <= i < self.entries@.len() && #[trigger] self.entries@[i].directory_file_id == dir
                && self.entries@[i].name@ == name
    }

    /// The table position of the entry with this directory and name.
    pub open spec fn entry_idx(&self, dir: int, name: Seq<char>) -> int {
        choose|i: int|
            0 <= i < self.entries@.len() && #[trigger] self.entries@[i].directory_file_id == dir
                && self.entries@[i].name@ == name
    }

    /// The entry with this directory and name.
    pub open spec fn entry(&self, dir: int, name: Seq<char>) -> EntryV {
        self.entries@[self.entry_idx(dir, name)].v()
    }

    /// Nothing changed among the files but (possibly) the one with this id.
    pub open spec fn files_frame(pre: Self, post: Self, id: int) -> bool {
        forall|o: int|
            #![trigger post.has_file(o)]
            #![trigger post.file(o)]
            o != id ==> (post.has_file(o) == pre.has_file(o)) && (pre.has_file(o)
                ==> post.file(o) == pre.file(o))
    }

    /// Nothing changed among the entries but (possibly) the named one.
    pub open spec fn entries_frame(pre: Self, post: Self, dir: int, name: Seq<char>) -> bool {
        forall|d: int, n: Seq<char>|
            #![trigger post.has_entry(d, n)]
            #![trigger post.entry(d, n)]
            !(d == dir && n == name) ==> (post.has_entry(d, n) == pre.has_entry(d, n)) && (
            pre.has_entry(d, n) ==> post.entry(d, n) == pre.entry(d, n))
    }

    /// Two states with the same files table answer every file lookup alike.
    pub proof fn lemma_files_agree(a: Self, b: Self)
        requires
            a.wf(),
            b.files@ == a.files@,
        ensures
            forall|id: int| #![trigger b.has_file(id)] b.has_file(id) == a.has_file(id),
            forall|id: int|
                #![trigger b.file(id)]
                a.has_file(id) ==> b.file(id) == a.file(id),
    {
        assert forall|id: int| b.has_file(id) == a.has_file(id) by {
            if a.has_file(id) {
                let k = choose|k: int|
                    0 <= k < a.files@.len() && #[trigger] a.files@[k].id == id;
                assert(b.files@[k].id == id);
            }
            if b.has_file(id) {
                let k = choose|k: int|
                    0 <= k < b.files@.len() && #[trigger] b.files@[k].id == id;
                assert(a.files@[k].id == id);
            }
        }
        assert forall|id: int| a.has_file(id) implies b.file(id) == a.file(id) by {
            let ka = a.file_idx(id);
            let kb = b.file_idx(id);
            assert(a.files@[ka].id == id);
            assert(b.files@[kb].id == id);
            if ka != kb {
                if ka < kb {
                    assert(a.files@[ka].id != a.files@[kb].id);
                } else {
                    assert(a.files@[kb].id != a.files@[ka].id);
                }
            }
        }
    }

    /// Two states with the same entries table answer every entry lookup
    /// alike.
    pub proof fn lemma_entries_agree(a: Self, b: Self)
        requires
            a.wf(),
            b.entries@ == a.entries@,
        ensures
            forall|d: int, n: Seq<char>|
                #![trigger b.has_entry(d, n)]
                b.has_entry(d, n) == a.has_entry(d, n),
            forall|d: int, n: Seq<char>|
                #![trigger b.entry(d, n)]
                a.has_entry(d, n) ==> b.entry(d, n) == a.entry(d, n),
    {
        assert forall|d: int, n: Seq<char>| b.has_entry(d, n) == a.has_entry(d, n) by {
            if a.has_entry(d, n) {
                let k = choose|k: int|
                    0 <= k < a.entries@.len() && #[trigger] a.entries@[k].directory_file_id == d
                        && a.entries@[k].name@ == n;
                assert(b.entries@[k].directory_file_id == d && b.entries@[k].name@ == n);
            }
            if b.has_entry(d, n) {
                let k = choose|k: int|
                    0 <= k < b.entries@.len() && #[trigger] b.entries@[k].directory_file_id == d
                        && b.entries@[k].name@ == n;
                assert(a.entries@[k].directory_file_id == d && a.entries@[k].name@ == n);
            }
        }
        assert forall|d: int, n: Seq<char>| a.has_entry(d, n) implies b.entry(d, n) == a.entry(
            d,
            n,
        ) by {
            let ka = a.entry_idx(d, n);
            let kb = b.entry_idx(d, n);
            assert(a.entries@[ka].directory_file_id == d && a.entries@[ka].name@ == n);
            assert(b.entries@[kb].directory_file_id == d && b.entries@[kb].name@ == n);
            if ka != kb {
                if ka < kb {
                    assert(!(a.entries@[ka].directory_file_id == a.entries@[kb].directory_file_id
                        && a.entries@[ka].name@ == a.entries@[kb].name@));
                } else {
                    assert(!(a.entries@[kb].directory_file_id == a.entries@[ka].directory_file_id
                        && a.entries@[kb].name@ == a.entries@[ka].name@));
                }
            }
        }
    }

    /// Pin the table position of a file id.
    pub proof fn lemma_file_at(&self, i: int)
        requires
            self.wf(),
            0 <= i < self.files@.len(),
        ensures
            self.has_file(self.files@[i].id as int),
            self.file_idx(self.files@[i].id as int) == i,
            self.file(self.files@[i].id as int) == self.files@[i].v(),
    {
        let id = self.files@[i].id as int;
        assert(self.has_file(id));
        let k = self.file_idx(id);
        if k != i {
            if k < i {
                assert(self.files@[k].id != self.files@[i].id);
            } else {
                assert(self.files@[i].id != self.files@[k].id);
            }
        }
    }

    /// Pin the table position of an entry.
    pub proof fn lemma_entry_at(&self, i: int)
        requires
            self.wf(),
            0 <= i < self.entries@.len(),
        ensures
            self.has_entry(self.entries@[i].directory_file_id as int, self.entries@[i].name@),
            self.entry_idx(self.entries@[i].directory_file_id as int, self.entries@[i].name@) == i,
            self.entry(self.entries@[i].directory_file_id as int, self.entries@[i].name@)
                == self.entries@[i].v(),
    {
        let d = self.entries@[i].directory_file_id as int;
        let n = self.entries@[i].name@;
        assert(self.has_entry(d, n));
        let k = self.entry_idx(d, n);
        if k != i {
            if k < i {
                assert(!(self.entries@[k].directory_file_id == self.entries@[i].directory_file_id
                    && self.entries@[k].name@ == self.entries@[i].name@));
            } else {
                assert(!(self.entries@[i].directory_file_id == self.entries@[k].directory_file_id
                    && self.entries@[i].name@ == self.entries@[k].name@));
            }
        }
    }

    /// Open a fresh index, pre-seeded with the root directory and its two
    /// synthetic self-entries.
    pub fn new() -> (db: MetadataDB)
        ensures
            db.wf(),
            db.has_file(ROOT_DIRECTORY_ID as int),
            db.file(ROOT_DIRECTORY_ID as int) == (FileV {
                id: ROOT_DIRECTORY_ID as int,
                version: 1,
                kind: FILE_KIND_DIRECTORY as int,
                name: "/"@,
                uid: 0,
                gid: 0,
                perms: 0o755,
                size: 0,
                sha512: ""@,
                encryption_key: ""@,
                compression: ""@,
                accessed_at: 0,
                created_at: 0,
                updated_at: 0,
            }),
            forall|o: int| o != ROOT_DIRECTORY_ID as int ==> !db.has_file(o),
            db.has_entry(ROOT_DIRECTORY_ID as int, "."@),
            db.has_entry(ROOT_DIRECTORY_ID as int, ".."@),
            db.entry(ROOT_DIRECTORY_ID as int, "."@).entry_file_id == ROOT_DIRECTORY_ID as int,
            db.entry(ROOT_DIRECTORY_ID as int, ".."@).entry_file_id == ROOT_DIRECTORY_ID as int,
            forall|d: int, n: Seq<char>|
                #[trigger] db.has_entry(d, n) ==> d == ROOT_DIRECTORY_ID as int && (n == "."@ || n
                    == ".."@),
            db.changes@ =~= Seq::<FileChange>::empty(),
            db.settings@ =~= Seq::<Setting>::empty(),
    {
        let root = FileRow {
            id: ROOT_DIRECTORY_ID,
            version: 1,
            kind: FILE_KIND_DIRECTORY,
            name: String::from_str("/"),
            uid: 0,
            gid: 0,
            perms: 0o755,
            size: 0,
            sha512: String::new(),
            encryption_key: String::new(),
            compression: String::new(),
            accessed_at: 0,
            created_at: 0,
            updated_at: 0,
        };
        let dot = DirectoryEntry {
            id: 1,
            directory_file_id: ROOT_DIRECTORY_ID,
            entry_file_id: ROOT_DIRECTORY_ID,
            name: String::from_str("."),
            kind: FILE_KIND_DIRECTORY,
        };
        let dotdot = DirectoryEntry {
            id: 2,
            directory_file_id: ROOT_DIRECTORY_ID,
            entry_file_id: ROOT_DIRECTORY_ID,
            name: String::from_str(".."),
            kind: FILE_KIND_DIRECTORY,
        };
        let mut files: Vec<FileRow> = Vec::new();
        files.push(root);
        let mut entries: Vec<DirectoryEntry> = Vec::new();
        entries.push(dot);
        entries.push(dotdot);
        let db = MetadataDB {
            files,
            entries,
            changes: Vec::new(),
            settings: Vec::new(),
            next_file_id: 2,
            next_entry_id: 3,
        };
        proof {
            reveal_strlit(".");
            reveal_strlit("..");
            reveal_strlit("/");
            reveal_strlit("");
            assert(("."@).len() == 1);
            assert((".."@).len() == 2);
            assert("."@ != ".."@);
            assert(""@ =~= Seq::<char>::empty());
            assert(db.wf());
            db.lemma_file_at(0);
            assert(db.files@[0].v() =~= (FileV {
                id: ROOT_DIRECTORY_ID as int,
                version: 1,
                kind: FILE_KIND_DIRECTORY as int,
                name: "/"@,
                uid: 0,
                gid: 0,
                perms: 0o755,
                size: 0,
                sha512: ""@,
                encryption_key: ""@,
                compression: ""@,
                accessed_at: 0,
                created_at: 0,
                updated_at: 0,
            }));
            db.lemma_entry_at(0);
            db.lemma_entry_at(1);
            assert forall|o: int| o != ROOT_DIRECTORY_ID as int implies !db.has_file(o) by {
                if db.has_file(o) {
                    let i = choose|i: int|
                        0 <= i < db.files@.len() && #[trigger] db.files@[i].id == o;
                    assert(db.files@[i].id == 1);
                }
            }
            assert forall|d: int, n: Seq<char>| #[trigger] db.has_entry(d, n) implies d
                == ROOT_DIRECTORY_ID as int && (n == "."@ || n == ".."@) by {
                let i = choose|i: int|
                    0 <= i < db.entries@.len() && #[trigger] db.entries@[i].directory_file_id == d
                        && db.entries@[i].name@ == n;
            }
        }
        db
    }

    /// Look up the table position of a file id.
    fn find_file_index(&self, id: i64) -> (r: Option<usize>)
        requires
            self.wf(),
        ensures
            match r {
                Some(i) => i < self.files@.len() && self.files@[i as int].id == id && self.has_file(
                    id as int,
                ) && self.file_idx(id as int) == i,
                None => !self.has_file(id as int),
            },
    {
        let n = self.files.len();
        let mut i: usize = 0;
        while i < n
            invariant
                self.wf(),
                n == self.files@.len(),
                i <= n,
                forall|j: int| 0 <= j < i ==> #[trigger] self.files@[j].id != id,
            decreases n - i,
        {
            if self.files[i].id == id {
                proof {
                    self.lemma_file_at(i as int);
                }
                return Some(i);
            }
            i = i + 1;
        }
        proof {
            if self.has_file(id as int) {
                let k = choose|k: int|
                    0 <= k < self.files@.len() && #[trigger] self.files@[k].id == id;
                assert(self.files@[k].id != id);
            }
        }
        None
    }

    /// Fetch a file row by id.
    pub fn get_file(&self, id: i64) -> (r: Option<FileRow>)
        requires
            self.wf(),
        ensures
            r is Some <==> self.has_file(id as int),
            r matches Some(f) ==> f.v() == self.file(id as int),
    {
        match self.find_file_index(id) {
            Some(i) => Some(self.files[i].duplicate()),
            None => None,
        }
    }

    /// Fetch just the version of a file.
    pub fn get_file_version(&self, id: i64) -> (r: Option<i64>)
        requires
            self.wf(),
        ensures
            r is Some <==> self.has_file(id as int),
            r matches Some(v) ==> v == self.file(id as int).version,
    {
        match self.find_file_index(id) {
            Some(i) => Some(self.files[i].version),
            None => None,
        }
    }

    /// Insert a new file row. The id and version are assigned by the index:
    /// the stored row carries a fresh id and version 1.
    pub fn add_file(&mut self, file: &FileRow) -> (r: Result<i64, SqlFileSystemError>)
        requires
            old(self).wf(),
        ensures
            match r {
                Ok(id) => {
                    &&& id == old(self).next_file_id
                    &&& final(self).next_file_id == old(self).next_file_id + 1
                    &&& final(self).wf()
                    &&& final(self).has_file(id as int)
                    &&& final(self).file(id as int) == (FileV {
                        id: id as int,
                        version: 1,
                        ..file.v()
                    })
                    &&& MetadataDB::files_frame(*old(self), *final(self), id as int)
                    &&& !old(self).has_file(id as int)
                    &&& final(self).entries@ == old(self).entries@
                    &&& final(self).changes@ == old(self).changes@
                    &&& final(self).settings@ == old(self).settings@
                    &&& final(self).next_entry_id == old(self).next_entry_id
                },
                Err(e) => {
                    &&& e.code == EIO && e.kind == ErrorKind::IoError
                    &&& *final(self) == *old(self)
                    &&& old(self).next_file_id == i64::MAX
                },
            },
    {
        if self.next_file_id == i64::MAX {
            return error(EIO, ErrorKind::IoError);
        }
        let id = self.next_file_id;
        let row = FileRow {
            id,
            version: 1,
            kind: file.kind,
            name: file.name.clone(),
            uid: file.uid,
            gid: file.gid,
            perms: file.perms,
            size: file.size,
            sha512: file.sha512.clone(),
            encryption_key: file.encryption_key.clone(),
            compression: file.compression.clone(),
            accessed_at: file.accessed_at,
            created_at: file.created_at,
            updated_at: file.updated_at,
        };
        let ghost pre = *self;
        self.files.push(row);
        self.next_file_id = id + 1;
        proof {
            let n = pre.files@.len() as int;
            assert(self.files@[n].v() =~= (FileV { id: id as int, version: 1, ..file.v() }));
            assert(self.wf());
            self.lemma_file_at(n);
            if pre.has_file(id as int) {
                let k = choose|k: int|
                    0 <= k < pre.files@.len() && #[trigger] pre.files@[k].id == id;
                assert(pre.files@[k].id < pre.next_file_id);
            }
            assert forall|o: int| o != id as int implies (self.has_file(o) == pre.has_file(o)) && (
            pre.has_file(o) ==> self.file(o) == pre.file(o)) by {
                if pre.has_file(o) {
                    let k = choose|k: int|
                        0 <= k < pre.files@.len() && #[trigger] pre.files@[k].id == o;
                    assert(self.files@[k].id == o);
                    self.lemma_file_at(k);
                    pre.lemma_file_at(k);
                }
                if self.has_file(o) {
                    let k = choose|k: int|
                        0 <= k < self.files@.len() && #[trigger] self.files@[k].id == o;
                    assert(k < pre.files@.len());
                    assert(pre.files@[k].id == o);
                    assert(pre.has_file(o));
                }
            }
        }
        Ok(id)
    }

    /// Look up the table position of a directory entry by directory and name.
    fn find_entry_index(&self, dir: i64, name: &str) -> (r: Option<usize>)
        requires
            self.wf(),
        ensures
            match r {
                Some(i) => i < self.entries@.len() && self.entries@[i as int].directory_file_id
                    == dir && self.entries@[i as int].name@ == name@ && self.has_entry(
                    dir as int,
                    name@,
                ) && self.entry_idx(dir as int, name@) == i,
                None => !self.has_entry(dir as int, name@),
            },
    {
        let n = self.entries.len();
        let mut i: usize = 0;
        while i < n
            invariant
                self.wf(),
                n == self.entries@.len(),
                i <= n,
                forall|j: int|
                    0 <= j < i ==> !(#[trigger] self.entries@[j].directory_file_id == dir
                        && self.entries@[j].name@ == name@),
            decreases n - i,
        {
            if self.entries[i].directory_file_id == dir && str_eq(self.entries[i].name.as_str(), name) {
                proof {
                    self.lemma_entry_at(i as int);
                }
                return Some(i);
            }
            i = i + 1;
        }
        proof {
            if self.has_entry(dir as int, name@) {
                let k = choose|k: int|
                    0 <= k < self.entries@.len() && #[trigger] self.entries@[k].directory_file_id
                        == dir && self.entries@[k].name@ == name@;
                assert(!(self.entries@[k].directory_file_id == dir && self.entries@[k].name@
                    == name@));
            }
        }
        None
    }

    /// Fetch the entry of a directory with the given name.
    pub fn find_directory_entry(&self, directory_file_id: i64, name: &str) -> (r: Option<
        DirectoryEntry,
    >)
        requires
            self.wf(),
        ensures
            r is Some <==> self.has_entry(directory_file_id as int, name@),
            r matches Some(e) ==> e.v() == self.entry(directory_file_id as int, name@),
    {
        match self.find_entry_index(directory_file_id, name) {
            Some(i) => Some(self.entries[i].duplicate()),
            None => None,
        }
    }

    /// Whether some entry outside `.`/`..` points at this file, and through
    /// which directory. The returned directory is the one of the first such
    /// entry in table order.
    pub open spec fn has_parent_link(&self, fid: int) -> bool {
        exists|i: int|
            0 <= i < self.entries@.len() && #[trigger] self.entries@[i].entry_file_id == fid
                && is_parent_link(self.entries@[i].v())
    }

    /// Find the directory that holds the parent link of a file.
    pub fn find_parent_directory(&self, file_id: i64) -> (r: Option<i64>)
        requires
            self.wf(),
        ensures
            r is Some <==> self.has_parent_link(file_id as int),
            r matches Some(d) ==> exists|i: int|
                0 <= i < self.entries@.len() && #[trigger] self.entries@[i].entry_file_id == file_id
                    && is_parent_link(self.entries@[i].v()) && self.entries@[i].directory_file_id
                    == d,
    {
        let n = self.entries.len();
        let mut i: usize = 0;
        while i < n
            invariant
                self.wf(),
                n == self.entries@.len(),
                i <= n,
                forall|j: int|
                    0 <= j < i ==> !(#[trigger] self.entries@[j].entry_file_id == file_id
                        && is_parent_link(self.entries@[j].v())),
            decreases n - i,
        {
            let e = &self.entries[i];
            if e.entry_file_id == file_id && !str_eq(e.name.as_str(), ".") && !str_eq(
                e.name.as_str(),
                "..",
            ) {
                return Some(e.directory_file_id);
            }
            i = i + 1;
        }
        proof {
            if self.has_parent_link(file_id as int) {
                let k = choose|k: int|
                    0 <= k < self.entries@.len() && #[trigger] self.entries@[k].entry_file_id
                        == file_id && is_parent_link(self.entries@[k].v());
                assert(!(self.entries@[k].entry_file_id == file_id && is_parent_link(
                    self.entries@[k].v(),
                )));
            }
        }
        None
    }

    /// Bump the version of a file row in place, if the file exists.
    /// Fails only when the version counter would overflow.
    fn bump_version(&mut self, id: i64) -> (r: Result<(), SqlFileSystemError>)
        requires
            old(self).wf(),
        ensures
            match r {
                Ok(_) => {
                    &&& final(self).wf()
                    &&& final(self).has_file(id as int) == old(self).has_file(id as int)
                    &&& old(self).has_file(id as int) ==> final(self).file(id as int) == (FileV {
                        version: old(self).file(id as int).version + 1,
                        ..old(self).file(id as int)
                    })
                    &&& MetadataDB::files_frame(*old(self), *final(self), id as int)
                    &&& final(self).entries@ == old(self).entries@
                    &&& final(self).changes@ == old(self).changes@
                    &&& final(self).settings@ == old(self).settings@
                    &&& final(self).next_file_id == old(self).next_file_id
                    &&& final(self).next_entry_id == old(self).next_entry_id
                },
                Err(e) => {
                    &&& e.code == EIO && e.kind == ErrorKind::IoError
                    &&& *final(self) == *old(self)
                    &&& old(self).has_file(id as int) && old(self).file(id as int).version
                        == i64::MAX
                },
            },
    {
        let idx = match self.find_file_index(id) {
            Some(i) => i,
            None => {
                return Ok(());
            },
        };
        if self.files[idx].version == i64::MAX {
            proof {
                self.lemma_file_at(idx as int);
            }
            return error(EIO, ErrorKind::IoError);
        }
        let ghost pre = *self;
        let row = self.files[idx].duplicate();
        let new_version = row.version + 1;
        self.files[idx] = FileRow { version: new_version, ..row };
        proof {
            Self::lemma_update_at(pre, *self, idx as int);
            assert(self.file(id as int) =~= (FileV {
                version: pre.file(id as int).version + 1,
                ..pre.file(id as int)
            }));
        }
        Ok(())
    }

    /// After replacing one row by another with the same id, every lookup is
    /// unchanged except at that id.
    proof fn lemma_update_at(pre: Self, post: Self, idx: int)
        requires
            pre.wf(),
            0 <= idx < pre.files@.len(),
            post.files@ == pre.files@.update(idx, post.files@[idx]),
            post.files@[idx].id == pre.files@[idx].id,
            post.files@[idx].version >= 1,
            post.entries@ == pre.entries@,
            post.settings@ == pre.settings@,
            post.next_file_id == pre.next_file_id,
            post.next_entry_id == pre.next_entry_id,
        ensures
            post.wf(),
            MetadataDB::files_frame(pre, post, pre.files@[idx].id as int),
            post.has_file(pre.files@[idx].id as int),
            post.file(pre.files@[idx].id as int) == post.files@[idx].v(),
            pre.has_file(pre.files@[idx].id as int),
            pre.file(pre.files@[idx].id as int) == pre.files@[idx].v(),
    {
        let id = pre.files@[idx].id as int;
        assert(post.wf());
        post.lemma_file_at(idx);
        pre.lemma_file_at(idx);
        assert forall|o: int| o != id implies (post.has_file(o) == pre.has_file(o)) && (
        pre.has_file(o) ==> post.file(o) == pre.file(o)) by {
            if pre.has_file(o) {
                let k = choose|k: int|
                    0 <= k < pre.files@.len() && #[trigger] pre.files@[k].id == o;
                assert(post.files@[k].id == o);
                post.lemma_file_at(k);
                pre.lemma_file_at(k);
            }
            if post.has_file(o) {
                let k = choose|k: int|
                    0 <= k < post.files@.len() && #[trigger] post.files@[k].id == o;
                assert(pre.files@[k].id == o);
            }
        }
    }

    /// Replace a file row. The stored version is incremented past the row's
    /// previous version; every other field is taken from the argument. A row
    /// whose id is unknown is left alone, as a relational UPDATE would.
    pub fn update_file(&mut self, file: &FileRow) -> (r: Result<(), SqlFileSystemError>)
        requires
            old(self).wf(),
        ensures
            match r {
                Ok(_) => {
                    &&& final(self).wf()
                    &&& final(self).has_file(file.id as int) == old(self).has_file(file.id as int)
                    &&& old(self).has_file(file.id as int) ==> final(self).file(file.id as int)
                        == (FileV {
                        version: old(self).file(file.id as int).version + 1,
                        ..file.v()
                    })
                    &&& MetadataDB::files_frame(*old(self), *final(self), file.id as int)
                    &&& final(self).entries@ == old(self).entries@
                    &&& final(self).changes@ == old(self).changes@
                    &&& final(self).settings@ == old(self).settings@
                    &&& final(self).next_file_id == old(self).next_file_id
                    &&& final(self).next_entry_id == old(self).next_entry_id
                },
                Err(e) => {
                    &&& e.code == EIO && e.kind == ErrorKind::IoError
                    &&& *final(self) == *old(self)
                    &&& old(self).has_file(file.id as int) && old(self).file(
                        file.id as int,
                    ).version == i64::MAX
                },
            },
    {
        let idx = match self.find_file_index(file.id) {
            Some(i) => i,
            None => {
                return Ok(());
            },
        };
        if self.files[idx].version == i64::MAX {
            proof {
                self.lemma_file_at(idx as int);
            }
            return error(EIO, ErrorKind::IoError);
        }
        let ghost pre = *self;
        let old_version = self.files[idx].version;
        let mut row = file.duplicate();
        row.version = old_version + 1;
        self.files[idx] = row;
        proof {
            Self::lemma_update_at(pre, *self, idx as int);
            assert(self.file(file.id as int) =~= (FileV {
                version: pre.file(file.id as int).version + 1,
                ..file.v()
            }));
        }
        Ok(())
    }

    /// Set only the access time of a file, without a version bump.
    pub fn file_set_access_time(&mut self, id: i64, accessed_at: i64) -> (r: Result<
        (),
        SqlFileSystemError,
    >)
        requires
            old(self).wf(),
        ensures
            r is Ok,
            final(self).wf(),
            final(self).has_file(id as int) == old(self).has_file(id as int),
            old(self).has_file(id as int) ==> final(self).file(id as int) == (FileV {
                accessed_at: accessed_at as int,
                ..old(self).file(id as int)
            }),
            MetadataDB::files_frame(*old(self), *final(self), id as int),
            final(self).entries@ == old(self).entries@,
            final(self).changes@ == old(self).changes@,
            final(self).settings@ == old(self).settings@,
            final(self).next_file_id == old(self).next_file_id,
            final(self).next_entry_id == old(self).next_entry_id,
    {
        let idx = match self.find_file_index(id) {
            Some(i) => i,
            None => {
                return Ok(());
            },
        };
        let ghost pre = *self;
        let row = self.files[idx].duplicate();
        self.files[idx] = FileRow { accessed_at, ..row };
        proof {
            Self::lemma_update_at(pre, *self, idx as int);
            assert(self.file(id as int) =~= (FileV {
                accessed_at: accessed_at as int,
                ..pre.file(id as int)
            }));
        }
        Ok(())
    }

    /// Insert a directory entry with a fresh id and bump the holding
    /// directory's version. Fails when the pair (directory, name) is taken.
    pub fn add_directory_entry(&mut self, entry: &DirectoryEntry) -> (r: Result<
        i64,
        SqlFileSystemError,
    >)
        requires
            old(self).wf(),
        ensures
            match r {
                Ok(eid) => {
                    &&& eid == old(self).next_entry_id
                    &&& final(self).wf()
                    &&& !old(self).has_entry(entry.directory_file_id as int, entry.name@)
                    &&& final(self).has_entry(entry.directory_file_id as int, entry.name@)
                    &&& final(self).entry(entry.directory_file_id as int, entry.name@) == (EntryV {
                        id: eid as int,
                        ..entry.v()
                    })
                    &&& MetadataDB::entries_frame(
                        *old(self),
                        *final(self),
                        entry.directory_file_id as int,
                        entry.name@,
                    )
                    &&& final(self).entries@ == old(self).entries@.push(
                        final(self).entries@.last(),
                    )
                    &&& final(self).has_file(entry.directory_file_id as int) == old(
                        self,
                    ).has_file(entry.directory_file_id as int)
                    &&& old(self).has_file(entry.directory_file_id as int) ==> final(self).file(
                        entry.directory_file_id as int,
                    ) == (FileV {
                        version: old(self).file(entry.directory_file_id as int).version + 1,
                        ..old(self).file(entry.directory_file_id as int)
                    })
                    &&& MetadataDB::files_frame(
                        *old(self),
                        *final(self),
                        entry.directory_file_id as int,
                    )
                    &&& final(self).changes@ == old(self).changes@
                    &&& final(self).settings@ == old(self).settings@
                    &&& final(self).next_file_id == old(self).next_file_id
                    &&& final(self).next_entry_id == old(self).next_entry_id + 1
                },
                Err(e) => {
                    &&& *final(self) == *old(self)
                    &&& (e.code == EEXIST && e.kind == ErrorKind::AlreadyExists) || (e.code == EIO
                        && e.kind == ErrorKind::IoError)
                    &&& e.kind == ErrorKind::AlreadyExists ==> old(self).has_entry(
                        entry.directory_file_id as int,
                        entry.name@,
                    )
                    &&& e.kind == ErrorKind::IoError ==> !old(self).has_entry(
                        entry.directory_file_id as int,
                        entry.name@,
                    ) && (old(self).next_entry_id == i64::MAX || (old(self).has_file(
                        entry.directory_file_id as int,
                    ) && old(self).file(entry.directory_file_id as int).version == i64::MAX))
                },
            },
    {
        if self.find_entry_index(entry.directory_file_id, entry.name.as_str()).is_some() {
            return error(EEXIST, ErrorKind::AlreadyExists);
        }
        if self.next_entry_id == i64::MAX {
            return error(EIO, ErrorKind::IoError);
        }
        // Check the version bump is possible before mutating anything.
        match self.find_file_index(entry.directory_file_id) {
            Some(i) => {
                if self.files[i].version == i64::MAX {
                    return error(EIO, ErrorKind::IoError);
                }
                proof {
                    self.lemma_file_at(i as int);
                }
            },
            None => {},
        }
        let eid = self.next_entry_id;
        let row = DirectoryEntry {
            id: eid,
            directory_file_id: entry.directory_file_id,
            entry_file_id: entry.entry_file_id,
            name: entry.name.clone(),
            kind: entry.kind,
        };
        let ghost pre = *self;
        self.entries.push(row);
        self.next_entry_id = eid + 1;
        proof {
            let n = pre.entries@.len() as int;
            assert(self.entries@[n].v() =~= (EntryV { id: eid as int, ..entry.v() }));
            assert forall|i: int, j: int| 0 <= i < j < self.entries@.len() implies !(
            #[trigger] self.entries@[i].directory_file_id
                == #[trigger] self.entries@[j].directory_file_id && self.entries@[i].name@
                == self.entries@[j].name@) by {
                if j == n {
                    assert(!(pre.entries@[i].directory_file_id == entry.directory_file_id
                        && pre.entries@[i].name@ == entry.name@));
                }
            }
            assert(self.wf());
            self.lemma_entry_at(n);
            assert forall|d: int, nm: Seq<char>|
                !(d == entry.directory_file_id as int && nm == entry.name@) implies (
            self.has_entry(d, nm) == pre.has_entry(d, nm)) && (pre.has_entry(d, nm)
                ==> self.entry(d, nm) == pre.entry(d, nm)) by {
                if pre.has_entry(d, nm) {
                    let k = choose|k: int|
                        0 <= k < pre.entries@.len() && #[trigger] pre.entries@[k].directory_file_id
                            == d && pre.entries@[k].name@ == nm;
                    assert(self.entries@[k].directory_file_id == d && self.entries@[k].name@ == nm);
                    self.lemma_entry_at(k);
                    pre.lemma_entry_at(k);
                }
                if self.has_entry(d, nm) {
                    let k = choose|k: int|
                        0 <= k < self.entries@.len()
                            && #[trigger] self.entries@[k].directory_file_id == d
                            && self.entries@[k].name@ == nm;
                    assert(k < n + 1);
                    if k < n {
                        assert(pre.entries@[k].directory_file_id == d && pre.entries@[k].name@
                            == nm);
                    }
                }
            }
        }
        let ghost mid = *self;
        let bump = self.bump_version(entry.directory_file_id);
        match bump {
            Ok(_) => {
                proof {
                    Self::lemma_files_agree(pre, mid);
                    Self::lemma_entries_agree(mid, *self);
                }
                Ok(eid)
            },
            Err(_) => {
                // Unreachable: the version headroom was checked above; treat
                // defensively as an I/O failure without claiming state.
                proof {
                    assert(false);
                }
                error(EIO, ErrorKind::IoError)
            },
        }
    }

    /// Whether an entry with this table id exists.
    pub open spec fn has_entry_id(&self, eid: int) -> bool {
        exists|i: int| 0 <= i < self.entries@.len() && #[trigger] self.entries@[i].id == eid
    }

    /// The table position of the entry with this id.
    pub open spec fn entry_id_idx(&self, eid: int) -> int {
        choose|i: int| 0 <= i < self.entries@.len() && #[trigger] self.entries@[i].id == eid
    }

    /// The entry with this table id.
    pub open spec fn entry_by_id(&self, eid: int) -> EntryV {
        self.entries@[self.entry_id_idx(eid)].v()
    }

    /// Pin the table position of an entry id.
    pub proof fn lemma_entry_id_at(&self, i: int)
        requires
            self.wf(),
            0 <= i < self.entries@.len(),
        ensures
            self.has_entry_id(self.entries@[i].id as int),
            self.entry_id_idx(self.entries@[i].id as int) == i,
            self.entry_by_id(self.entries@[i].id as int) == self.entries@[i].v(),
    {
        let eid = self.entries@[i].id as int;
        assert(self.has_entry_id(eid));
        let k = self.entry_id_idx(eid);
        if k != i {
            if k < i {
                assert(self.entries@[k].id != self.entries@[i].id);
            } else {
                assert(self.entries@[i].id != self.entries@[k].id);
            }
        }
    }

    /// Look up the table position of an entry id.
    fn find_entry_id_index(&self, eid: i64) -> (r: Option<usize>)
        requires
            self.wf(),
        ensures
            match r {
                Some(i) => i < self.entries@.len() && self.entries@[i as int].id == eid
                    && self.has_entry_id(eid as int) && self.entry_id_idx(eid as int) == i,
                None => !self.has_entry_id(eid as int),
            },
    {
        let n = self.entries.len();
        let mut i: usize = 0;
        while i < n
            invariant
                self.wf(),
                n == self.entries@.len(),
                i <= n,
                forall|j: int| 0 <= j < i ==> #[trigger] self.entries@[j].id != eid,
            decreases n - i,
        {
            if self.entries[i].id == eid {
                proof {
                    self.lemma_entry_id_at(i as int);
                }
                return Some(i);
            }
            i = i + 1;
        }
        proof {
            if self.has_entry_id(eid as int) {
                let k = choose|k: int|
                    0 <= k < self.entries@.len() && #[trigger] self.entries@[k].id == eid;
                assert(self.entries@[k].id != eid);
            }
        }
        None
    }

    /// Nothing changed among the entries but (possibly) the two named pairs.
    pub open spec fn entries_frame2(
        pre: Self,
        post: Self,
        d1: int,
        n1: Seq<char>,
        d2: int,
        n2: Seq<char>,
    ) -> bool {
        forall|d: int, n: Seq<char>|
            #![trigger post.has_entry(d, n)]
            #![trigger post.entry(d, n)]
            !(d == d1 && n == n1) && !(d == d2 && n == n2) ==> (post.has_entry(d, n)
                == pre.has_entry(d, n)) && (pre.has_entry(d, n) ==> post.entry(d, n) == pre.entry(
                d,
                n,
            ))
    }

    /// Replace the fields of the entry with the given table id, and bump the
    /// holding directory's version. An unknown id is left alone. Fails when
    /// the new (directory, name) pair is taken by a different entry.
    pub fn update_directory_entry(&mut self, entry: &DirectoryEntry) -> (r: Result<
        (),
        SqlFileSystemError,
    >)
        requires
            old(self).wf(),
        ensures
            match r {
                Ok(_) => {
                    &&& final(self).wf()
                    &&& !old(self).has_entry_id(entry.id as int) ==> *final(self) == *old(self)
                    &&& old(self).has_entry_id(entry.id as int) ==> {
                        let prev = old(self).entry_by_id(entry.id as int);
                        &&& final(self).has_entry(entry.directory_file_id as int, entry.name@)
                        &&& final(self).entry(entry.directory_file_id as int, entry.name@)
                            == entry.v()
                        &&& !(prev.directory_file_id == entry.directory_file_id as int
                            && prev.name == entry.name@) ==> !final(self).has_entry(
                            prev.directory_file_id,
                            prev.name,
                        )
                        &&& MetadataDB::entries_frame2(
                            *old(self),
                            *final(self),
                            prev.directory_file_id,
                            prev.name,
                            entry.directory_file_id as int,
                            entry.name@,
                        )
                        &&& final(self).has_file(entry.directory_file_id as int)
                            == old(self).has_file(entry.directory_file_id as int)
                        &&& old(self).has_file(entry.directory_file_id as int)
                            ==> final(self).file(entry.directory_file_id as int) == (FileV {
                            version: old(self).file(entry.directory_file_id as int).version + 1,
                            ..old(self).file(entry.directory_file_id as int)
                        })
                        &&& MetadataDB::files_frame(
                            *old(self),
                            *final(self),
                            entry.directory_file_id as int,
                        )
                        &&& final(self).changes@ == old(self).changes@
                        &&& final(self).settings@ == old(self).settings@
                        &&& final(self).next_file_id == old(self).next_file_id
                        &&& final(self).next_entry_id == old(self).next_entry_id
                        &&& final(self).entries@.len() == old(self).entries@.len()
                    }
                },
                Err(e) => {
                    &&& *final(self) == *old(self)
                    &&& (e.code == EEXIST && e.kind == ErrorKind::AlreadyExists) || (e.code == EIO
                        && e.kind == ErrorKind::IoError)
                },
            },
    {
        let idx = match self.find_entry_id_index(entry.id) {
            Some(i) => i,
            None => {
                return Ok(());
            },
        };
        // The new pair must not be taken by a different entry.
        match self.find_entry_index(entry.directory_file_id, entry.name.as_str()) {
            Some(j) => {
                if j != idx {
                    return error(EEXIST, ErrorKind::AlreadyExists);
                }
            },
            None => {},
        }
        // Check the version bump is possible before mutating anything.
        match self.find_file_index(entry.directory_file_id) {
            Some(i) => {
                if self.files[i].version == i64::MAX {
                    return error(EIO, ErrorKind::IoError);
                }
                proof {
                    self.lemma_file_at(i as int);
                }
            },
            None => {},
        }
        let ghost pre = *self;
        let ghost prev = self.entries@[idx as int].v();
        let row = DirectoryEntry {
            id: entry.id,
            directory_file_id: entry.directory_file_id,
            entry_file_id: entry.entry_file_id,
            name: entry.name.clone(),
            kind: entry.kind,
        };
        self.entries[idx] = row;
        proof {
            assert(self.entries@[idx as int].v() =~= entry.v());
            assert forall|i: int, j: int| 0 <= i < j < self.entries@.len() implies !(
            #[trigger] self.entries@[i].directory_file_id
                == #[trigger] self.entries@[j].directory_file_id && self.entries@[i].name@
                == self.entries@[j].name@) by {
                if i != idx as int && j != idx as int {
                    assert(!(pre.entries@[i].directory_file_id == pre.entries@[j].directory_file_id
                        && pre.entries@[i].name@ == pre.entries@[j].name@));
                } else {
                    let other = if i == idx as int {
                        j
                    } else {
                        i
                    };
                    if pre.entries@[other].directory_file_id == entry.directory_file_id
                        && pre.entries@[other].name@ == entry.name@ {
                        pre.lemma_entry_at(other);
                    }
                }
            }
            assert(self.wf());
            self.lemma_entry_at(idx as int);
            pre.lemma_entry_id_at(idx as int);
            if !(prev.directory_file_id == entry.directory_file_id as int && prev.name
                == entry.name@) {
                if self.has_entry(prev.directory_file_id, prev.name) {
                    let k = self.entry_idx(prev.directory_file_id, prev.name);
                    assert(self.entries@[k].directory_file_id == prev.directory_file_id
                        && self.entries@[k].name@ == prev.name);
                    if k != idx as int {
                        pre.lemma_entry_at(k);
                        pre.lemma_entry_at(idx as int);
                    }
                }
            }
            assert forall|d: int, n: Seq<char>|
                !(d == prev.directory_file_id && n == prev.name) && !(d
                    == entry.directory_file_id as int && n == entry.name@) implies (
            self.has_entry(d, n) == pre.has_entry(d, n)) && (pre.has_entry(d, n) ==> self.entry(
                d,
                n,
            ) == pre.entry(d, n)) by {
                if pre.has_entry(d, n) {
                    let k = choose|k: int|
                        0 <= k < pre.entries@.len() && #[trigger] pre.entries@[k].directory_file_id
                            == d && pre.entries@[k].name@ == n;
                    assert(k != idx as int);
                    assert(self.entries@[k].directory_file_id == d && self.entries@[k].name@ == n);
                    self.lemma_entry_at(k);
                    pre.lemma_entry_at(k);
                }
                if self.has_entry(d, n) {
                    let k = choose|k: int|
                        0 <= k < self.entries@.len()
                            && #[trigger] self.entries@[k].directory_file_id == d
                            && self.entries@[k].name@ == n;
                    assert(k != idx as int);
                    assert(pre.entries@[k].directory_file_id == d && pre.entries@[k].name@ == n);
                }
            }
        }
        let ghost mid = *self;
        let bump = self.bump_version(entry.directory_file_id);
        match bump {
            Ok(_) => {
                proof {
                    Self::lemma_files_agree(pre, mid);
                    Self::lemma_entries_agree(mid, *self);
                }
                Ok(())
            },
            Err(_) => {
                proof {
                    assert(false);
                }
                error(EIO, ErrorKind::IoError)
            },
        }
    }

    /// Delete a single directory entry by its table id. The file rows are
    /// not touched. An unknown id is left alone.
    pub fn remove_directory_entry(&mut self, entry_id: i64) -> (r: Result<(), SqlFileSystemError>)
        requires
            old(self).wf(),
        ensures
            r is Ok,
            final(self).wf(),
            !old(self).has_entry_id(entry_id as int) ==> *final(self) == *old(self),
            old(self).has_entry_id(entry_id as int) ==> {
                let prev = old(self).entry_by_id(entry_id as int);
                &&& !final(self).has_entry(prev.directory_file_id, prev.name)
                &&& MetadataDB::entries_frame(
                    *old(self),
                    *final(self),
                    prev.directory_file_id,
                    prev.name,
                )
                &&& final(self).entries@.len() == old(self).entries@.len() - 1
                &&& final(self).files@ == old(self).files@
                &&& final(self).changes@ == old(self).changes@
                &&& final(self).settings@ == old(self).settings@
                &&& final(self).next_file_id == old(self).next_file_id
                &&& final(self).next_entry_id == old(self).next_entry_id
            },
    {
        let idx = match self.find_entry_id_index(entry_id) {
            Some(i) => i,
            None => {
                return Ok(());
            },
        };
        let ghost pre = *self;
        let ghost prev = self.entries@[idx as int].v();
        self.entries.remove(idx);
        proof {
            pre.lemma_entry_id_at(idx as int);
            assert forall|i: int, j: int| 0 <= i < j < self.entries@.len() implies !(
            #[trigger] self.entries@[i].directory_file_id
                == #[trigger] self.entries@[j].directory_file_id && self.entries@[i].name@
                == self.entries@[j].name@) by {
                let pi = if i < idx as int {
                    i
                } else {
                    i + 1
                };
                let pj = if j < idx as int {
                    j
                } else {
                    j + 1
                };
                assert(!(pre.entries@[pi].directory_file_id == pre.entries@[pj].directory_file_id
                    && pre.entries@[pi].name@ == pre.entries@[pj].name@));
            }
            assert forall|i: int, j: int| 0 <= i < j < self.entries@.len() implies
                #[trigger] self.entries@[i].id != #[trigger] self.entries@[j].id by {
                let pi = if i < idx as int {
                    i
                } else {
                    i + 1
                };
                let pj = if j < idx as int {
                    j
                } else {
                    j + 1
                };
                assert(pre.entries@[pi].id != pre.entries@[pj].id);
            }
            assert forall|i: int| 0 <= i < self.entries@.len() implies 1
                <= #[trigger] self.entries@[i].id < self.next_entry_id by {
                let pi = if i < idx as int {
                    i
                } else {
                    i + 1
                };
                assert(1 <= pre.entries@[pi].id < pre.next_entry_id);
            }
            assert(self.wf());
            if self.has_entry(prev.directory_file_id, prev.name) {
                let k = self.entry_idx(prev.directory_file_id, prev.name);
                let pk = if k < idx as int {
                    k
                } else {
                    k + 1
                };
                assert(pre.entries@[pk].directory_file_id == prev.directory_file_id
                    && pre.entries@[pk].name@ == prev.name);
                pre.lemma_entry_at(pk);
                pre.lemma_entry_at(idx as int);
            }
            assert forall|d: int, n: Seq<char>|
                !(d == prev.directory_file_id && n == prev.name) implies (self.has_entry(d, n)
                == pre.has_entry(d, n)) && (pre.has_entry(d, n) ==> self.entry(d, n) == pre.entry(
                d,
                n,
            )) by {
                if pre.has_entry(d, n) {
                    let k = choose|k: int|
                        0 <= k < pre.entries@.len() && #[trigger] pre.entries@[k].directory_file_id
                            == d && pre.entries@[k].name@ == n;
                    assert(k != idx as int);
                    let nk = if k < idx as int {
                        k
                    } else {
                        k - 1
                    };
                    assert(self.entries@[nk].directory_file_id == d && self.entries@[nk].name@
                        == n);
                    self.lemma_entry_at(nk);
                    pre.lemma_entry_at(k);
                }
                if self.has_entry(d, n) {
                    let k = choose|k: int|
                        0 <= k < self.entries@.len()
                            && #[trigger] self.entries@[k].directory_file_id == d
                            && self.entries@[k].name@ == n;
                    let pk = if k < idx as int {
                        k
                    } else {
                        k + 1
                    };
                    assert(pre.entries@[pk].directory_file_id == d && pre.entries@[pk].name@ == n);
                }
            }
        }
        Ok(())
    }

    /// Whether the entry should survive the removal of this file id.
    pub open spec fn survives(e: DirectoryEntry, id: int) -> bool {
        e.directory_file_id != id && e.entry_file_id != id
    }

    /// Remove the file row with this id, if present. Entries are untouched.
    fn remove_file_row(&mut self, id: i64)
        requires
            old(self).wf(),
        ensures
            final(self).wf(),
            !final(self).has_file(id as int),
            MetadataDB::files_frame(*old(self), *final(self), id as int),
            final(self).entries@ == old(self).entries@,
            final(self).changes@ == old(self).changes@,
            final(self).settings@ == old(self).settings@,
            final(self).next_file_id == old(self).next_file_id,
            final(self).next_entry_id == old(self).next_entry_id,
    {
        let ghost pre = *self;
        match self.find_file_index(id) {
            Some(fidx) => {
                self.files.remove(fidx);
                proof {
                    assert forall|i: int, j: int| 0 <= i < j < self.files@.len() implies
                        #[trigger] self.files@[i].id != #[trigger] self.files@[j].id by {
                        let pi = if i < fidx as int { i } else { i + 1 };
                        let pj = if j < fidx as int { j } else { j + 1 };
                        assert(pre.files@[pi].id != pre.files@[pj].id);
                    }
                    assert forall|i: int| 0 <= i < self.files@.len() implies 1
                        <= #[trigger] self.files@[i].id < self.next_file_id
                        && #[trigger] self.files@[i].version >= 1 by {
                        let pi = if i < fidx as int { i } else { i + 1 };
                        assert(1 <= pre.files@[pi].id < pre.next_file_id);
                        assert(pre.files@[pi].version >= 1);
                    }
                    assert(self.wf());
                    if self.has_file(id as int) {
                        let k = choose|k: int|
                            0 <= k < self.files@.len() && #[trigger] self.files@[k].id == id;
                        let pk = if k < fidx as int { k } else { k + 1 };
                        assert(pre.files@[pk].id == id);
                        assert(pre.files@[fidx as int].id == id);
                        if pk != fidx as int {
                            if pk < fidx as int {
                                assert(pre.files@[pk].id != pre.files@[fidx as int].id);
                            } else {
                                assert(pre.files@[fidx as int].id != pre.files@[pk].id);
                            }
                        }
                    }
                    assert forall|o: int| o != id as int implies (self.has_file(o)
                        == pre.has_file(o)) && (pre.has_file(o) ==> self.file(o) == pre.file(
                        o,
                    )) by {
                        if pre.has_file(o) {
                            let k = choose|k: int|
                                0 <= k < pre.files@.len() && #[trigger] pre.files@[k].id == o;
                            assert(k != fidx as int);
                            let nk = if k < fidx as int { k } else { k - 1 };
                            assert(self.files@[nk].id == o);
                            self.lemma_file_at(nk);
                            pre.lemma_file_at(k);
                        }
                        if self.has_file(o) {
                            let k = choose|k: int|
                                0 <= k < self.files@.len() && #[trigger] self.files@[k].id == o;
                            let pk = if k < fidx as int { k } else { k + 1 };
                            assert(pre.files@[pk].id == o);
                        }
                    }
                }
            },
            None => {},
        }
    }

    /// The row is a copy of one of the first `i` source rows that survives
    /// the removal of the file id.
    pub open spec fn kept_from(src: Seq<DirectoryEntry>, id: int, i: int, row: DirectoryEntry) -> bool {
        exists|k: int|
            0 <= k < i && row.v() == #[trigger] src[k].v() && Self::survives(src[k], id)
    }

    /// The kept rows contain a copy of source row `k`.
    pub open spec fn covers(src: Seq<DirectoryEntry>, kept: Seq<DirectoryEntry>, k: int) -> bool {
        exists|j: int| 0 <= j < kept.len() && #[trigger] kept[j].v() == src[k].v()
    }

    /// The filtering loop's relation between the kept rows and the first
    /// `i` source rows.
    pub open spec fn strip_inv(src: Seq<DirectoryEntry>, id: int, i: int, kept: Seq<DirectoryEntry>) -> bool {
        &&& forall|j: int|
            0 <= j < kept.len() ==> Self::kept_from(src, id, i, #[trigger] kept[j])
        &&& forall|k: int|
            0 <= k < i && Self::survives(#[trigger] src[k], id) ==> Self::covers(src, kept, k)
        &&& forall|a: int, b: int|
            0 <= a < b < kept.len() ==> #[trigger] kept[a].v() != #[trigger] kept[b].v()
    }

    /// One step of the filtering loop preserves the relation.
    #[verifier::rlimit(100)]
    proof fn lemma_strip_step(mid: Self, id: int, i: int, prev: Seq<DirectoryEntry>, cur: Seq<
        DirectoryEntry,
    >)
        requires
            mid.wf(),
            0 <= i < mid.entries@.len(),
            Self::strip_inv(mid.entries@, id, i, prev),
            Self::survives(mid.entries@[i], id) ==> cur.len() == prev.len() + 1 && cur.last().v()
                == mid.entries@[i].v() && cur.drop_last() == prev,
            !Self::survives(mid.entries@[i], id) ==> cur == prev,
        ensures
            Self::strip_inv(mid.entries@, id, i + 1, cur),
    {
        if Self::survives(mid.entries@[i], id) {
            assert forall|j: int| 0 <= j < cur.len() implies Self::kept_from(mid.entries@, id, i + 1, #[trigger] cur[j]) by {
                if j < prev.len() {
                    assert(prev[j] == cur.drop_last()[j]);
                    assert(cur.drop_last()[j] == cur[j]);
                    assert(Self::kept_from(mid.entries@, id, i, prev[j]));
                    let k0 = choose|k: int|
                        0 <= k < i && prev[j].v() == #[trigger] mid.entries@[k].v()
                            && Self::survives(mid.entries@[k], id);
                    assert(cur[j].v() == mid.entries@[k0].v());
                } else {
                    assert(cur[j].v() == mid.entries@[i].v());
                }
            }
            assert forall|k: int|
                0 <= k < i + 1 && Self::survives(#[trigger] mid.entries@[k], id)
                    implies Self::covers(mid.entries@, cur, k) by {
                if k == i {
                    assert(cur[cur.len() - 1].v() == mid.entries@[k].v());
                } else {
                    assert(Self::covers(mid.entries@, prev, k));
                    let j0 = choose|j: int|
                        0 <= j < prev.len() && #[trigger] prev[j].v() == mid.entries@[k].v();
                    assert(prev[j0] == cur.drop_last()[j0]);
                    assert(cur[j0].v() == mid.entries@[k].v());
                }
            }
            assert forall|a: int, b: int| 0 <= a < b < cur.len() implies #[trigger] cur[a].v()
                != #[trigger] cur[b].v() by {
                if b == cur.len() - 1 {
                    assert(prev[a] == cur.drop_last()[a]);
                    assert(cur.drop_last()[a] == cur[a]);
                    assert(Self::kept_from(mid.entries@, id, i, prev[a]));
                    let ka = choose|k: int|
                        0 <= k < i && prev[a].v() == #[trigger] mid.entries@[k].v()
                            && Self::survives(mid.entries@[k], id);
                    if cur[a].v() == cur[b].v() {
                        assert(mid.entries@[ka].v() == mid.entries@[i].v());
                        assert(mid.entries@[ka].id != mid.entries@[i].id);
                        assert(mid.entries@[ka].v().id == mid.entries@[i].v().id);
                        assert(false);
                    }
                } else {
                    assert(prev[a] == cur.drop_last()[a]);
                    assert(prev[b] == cur.drop_last()[b]);
                    assert(prev[a].v() != prev[b].v());
                }
            }
        } else {
            assert forall|j: int| 0 <= j < cur.len() implies Self::kept_from(mid.entries@, id, i + 1, #[trigger] cur[j]) by {
                assert(Self::kept_from(mid.entries@, id, i, prev[j]));
                let k0 = choose|k: int|
                    0 <= k < i && prev[j].v() == #[trigger] mid.entries@[k].v() && Self::survives(
                        mid.entries@[k],
                        id,
                    );
                assert(cur[j].v() == mid.entries@[k0].v());
            }
            assert forall|k: int|
                0 <= k < i + 1 && Self::survives(#[trigger] mid.entries@[k], id)
                    implies Self::covers(mid.entries@, cur, k) by {
                assert(k < i);
                assert(Self::covers(mid.entries@, prev, k));
            }
        }
    }

    /// After the filtering loop, the state with the kept entries is well
    /// formed and answers entry lookups as the filtered source does.
    #[verifier::rlimit(100)]
    proof fn lemma_strip_done(mid: Self, post: Self, id: int)
        requires
            mid.wf(),
            Self::strip_inv(mid.entries@, id, mid.entries@.len() as int, post.entries@),
            post.files@ == mid.files@,
            post.settings@ == mid.settings@,
            post.next_file_id == mid.next_file_id,
            post.next_entry_id == mid.next_entry_id,
        ensures
            post.wf(),
            forall|d: int, n: Seq<char>|
                #![trigger post.has_entry(d, n)]
                post.has_entry(d, n) <==> (mid.has_entry(d, n) && mid.entry(
                    d,
                    n,
                ).directory_file_id != id && mid.entry(d, n).entry_file_id != id),
            forall|d: int, n: Seq<char>|
                #![trigger post.entry(d, n)]
                post.has_entry(d, n) ==> post.entry(d, n) == mid.entry(d, n),
            forall|i: int|
                0 <= i < post.entries@.len() ==> Self::kept_from(
                    mid.entries@,
                    id,
                    mid.entries@.len() as int,
                    #[trigger] post.entries@[i],
                ),
    {
        let n = mid.entries@.len() as int;
        assert forall|a: int, b: int| 0 <= a < b < post.entries@.len() implies
            #[trigger] post.entries@[a].id != #[trigger] post.entries@[b].id && !(
        post.entries@[a].directory_file_id == post.entries@[b].directory_file_id
            && post.entries@[a].name@ == post.entries@[b].name@) by {
            assert(Self::kept_from(mid.entries@, id, n, post.entries@[a]));
            assert(Self::kept_from(mid.entries@, id, n, post.entries@[b]));
            let ka = choose|k: int|
                0 <= k < n && post.entries@[a].v() == #[trigger] mid.entries@[k].v()
                    && Self::survives(mid.entries@[k], id);
            let kb = choose|k: int|
                0 <= k < n && post.entries@[b].v() == #[trigger] mid.entries@[k].v()
                    && Self::survives(mid.entries@[k], id);
            if ka == kb {
                assert(post.entries@[a].v() == post.entries@[b].v());
                assert(false);
            } else {
                if ka < kb {
                    assert(mid.entries@[ka].id != mid.entries@[kb].id);
                    assert(!(mid.entries@[ka].directory_file_id
                        == mid.entries@[kb].directory_file_id && mid.entries@[ka].name@
                        == mid.entries@[kb].name@));
                } else {
                    assert(mid.entries@[kb].id != mid.entries@[ka].id);
                    assert(!(mid.entries@[kb].directory_file_id
                        == mid.entries@[ka].directory_file_id && mid.entries@[kb].name@
                        == mid.entries@[ka].name@));
                }
            }
        }
        assert forall|a: int| 0 <= a < post.entries@.len() implies 1
            <= #[trigger] post.entries@[a].id < post.next_entry_id by {
            assert(Self::kept_from(mid.entries@, id, n, post.entries@[a]));
            let ka = choose|k: int|
                0 <= k < n && post.entries@[a].v() == #[trigger] mid.entries@[k].v()
                    && Self::survives(mid.entries@[k], id);
            assert(1 <= mid.entries@[ka].id < mid.next_entry_id);
            assert(post.entries@[a].v().id == mid.entries@[ka].v().id);
        }
        assert(post.wf());
        assert forall|d: int, n2: Seq<char>| #[trigger] post.has_entry(d, n2) implies (
        mid.has_entry(d, n2) && mid.entry(d, n2).directory_file_id != id && mid.entry(
            d,
            n2,
        ).entry_file_id != id && post.entry(d, n2) == mid.entry(d, n2)) by {
            let j = post.entry_idx(d, n2);
            assert(post.entries@[j].directory_file_id == d && post.entries@[j].name@ == n2);
            assert(Self::kept_from(mid.entries@, id, n, post.entries@[j]));
            let k = choose|k: int|
                0 <= k < n && post.entries@[j].v() == #[trigger] mid.entries@[k].v()
                    && Self::survives(mid.entries@[k], id);
            assert(post.entries@[j].v().directory_file_id == mid.entries@[k].v().directory_file_id);
            assert(mid.entries@[k].directory_file_id == d && mid.entries@[k].name@ == n2);
            mid.lemma_entry_at(k);
            post.lemma_entry_at(j);
        }
        assert forall|d: int, n2: Seq<char>|
            mid.has_entry(d, n2) && mid.entry(d, n2).directory_file_id != id && mid.entry(
                d,
                n2,
            ).entry_file_id != id implies #[trigger] post.has_entry(d, n2) by {
            let k = mid.entry_idx(d, n2);
            assert(mid.entries@[k].directory_file_id == d && mid.entries@[k].name@ == n2);
            mid.lemma_entry_at(k);
            assert(Self::survives(mid.entries@[k], id));
            assert(Self::covers(mid.entries@, post.entries@, k));
            let j = choose|j: int|
                0 <= j < post.entries@.len() && #[trigger] post.entries@[j].v()
                    == mid.entries@[k].v();
            assert(post.entries@[j].directory_file_id == d && post.entries@[j].name@ == n2);
        }
    }

    /// Drop every entry that references the file id as parent or child.
    /// Files are untouched.
    fn strip_entries(&mut self, id: i64)
        requires
            old(self).wf(),
        ensures
            final(self).wf(),
            forall|d: int, n: Seq<char>|
                #![trigger final(self).has_entry(d, n)]
                final(self).has_entry(d, n) <==> (old(self).has_entry(d, n) && old(self).entry(
                    d,
                    n,
                ).directory_file_id != id as int && old(self).entry(d, n).entry_file_id
                    != id as int),
            forall|d: int, n: Seq<char>|
                #![trigger final(self).entry(d, n)]
                final(self).has_entry(d, n) ==> final(self).entry(d, n) == old(self).entry(d, n),
            MetadataDB::strip_inv(
                old(self).entries@,
                id as int,
                old(self).entries@.len() as int,
                final(self).entries@,
            ),
            final(self).files@ == old(self).files@,
            final(self).changes@ == old(self).changes@,
            final(self).settings@ == old(self).settings@,
            final(self).next_file_id == old(self).next_file_id,
            final(self).next_entry_id == old(self).next_entry_id,
    {
        let ghost mid = *old(self);
        let n = self.entries.len();
        let mut kept: Vec<DirectoryEntry> = Vec::new();
        let mut i: usize = 0;
        while i < n
            invariant
                mid.wf(),
                n == mid.entries@.len(),
                self.entries@ == mid.entries@,
                i <= n,
                MetadataDB::strip_inv(mid.entries@, id as int, i as int, kept@),
            decreases n - i,
        {
            let e = &self.entries[i];
            let ghost prev_kept = kept@;
            if e.directory_file_id != id && e.entry_file_id != id {
                kept.push(e.duplicate());
            }
            i = i + 1;
            proof {
                if kept@.len() == prev_kept.len() + 1 {
                    assert(kept@.drop_last() =~= prev_kept);
                }
                MetadataDB::lemma_strip_step(mid, id as int, i as int - 1, prev_kept, kept@);
            }
        }
        self.entries = kept;
        proof {
            MetadataDB::lemma_strip_done(mid, *self, id as int);
        }
    }

    /// Delete a file row and every directory entry in which it appears as
    /// parent or child.
    pub fn remove_file(&mut self, id: i64) -> (r: Result<(), SqlFileSystemError>)
        requires
            old(self).wf(),
        ensures
            r is Ok,
            final(self).wf(),
            !final(self).has_file(id as int),
            MetadataDB::files_frame(*old(self), *final(self), id as int),
            forall|d: int, n: Seq<char>|
                #![trigger final(self).has_entry(d, n)]
                final(self).has_entry(d, n) <==> (old(self).has_entry(d, n) && old(self).entry(
                    d,
                    n,
                ).directory_file_id != id as int && old(self).entry(d, n).entry_file_id
                    != id as int),
            forall|d: int, n: Seq<char>|
                #![trigger final(self).entry(d, n)]
                final(self).has_entry(d, n) ==> final(self).entry(d, n) == old(self).entry(d, n),
            MetadataDB::strip_inv(
                old(self).entries@,
                id as int,
                old(self).entries@.len() as int,
                final(self).entries@,
            ),
            final(self).changes@ == old(self).changes@,
            final(self).settings@ == old(self).settings@,
            final(self).next_file_id == old(self).next_file_id,
            final(self).next_entry_id == old(self).next_entry_id,
    {
        let ghost pre = *self;
        self.remove_file_row(id);
        let ghost mid = *self;
        self.strip_entries(id);
        proof {
            Self::lemma_entries_agree(pre, mid);
            Self::lemma_files_agree(mid, *self);
        }
        Ok(())
    }

    /// Whether a setting of this name exists.
    pub open spec fn has_setting(&self, name: Seq<char>) -> bool {
        exists|i: int| 0 <= i < self.settings@.len() && #[trigger] self.settings@[i].name@ == name
    }

    /// The table position of the setting with this name.
    pub open spec fn setting_idx(&self, name: Seq<char>) -> int {
        choose|i: int| 0 <= i < self.settings@.len() && #[trigger] self.settings@[i].name@ == name
    }

    /// The stored value of the setting with this name.
    pub open spec fn setting(&self, name: Seq<char>) -> Seq<char> {
        self.settings@[self.setting_idx(name)].value@
    }

    /// Pin the table position of a setting name.
    pub proof fn lemma_setting_at(&self, i: int)
        requires
            self.wf(),
            0 <= i < self.settings@.len(),
        ensures
            self.has_setting(self.settings@[i].name@),
            self.setting_idx(self.settings@[i].name@) == i,
            self.setting(self.settings@[i].name@) == self.settings@[i].value@,
    {
        let nm = self.settings@[i].name@;
        assert(self.has_setting(nm));
        let k = self.setting_idx(nm);
        if k != i {
            if k < i {
                assert(self.settings@[k].name@ != self.settings@[i].name@);
            } else {
                assert(self.settings@[i].name@ != self.settings@[k].name@);
            }
        }
    }

    /// Look up the table position of a setting name.
    fn find_setting_index(&self, name: &str) -> (r: Option<usize>)
        requires
            self.wf(),
        ensures
            match r {
                Some(i) => i < self.settings@.len() && self.settings@[i as int].name@ == name@
                    && self.has_setting(name@) && self.setting_idx(name@) == i,
                None => !self.has_setting(name@),
            },
    {
        let n = self.settings.len();
        let mut i: usize = 0;
        while i < n
            invariant
                self.wf(),
                n == self.settings@.len(),
                i <= n,
                forall|j: int| 0 <= j < i ==> #[trigger] self.settings@[j].name@ != name@,
            decreases n - i,
        {
            if str_eq(self.settings[i].name.as_str(), name) {
                proof {
                    self.lemma_setting_at(i as int);
                }
                return Some(i);
            }
            i = i + 1;
        }
        proof {
            if self.has_setting(name@) {
                let k = choose|k: int|
                    0 <= k < self.settings@.len() && #[trigger] self.settings@[k].name@ == name@;
                assert(self.settings@[k].name@ != name@);
            }
        }
        None
    }

    /// Read a persistent setting.
    pub fn get_setting(&self, name: &str) -> (r: Option<String>)
        requires
            self.wf(),
        ensures
            r is Some <==> self.has_setting(name@),
            r matches Some(v) ==> v@ == self.setting(name@),
    {
        match self.find_setting_index(name) {
            Some(i) => Some(self.settings[i].value.clone()),
            None => None,
        }
    }

    /// Write a persistent setting, inserting or replacing it.
    pub fn set_setting(&mut self, name: &str, value: &str) -> (r: Result<(), SqlFileSystemError>)
        requires
            old(self).wf(),
        ensures
            r is Ok,
            final(self).wf(),
            final(self).has_setting(name@),
            final(self).setting(name@) == value@,
            forall|n: Seq<char>|
                #![trigger final(self).has_setting(n)]
                n != name@ ==> final(self).has_setting(n) == old(self).has_setting(n),
            forall|n: Seq<char>|
                #![trigger final(self).setting(n)]
                n != name@ && old(self).has_setting(n) ==> final(self).setting(n) == old(
                    self,
                ).setting(n),
            final(self).files@ == old(self).files@,
            final(self).entries@ == old(self).entries@,
            final(self).changes@ == old(self).changes@,
            final(self).next_file_id == old(self).next_file_id,
            final(self).next_entry_id == old(self).next_entry_id,
    {
        let now = current_timestamp();
        let ghost pre = *self;
        match self.find_setting_index(name) {
            Some(i) => {
                self.settings[i] = Setting {
                    name: name.to_owned(),
                    value: value.to_owned(),
                    updated_at: now,
                };
                proof {
                    assert forall|a: int, b: int| 0 <= a < b < self.settings@.len() implies
                        #[trigger] self.settings@[a].name@
                        != #[trigger] self.settings@[b].name@ by {
                        assert(pre.settings@[a].name@ != pre.settings@[b].name@);
                    }
                    assert(self.wf());
                    self.lemma_setting_at(i as int);
                    assert forall|n: Seq<char>| n != name@ implies (self.has_setting(n)
                        == pre.has_setting(n)) && (pre.has_setting(n) ==> self.setting(n)
                        == pre.setting(n)) by {
                        if pre.has_setting(n) {
                            let k = choose|k: int|
                                0 <= k < pre.settings@.len() && #[trigger] pre.settings@[k].name@
                                    == n;
                            assert(k != i as int);
                            assert(self.settings@[k].name@ == n);
                            self.lemma_setting_at(k);
                            pre.lemma_setting_at(k);
                        }
                        if self.has_setting(n) {
                            let k = choose|k: int|
                                0 <= k < self.settings@.len() && #[trigger] self.settings@[k].name@
                                    == n;
                            assert(k != i as int);
                            assert(pre.settings@[k].name@ == n);
                        }
                    }
                }
            },
            None => {
                self.settings.push(
                    Setting { name: name.to_owned(), value: value.to_owned(), updated_at: now },
                );
                proof {
                    let n0 = pre.settings@.len() as int;
                    assert forall|a: int, b: int| 0 <= a < b < self.settings@.len() implies
                        #[trigger] self.settings@[a].name@
                        != #[trigger] self.settings@[b].name@ by {
                        if b == n0 {
                            assert(pre.settings@[a].name@ != name@);
                        } else {
                            assert(pre.settings@[a].name@ != pre.settings@[b].name@);
                        }
                    }
                    assert(self.wf());
                    self.lemma_setting_at(n0);
                    assert forall|n: Seq<char>| n != name@ implies (self.has_setting(n)
                        == pre.has_setting(n)) && (pre.has_setting(n) ==> self.setting(n)
                        == pre.setting(n)) by {
                        if pre.has_setting(n) {
                            let k = choose|k: int|
                                0 <= k < pre.settings@.len() && #[trigger] pre.settings@[k].name@
                                    == n;
                            assert(self.settings@[k].name@ == n);
                            self.lemma_setting_at(k);
                            pre.lemma_setting_at(k);
                        }
                        if self.has_setting(n) {
                            let k = choose|k: int|
                                0 <= k < self.settings@.len() && #[trigger] self.settings@[k].name@
                                    == n;
                            assert(k < n0);
                            assert(pre.settings@[k].name@ == n);
                        }
                    }
                }
            },
        }
        Ok(())
    }

    /// Append a change record for this file. The recorded version is the
    /// stored one (1 when the file is unknown), and the recorded hash is the
    /// first 16 hex characters of the row's content-derived digest.
    pub fn register_file_change(&mut self, file: &FileRow, kind: FileChangeKind) -> (r: Result<
        (),
        SqlFileSystemError,
    >)
        requires
            old(self).wf(),
        ensures
            r is Ok,
            final(self).wf(),
            final(self).changes@.len() == old(self).changes@.len() + 1,
            forall|i: int|
                0 <= i < old(self).changes@.len() ==> #[trigger] final(self).changes@[i] == old(
                    self,
                ).changes@[i],
            ({
                let c = final(self).changes@.last();
                &&& c.file_id == file.id
                &&& c.file_version as int == (if old(self).has_file(file.id as int) {
                    old(self).file(file.id as int).version
                } else {
                    1
                })
                &&& c.kind == kind.spec_i64()
                &&& c.file_hash@ == hex_of(
                    sha512_of(vstd::utf8::encode_utf8(FileRow::digest_str(file.v()))),
                ).take(16)
                &&& c.changed_at >= 0
            }),
            final(self).files@ == old(self).files@,
            final(self).entries@ == old(self).entries@,
            final(self).settings@ == old(self).settings@,
            final(self).next_file_id == old(self).next_file_id,
            final(self).next_entry_id == old(self).next_entry_id,
    {
        let version = match self.get_file_version(file.id) {
            Some(v) => v,
            None => 1,
        };
        let hash = file.hash();
        let short = hash.as_str().substring_char(0, 16).to_owned();
        let change = FileChange {
            file_id: file.id,
            file_version: version,
            kind: kind.to_i64(),
            file_hash: short,
            changed_at: current_timestamp(),
        };
        self.changes.push(change);
        proof {
            assert(self.changes@.last().file_hash@ =~= hex_of(
                sha512_of(vstd::utf8::encode_utf8(FileRow::digest_str(file.v()))),
            ).take(16));
        }
        Ok(())
    }

    /// Truncate every table.
    pub fn nuke(&mut self) -> (r: Result<(), SqlFileSystemError>)
        requires
            old(self).wf(),
        ensures
            r is Ok,
            final(self).wf(),
            final(self).files@ =~= Seq::<FileRow>::empty(),
            final(self).entries@ =~= Seq::<DirectoryEntry>::empty(),
            final(self).changes@ =~= Seq::<FileChange>::empty(),
            final(self).settings@ =~= Seq::<Setting>::empty(),
            forall|id: int| !final(self).has_file(id),
            forall|d: int, n: Seq<char>| !final(self).has_entry(d, n),
    {
        self.files.clear();
        self.entries.clear();
        self.changes.clear();
        self.settings.clear();
        proof {
            assert forall|id: int| !self.has_file(id) by {
                if self.has_file(id) {
                    let k = choose|k: int|
                        0 <= k < self.files@.len() && #[trigger] self.files@[k].id == id;
                }
            }
            assert forall|d: int, n: Seq<char>| !self.has_entry(d, n) by {
                if self.has_entry(d, n) {
                    let k = choose|k: int|
                        0 <= k < self.entries@.len() && #[trigger] self.entries@[k].directory_file_id
                            == d && self.entries@[k].name@ == n;
                }
            }
        }
        Ok(())
    }

    /// The listing of a directory: its entries in table (insertion) order.
    pub open spec fn listing(src: Seq<DirectoryEntry>, dir: int) -> Seq<EntryV>
        decreases src.len(),
    {
        if src.len() == 0 {
            Seq::empty()
        } else {
            let rest = Self::listing(src.drop_last(), dir);
            if src.last().directory_file_id == dir {
                rest.push(src.last().v())
            } else {
                rest
            }
        }
    }

    /// The window of a listing selected by a limit and an offset.
    pub open spec fn window(s: Seq<EntryV>, off: int, lim: int) -> Seq<EntryV> {
        if off >= s.len() {
            Seq::empty()
        } else if off + lim <= s.len() {
            s.subrange(off, off + lim)
        } else {
            s.subrange(off, s.len() as int)
        }
    }

    /// How a window reacts when the listing grows by one element.
    proof fn lemma_window_push(s: Seq<EntryV>, x: EntryV, off: int, lim: int)
        requires
            0 <= off,
            0 <= lim,
        ensures
            s.len() < off ==> Self::window(s.push(x), off, lim) =~= Self::window(s, off, lim),
            s.len() >= off && s.len() - off < lim ==> Self::window(s.push(x), off, lim)
                =~= Self::window(s, off, lim).push(x),
            s.len() >= off && s.len() - off >= lim ==> Self::window(s.push(x), off, lim)
                =~= Self::window(s, off, lim),
    {
        let p = s.push(x);
        assert(p.len() == s.len() + 1);
        if s.len() < off {
        } else if s.len() - off < lim {
            assert(Self::window(p, off, lim) =~= Self::window(s, off, lim).push(x)) by {
                let w = Self::window(p, off, lim);
                let v = Self::window(s, off, lim);
                assert(w.len() == v.len() + 1);
                assert forall|t: int| 0 <= t < w.len() implies w[t] == v.push(x)[t] by {
                    assert(w[t] == p[off + t]);
                    if off + t < s.len() {
                        assert(p[off + t] == s[off + t]);
                    } else {
                        assert(p[off + t] == x);
                    }
                }
            }
        } else {
            assert(Self::window(p, off, lim) =~= Self::window(s, off, lim)) by {
                let w = Self::window(p, off, lim);
                let v = Self::window(s, off, lim);
                assert forall|t: int| 0 <= t < w.len() implies w[t] == v[t] by {
                    assert(w[t] == p[off + t]);
                    assert(p[off + t] == s[off + t]);
                }
            }
        }
    }

    /// List up to `limit` entries of a directory starting at `offset`, in
    /// insertion order.
    pub fn get_directory_entries(&self, directory_file_id: i64, limit: i64, offset: i64) -> (r:
        Vec<DirectoryEntry>)
        requires
            self.wf(),
            limit >= 0,
            offset >= 0,
        ensures
            r@.map_values(|e: DirectoryEntry| e.v()) == MetadataDB::window(
                MetadataDB::listing(self.entries@, directory_file_id as int),
                offset as int,
                limit as int,
            ),
    {
        let n = self.entries.len();
        let limit_u: u64 = limit as u64;
        let offset_u: u64 = offset as u64;
        let mut out: Vec<DirectoryEntry> = Vec::new();
        let mut seen: u64 = 0;
        let mut i: usize = 0;
        proof {
            assert(self.entries@.take(0) =~= Seq::<DirectoryEntry>::empty());
        }
        while i < n
            invariant
                self.wf(),
                n == self.entries@.len(),
                i <= n,
                offset_u == offset,
                limit_u == limit,
                seen == MetadataDB::listing(self.entries@.take(i as int), directory_file_id as int).len(),
                seen <= i,
                out@.map_values(|e: DirectoryEntry| e.v()) =~= MetadataDB::window(
                    MetadataDB::listing(self.entries@.take(i as int), directory_file_id as int),
                    offset as int,
                    limit as int,
                ),
            decreases n - i,
        {
            let ghost lprev = MetadataDB::listing(
                self.entries@.take(i as int),
                directory_file_id as int,
            );
            let e = &self.entries[i];
            proof {
                assert(self.entries@.take(i as int + 1).drop_last() =~= self.entries@.take(
                    i as int,
                ));
                assert(self.entries@.take(i as int + 1).last() == self.entries@[i as int]);
            }
            if e.directory_file_id == directory_file_id {
                proof {
                    MetadataDB::lemma_window_push(
                        lprev,
                        self.entries@[i as int].v(),
                        offset as int,
                        limit as int,
                    );
                }
                if seen >= offset_u && seen - offset_u < limit_u {
                    out.push(e.duplicate());
                    proof {
                        let lnew = lprev.push(self.entries@[i as int].v());
                        assert(out@.map_values(|e2: DirectoryEntry| e2.v()).drop_last()
                            =~= MetadataDB::window(lprev, offset as int, limit as int));
                        assert(out@.map_values(|e2: DirectoryEntry| e2.v()) =~= MetadataDB::window(
                            lnew,
                            offset as int,
                            limit as int,
                        ));
                    }
                } else {
                    proof {
                        let lnew = lprev.push(self.entries@[i as int].v());
                        assert(out@.map_values(|e2: DirectoryEntry| e2.v()) =~= MetadataDB::window(
                            lnew,
                            offset as int,
                            limit as int,
                        ));
                    }
                }
                seen = seen + 1;
            }
            i = i + 1;
        }
        proof {
            assert(self.entries@.take(n as int) =~= self.entries@);
        }
        out
    }

    /// Fetch the first file whose content hash equals the given hex digest,
    /// in table order.
    pub fn get_file_by_sha512(&self, sha512: &str) -> (r: Option<FileRow>)
        requires
            self.wf(),
        ensures
            r is Some <==> exists|i: int|
                0 <= i < self.files@.len() && #[trigger] self.files@[i].sha512@ == sha512@,
            r matches Some(f) ==> exists|i: int|
                0 <= i < self.files@.len() && #[trigger] self.files@[i].v() == f.v()
                    && self.files@[i].sha512@ == sha512@,
    {
        let n = self.files.len();
        let mut i: usize = 0;
        while i < n
            invariant
                self.wf(),
                n == self.files@.len(),
                i <= n,
                forall|j: int| 0 <= j < i ==> #[trigger] self.files@[j].sha512@ != sha512@,
            decreases n - i,
        {
            if str_eq(self.files[i].sha512.as_str(), sha512) {
                let f = self.files[i].duplicate();
                proof {
                    assert(self.files@[i as int].v() == f.v());
                }
                return Some(f);
            }
            i = i + 1;
        }
        proof {
            if exists|k: int|
                0 <= k < self.files@.len() && #[trigger] self.files@[k].sha512@ == sha512@ {
                let k = choose|k: int|
                    0 <= k < self.files@.len() && #[trigger] self.files@[k].sha512@ == sha512@;
                assert(self.files@[k].sha512@ != sha512@);
            }
        }
        None
    }

    /// A deep copy of the whole index, for transactional snapshots.
    pub fn duplicate(&self) -> (r: MetadataDB)
        ensures
            r.files@.len() == self.files@.len(),
            forall|i: int|
                0 <= i < self.files@.len() ==> #[trigger] r.files@[i].v() == self.files@[i].v(),
            r.entries@.len() == self.entries@.len(),
            forall|i: int|
                0 <= i < self.entries@.len() ==> #[trigger] r.entries@[i].v()
                    == self.entries@[i].v(),
            r.changes@.len() == self.changes@.len(),
            r.settings@.len() == self.settings@.len(),
            forall|i: int|
                0 <= i < self.settings@.len() ==> #[trigger] r.settings@[i].name@
                    == self.settings@[i].name@ && r.settings@[i].value@
                    == self.settings@[i].value@,
            r.next_file_id == self.next_file_id,
            r.next_entry_id == self.next_entry_id,
    {
        let mut files: Vec<FileRow> = Vec::new();
        let mut i: usize = 0;
        while i < self.files.len()
            invariant
                i <= self.files@.len(),
                files@.len() == i,
                forall|j: int|
                    0 <= j < i ==> #[trigger] files@[j].v() == self.files@[j].v(),
            decreases self.files@.len() - i,
        {
            files.push(self.files[i].duplicate());
            i = i + 1;
        }
        let mut entries: Vec<DirectoryEntry> = Vec::new();
        let mut j: usize = 0;
        while j < self.entries.len()
            invariant
                j <= self.entries@.len(),
                entries@.len() == j,
                forall|k: int|
                    0 <= k < j ==> #[trigger] entries@[k].v() == self.entries@[k].v(),
            decreases self.entries@.len() - j,
        {
            entries.push(self.entries[j].duplicate());
            j = j + 1;
        }
        let mut changes: Vec<FileChange> = Vec::new();
        let mut k: usize = 0;
        while k < self.changes.len()
            invariant
                k <= self.changes@.len(),
                changes@.len() == k,
            decreases self.changes@.len() - k,
        {
            let c = &self.changes[k];
            changes.push(
                FileChange {
                    file_id: c.file_id,
                    file_version: c.file_version,
                    kind: c.kind,
                    file_hash: c.file_hash.clone(),
                    changed_at: c.changed_at,
                },
            );
            k = k + 1;
        }
        let mut settings: Vec<Setting> = Vec::new();
        let mut m: usize = 0;
        while m < self.settings.len()
            invariant
                m <= self.settings@.len(),
                settings@.len() == m,
                forall|x: int|
                    0 <= x < m ==> #[trigger] settings@[x].name@ == self.settings@[x].name@
                        && settings@[x].value@ == self.settings@[x].value@,
            decreases self.settings@.len() - m,
        {
            let st = &self.settings[m];
            settings.push(
                Setting {
                    name: st.name.clone(),
                    value: st.value.clone(),
                    updated_at: st.updated_at,
                },
            );
            m = m + 1;
        }
        MetadataDB {
            files,
            entries,
            changes,
            settings,
            next_file_id: self.next_file_id,
            next_entry_id: self.next_entry_id,
        }
    }

    /// The directory of the first parent link of a file, scanning the
    /// entries from a given position.
    pub open spec fn first_parent_from(s: Seq<DirectoryEntry>, fid: int, i: int) -> Option<int>
        decreases s.len() - i,
    {
        if i < 0 || i >= s.len() {
            None
        } else if s[i].entry_file_id == fid && is_parent_link(s[i].v()) {
            Some(s[i].directory_file_id as int)
        } else {
            Self::first_parent_from(s, fid, i + 1)
        }
    }

    /// The directory of the first parent link of a file, in table order.
    pub open spec fn first_parent(&self, fid: int) -> Option<int> {
        Self::first_parent_from(self.entries@, fid, 0)
    }

    /// Whether the upward walk from a file reaches the root within the
    /// given number of steps, following first parent links.
    pub open spec fn path_ok(&self, id: int, fuel: nat) -> bool
        decreases fuel,
    {
        if !self.has_file(id) {
            false
        } else if self.file(id).name == "/"@ {
            true
        } else if fuel == 0 {
            false
        } else {
            match self.first_parent(id) {
                Some(p) => p != id && self.path_ok(p, (fuel - 1) as nat),
                None => false,
            }
        }
    }

    /// The absolute path of a file: the names along the walk to the root,
    /// each preceded by a slash, outermost first. The root itself has the
    /// empty path.
    pub open spec fn spec_path(&self, id: int, fuel: nat) -> Seq<char>
        decreases fuel,
    {
        if !self.has_file(id) || fuel == 0 {
            Seq::empty()
        } else if self.file(id).name == "/"@ {
            Seq::empty()
        } else {
            match self.first_parent(id) {
                Some(p) => if p == id {
                    Seq::empty()
                } else {
                    self.spec_path(p, (fuel - 1) as nat) + seq!['/'] + self.file(id).name
                },
                None => Seq::empty(),
            }
        }
    }

    /// The components joined into a path, last component outermost.
    pub open spec fn joined_rev(comps: Seq<Seq<char>>) -> Seq<char>
        decreases comps.len(),
    {
        if comps.len() == 0 {
            Seq::empty()
        } else {
            seq!['/'] + comps.last() + Self::joined_rev(comps.drop_last())
        }
    }

    /// Walk the parent links of a file and return its absolute path with a
    /// leading slash. Fails when a link is missing or the walk cannot reach
    /// the root.
    pub fn get_file_path(&self, file_id: i64) -> (r: Result<String, SqlFileSystemError>)
        requires
            self.wf(),
        ensures
            r is Ok <==> self.path_ok(file_id as int, self.files@.len() as nat),
            r matches Ok(p) ==> p@ == self.spec_path(file_id as int, self.files@.len() as nat),
            r matches Err(e) ==> e.code == EIO && e.kind == ErrorKind::IoError,
    {
        let ghost total = self.files@.len() as nat;
        let mut components: Vec<String> = Vec::new();
        let mut current: i64 = file_id;
        let mut fuel: usize = self.files.len();
        loop
            invariant
                self.wf(),
                total == self.files@.len() as nat,
                fuel <= self.files@.len(),
                self.path_ok(file_id as int, total) == self.path_ok(current as int, fuel as nat),
                self.path_ok(file_id as int, total) ==> self.spec_path(file_id as int, total)
                    =~= self.spec_path(current as int, fuel as nat) + MetadataDB::joined_rev(
                    components@.map_values(|c: String| c@),
                ),
            ensures
                total == self.files@.len() as nat,
                self.path_ok(file_id as int, total),
                self.spec_path(file_id as int, total) =~= MetadataDB::joined_rev(
                    components@.map_values(|c: String| c@),
                ),
            decreases fuel,
        {
            let file = match self.get_file(current) {
                Some(f) => f,
                None => {
                    proof {
                        assert(!self.path_ok(current as int, fuel as nat));
                        assert(!self.path_ok(file_id as int, total));
                    }
                    return error(EIO, ErrorKind::IoError);
                },
            };
            if str_eq(file.name.as_str(), "/") {
                proof {
                    assert(self.file(current as int).name == "/"@);
                    assert(self.path_ok(current as int, fuel as nat));
                    assert(self.spec_path(current as int, fuel as nat) =~= Seq::<char>::empty());
                    assert(self.spec_path(file_id as int, total) =~= MetadataDB::joined_rev(
                        components@.map_values(|c: String| c@),
                    ));
                }
                break;
            }
            proof {
                assert(self.file(current as int).name != "/"@);
            }
            let parent = match self.find_parent_directory_first(current) {
                Some(p) => p,
                None => {
                    proof {
                        assert(!self.path_ok(current as int, fuel as nat));
                        assert(!self.path_ok(file_id as int, total));
                    }
                    return error(EIO, ErrorKind::IoError);
                },
            };
            if parent == current {
                proof {
                    assert(!self.path_ok(current as int, fuel as nat));
                    assert(!self.path_ok(file_id as int, total));
                }
                return error(EIO, ErrorKind::IoError);
            }
            if fuel == 0 {
                proof {
                    assert(!self.path_ok(current as int, fuel as nat));
                    assert(!self.path_ok(file_id as int, total));
                }
                return error(EIO, ErrorKind::IoError);
            }
            proof {
                assert(self.path_ok(current as int, fuel as nat) == self.path_ok(
                    parent as int,
                    (fuel - 1) as nat,
                ));
                assert(self.path_ok(current as int, fuel as nat) ==> self.spec_path(
                    current as int,
                    fuel as nat,
                ) =~= self.spec_path(parent as int, (fuel - 1) as nat) + seq!['/'] + self.file(
                    current as int,
                ).name);
            }
            let ghost prev_comps = components@.map_values(|c: String| c@);
            components.push(file.name);
            fuel = fuel - 1;
            current = parent;
            proof {
                let cur_comps = components@.map_values(|c: String| c@);
                assert(cur_comps.drop_last() =~= prev_comps);
                if self.path_ok(file_id as int, total) {
                    assert(MetadataDB::joined_rev(cur_comps) =~= seq!['/'] + cur_comps.last()
                        + MetadataDB::joined_rev(prev_comps));
                    assert(self.spec_path(file_id as int, total) =~= self.spec_path(
                        current as int,
                        fuel as nat,
                    ) + MetadataDB::joined_rev(cur_comps));
                }
            }
        }
        proof {
            assert(self.path_ok(file_id as int, total));
            assert(self.spec_path(file_id as int, total) =~= MetadataDB::joined_rev(
                components@.map_values(|c: String| c@),
            ));
        }
        // The walk reached the root; assemble the components.
        let mut out = String::new();
        let mut k: usize = components.len();
        proof {
            assert(components@.map_values(|c: String| c@).take(k as int) =~= components@.map_values(
                |c: String| c@,
            ));
            reveal_strlit("/");
        }
        while k > 0
            invariant
                k <= components@.len(),
                out@ + MetadataDB::joined_rev(
                    components@.map_values(|c: String| c@).take(k as int),
                ) =~= MetadataDB::joined_rev(components@.map_values(|c: String| c@)),
                ("/"@) =~= seq!['/'],
            decreases k,
        {
            k = k - 1;
            out.append("/");
            out.append(components[k].as_str());
            proof {
                let comps = components@.map_values(|c: String| c@);
                assert(comps.take(k as int + 1).drop_last() =~= comps.take(k as int));
                assert(comps.take(k as int + 1).last() == comps[k as int]);
                assert(out@ + MetadataDB::joined_rev(comps.take(k as int)) =~= MetadataDB::joined_rev(
                    comps,
                ));
            }
        }
        proof {
            let comps = components@.map_values(|c: String| c@);
            assert(comps.take(0) =~= Seq::<Seq<char>>::empty());
            assert(out@ =~= MetadataDB::joined_rev(comps));
        }
        Ok(out)
    }

    /// Find the first parent link of a file, in table order.
    fn find_parent_directory_first(&self, file_id: i64) -> (r: Option<i64>)
        requires
            self.wf(),
        ensures
            match r {
                Some(d) => self.first_parent(file_id as int) == Some(d as int),
                None => self.first_parent(file_id as int) is None,
            },
    {
        let n = self.entries.len();
        let mut i: usize = 0;
        while i < n
            invariant
                self.wf(),
                n == self.entries@.len(),
                i <= n,
                MetadataDB::first_parent_from(self.entries@, file_id as int, 0)
                    == MetadataDB::first_parent_from(self.entries@, file_id as int, i as int),
            decreases n - i,
        {
            let e = &self.entries[i];
            if e.entry_file_id == file_id && !str_eq(e.name.as_str(), ".") && !str_eq(
                e.name.as_str(),
                "..",
            ) {
                return Some(e.directory_file_id);
            }
            i = i + 1;
        }
        None
    }

    /// What a component walk from a starting directory resolves to.
    pub open spec fn resolve_from(&self, comps: Seq<Seq<char>>, cur: int) -> Option<int>
        decreases comps.len(),
    {
        if comps.len() == 0 {
            Some(cur)
        } else if self.has_entry(cur, comps[0]) {
            self.resolve_from(comps.drop_first(), self.entry(cur, comps[0]).entry_file_id)
        } else {
            None
        }
    }

    /// What an absolute path resolves to: its non-empty components walked
    /// down from the root.
    pub open spec fn resolve_path(&self, path: Seq<char>) -> Option<int> {
        self.resolve_from(split_slashes(path), ROOT_DIRECTORY_ID as int)
    }

    /// Resolve a path from the root and fetch the file it denotes.
    pub fn get_file_by_path(&self, path: &str) -> (r: Option<FileRow>)
        requires
            self.wf(),
        ensures
            r is Some <==> (self.resolve_path(path@) matches Some(fid) && self.has_file(fid)),
            r matches Some(f) ==> f.v() == self.file(self.resolve_path(path@)->0),
    {
        let comps = crate::strutil::path_components(path);
        let mut current: i64 = ROOT_DIRECTORY_ID;
        let mut i: usize = 0;
        let n = comps.len();
        proof {
            assert(comps@.map_values(|c: String| c@).skip(0) =~= split_slashes(path@));
        }
        while i < n
            invariant
                self.wf(),
                n == comps@.len(),
                i <= n,
                self.resolve_path(path@) == self.resolve_from(
                    comps@.map_values(|c: String| c@).skip(i as int),
                    current as int,
                ),
            decreases n - i,
        {
            let ghost rem = comps@.map_values(|c: String| c@).skip(i as int);
            let entry = self.find_directory_entry(current, comps[i].as_str());
            match entry {
                Some(e) => {
                    proof {
                        assert(rem[0] == comps@.map_values(|c: String| c@)[i as int]);
                        assert(rem.drop_first() =~= comps@.map_values(|c: String| c@).skip(
                            i as int + 1,
                        ));
                    }
                    current = e.entry_file_id;
                },
                None => {
                    proof {
                        assert(rem[0] == comps@.map_values(|c: String| c@)[i as int]);
                    }
                    return None;
                },
            }
            i = i + 1;
        }
        proof {
            assert(comps@.map_values(|c: String| c@).skip(n as int)
                =~= Seq::<Seq<char>>::empty());
        }
        self.get_file(current)
    }
}

} // verus!
