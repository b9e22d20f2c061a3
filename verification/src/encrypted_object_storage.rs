//! Authenticated encryption over an inner store: AES-256-GCM with a
//! per-object random salt and nonce, a PBKDF2-derived key, and the first
//! ten hex characters of the content hash as associated data. The
//! per-object `FileKey` travels through the metadata index in a fixed
//! 100-character wire format.

use crate::config::StorageConfig;
use crate::crypto::{
    aes256gcm_decrypt, aes256gcm_encrypt, aes256gcm_sealed, derived_key_of, generate_nonce,
    generate_salt, salt_password,
};
use crate::errors::{error, ErrorKind, SqlFileSystemError, EINVAL, EIO, ENOENT};
use crate::hexcodec::{hex_decode, hex_decoded, hex_encode, hex_of, is_hex_seq};
use crate::metadata_db::MetadataDB;
use crate::obj_storage::ObjInfo;
use crate::sqlar_object_storage::{SqlarFile, SqlarObjectStorage};
use crate::strutil::{str_contains_char, trim_leading_slashes};
use vstd::prelude::*;

verus! {

/// The per-object encryption descriptor: a 32-byte salt, a 12-byte nonce,
/// and the ten-character associated-data tag.
#[derive(Debug)]
pub struct FileKey {
    pub salt: Vec<u8>,
    pub nonce: Vec<u8>,
    pub aead: String,
}

/// The wire form of a file key: hex salt, hex nonce and the tag, joined
/// by colons.
pub open spec fn spec_serialize_key(salt: Seq<u8>, nonce: Seq<u8>, aead: Seq<char>) -> Seq<char> {
    hex_of(salt) + seq![':'] + hex_of(nonce) + seq![':'] + aead
}

/// What a candidate wire string parses to: the salt and nonce bytes and
/// the tag, or nothing when the shape is wrong. The shape is a 64-digit
/// hex salt, a colon, a 24-digit hex nonce, a colon, and a ten-character
/// tag free of colons — 100 characters in all.
pub open spec fn spec_parse_key(s: Seq<char>) -> Option<(Seq<u8>, Seq<u8>, Seq<char>)> {
    if s.len() == 100 && s[64] == ':' && s[89] == ':' && is_hex_seq(s.take(64)) && is_hex_seq(
        s.subrange(65, 89),
    ) && !s.subrange(90, 100).contains(':') {
        Some((hex_decoded(s.take(64)), hex_decoded(s.subrange(65, 89)), s.subrange(90, 100)))
    } else {
        None
    }
}

impl FileKey {
    /// A well-formed key: the component lengths of the wire format, with a
    /// tag that cannot collide with the separators.
    pub open spec fn wf(&self) -> bool {
        &&& self.salt@.len() == 32
        &&& self.nonce@.len() == 12
        &&& self.aead@.len() == 10
        &&& !self.aead@.contains(':')
    }

    /// Write the key in its wire format; the result is exactly 100
    /// characters long.
    pub fn serialize(&self) -> (r: String)
        requires
            self.wf(),
        ensures
            r@ == spec_serialize_key(self.salt@, self.nonce@, self.aead@),
            r@.len() == 100,
    {
        let mut out = hex_encode(self.salt.as_slice());
        proof {
            reveal_strlit(":");
        }
        out.append(":");
        let nonce_hex = hex_encode(self.nonce.as_slice());
        out.append(nonce_hex.as_str());
        out.append(":");
        out.append(self.aead.as_str());
        proof {
            assert((":"@) =~= seq![':']);
            assert(out@ =~= spec_serialize_key(self.salt@, self.nonce@, self.aead@));
        }
        out
    }

    /// Parse a wire string, validating every component length and the hex
    /// digits of the salt and nonce.
    pub fn deserialize(s: &str) -> (r: Result<FileKey, SqlFileSystemError>)
        ensures
            r is Ok <==> spec_parse_key(s@) is Some,
            r matches Ok(k) ==> {
                let p = spec_parse_key(s@)->0;
                k.salt@ == p.0 && k.nonce@ == p.1 && k.aead@ == p.2 && k.wf()
            },
            r matches Err(e) ==> e.code == EIO && e.kind == ErrorKind::IntegrityError,
    {
        let n = s.unicode_len();
        if n != 100 {
            return error(EIO, ErrorKind::IntegrityError);
        }
        if s.get_char(64) != ':' || s.get_char(89) != ':' {
            return error(EIO, ErrorKind::IntegrityError);
        }
        let salt_part = s.substring_char(0, 64);
        let nonce_part = s.substring_char(65, 89);
        let aead_part = s.substring_char(90, 100);
        proof {
            assert(salt_part@ =~= s@.take(64));
            assert(nonce_part@ =~= s@.subrange(65, 89));
            assert(aead_part@ =~= s@.subrange(90, 100));
        }
        let salt = match hex_decode(salt_part) {
            Some(b) => b,
            None => {
                return error(EIO, ErrorKind::IntegrityError);
            },
        };
        let nonce = match hex_decode(nonce_part) {
            Some(b) => b,
            None => {
                return error(EIO, ErrorKind::IntegrityError);
            },
        };
        if str_contains_char(aead_part, ':') {
            return error(EIO, ErrorKind::IntegrityError);
        }
        let key = FileKey { salt, nonce, aead: aead_part.to_owned() };
        proof {
            assert(key.salt@.len() == 32);
            assert(key.nonce@.len() == 12);
        }
        Ok(key)
    }
}

/// A round trip through the wire format returns every well-formed key
/// unchanged, and the wire form is always exactly 100 characters.
pub proof fn lemma_filekey_round_trip(salt: Seq<u8>, nonce: Seq<u8>, aead: Seq<char>)
    requires
        salt.len() == 32,
        nonce.len() == 12,
        aead.len() == 10,
        !aead.contains(':'),
    ensures
        spec_serialize_key(salt, nonce, aead).len() == 100,
        spec_parse_key(spec_serialize_key(salt, nonce, aead)) == Some((salt, nonce, aead)),
{
    let s = spec_serialize_key(salt, nonce, aead);
    crate::hexcodec::lemma_hex_of_is_hex_seq(salt);
    crate::hexcodec::lemma_hex_of_is_hex_seq(nonce);
    assert(s.len() == 100);
    assert(s[64] == ':');
    assert(s[89] == ':');
    assert(s.take(64) =~= hex_of(salt));
    assert(s.subrange(65, 89) =~= hex_of(nonce));
    assert(s.subrange(90, 100) =~= aead);
    crate::hexcodec::lemma_hex_round_trip(salt);
    crate::hexcodec::lemma_hex_round_trip(nonce);
    assert(spec_parse_key(s) == Some((salt, nonce, aead)));
}

/// The storage path of an encrypted object when the content digest must
/// not leak through the filename: the directory portion of the path, then
/// the hex of the nonce with an `.enc` suffix.
pub open spec fn spec_enc_path(p: Seq<char>, nonce: Seq<u8>) -> Seq<char> {
    if exists|i: int| 0 <= i < p.len() && p[i] == '/' {
        let last = choose|i: int|
            0 <= i < p.len() && p[i] == '/' && forall|j: int| i < j < p.len() ==> p[j] != '/';
        p.take(last + 1) + hex_of(nonce) + ".enc"@
    } else {
        hex_of(nonce) + ".enc"@
    }
}

/// Authenticated encryption in front of an archive store.
#[derive(Debug)]
pub struct EncryptedObjectStorage {
    pub config: StorageConfig,
    pub fs: SqlarObjectStorage,
}

impl EncryptedObjectStorage {
    /// Wrap an archive store with encryption under this section.
    pub fn new(config: StorageConfig, fs: SqlarObjectStorage) -> (r: EncryptedObjectStorage)
        ensures
            r.config == config,
            r.fs == fs,
    {
        EncryptedObjectStorage { config, fs }
    }

    /// Encrypt content under a fresh random salt and nonce. The associated
    /// data is the first ten characters of the declared content hash, which
    /// ties the ciphertext to the declared content identity.
    pub fn encrypt(private_key: &str, content: &[u8], content_sha512: &str) -> (r: Result<
        (FileKey, Vec<u8>),
        SqlFileSystemError,
    >)
        requires
            content_sha512@.len() >= 10,
            !content_sha512@.take(10).contains(':'),
            content@.len() <= crate::crypto::GCM_P_MAX,
        ensures
            r is Ok,
            r matches Ok(p) ==> {
                let (key, ciphertext) = p;
                &&& key.wf()
                &&& key.aead@ == content_sha512@.take(10)
                &&& ciphertext@ == aes256gcm_sealed(
                    derived_key_of(private_key@, key.salt@),
                    key.nonce@,
                    vstd::utf8::encode_utf8(key.aead@),
                    content@,
                )
                &&& ciphertext@.len() == content@.len() + 16
            },
            r matches Err(e) ==> e.code == EIO && e.kind == ErrorKind::IntegrityError,
    {
        let salt = generate_salt();
        let aes_key = salt_password(private_key, salt.as_slice());
        let nonce = generate_nonce();
        let aead = content_sha512.substring_char(0, 10).to_owned();
        proof {
            assert(aead@ =~= content_sha512@.take(10));
            lemma_utf8_len_bound(aead@);
        }
        let ciphertext = match aes256gcm_encrypt(
            aes_key.as_slice(),
            nonce.as_slice(),
            aead.as_str().as_bytes(),
            content,
        ) {
            Ok(c) => c,
            Err(_) => {
                return error(EIO, ErrorKind::IntegrityError);
            },
        };
        let key = FileKey { salt, nonce, aead };
        Ok((key, ciphertext))
    }

    /// Decrypt a ciphertext under a parsed file key: it succeeds exactly on
    /// ciphertexts sealed under the same password-derived key, nonce and
    /// tag, and returns that plaintext.
    pub fn decrypt(private_key: &str, file_key: &FileKey, ciphertext: &[u8]) -> (r: Result<
        Vec<u8>,
        SqlFileSystemError,
    >)
        requires
            file_key.wf(),
            ciphertext@.len() <= crate::crypto::GCM_C_MAX,
        ensures
            (match r {
                Ok(m) => ciphertext@ == aes256gcm_sealed(
                    derived_key_of(private_key@, file_key.salt@),
                    file_key.nonce@,
                    vstd::utf8::encode_utf8(file_key.aead@),
                    m@,
                ) && forall|x: Seq<u8>|
                    ciphertext@ == #[trigger] aes256gcm_sealed(
                        derived_key_of(private_key@, file_key.salt@),
                        file_key.nonce@,
                        vstd::utf8::encode_utf8(file_key.aead@),
                        x,
                    ) ==> x == m@,
                Err(e) => e.code == EIO && e.kind == ErrorKind::IntegrityError && forall|
                    x: Seq<u8>,
                |
                    ciphertext@ != #[trigger] aes256gcm_sealed(
                        derived_key_of(private_key@, file_key.salt@),
                        file_key.nonce@,
                        vstd::utf8::encode_utf8(file_key.aead@),
                        x,
                    ),
            }),
    {
        proof {
            lemma_utf8_len_bound(file_key.aead@);
        }
        let aes_key = salt_password(private_key, file_key.salt.as_slice());
        match aes256gcm_decrypt(
            aes_key.as_slice(),
            file_key.nonce.as_slice(),
            file_key.aead.as_str().as_bytes(),
            ciphertext,
        ) {
            Ok(m) => Ok(m),
            Err(_) => error(EIO, ErrorKind::IntegrityError),
        }
    }

    /// The storage path of an object under this wrapper: rewritten to the
    /// nonce-derived name under hash addressing, unchanged otherwise.
    pub fn path(&self, key: &FileKey, original_path: &str) -> (r: String)
        requires
            key.wf(),
        ensures
            self.config.use_hash_as_filename ==> r@ == spec_enc_path(original_path@, key.nonce@),
            !self.config.use_hash_as_filename ==> r@ == original_path@,
    {
        if self.config.use_hash_as_filename {
            let n = original_path.unicode_len();
            // Find the index just past the last slash, or 0.
            let mut cut: usize = 0;
            let mut i: usize = 0;
            while i < n
                invariant
                    n == original_path@.len(),
                    i <= n,
                    cut <= i,
                    cut > 0 ==> original_path@[cut - 1] == '/',
                    forall|j: int| cut <= j < i ==> original_path@[j] != '/',
                    cut == 0 ==> forall|j: int| 0 <= j < i ==> original_path@[j] != '/',
                decreases n - i,
            {
                if original_path.get_char(i) == '/' {
                    cut = i + 1;
                }
                i = i + 1;
            }
            let mut out = original_path.substring_char(0, cut).to_owned();
            let nonce_hex = hex_encode(key.nonce.as_slice());
            out.append(nonce_hex.as_str());
            proof {
                reveal_strlit(".enc");
            }
            out.append(".enc");
            proof {
                let p = original_path@;
                if cut > 0 {
                    assert(p[cut - 1] == '/');
                    let last = choose|x: int|
                        0 <= x < p.len() && p[x] == '/' && forall|j: int|
                            x < j < p.len() ==> p[j] != '/';
                    assert(forall|j: int| cut <= j < n ==> p[j] != '/');
                    if last != cut - 1 {
                        if last < cut - 1 {
                            assert(p[cut - 1] != '/');
                        } else {
                            assert(p[last] != '/');
                        }
                    }
                    assert(p.take(cut as int) =~= p.take(last + 1));
                    assert(out@ =~= spec_enc_path(p, key.nonce@));
                } else {
                    assert(forall|j: int| 0 <= j < n ==> p[j] != '/');
                    if exists|x: int| 0 <= x < p.len() && p[x] == '/' {
                        let x = choose|x: int| 0 <= x < p.len() && p[x] == '/';
                        assert(p[x] != '/');
                    }
                    assert(p.take(0) =~= Seq::<char>::empty());
                    assert(out@ =~= spec_enc_path(p, key.nonce@));
                }
            }
            out
        } else {
            original_path.to_owned()
        }
    }
}

/// The archive-row name of an encrypted object: the rewritten (or plain)
/// path with leading slashes trimmed.
pub open spec fn enc_store_key(use_hash: bool, full_path: Seq<char>, nonce: Seq<u8>) -> Seq<char> {
    if use_hash {
        trim_leading_slashes(spec_enc_path(full_path, nonce))
    } else {
        trim_leading_slashes(full_path)
    }
}

/// A UTF-8 encoding takes at most four bytes per character.
pub proof fn lemma_utf8_len_bound(s: Seq<char>)
    ensures
        vstd::utf8::encode_utf8(s).len() <= 4 * s.len(),
    decreases s.len(),
{
    if s.len() > 0 {
        lemma_utf8_len_bound(s.drop_first());
    }
}

/// Hex digits never collide with the key separator.
pub proof fn lemma_hex_seq_no_colon(s: Seq<char>)
    requires
        is_hex_seq(s),
    ensures
        !s.contains(':'),
{
    if s.contains(':') {
        let j = choose|j: int| 0 <= j < s.len() && s[j] == ':';
        assert(crate::hexcodec::hex_val(s[j]) >= 0);
    }
}

impl EncryptedObjectStorage {
    /// Encrypt and store the content of an object; the identity's
    /// encryption descriptor is rewritten to the fresh per-object key.
    pub fn put(&mut self, info: &mut ObjInfo, content: &[u8]) -> (r: Result<
        (),
        SqlFileSystemError,
    >)
        requires
            old(self).fs.wf(),
            old(info).sha512@.len() >= 10,
            is_hex_seq(old(info).sha512@.take(10)),
        ensures
            final(self).config == old(self).config,
            final(self).fs.config == old(self).fs.config,
            final(self).fs.wf(),
            old(info).sha512@.len() >= 32 && content@.len() <= crate::crypto::GCM_P_MAX ==> r
                is Ok,
            r is Ok ==> content@.len() <= crate::crypto::GCM_P_MAX,
            r matches Err(e) ==> *final(self) == *old(self) && *final(info) == *old(info) && e.code
                == EINVAL && e.kind == ErrorKind::InvalidArg && content@.len()
                > crate::crypto::GCM_P_MAX,
            r is Ok ==> exists|salt: Seq<u8>, nonce: Seq<u8>|
                {
                    &&& salt.len() == 32
                    &&& nonce.len() == 12
                    &&& #[trigger] final(info).encryption_key@ == spec_serialize_key(
                        salt,
                        nonce,
                        old(info).sha512@.take(10),
                    )
                    &&& final(info).name@ == old(info).name@
                    &&& final(info).full_path@ == old(info).full_path@
                    &&& final(info).sha512@ == old(info).sha512@
                    &&& final(info).compression@ == old(info).compression@
                    &&& final(info).size == old(info).size
                    &&& final(info).mode == old(info).mode
                    &&& final(info).created_at == old(info).created_at
                    &&& final(info).accessed_at == old(info).accessed_at
                    &&& final(info).updated_at == old(info).updated_at
                    &&& {
                        let k = enc_store_key(
                            old(self).config.use_hash_as_filename,
                            old(info).full_path@,
                            nonce,
                        );
                        &&& final(self).fs.has_obj(k)
                        &&& final(self).fs.obj(k) == aes256gcm_sealed(
                            derived_key_of(old(self).config.encryption_key@, salt),
                            nonce,
                            vstd::utf8::encode_utf8(old(info).sha512@.take(10)),
                            content@,
                        )
                        &&& final(self).fs.obj(k).len() == content@.len() + 16
                        &&& SqlarObjectStorage::frame(old(self).fs, final(self).fs, k)
                    }
                },
    {
        if content.len() as u64 > crate::crypto::GCM_P_MAX {
            return error(EINVAL, ErrorKind::InvalidArg);
        }
        proof {
            lemma_hex_seq_no_colon(info.sha512@.take(10));
        }
        let pair = match Self::encrypt(
            self.config.encryption_key.as_str(),
            content,
            info.sha512.as_str(),
        ) {
            Ok(p) => p,
            Err(e) => {
                return Err(e);
            },
        };
        let (key, bytes) = pair;
        let full = self.path(&key, info.full_path.as_str());
        let name = crate::strutil::strip_leading_slashes(full.as_str());
        let row = SqlarFile {
            name: name.clone(),
            mode: info.mode as i64,
            mtime: info.updated_at,
            sz: #[verifier::truncate] (info.size as i64),
            data: bytes,
        };
        let rr = self.fs.set_sqlar_file(name.as_str(), row);
        let serialized = key.serialize();
        info.encryption_key = serialized;
        proof {
            let salt = key.salt@;
            let nonce = key.nonce@;
            assert(name@ == enc_store_key(
                self.config.use_hash_as_filename,
                info.full_path@,
                nonce,
            ));
        }
        Ok(())
    }

    /// Fetch and decrypt the content of an object. The stored descriptor
    /// is parsed, the blob is looked up under the nonce-derived key, and
    /// decryption verifies the authentication tag.
    pub fn get(&self, info: &ObjInfo) -> (r: Result<Vec<u8>, SqlFileSystemError>)
        requires
            self.fs.wf(),
        ensures
            ({
                let pk = spec_parse_key(info.encryption_key@);
                &&& r is Ok <==> (pk matches Some(p) && {
                    let k = enc_store_key(self.config.use_hash_as_filename, info.full_path@, p.1);
                    &&& self.fs.has_obj(k)
                    &&& self.fs.obj(k).len() <= crate::crypto::GCM_C_MAX
                    &&& exists|m: Seq<u8>|
                        self.fs.obj(k) == #[trigger] aes256gcm_sealed(
                            derived_key_of(self.config.encryption_key@, p.0),
                            p.1,
                            vstd::utf8::encode_utf8(p.2),
                            m,
                        )
                })
                &&& r matches Ok(d) ==> (pk matches Some(p) && {
                    let k = enc_store_key(self.config.use_hash_as_filename, info.full_path@, p.1);
                    &&& self.fs.obj(k) == aes256gcm_sealed(
                        derived_key_of(self.config.encryption_key@, p.0),
                        p.1,
                        vstd::utf8::encode_utf8(p.2),
                        d@,
                    )
                    &&& forall|x: Seq<u8>|
                        self.fs.obj(k) == #[trigger] aes256gcm_sealed(
                            derived_key_of(self.config.encryption_key@, p.0),
                            p.1,
                            vstd::utf8::encode_utf8(p.2),
                            x,
                        ) ==> x == d@
                })
                &&& r matches Err(e) ==> e.kind == ErrorKind::NotFound || e.kind
                    == ErrorKind::IntegrityError
            }),
    {
        let key = match FileKey::deserialize(self.encryption_key_str(info)) {
            Ok(k) => k,
            Err(e) => {
                return Err(e);
            },
        };
        let full = self.path(&key, info.full_path.as_str());
        let name = crate::strutil::strip_leading_slashes(full.as_str());
        let row = match self.fs.get_sqlar_file(name.as_str()) {
            Some(f) => f,
            None => {
                return error(ENOENT, ErrorKind::NotFound);
            },
        };
        if row.data.len() as u64 > crate::crypto::GCM_C_MAX {
            return error(EIO, ErrorKind::IntegrityError);
        }
        match Self::decrypt(self.config.encryption_key.as_str(), &key, row.data.as_slice()) {
            Ok(m) => Ok(m),
            Err(e) => Err(e),
        }
    }

    /// Borrow the stored encryption descriptor of an identity.
    fn encryption_key_str<'a>(&self, info: &'a ObjInfo) -> (r: &'a str)
        ensures
            r@ == info.encryption_key@,
    {
        info.encryption_key.as_str()
    }

    /// Remove an object's blob unless the deduplication test shows the
    /// object is still used by some file.
    pub fn remove(&mut self, info: &ObjInfo, db: &MetadataDB) -> (r: Result<
        (),
        SqlFileSystemError,
    >)
        requires
            old(self).fs.wf(),
            db.wf(),
        ensures
            final(self).config == old(self).config,
            final(self).fs.config == old(self).fs.config,
            final(self).fs.wf(),
            r matches Err(e) ==> *final(self) == *old(self) && e.kind == ErrorKind::IntegrityError
                && spec_parse_key(info.encryption_key@) is None,
            r is Ok ==> spec_parse_key(info.encryption_key@) is Some,
            r is Ok && SqlarObjectStorage::spec_in_use(
                *db,
                old(self).config.use_hash_as_filename,
                *info,
            ) ==> *final(self) == *old(self),
            r is Ok && !SqlarObjectStorage::spec_in_use(
                *db,
                old(self).config.use_hash_as_filename,
                *info,
            ) ==> {
                let k = enc_store_key(
                    old(self).config.use_hash_as_filename,
                    info.full_path@,
                    (spec_parse_key(info.encryption_key@)->0).1,
                );
                &&& !final(self).fs.has_obj(k)
                &&& SqlarObjectStorage::frame(old(self).fs, final(self).fs, k)
            },
    {
        let key = match FileKey::deserialize(self.encryption_key_str(info)) {
            Ok(k) => k,
            Err(e) => {
                return Err(e);
            },
        };
        let in_use: bool = if self.config.use_hash_as_filename {
            db.get_file_by_sha512(info.sha512.as_str()).is_some()
        } else {
            db.get_file_by_path(info.full_path.as_str()).is_some()
        };
        if in_use {
            return Ok(());
        }
        let full = self.path(&key, info.full_path.as_str());
        let name = crate::strutil::strip_leading_slashes(full.as_str());
        let rr = self.fs.remove_sqlar_file(name.as_str());
        Ok(())
    }

    /// Move an object's blob between the keys two identities derive. A
    /// descriptor that does not parse means no blob is addressed: a no-op,
    /// so that renaming a file that never had content written succeeds.
    pub fn rename(&mut self, prev_info: &ObjInfo, new_info: &ObjInfo) -> (r: Result<
        (),
        SqlFileSystemError,
    >)
        requires
            old(self).fs.wf(),
        ensures
            r is Ok,
            final(self).config == old(self).config,
            final(self).fs.config == old(self).fs.config,
            final(self).fs.wf(),
            spec_parse_key(prev_info.encryption_key@) is None ==> *final(self) == *old(self),
            spec_parse_key(prev_info.encryption_key@) matches Some(p) ==> {
                let kp = enc_store_key(
                    old(self).config.use_hash_as_filename,
                    prev_info.full_path@,
                    p.1,
                );
                let kn = enc_store_key(
                    old(self).config.use_hash_as_filename,
                    new_info.full_path@,
                    (spec_parse_key(new_info.encryption_key@)->0).1,
                );
                &&& spec_parse_key(new_info.encryption_key@) is None ==> *final(self) == *old(
                    self,
                )
                &&& spec_parse_key(new_info.encryption_key@) is Some ==> {
                    &&& kp == kn ==> *final(self) == *old(self)
                    &&& !old(self).fs.has_obj(kp) ==> *final(self) == *old(self)
                    &&& kp != kn && old(self).fs.has_obj(kp) ==> {
                        &&& !final(self).fs.has_obj(kp)
                        &&& final(self).fs.has_obj(kn)
                        &&& final(self).fs.obj(kn) == old(self).fs.obj(kp)
                        &&& forall|n: Seq<char>|
                            #![trigger final(self).fs.has_obj(n)]
                            #![trigger final(self).fs.obj(n)]
                            n != kp && n != kn ==> (final(self).fs.has_obj(n) == old(
                                self,
                            ).fs.has_obj(n)) && (old(self).fs.has_obj(n) ==> final(self).fs.obj(n)
                                == old(self).fs.obj(n))
                    }
                }
            },
    {
        let prev_key = match FileKey::deserialize(self.encryption_key_str(prev_info)) {
            Ok(k) => k,
            Err(_) => {
                return Ok(());
            },
        };
        let new_key = match FileKey::deserialize(self.encryption_key_str(new_info)) {
            Ok(k) => k,
            Err(_) => {
                return Ok(());
            },
        };
        let prev_full = self.path(&prev_key, prev_info.full_path.as_str());
        let new_full = self.path(&new_key, new_info.full_path.as_str());
        let prev_name = crate::strutil::strip_leading_slashes(prev_full.as_str());
        let new_name = crate::strutil::strip_leading_slashes(new_full.as_str());
        self.fs.rename_sqlar_file(prev_name.as_str(), new_name.as_str())
    }

    /// Empty the inner store.
    pub fn nuke(&mut self) -> (r: Result<(), SqlFileSystemError>)
        requires
            old(self).fs.wf(),
        ensures
            r is Ok,
            final(self).config == old(self).config,
            final(self).fs.config == old(self).fs.config,
            final(self).fs.wf(),
            forall|n: Seq<char>| !final(self).fs.has_obj(n),
    {
        self.fs.nuke()
    }
}

} // verus!
