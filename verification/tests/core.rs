use innerfs::config::{Config, StorageConfig, StorageOption};
use innerfs::encrypted_object_storage::{EncryptedObjectStorage, FileKey};
use innerfs::crypto::{salt_password, sha512};
use innerfs::hexcodec::{hex_decode, hex_encode};
use innerfs::metadata_db::{MetadataDB, FILE_KIND_DIRECTORY, FILE_KIND_REGULAR};
use innerfs::object_store::{create_object_storage, ObjectStore};
use innerfs::replicated_object_storage::ReplicatedObjectStorage;
use innerfs::sql_fs::SqlFileSystem;
use innerfs::storage_interface::{StorageInterface, O_RDONLY, O_WRONLY};

fn storage_config(encryption_key: &str, level: u32, use_hash: bool) -> StorageConfig {
    StorageConfig {
        storage_backend: StorageOption::Sqlar,
        blob_storage: String::new(),
        s3_endpoint_url: String::new(),
        s3_region: String::new(),
        s3_bucket: String::new(),
        s3_base_path: String::new(),
        s3_access_key: String::new(),
        s3_secret_key: String::new(),
        encryption_key: encryption_key.to_string(),
        compression_level: level,
        use_hash_as_filename: use_hash,
    }
}

fn make_fs(encryption_key: &str, level: u32, use_hash: bool) -> SqlFileSystem {
    let section = storage_config(encryption_key, level, use_hash);
    let config = Config {
        database_file: "./index.db".to_string(),
        mount_point: "./data".to_string(),
        primary: section.duplicate(),
        replicas: Vec::new(),
        update_access_time: false,
        store_file_change_history: true,
    };
    let store = create_object_storage(section);
    let group = ReplicatedObjectStorage::new(store, Vec::new());
    let cache = StorageInterface::new(group);
    SqlFileSystem::new(MetadataDB::new(), config, cache)
}

#[test]
fn test_key_derivation() {
    let password = "1234";
    let salt_bytes = b"1234";
    let salted_password = salt_password(password, salt_bytes);
    assert_eq!(salted_password.len(), 32);
    // The same inputs always derive the same key.
    assert_eq!(salted_password, salt_password(password, salt_bytes));
}

#[test]
fn test_encryption() {
    let password = "1234";
    let content = "Hello world".as_bytes();
    let content_sha512 = hex_encode(&sha512(content));
    let (file_key, ciphertext) =
        EncryptedObjectStorage::encrypt(password, content, content_sha512.as_str()).unwrap();
    let serialized_file_key = file_key.serialize();

    // Storage and later retrieval.
    let deserialized_file_key = FileKey::deserialize(serialized_file_key.as_str()).unwrap();
    let plaintext =
        EncryptedObjectStorage::decrypt(password, &deserialized_file_key, &ciphertext).unwrap();
    assert_eq!(plaintext, content.to_vec());
    assert_eq!(ciphertext.len(), content.len() + 16);
}

#[test]
fn filekey_round_trip_is_identity_and_100_chars() {
    let key = FileKey {
        salt: vec![7u8; 32],
        nonce: vec![9u8; 12],
        aead: "0123456789".to_string(),
    };
    let wire = key.serialize();
    assert_eq!(wire.len(), 100);
    let back = FileKey::deserialize(wire.as_str()).unwrap();
    assert_eq!(back.salt, key.salt);
    assert_eq!(back.nonce, key.nonce);
    assert_eq!(back.aead, key.aead);
}

#[test]
fn filekey_rejects_malformed_wire_forms() {
    assert!(FileKey::deserialize("").is_err());
    assert!(FileKey::deserialize("abc").is_err());
    let mut wire = FileKey {
        salt: vec![1u8; 32],
        nonce: vec![2u8; 12],
        aead: "aabbccddee".to_string(),
    }
    .serialize();
    wire.push('x');
    assert!(FileKey::deserialize(wire.as_str()).is_err());
}

#[test]
fn tampered_ciphertext_fails_decryption() {
    let password = "pw";
    let content = b"secret payload";
    let sha = hex_encode(&sha512(content));
    let (key, mut ciphertext) =
        EncryptedObjectStorage::encrypt(password, content, sha.as_str()).unwrap();
    ciphertext[0] ^= 0xff;
    let r = EncryptedObjectStorage::decrypt(password, &key, &ciphertext);
    assert!(r.is_err());
    // A wrong password (hence a wrong derived key) also fails.
    let (key2, ciphertext2) =
        EncryptedObjectStorage::encrypt(password, content, sha.as_str()).unwrap();
    assert!(EncryptedObjectStorage::decrypt("other", &key2, &ciphertext2).is_err());
}

#[test]
fn hex_agrees_with_reference_implementation() {
    let data: Vec<u8> = (0u8..=255).collect();
    assert_eq!(hex_encode(&data), hex::encode(&data));
    let decoded = hex_decode(hex::encode(&data).as_str()).unwrap();
    assert_eq!(decoded, data);
    assert!(hex_decode("abc").is_none());
    assert!(hex_decode("zz").is_none());
}

#[test]
fn name_validation_accepts_and_rejects_exactly() {
    let fs = make_fs("", 0, false);
    assert!(!fs.is_validate_file_name(""));
    assert!(!fs.is_validate_file_name("a/b"));
    assert!(!fs.is_validate_file_name("."));
    assert!(!fs.is_validate_file_name(".."));
    let long = "a".repeat(256);
    assert!(!fs.is_validate_file_name(long.as_str()));
    let max = "a".repeat(255);
    assert!(fs.is_validate_file_name(max.as_str()));
    assert!(fs.is_validate_file_name("hello.txt"));
    assert!(fs.is_validate_file_name("...")); // odd, but not . or ..
}

#[test]
fn scenario_mkdir_and_readdir() {
    let mut fs = make_fs("", 0, false);
    let dir = fs.mkdir(1, "a", 1000, 1000, 0o755).unwrap();
    assert_eq!(dir.kind, FILE_KIND_DIRECTORY);
    assert_eq!(dir.name, "a");
    let root_entries = fs.readdir(1, 0).unwrap();
    assert!(root_entries.iter().any(|e| e.name == "a"));
    let new_entries = fs.readdir(dir.id, 0).unwrap();
    let names: Vec<&str> = new_entries.iter().map(|e| e.name.as_str()).collect();
    assert_eq!(new_entries.len(), 2);
    assert!(names.contains(&"."));
    assert!(names.contains(&".."));
}

#[test]
fn scenario_write_then_read_back() {
    let mut fs = make_fs("", 0, false);
    let file = fs.mknod(1, "hello.txt", 1000, 1000, 0o644).unwrap();
    fs.open(file.id, O_WRONLY as u32).unwrap();
    let n = fs.write(file.id, 0, b"Hello").unwrap();
    assert_eq!(n, 5);
    fs.release(file.id).unwrap();

    let attr = fs.getattr(file.id).unwrap();
    assert_eq!(attr.size, 5);
    assert_eq!(attr.sha512, hex_encode(&sha512(b"Hello")));

    fs.open(file.id, O_RDONLY as u32).unwrap();
    let data = fs.read(file.id, 0, 16).unwrap();
    assert_eq!(data, b"Hello".to_vec());
    fs.release(file.id).unwrap();
}

#[test]
fn scenario_encrypted_hash_addressed_blob() {
    let mut fs = make_fs("pw", 0, true);
    let file = fs.mknod(1, "x.bin", 1000, 1000, 0o644).unwrap();
    fs.open(file.id, O_WRONLY as u32).unwrap();
    fs.write(file.id, 0, b"abc").unwrap();
    fs.release(file.id).unwrap();

    fs.open(file.id, O_RDONLY as u32).unwrap();
    let data = fs.read(file.id, 0, 8).unwrap();
    assert_eq!(data, b"abc".to_vec());
    fs.release(file.id).unwrap();

    let attr = fs.getattr(file.id).unwrap();
    let key = FileKey::deserialize(attr.encryption_key.as_str()).unwrap();
    // The stored blob name ends in .enc, is the hex of the nonce, and is
    // distinct from the content-hash prefix.
    match &fs.storage.obj_storage.primary {
        ObjectStore::Encrypted(enc) => {
            assert_eq!(enc.fs.files.len(), 1);
            let blob_name = enc.fs.files[0].name.clone();
            assert!(blob_name.ends_with(".enc"));
            let expected = format!("{}.enc", hex_encode(&key.nonce));
            assert_eq!(blob_name, expected);
            assert!(!blob_name.starts_with(&attr.sha512[..32]));
        }
        _ => panic!("expected an encrypted store"),
    }
}

#[test]
fn scenario_compressed_blob_round_trip() {
    let mut fs = make_fs("", 6, false);
    let file = fs.mknod(1, "notes.txt", 0, 0, 0o644).unwrap();
    fs.open(file.id, O_WRONLY as u32).unwrap();
    fs.write(file.id, 0, b"compress me compress me compress me").unwrap();
    fs.release(file.id).unwrap();
    let attr = fs.getattr(file.id).unwrap();
    assert_eq!(attr.compression, "gzip:6");
    fs.open(file.id, O_RDONLY as u32).unwrap();
    let data = fs.read(file.id, 0, 64).unwrap();
    assert_eq!(data, b"compress me compress me compress me".to_vec());
    fs.release(file.id).unwrap();
}

#[test]
fn open_mode_compatibility_rules() {
    let mut fs = make_fs("", 0, false);
    let file = fs.mknod(1, "f", 0, 0, 0o644).unwrap();
    // Two overlapping read-only opens succeed.
    fs.open(file.id, O_RDONLY as u32).unwrap();
    fs.open(file.id, O_RDONLY as u32).unwrap();
    // An overlapping writable open fails.
    assert!(fs.open(file.id, O_WRONLY as u32).is_err());
    fs.release(file.id).unwrap();
    fs.release(file.id).unwrap();
    // After the final release, a writable open succeeds again.
    fs.open(file.id, O_WRONLY as u32).unwrap();
    fs.release(file.id).unwrap();
}

#[test]
fn mknod_error_taxonomy() {
    let mut fs = make_fs("", 0, false);
    assert_eq!(fs.mknod(1, "bad/name", 0, 0, 0).unwrap_err().code, innerfs::errors::EINVAL);
    assert_eq!(fs.mknod(42, "a", 0, 0, 0).unwrap_err().code, innerfs::errors::ENOENT);
    let f = fs.mknod(1, "a", 0, 0, 0).unwrap();
    assert_eq!(fs.mknod(1, "a", 0, 0, 0).unwrap_err().code, innerfs::errors::EEXIST);
    assert_eq!(fs.mknod(f.id, "b", 0, 0, 0).unwrap_err().code, innerfs::errors::ENOTDIR);
}

#[test]
fn version_rises_on_mutation() {
    let mut fs = make_fs("", 0, false);
    let f = fs.mknod(1, "v", 0, 0, 0o600).unwrap();
    assert_eq!(f.version, 1);
    let after = fs
        .setattr(f.id, Some(0o640), None, None, None, None, None, None)
        .unwrap();
    assert_eq!(after.version, 2);
    assert_eq!(after.perms, 0o640);
    // The parent's version also rose when the entry was added.
    let root = fs.getattr(1).unwrap();
    assert!(root.version > 1);
}

#[test]
fn lookup_and_getattr() {
    let mut fs = make_fs("", 0, false);
    let f = fs.mknod(1, "target", 7, 8, 0o640).unwrap();
    let found = fs.lookup(1, "target").unwrap().unwrap();
    assert_eq!(found.id, f.id);
    assert_eq!(found.uid, 7);
    assert_eq!(found.gid, 8);
    assert!(fs.lookup(1, "missing").unwrap().is_none());
    assert_eq!(fs.lookup(f.id, "x").unwrap_err().code, innerfs::errors::ENOTDIR);
}

#[test]
fn storage_option_parsing() {
    assert_eq!(
        StorageOption::from_string(&Some("FileSystem".to_string())).unwrap(),
        StorageOption::FileSystem
    );
    assert_eq!(
        StorageOption::from_string(&Some("SQLAR".to_string())).unwrap(),
        StorageOption::Sqlar
    );
    assert_eq!(StorageOption::from_string(&Some("s3".to_string())).unwrap(), StorageOption::S3);
    assert_eq!(
        StorageOption::from_string(&Some("RocksDb".to_string())).unwrap(),
        StorageOption::RocksDb
    );
    assert_eq!(StorageOption::from_string(&None).unwrap(), StorageOption::FileSystem);
    assert!(StorageOption::from_string(&Some("tape".to_string())).is_err());
}

#[test]
fn derived_object_keys() {
    let cfg_hash = storage_config("", 0, true);
    let cfg_path = storage_config("", 0, false);
    let row = innerfs::metadata_db::FileRow {
        id: 9,
        version: 1,
        kind: FILE_KIND_REGULAR,
        name: "n".to_string(),
        uid: 0,
        gid: 0,
        perms: 0o644,
        size: 3,
        sha512: "ab".repeat(64),
        encryption_key: String::new(),
        compression: String::new(),
        accessed_at: 0,
        created_at: 0,
        updated_at: 0,
    };
    let info = innerfs::obj_storage::ObjInfo::new(&row, "/dir/n");
    assert_eq!(cfg_hash.path_of(&info), format!("{}.dat", &"ab".repeat(64)[..32]));
    assert_eq!(cfg_path.path_of(&info), "dir/n");
}
