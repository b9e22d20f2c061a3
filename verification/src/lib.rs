//! A shadow filesystem core: a transactional metadata index, a session cache
//! for open files, and a composable object-storage pipeline with optional
//! compression, authenticated encryption and replication.

pub mod compress;
pub mod compressed_object_storage;
pub mod config;
pub mod crypto;
pub mod encrypted_object_storage;
pub mod errors;
pub mod hexcodec;
pub mod metadata_db;
pub mod obj_storage;
pub mod object_store;
pub mod replicated_object_storage;
pub mod sql_fs;
pub mod sqlar_object_storage;
pub mod storage_interface;
pub mod strutil;
pub mod utils;
