//! An encrypted, multi-collection key-value store: the crypto layer, the
//! collection registry, the in-memory engine with its deferred persistence,
//! and a small expiring cache.

pub mod commands;
pub mod crypto;
pub mod filesystem;
pub mod memory;
pub mod registry;
pub mod saver;
pub mod ttl_cache;

pub use commands::{
    AegTerminal, AegisrCommand, ClearArgs, Commands, DelArgs, DeleteArgs, GetArgs, InitArgs,
    LoggerConfig, NewArgs, PutArgs, RenameArgs, UseArgs,
};
pub use crypto::{AegCrypto, CryptoError, MAX_PLAINTEXT};
pub use filesystem::{
    AegFileSystem, ENGINE_NAME, ENGINE_VERSION, InitPlan, LockRead, RUNTIME_NAME,
    STORE_AUTHORIZATION_KEY, STORE_COLLECTION, STORE_CONFIG_AEG, STORE_DIR, STORE_TTL_CACHE,
};
pub use memory::{AegMemoryEngine, MemoryCache};
pub use registry::{AegCore, CollectionLock, DEFAULT_COLLECTION, RegistryError};
pub use saver::SaverState;
pub use ttl_cache::{CacheEntry, CacheSlot, TtlCache};
