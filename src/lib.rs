mod active;
mod definition;
mod laws;
mod metadata;
mod migration;
mod order;
mod resolve;
mod status;

pub use active::{
    initialized_names, key_of, names_where, sorted_by_name, updated_names, ActiveMigrations,
};
pub use definition::{
    bytes_of, ByteTransform, HotfixMigration, InnerMigration, MigrationType,
    RegularMigration, StorageStep,
};
pub use metadata::{Metadata, DEFAULT_BLOCK_HEIGHT};
pub use migration::Migration;
pub use order::{compare_bytes, lex_lt};
pub use resolve::{
    all_supported, last_def, last_record, load_enable_all_regular_migrations, load_migrations,
    register, resolves, unique_names, ConfigRecord, LoadError,
};
pub use status::Status;
pub use laws::{
    lemma_disabled_skipped, lemma_initialize_exact, lemma_later_record_wins,
    lemma_names_where_member, lemma_record_resolved, lemma_reenable_restores, lemma_update_sticky,
};
