use chunk_locker::config::{Config, StoreConfig};
use chunk_locker::memory::MemoryConfig;
use chunk_locker::row_id::RowId;

#[test]
fn row_ids() {
    assert_eq!(RowId::new_unset().0, None);
    assert_eq!(RowId::new(42).as_int(), 42);
    assert_eq!(RowId::new(-3), RowId(Some(-3)));
}

#[test]
fn default_store_config() {
    let c = Config { store: StoreConfig::default(), memory: MemoryConfig::default() };
    assert!(c.store.s3.is_none());
    assert!(c.store.fs_root_path.is_none());
    assert_eq!(c.memory.buffer_count, 16);
}
