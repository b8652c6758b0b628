use migrations::{
    compare_bytes, load_enable_all_regular_migrations, load_migrations, ActiveMigrations,
    ByteTransform, ConfigRecord, InnerMigration, LoadError, Metadata, Migration, MigrationType,
    Status, StorageStep, DEFAULT_BLOCK_HEIGHT,
};
use std::collections::BTreeMap;

type Storage = BTreeMap<u8, &'static str>;

struct Insert(u8, &'static str);

impl StorageStep<Storage> for Insert {
    fn apply(&self, storage: &mut Storage) {
        storage.insert(self.0, self.1);
    }
}

/// Decodes a one-field CBOR record and writes it back with a new value.
struct SetValue(u64);

impl ByteTransform for SetValue {
    fn transform(&self, bytes: &[u8]) -> Option<Vec<u8>> {
        let _old: [u64; 1] = minicbor::decode(bytes).ok()?;
        minicbor::to_vec([self.0]).ok()
    }
}

fn registry() -> Vec<InnerMigration<Insert, SetValue>> {
    vec![
        InnerMigration::new_initialize_update(
            Insert(11, "One initialized."),
            Insert(1, "One"),
            "One",
            "The one migration",
        ),
        InnerMigration::new_initialize_update(
            Insert(22, "Two initialized."),
            Insert(2, "two"),
            "Two",
            "The second!",
        ),
        InnerMigration::new_hotfix(SetValue(12345), "Three", "Some cool hotfix"),
    ]
}

fn record(name: &str, height: u64, issue: Option<&str>) -> ConfigRecord {
    ConfigRecord::new(name, Metadata::new(height, issue.map(|s| s.to_string())))
}

fn names(set: &ActiveMigrations<Insert, SetValue>) -> Vec<String> {
    set.entries.iter().map(|m| m.name().to_string()).collect()
}

fn payload(v: u64) -> Vec<u8> {
    minicbor::to_vec([v]).unwrap()
}

fn hotfix_of(results: &[(String, Option<Vec<u8>>)], name: &str) -> Option<Vec<u8>> {
    results.iter().find(|(n, _)| n == name).unwrap().1.clone()
}

#[test]
fn example_registry_and_config() {
    let reg = registry();
    let cfg = vec![record("One", 2, None), record("Three", 7, None)];
    let set = match load_migrations(&reg, &cfg) {
        Ok(s) => s,
        Err(e) => panic!("load failed: {:?}", e),
    };
    assert_eq!(set.len(), 2);
    assert!(set.get("Two").is_none());
    assert_eq!(names(&set), vec!["One".to_string(), "Three".to_string()]);

    let mut storage = Storage::new();
    let fired = set.initialize_all(&mut storage, 2);
    assert_eq!(fired, vec!["One".to_string()]);
    assert_eq!(storage.len(), 1);
    assert_eq!(storage.get(&11), Some(&"One initialized."));

    let at7 = set.hotfix_all(&payload(0), 7);
    assert_eq!(at7.len(), 2);
    assert_eq!(hotfix_of(&at7, "Three"), Some(payload(12345)));
    assert_eq!(hotfix_of(&at7, "One"), None);
    let at6 = set.hotfix_all(&payload(0), 6);
    assert_eq!(hotfix_of(&at6, "Three"), None);
}

#[test]
fn loaded_entries_carry_record_metadata() {
    let reg = registry();
    let cfg = vec![
        record("One", 2, Some("https://example.com/issues/190")),
        record("Two", 5, None),
    ];
    let set = load_migrations(&reg, &cfg).unwrap();
    let one = set.get("One").unwrap();
    assert_eq!(one.metadata().block_height, 2);
    assert_eq!(one.metadata().issue.as_deref(), Some("https://example.com/issues/190"));
    assert_eq!(*one.status(), Status::Enabled);
    assert_eq!(one.description(), "The one migration");
    let two = set.get("Two").unwrap();
    assert_eq!(two.metadata().block_height, 5);
    assert_eq!(two.metadata().issue, None);
    assert!(two.is_enabled());
}

#[test]
fn duplicate_record_keeps_later() {
    let reg = registry();
    let cfg = vec![
        record("One", 2, Some("first")),
        record("Two", 5, None),
        record("One", 3, None),
        record("Three", 7, None),
    ];
    let set = load_migrations(&reg, &cfg).unwrap();
    assert_eq!(set.len(), 3);
    let one = set.get("One").unwrap();
    assert_eq!(one.metadata().block_height, 3);
    assert_eq!(one.metadata().issue, None);
}

#[test]
fn unknown_name_fails_whole_load() {
    let reg = registry();
    let cfg = vec![record("One", 2, None), record("Five", 3, None), record("Six", 4, None)];
    match load_migrations(&reg, &cfg) {
        Err(LoadError::UnsupportedMigrationType(n)) => assert_eq!(n, "Five"),
        Err(e) => panic!("unexpected error {:?}", e),
        Ok(_) => panic!("load must fail"),
    }
}

#[test]
fn empty_config_gives_empty_set() {
    let reg = registry();
    let set = load_migrations(&reg, &[]).unwrap();
    assert_eq!(set.len(), 0);
    let mut storage = Storage::new();
    assert!(set.initialize_all(&mut storage, 1).is_empty());
    assert!(set.update_all(&mut storage, 1).is_empty());
    assert!(storage.is_empty());
}

#[test]
fn initialize_fires_only_at_its_height() {
    let reg = registry();
    let set = load_migrations(&reg, &[record("Two", 5, None)]).unwrap();
    let mut storage = Storage::new();
    assert!(set.initialize_all(&mut storage, 4).is_empty());
    assert!(set.initialize_all(&mut storage, 6).is_empty());
    assert!(storage.is_empty());
    assert_eq!(set.initialize_all(&mut storage, 5), vec!["Two".to_string()]);
    assert_eq!(storage.get(&22), Some(&"Two initialized."));
}

#[test]
fn update_fires_from_its_height_on() {
    let reg = registry();
    let set = load_migrations(&reg, &[record("One", 3, None)]).unwrap();
    let mut storage = Storage::new();
    assert!(set.update_all(&mut storage, 2).is_empty());
    assert!(storage.is_empty());
    for h in [3u64, 4, 10, u64::MAX] {
        assert_eq!(set.update_all(&mut storage, h), vec!["One".to_string()]);
    }
    assert_eq!(storage.get(&1), Some(&"One"));
}

#[test]
fn hotfix_undecodable_input_gives_none() {
    let reg = registry();
    let set = load_migrations(&reg, &[record("Three", 7, None), record("One", 7, None)]).unwrap();
    let garbage = vec![0xffu8, 0x00, 0x13];
    let out = set.hotfix_all(&garbage, 7);
    assert_eq!(hotfix_of(&out, "Three"), None);
    let out = set.hotfix_all(&payload(42), 7);
    assert_eq!(hotfix_of(&out, "Three"), Some(payload(12345)));
    assert_ne!(hotfix_of(&out, "Three"), Some(payload(42)));
    assert_eq!(hotfix_of(&out, "One"), None);
}

#[test]
fn regular_migration_has_no_hotfix() {
    let reg = registry();
    assert_eq!(reg[0].hotfix(&payload(1)), None);
    assert_eq!(reg[2].hotfix(&payload(1)), Some(payload(12345)));
    let mut storage = Storage::new();
    assert!(!reg[2].initialize(&mut storage));
    assert!(!reg[2].update(&mut storage));
    assert!(storage.is_empty());
}

#[test]
fn disable_skips_and_enable_restores() {
    let reg = registry();
    let cfg = vec![record("One", 2, None), record("Three", 2, None)];
    let mut set = load_migrations(&reg, &cfg).unwrap();
    assert!(set.disable("One"));
    assert!(set.disable("Three"));
    assert!(!set.disable("Two"));
    let mut storage = Storage::new();
    for h in 0..5u64 {
        assert!(set.initialize_all(&mut storage, h).is_empty());
        assert!(set.update_all(&mut storage, h).is_empty());
        assert!(set.hotfix_all(&payload(0), h).iter().all(|(_, r)| r.is_none()));
    }
    assert!(storage.is_empty());
    assert!(set.enable("One"));
    assert!(set.enable("Three"));
    assert_eq!(set.initialize_all(&mut storage, 2), vec!["One".to_string()]);
    assert_eq!(set.update_all(&mut storage, 2), vec!["One".to_string()]);
    assert_eq!(hotfix_of(&set.hotfix_all(&payload(0), 2), "Three"), Some(payload(12345)));
}

#[test]
fn single_migration_gates() {
    let reg = registry();
    let mut m = Migration::new(&reg[0], Metadata::new(4, None), Status::enabled());
    let mut storage = Storage::new();
    assert!(!m.initialize(&mut storage, 3));
    assert!(!m.update(&mut storage, 3));
    assert!(storage.is_empty());
    assert!(m.initialize(&mut storage, 4));
    assert!(m.update(&mut storage, 5));
    assert_eq!(storage.len(), 2);
    m.disable();
    assert!(!m.is_enabled());
    assert!(!m.update(&mut storage, 5));
    m.enable();
    assert!(m.update(&mut storage, 5));
    assert_eq!(m.name(), "One");
}

#[test]
fn enable_all_leaves_hotfix_disabled() {
    let reg = registry();
    let set = load_enable_all_regular_migrations(&reg);
    assert_eq!(names(&set), vec!["One".to_string(), "Three".to_string(), "Two".to_string()]);
    for name in ["One", "Two"] {
        let m = set.get(name).unwrap();
        assert_eq!(*m.status(), Status::Enabled);
        assert_eq!(m.metadata().block_height, DEFAULT_BLOCK_HEIGHT);
        assert_eq!(m.metadata().block_height, 1);
        assert_eq!(m.metadata().issue, None);
    }
    assert_eq!(*set.get("Three").unwrap().status(), Status::Disabled);
    let mut storage = Storage::new();
    assert_eq!(set.initialize_all(&mut storage, 1), vec!["One".to_string(), "Two".to_string()]);
}

#[test]
fn partial_regular_migrations() {
    let reg: Vec<InnerMigration<Insert, SetValue>> = vec![
        InnerMigration::new_initialize(Insert(5, "init only"), "A", "a"),
        InnerMigration::new_update(Insert(6, "update only"), "B", "b"),
    ];
    let mut storage = Storage::new();
    assert!(reg[0].initialize(&mut storage));
    assert!(!reg[0].update(&mut storage));
    assert!(!reg[1].initialize(&mut storage));
    assert!(reg[1].update(&mut storage));
    assert_eq!(storage.get(&5), Some(&"init only"));
    assert_eq!(storage.get(&6), Some(&"update only"));
    assert!(matches!(reg[1].kind(), MigrationType::Regular(_)));
    assert_eq!(reg[1].name(), "B");
    assert_eq!(reg[1].description(), "b");
}

#[test]
fn entries_are_ordered_by_name() {
    let reg = registry();
    let cfg = vec![record("Two", 1, None), record("Three", 1, None), record("One", 1, None)];
    let set = load_migrations(&reg, &cfg).unwrap();
    assert_eq!(names(&set), vec!["One".to_string(), "Three".to_string(), "Two".to_string()]);
}

#[test]
fn byte_order() {
    assert_eq!(compare_bytes(b"abc", b"abd"), -1);
    assert_eq!(compare_bytes(b"abd", b"abc"), 1);
    assert_eq!(compare_bytes(b"ab", b"abc"), -1);
    assert_eq!(compare_bytes(b"abc", b"ab"), 1);
    assert_eq!(compare_bytes(b"", b""), 0);
    assert_eq!(compare_bytes(b"One", b"One"), 0);
    assert_eq!(compare_bytes(b"Two", b"Three"), 1);
}

#[test]
fn status_and_metadata_defaults() {
    assert_eq!(Status::default(), Status::Disabled);
    assert_eq!(Status::enabled(), Status::Enabled);
    assert_eq!(Status::disabled(), Status::Disabled);
    assert_eq!(Status::Enabled.label(), "Enabled");
    assert_eq!(Status::Disabled.label(), "Disabled");
    let m = Metadata::default();
    assert_eq!(m.block_height, 1);
    assert_eq!(m.issue, None);
    let c = Metadata::new(9, Some("x".to_string())).clone();
    assert_eq!(c.block_height, 9);
    assert_eq!(c.issue.as_deref(), Some("x"));
}

#[test]
fn register_refuses_duplicate_name() {
    let mut reg: Vec<InnerMigration<Insert, SetValue>> = Vec::new();
    assert!(migrations::register(&mut reg, InnerMigration::new_initialize(Insert(1, "a"), "One", "first")));
    assert!(migrations::register(&mut reg, InnerMigration::new_hotfix(SetValue(3), "Three", "third")));
    assert!(!migrations::register(&mut reg, InnerMigration::new_update(Insert(2, "b"), "One", "again")));
    assert_eq!(reg.len(), 2);
    assert_eq!(reg[0].description(), "first");
}

#[test]
fn update_applies_on_every_call() {
    let reg = registry();
    let m = Migration::new(&reg[0], Metadata::new(3, None), Status::Enabled);
    let mut storage = Storage::new();
    assert!(!m.update(&mut storage, 2));
    assert!(storage.is_empty());
    assert!(m.update(&mut storage, 5));
    assert_eq!(storage.get(&1), Some(&"One"));
    storage.clear();
    assert!(m.update(&mut storage, 5));
    assert_eq!(storage.get(&1), Some(&"One"));
    storage.insert(1, "other");
    assert!(m.update(&mut storage, 6));
    assert_eq!(storage.get(&1), Some(&"One"));
}

#[test]
fn hotfix_on_single_migration() {
    let reg = registry();
    let m = Migration::new(&reg[2], Metadata::new(7, None), Status::Enabled);
    assert_eq!(m.hotfix(&[], 7), None);
    assert_eq!(m.hotfix(&payload(5), 7), Some(payload(12345)));
    assert_eq!(m.hotfix(&payload(5), 6), None);
    let one = Migration::new(&reg[0], Metadata::new(7, None), Status::Enabled);
    assert_eq!(one.hotfix(&payload(5), 7), None);
}
