use aegisr::{AegCore, CollectionLock, RegistryError};

fn names(core: &AegCore) -> Vec<String> {
    core.list()
}

fn assert_valid(core: &AegCore) {
    let list = names(core);
    assert!(!list.is_empty());
    for (i, a) in list.iter().enumerate() {
        for b in list.iter().skip(i + 1) {
            assert_ne!(a, b);
        }
    }
    assert!(list.iter().any(|n| n == core.get_active_collection()));
}

#[test]
fn fresh_registry_is_default() {
    let core = AegCore::new();
    assert_eq!(names(&core), vec!["default".to_string()]);
    assert_eq!(core.get_active_collection(), "default");
}

#[test]
fn operations_keep_names_unique_and_active_listed() {
    let mut core = AegCore::new();
    let _ = core.create_collection("a");
    assert_valid(&core);
    let _ = core.create_collection("b");
    assert_valid(&core);
    let _ = core.create_collection("a");
    assert_valid(&core);
    let _ = core.set_active_collection("b");
    assert_valid(&core);
    let _ = core.rename_collection("b", "a");
    assert_valid(&core);
    let _ = core.rename_collection("b", "c");
    assert_valid(&core);
    let _ = core.delete_collection("c");
    assert_valid(&core);
    let _ = core.delete_collection("default");
    assert_valid(&core);
    let _ = core.delete_collection("a");
    assert_valid(&core);
    assert_eq!(names(&core), vec!["a".to_string()]);
    assert_eq!(core.get_active_collection(), "a");
}

#[test]
fn create_twice_fails_and_keeps_state() {
    let mut core = AegCore::new();
    assert_eq!(core.create_collection("x"), Ok(()));
    let after_first = names(&core);
    let active_first = core.get_active_collection().to_string();
    assert_eq!(core.create_collection("x"), Err(RegistryError::CollectionExists));
    assert_eq!(names(&core), after_first);
    assert_eq!(core.get_active_collection(), active_first);
    assert_eq!(after_first, vec!["default".to_string(), "x".to_string()]);
}

#[test]
fn delete_last_collection_fails() {
    let mut core = AegCore::new();
    assert_eq!(core.delete_collection("default"), Err(RegistryError::LastCollection));
    assert_eq!(core.delete_collection("absent"), Err(RegistryError::LastCollection));
    assert_eq!(names(&core), vec!["default".to_string()]);
    assert_eq!(core.get_active_collection(), "default");
}

#[test]
fn delete_missing_collection_fails() {
    let mut core = AegCore::new();
    core.create_collection("a").unwrap();
    assert_eq!(core.delete_collection("zzz"), Err(RegistryError::CollectionNotFound));
    assert_eq!(names(&core), vec!["default".to_string(), "a".to_string()]);
}

#[test]
fn delete_active_moves_to_first_remaining() {
    let mut core = AegCore::new();
    core.create_collection("a").unwrap();
    core.create_collection("b").unwrap();
    core.set_active_collection("b").unwrap();
    assert_eq!(core.delete_collection("b"), Ok(()));
    assert_eq!(core.get_active_collection(), "default");
    core.create_collection("c").unwrap();
    core.set_active_collection("default").unwrap();
    assert_eq!(core.delete_collection("default"), Ok(()));
    assert_eq!(core.get_active_collection(), "a");
    assert_eq!(names(&core), vec!["a".to_string(), "c".to_string()]);
}

#[test]
fn delete_inactive_keeps_active() {
    let mut core = AegCore::new();
    core.create_collection("a").unwrap();
    assert_eq!(core.delete_collection("a"), Ok(()));
    assert_eq!(core.get_active_collection(), "default");
}

#[test]
fn rename_active_reports_new_name() {
    let mut core = AegCore::new();
    core.create_collection("a").unwrap();
    core.set_active_collection("a").unwrap();
    assert_eq!(core.rename_collection("a", "b"), Ok(()));
    assert_eq!(core.get_active_collection(), "b");
    assert_eq!(names(&core), vec!["default".to_string(), "b".to_string()]);
}

#[test]
fn rename_errors() {
    let mut core = AegCore::new();
    core.create_collection("a").unwrap();
    assert_eq!(core.rename_collection("a", "default"), Err(RegistryError::CollectionExists));
    assert_eq!(core.rename_collection("zzz", "q"), Err(RegistryError::CollectionNotFound));
    assert_eq!(core.rename_collection("a", "a"), Err(RegistryError::CollectionExists));
    assert_eq!(names(&core), vec!["default".to_string(), "a".to_string()]);
}

#[test]
fn rename_inactive_keeps_position() {
    let mut core = AegCore::new();
    core.create_collection("a").unwrap();
    core.create_collection("b").unwrap();
    core.rename_collection("a", "z").unwrap();
    assert_eq!(names(&core), vec!["default".to_string(), "z".to_string(), "b".to_string()]);
    assert_eq!(core.get_active_collection(), "default");
}

#[test]
fn use_missing_collection_fails() {
    let mut core = AegCore::new();
    assert_eq!(core.set_active_collection("nope"), Err(RegistryError::CollectionNotFound));
    assert_eq!(core.get_active_collection(), "default");
}

#[test]
fn load_accepts_only_well_formed_documents() {
    let ok = CollectionLock {
        active: "b".to_string(),
        collections: vec!["a".to_string(), "b".to_string()],
    };
    let core = AegCore::load(ok).expect("well formed");
    assert_eq!(core.get_active_collection(), "b");
    assert_eq!(names(&core), vec!["a".to_string(), "b".to_string()]);

    let empty = CollectionLock { active: "a".to_string(), collections: vec![] };
    assert!(AegCore::load(empty).is_none());
    let dup = CollectionLock {
        active: "a".to_string(),
        collections: vec!["a".to_string(), "b".to_string(), "a".to_string()],
    };
    assert!(AegCore::load(dup).is_none());
    let stray = CollectionLock { active: "c".to_string(), collections: vec!["a".to_string()] };
    assert!(AegCore::load(stray).is_none());
}

#[test]
fn to_lock_round_trips() {
    let mut core = AegCore::new();
    core.create_collection("w").unwrap();
    core.set_active_collection("w").unwrap();
    let lock = core.to_lock();
    assert_eq!(lock.active, "w");
    assert_eq!(lock.collections, vec!["default".to_string(), "w".to_string()]);
    let back = AegCore::load(lock).unwrap();
    assert_eq!(back.get_active_collection(), "w");
}

#[test]
fn refusal_messages() {
    assert_eq!(
        RegistryError::CollectionNotFound.message("x"),
        "✗ Collection 'x' does not exist"
    );
    assert_eq!(RegistryError::CollectionExists.message("y"), "✗ Collection 'y' already exists");
    assert_eq!(RegistryError::LastCollection.message("z"), "✗ Cannot delete the last collection");
}
