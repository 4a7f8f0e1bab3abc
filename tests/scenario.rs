use aegisr::{
    AegCore, AegMemoryEngine, AegTerminal, AegisrCommand, Commands, LoggerConfig, MemoryCache,
    PutArgs, RegistryError, SaverState, UseArgs,
};

#[test]
fn init_new_use_put_list_delete() {
    let mut core = AegCore::new();
    let mut cache = MemoryCache::new();
    assert_eq!(core.create_collection("work"), Ok(()));
    assert_eq!(core.set_active_collection("work"), Ok(()));
    core.put_value(&mut cache, "a", "1");
    core.put_value(&mut cache, "b", "2");
    assert_eq!(core.list(), vec!["default".to_string(), "work".to_string()]);
    assert_eq!(core.get_value(&cache, "a"), Some("1".to_string()));
    assert_eq!(core.delete_collection("default"), Ok(()));
    assert_eq!(core.get_active_collection(), "work");
    assert_eq!(core.delete_collection("work"), Err(RegistryError::LastCollection));
    assert_eq!(core.get_value(&cache, "b"), Some("2".to_string()));
}

#[test]
fn saver_starts_once_until_stopped() {
    let mut s = SaverState::new();
    assert!(!s.keep_running());
    assert_eq!(AegCore::start_background_saver(&mut s, 5), Some(5));
    assert!(s.keep_running());
    assert_eq!(AegCore::start_background_saver(&mut s, 9), None);
    AegCore::stop_background_saver(&mut s);
    assert!(!s.keep_running());
    assert_eq!(AegMemoryEngine::start_background_saver(&mut s, 0), Some(1));
    AegMemoryEngine::stop_background_saver(&mut s);
    assert!(!s.started);
}

#[test]
fn cli_commands_map_to_daemon_commands() {
    let t = AegTerminal {
        command: Commands::Put(PutArgs {
            verbose: true,
            key: "k".to_string(),
            value: "v".to_string(),
        }),
    };
    match AegisrCommand::from_cli(&t.command) {
        AegisrCommand::Put { verbose, key, value } => {
            assert!(verbose);
            assert_eq!(key, "k");
            assert_eq!(value, "v");
        }
        _ => panic!("wrong command"),
    }
    let u = Commands::Use(UseArgs { verbose: false, name: "w".to_string() });
    assert!(matches!(
        AegisrCommand::from_cli(&u),
        AegisrCommand::Use { verbose: false, ref name } if name == "w"
    ));
    assert!(matches!(AegisrCommand::from_cli(&Commands::Status), AegisrCommand::Status));
}

#[test]
fn logger_defaults() {
    let c = LoggerConfig::default();
    assert!(c.log_to_file);
    assert_eq!(c.level, "info");
}
