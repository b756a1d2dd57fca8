use compiler_bot::registry::{
    parse_decimal_u64, reaction_config, Blocklist, BotConfig, CacheSlot, ConfigKey, Registry,
    RegistryError, WandboxState,
};
use compiler_bot::shards::ShardState;
use compiler_bot::stats::StatsManager;

#[test]
fn lookup_before_put_is_not_initialized() {
    let slot: CacheSlot<u32> = CacheSlot::empty();
    assert!(matches!(slot.get(), Err(RegistryError::NotInitialized)));
}

#[test]
fn put_then_get_returns_the_resource() {
    let mut slot: CacheSlot<u32> = CacheSlot::empty();
    slot.put(42);
    assert!(matches!(slot.get(), Ok(&42)));
}

#[test]
fn get_mut_allows_in_place_updates() {
    let mut slot: CacheSlot<u32> = CacheSlot::empty();
    assert!(matches!(slot.get_mut(), Err(RegistryError::NotInitialized)));
    slot.put(1);
    if let Ok(v) = slot.get_mut() {
        *v = 5;
    }
    assert!(matches!(slot.get(), Ok(&5)));
}

#[test]
fn fresh_registry_has_nothing_initialized() {
    let r: Registry<u64, u64> = Registry::new();
    assert!(matches!(r.config.slot.get(), Err(RegistryError::NotInitialized)));
    assert!(matches!(r.stats.slot.get(), Err(RegistryError::NotInitialized)));
    assert!(matches!(r.server_counts.slot.get(), Err(RegistryError::NotInitialized)));
}

#[test]
fn bootstrap_fills_every_slot() {
    let mut config = BotConfig::new();
    config.insert(ConfigKey::BotPrefix, ";".to_string());
    let wandbox = WandboxState {
        client: wandbox::Wandbox::new(),
        catalog: wandbox::Catalog::default(),
    };
    let r: Registry<u64, u64> = Registry::bootstrap(
        config,
        wandbox,
        godbolt::Godbolt::new(),
        7,
        ShardState::new(),
        StatsManager::new(true),
        Blocklist::new(),
        9,
    );
    assert!(r.config.slot.get().is_ok());
    assert!(r.wandbox.slot.get().is_ok());
    assert!(r.godbolt.slot.get().is_ok());
    assert!(matches!(r.dbl.slot.get(), Ok(&7)));
    assert!(r.server_counts.slot.get().is_ok());
    assert!(r.stats.slot.get().is_ok());
    assert!(r.blocklist.slot.get().is_ok());
    assert!(matches!(r.shard_manager.slot.get(), Ok(&9)));
}

#[test]
fn config_stores_and_overwrites_values_per_key() {
    let mut c = BotConfig::new();
    assert!(c.get(ConfigKey::JoinLog).is_none());
    c.insert(ConfigKey::JoinLog, "123".to_string());
    c.insert(ConfigKey::BotPrefix, ";".to_string());
    assert_eq!(c.get(ConfigKey::JoinLog).unwrap(), "123");
    assert_eq!(c.get(ConfigKey::BotPrefix).unwrap(), ";");
    c.insert(ConfigKey::JoinLog, "456".to_string());
    assert_eq!(c.get(ConfigKey::JoinLog).unwrap(), "456");
    assert!(c.get(ConfigKey::BotAvatar).is_none());
}

#[test]
fn decimal_parser_accepts_plain_numerals_only() {
    assert_eq!(parse_decimal_u64("0"), Some(0));
    assert_eq!(parse_decimal_u64("731657113143871529"), Some(731657113143871529));
    assert_eq!(parse_decimal_u64("18446744073709551615"), Some(u64::MAX));
    assert_eq!(parse_decimal_u64("18446744073709551616"), None);
    assert_eq!(parse_decimal_u64(""), None);
    assert_eq!(parse_decimal_u64("12a"), None);
    assert_eq!(parse_decimal_u64("-3"), None);
    assert_eq!(parse_decimal_u64(" 3"), None);
}

#[test]
fn reaction_config_needs_all_four_values() {
    let mut c = BotConfig::new();
    assert!(reaction_config(&c).is_none());
    c.insert(ConfigKey::SuccessEmojiId, "314".to_string());
    c.insert(ConfigKey::SuccessEmojiName, "ok".to_string());
    c.insert(ConfigKey::LoadingEmojiId, "2718".to_string());
    assert!(reaction_config(&c).is_none());
    c.insert(ConfigKey::LoadingEmojiName, "wait".to_string());
    let rc = reaction_config(&c).expect("all four values are present");
    assert_eq!(rc.success_id, 314);
    assert_eq!(rc.success_name, "ok");
    assert_eq!(rc.loading_id, 2718);
    assert_eq!(rc.loading_name, "wait");

    c.insert(ConfigKey::SuccessEmojiId, "not-a-number".to_string());
    assert!(reaction_config(&c).is_none());
}

#[test]
fn blocklist_remembers_added_ids() {
    let mut b = Blocklist::new();
    assert!(!b.contains(10));
    b.add(10);
    b.add(77);
    assert!(b.contains(10));
    assert!(b.contains(77));
    assert!(!b.contains(11));
}
