use delivery_lab::config::{
    merge_tables, resolve, AppConfig, ConfigError, ConfigTree, ConfigValue, PartitioningMode,
    default_partitioning_mode, require_auto_offset_store,
};

fn table(pairs: Vec<(&str, ConfigValue)>) -> ConfigTree {
    let mut t = ConfigTree::new();
    for (k, v) in pairs {
        t.insert(k.to_string(), v);
    }
    t
}

fn s(v: &str) -> ConfigValue {
    ConfigValue::Str(v.to_string())
}

/// A document with a complete `common` section and two profiles.
fn sample_tree() -> ConfigTree {
    let common = table(vec![
        ("bootstrap_servers", s("localhost:9092")),
        ("topic", s("events")),
        ("auto_offset_reset", s("earliest")),
        ("enable_auto_commit", ConfigValue::Bool(false)),
        ("enable_auto_offset_store", ConfigValue::Bool(false)),
    ]);
    let atleastonce = table(vec![
        ("group_id", s("lab4-grp")),
        ("topic", s("lab4-events")),
    ]);
    let keyed = table(vec![("partitioning", s("keyed"))]);
    let lab4 = table(vec![("atleastonce", ConfigValue::Table(atleastonce))]);
    let lab2 = table(vec![("keyed", ConfigValue::Table(keyed))]);
    table(vec![
        ("common", ConfigValue::Table(common)),
        ("lab4", ConfigValue::Table(lab4)),
        ("lab2", ConfigValue::Table(lab2)),
    ])
}

#[test]
fn merge_is_shallow_right_wins() {
    // common = {a:1, b:2} merged with profile {b:3, c:4} gives {a:1, b:3, c:4}.
    let base = ConfigValue::Table(table(vec![
        ("a", ConfigValue::Int(1)),
        ("b", ConfigValue::Int(2)),
    ]));
    let overlay = ConfigValue::Table(table(vec![
        ("b", ConfigValue::Int(3)),
        ("c", ConfigValue::Int(4)),
    ]));
    let merged = match merge_tables(base, overlay) {
        ConfigValue::Table(t) => t,
        other => panic!("expected a table, got {:?}", other),
    };
    assert_eq!(merged.get("a"), Some(&ConfigValue::Int(1)));
    assert_eq!(merged.get("b"), Some(&ConfigValue::Int(3)));
    assert_eq!(merged.get("c"), Some(&ConfigValue::Int(4)));
    assert_eq!(merged.get("d"), None);
}

#[test]
fn merge_replaces_nested_tables_whole() {
    // No recursive merge: an overlay table replaces the base's table in full.
    let inner_base = table(vec![("x", ConfigValue::Int(1)), ("y", ConfigValue::Int(2))]);
    let inner_overlay = table(vec![("y", ConfigValue::Int(9))]);
    let base = ConfigValue::Table(table(vec![("sub", ConfigValue::Table(inner_base))]));
    let overlay = ConfigValue::Table(table(vec![("sub", ConfigValue::Table(inner_overlay))]));
    let merged = match merge_tables(base, overlay) {
        ConfigValue::Table(t) => t,
        other => panic!("expected a table, got {:?}", other),
    };
    let sub = match merged.get("sub") {
        Some(ConfigValue::Table(t)) => t,
        other => panic!("expected a nested table, got {:?}", other),
    };
    assert_eq!(sub.get("x"), None, "shallow merge must not keep the base's nested keys");
    assert_eq!(sub.get("y"), Some(&ConfigValue::Int(9)));
}

#[test]
fn merge_with_scalar_overlay_is_overlay() {
    let base = ConfigValue::Table(table(vec![("a", ConfigValue::Int(1))]));
    let merged = merge_tables(base, ConfigValue::Int(7));
    assert_eq!(merged, ConfigValue::Int(7));
}

#[test]
fn resolve_overlays_profile_over_common() {
    let cfg: AppConfig = resolve(&sample_tree(), "lab4.atleastonce").unwrap();
    assert_eq!(cfg.bootstrap_servers, "localhost:9092");
    assert_eq!(cfg.topic, "lab4-events", "profile overrides common");
    assert_eq!(cfg.group_id.as_deref(), Some("lab4-grp"));
    assert_eq!(cfg.compression, None);
    assert_eq!(cfg.message_timeout_ms, None);
    assert_eq!(cfg.auto_offset_reset, "earliest");
    assert!(!cfg.enable_auto_commit);
    assert_eq!(cfg.enable_auto_offset_store, Some(false));
    assert_eq!(cfg.partitioning, PartitioningMode::Keyed, "absent partitioning defaults to keyed");
}

#[test]
fn resolve_missing_profile_is_profile_not_found() {
    let t = sample_tree();
    assert_eq!(resolve(&t, "lab4.nosuch"), Err(ConfigError::ProfileNotFound));
    assert_eq!(resolve(&t, "nosuch"), Err(ConfigError::ProfileNotFound));
    assert_eq!(resolve(&t, "lab4.atleastonce.deeper"), Err(ConfigError::ProfileNotFound));
    // Never a silent fall-back to common alone.
    assert_eq!(resolve(&t, ""), Err(ConfigError::ProfileNotFound));
}

#[test]
fn resolve_odd_paths() {
    let t = sample_tree();
    // A path into `common` finds a scalar, which has no fields to read.
    assert_eq!(resolve(&t, "common.topic"), Err(ConfigError::InvalidConfig));
    // A trailing dot asks for an empty segment, which no table binds.
    assert_eq!(resolve(&t, "lab4."), Err(ConfigError::ProfileNotFound));
    assert_eq!(resolve(&t, "lab4..atleastonce"), Err(ConfigError::ProfileNotFound));
}

#[test]
fn resolve_scalar_profile_is_invalid_config() {
    let t = table(vec![
        ("common", ConfigValue::Table(table(vec![("topic", s("x"))]))),
        ("oops", ConfigValue::Int(3)),
    ]);
    assert_eq!(resolve(&t, "oops"), Err(ConfigError::InvalidConfig));
}

#[test]
fn resolve_missing_required_field_is_invalid_config() {
    // `bootstrap_servers` is nowhere: resolution fails even though the
    // profile path exists.
    let profile = table(vec![
        ("topic", s("events")),
        ("auto_offset_reset", s("latest")),
        ("enable_auto_commit", ConfigValue::Bool(true)),
    ]);
    let t = table(vec![("p", ConfigValue::Table(profile))]);
    assert_eq!(resolve(&t, "p"), Err(ConfigError::InvalidConfig));
}

#[test]
fn resolve_mistyped_field_is_invalid_config() {
    let mk = |extra: ConfigValue| {
        let mut profile = table(vec![
            ("bootstrap_servers", s("b:9092")),
            ("topic", s("events")),
            ("auto_offset_reset", s("latest")),
            ("enable_auto_commit", ConfigValue::Bool(true)),
        ]);
        profile.insert("message_timeout_ms".to_string(), extra);
        table(vec![("p", ConfigValue::Table(profile))])
    };
    // A negative timeout cannot be read as an unsigned count.
    assert_eq!(resolve(&mk(ConfigValue::Int(-1)), "p"), Err(ConfigError::InvalidConfig));
    assert_eq!(resolve(&mk(s("soon")), "p"), Err(ConfigError::InvalidConfig));
    let ok = resolve(&mk(ConfigValue::Int(2500)), "p").unwrap();
    assert_eq!(ok.message_timeout_ms, Some(2500));
}

#[test]
fn resolve_partitioning_spellings() {
    let mk = |part: Option<ConfigValue>| {
        let mut profile = table(vec![
            ("bootstrap_servers", s("b:9092")),
            ("topic", s("events")),
            ("auto_offset_reset", s("latest")),
            ("enable_auto_commit", ConfigValue::Bool(true)),
        ]);
        if let Some(p) = part {
            profile.insert("partitioning".to_string(), p);
        }
        table(vec![("p", ConfigValue::Table(profile))])
    };
    assert_eq!(resolve(&mk(None), "p").unwrap().partitioning, PartitioningMode::Keyed);
    assert_eq!(
        resolve(&mk(Some(s("keyed"))), "p").unwrap().partitioning,
        PartitioningMode::Keyed
    );
    assert_eq!(
        resolve(&mk(Some(s("round_robin"))), "p").unwrap().partitioning,
        PartitioningMode::RoundRobin
    );
    assert_eq!(resolve(&mk(Some(s("random"))), "p"), Err(ConfigError::InvalidConfig));
    assert_eq!(
        resolve(&mk(Some(ConfigValue::Bool(true))), "p"),
        Err(ConfigError::InvalidConfig)
    );
}

#[test]
fn insert_replaces_in_place() {
    let mut t = table(vec![("a", ConfigValue::Int(1)), ("b", ConfigValue::Int(2))]);
    t.insert("a".to_string(), ConfigValue::Int(5));
    assert_eq!(t.get("a"), Some(&ConfigValue::Int(5)));
    assert_eq!(t.get("b"), Some(&ConfigValue::Int(2)));
    assert_eq!(t.entries.len(), 2, "replacement must not add a second binding");
}

#[test]
fn default_partitioning_is_keyed() {
    assert_eq!(default_partitioning_mode(), PartitioningMode::Keyed);
}

#[test]
fn offset_store_flag_is_required_not_defaulted() {
    let mut cfg = resolve(&sample_tree(), "lab4.atleastonce").unwrap();
    assert_eq!(require_auto_offset_store(&cfg), Ok(false));
    cfg.enable_auto_offset_store = None;
    assert_eq!(require_auto_offset_store(&cfg), Err(ConfigError::InvalidConfig));
}
