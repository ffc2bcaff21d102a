use omni::asdf_operation::AsdfOperationCache;
use omni::asdf_operation::AsdfOperationUpdateCachePluginVersions;
use omni::asdf_operation::DAY_SECS;
use omni::asdf_operation::HOUR_SECS;
use omni::gomod::choose_version;

const T0: i64 = 1_000_000;

#[test]
fn add_installed_twice_counts_once() {
    let mut cache = AsdfOperationCache::new_empty();
    assert!(cache.add_installed_at("wd1", "node", "20.0", T0));
    assert!(!cache.add_installed_at("wd1", "node", "20.0", T0 + 5));
    assert_eq!(cache.installed.len(), 1);
    assert_eq!(cache.installed[0].required_by.len(), 1);
    assert_eq!(cache.installed[0].required_by[0], "wd1");
    // the no-op re-add did not bump the schema-wide timestamp
    assert_eq!(cache.updated_at, T0);
}

#[test]
fn add_installed_unions_workdirs() {
    let mut cache = AsdfOperationCache::new_empty();
    assert!(cache.add_installed_at("wd1", "node", "20.0", T0));
    assert!(cache.add_installed_at("wd2", "node", "20.0", T0 + 1));
    assert_eq!(cache.installed.len(), 1);
    assert_eq!(cache.installed[0].tool, "node");
    assert_eq!(cache.installed[0].version, "20.0");
    assert_eq!(cache.installed[0].required_by, vec!["wd1".to_string(), "wd2".to_string()]);
}

#[test]
fn distinct_versions_make_distinct_entries() {
    let mut cache = AsdfOperationCache::new_empty();
    assert!(cache.add_installed_at("wd1", "node", "20.0", T0));
    assert!(cache.add_installed_at("wd2", "node", "21.0", T0));
    assert!(cache.add_installed_at("wd1", "golang", "20.0", T0));
    assert_eq!(cache.installed.len(), 3);
}

#[test]
fn should_update_asdf_follows_the_day_ttl() {
    let mut cache = AsdfOperationCache::new_empty();
    // a fresh cache has the origin stamp, a day in 1970 lies far behind
    assert!(cache.should_update_asdf_at(T0));
    cache.updated_asdf_at(T0);
    assert!(!cache.should_update_asdf_at(T0));
    assert!(!cache.should_update_asdf_at(T0 + DAY_SECS));
    assert!(cache.should_update_asdf_at(T0 + DAY_SECS + 1));
    assert_eq!(cache.updated_at, T0);
}

#[test]
fn should_update_plugin_follows_the_day_ttl() {
    let mut cache = AsdfOperationCache::new_empty();
    assert!(cache.should_update_asdf_plugin_at("golang", T0));
    cache.updated_asdf_plugin_at("golang", T0);
    assert!(!cache.should_update_asdf_plugin_at("golang", T0 + DAY_SECS));
    assert!(cache.should_update_asdf_plugin_at("golang", T0 + DAY_SECS + 1));
    // an unrelated plugin still wants a refresh
    assert!(cache.should_update_asdf_plugin_at("rust", T0 + 1));
}

#[test]
fn plugin_versions_expire_after_an_hour() {
    let mut cache = AsdfOperationCache::new_empty();
    assert!(cache.get_asdf_plugin_versions_at("golang", T0).is_none());
    let versions = vec!["1.22.0".to_string(), "1.21.5".to_string()];
    cache.set_asdf_plugin_versions_at("golang", versions.clone(), T0);
    assert_eq!(cache.get_asdf_plugin_versions_at("golang", T0), Some(versions.clone()));
    assert_eq!(
        cache.get_asdf_plugin_versions_at("golang", T0 + HOUR_SECS),
        Some(versions.clone())
    );
    // stale entries are treated as misses, not purged
    assert!(cache.get_asdf_plugin_versions_at("golang", T0 + HOUR_SECS + 1).is_none());
    assert_eq!(cache.update_cache.plugins_versions.len(), 1);
    // a fresh list replaces the stale one
    let newer = vec!["1.23.0".to_string()];
    cache.set_asdf_plugin_versions_at("golang", newer.clone(), T0 + 2 * HOUR_SECS);
    assert_eq!(
        cache.get_asdf_plugin_versions_at("golang", T0 + 2 * HOUR_SECS),
        Some(newer)
    );
    assert_eq!(cache.update_cache.plugins_versions.len(), 1);
}

#[test]
fn emptiness_tracks_contents() {
    let mut cache = AsdfOperationCache::new_empty();
    assert!(cache.is_empty());
    cache.touch(T0);
    // the schema-wide stamp alone does not make the cache non-empty
    assert!(cache.is_empty());
    cache.updated_asdf_at(T0);
    assert!(!cache.is_empty());
}

#[test]
fn encode_writes_rfc3339_lines() {
    let mut cache = AsdfOperationCache::new_empty();
    cache.touch(86400);
    assert_eq!(cache.encode(), "updated_at 1970-01-02T00:00:00Z");
    cache.updated_asdf_at(86400);
    assert_eq!(
        cache.encode(),
        "updated_at 1970-01-02T00:00:00Z\nasdf_updated_at 1970-01-02T00:00:00Z"
    );
}

#[test]
fn encode_escapes_separators_in_fields() {
    let mut cache = AsdfOperationCache::new_empty();
    assert!(cache.add_installed_at("my wd", "my tool", "1.0", T0));
    let text = cache.encode();
    assert!(text.contains("my%stool"));
    assert!(text.contains("my%swd"));
    let back = AsdfOperationCache::decode(&text).expect("decodes");
    assert_eq!(back.installed[0].tool, "my tool");
    assert_eq!(back.installed[0].required_by[0], "my wd");
}

#[test]
fn round_trip_preserves_a_populated_cache() {
    let mut cache = AsdfOperationCache::new_empty();
    cache.add_installed_at("wd1", "node", "20.0", T0);
    cache.add_installed_at("wd2", "node", "20.0", T0 + 1);
    cache.add_installed_at("wd1", "golang", "1.22.0", T0 + 2);
    cache.updated_asdf_at(T0 + 3);
    cache.updated_asdf_plugin_at("golang", T0 + 4);
    cache.set_asdf_plugin_versions_at("golang", vec!["1.22.0".to_string()], T0 + 5);
    let text = cache.encode();
    let back = AsdfOperationCache::decode(&text).expect("decodes");
    assert_eq!(back.updated_at, cache.updated_at);
    assert_eq!(back.update_cache.asdf_updated_at, cache.update_cache.asdf_updated_at);
    assert_eq!(back.installed.len(), 2);
    assert_eq!(back.installed[0].tool, "node");
    assert_eq!(back.installed[0].required_by, vec!["wd1".to_string(), "wd2".to_string()]);
    assert_eq!(back.installed[1].tool, "golang");
    assert_eq!(back.update_cache.plugins_updated_at.len(), 1);
    assert_eq!(back.update_cache.plugins_updated_at[0].plugin, "golang");
    assert_eq!(back.update_cache.plugins_updated_at[0].updated_at, T0 + 4);
    assert_eq!(
        back.get_asdf_plugin_versions_at("golang", T0 + 5),
        Some(vec!["1.22.0".to_string()])
    );
    // the round trip is exact: encoding again yields the same text
    assert_eq!(back.encode(), text);
}

#[test]
fn empty_cache_has_minimal_encoding() {
    let cache = AsdfOperationCache::new_empty();
    assert_eq!(cache.encode(), "");
    let back = AsdfOperationCache::decode("").expect("decodes");
    assert!(back.is_empty());
    assert_eq!(back.updated_at, 0);
}

#[test]
fn corrupt_text_degrades_to_the_empty_cache() {
    // truncated record
    assert!(AsdfOperationCache::decode("installed node").is_none());
    // unparsable instant
    assert!(AsdfOperationCache::decode("updated_at yesterday").is_none());
    // duplicated key
    assert!(
        AsdfOperationCache::decode(
            "plugin_updated_at golang 1970-01-02T00:00:00Z\nplugin_updated_at golang 1970-01-03T00:00:00Z"
        )
        .is_none()
    );
    // stray escape
    assert!(AsdfOperationCache::decode("installed no%de 1.0 wd1").is_none());
    let empty = AsdfOperationCache::decode_or_empty(Some("updated_at yesterday"));
    assert!(empty.is_empty());
    assert_eq!(empty.updated_at, 0);
    assert!(AsdfOperationCache::decode_or_empty(None).is_empty());
}

#[test]
fn decode_or_empty_returns_the_encoded_cache() {
    let mut cache = AsdfOperationCache::new_empty();
    cache.add_installed_at("wd1", "node", "20.0", T0);
    cache.updated_asdf_at(T0 + 1);
    let text = cache.encode();
    let back = AsdfOperationCache::decode_or_empty(Some(&text));
    assert_eq!(back.encode(), text);
    assert_eq!(back.updated_at, cache.updated_at);
    assert_eq!(back.installed.len(), 1);
    // the recovery step itself: a decoded value passes through, absence
    // yields the empty cache
    let kept = AsdfOperationCache::unwrap_or_empty(Some(back));
    assert_eq!(kept.encode(), text);
    assert!(AsdfOperationCache::unwrap_or_empty(None).is_empty());
}

#[test]
fn unknown_records_are_ignored() {
    let text = "updated_at 1970-01-02T00:00:00Z\nfuture_field something";
    let back = AsdfOperationCache::decode(text).expect("decodes");
    assert_eq!(back.updated_at, 86400);
}

#[test]
fn clocked_version_list_constructor_keeps_the_list() {
    let versions = vec!["1.22.0".to_string(), "1.21.5".to_string()];
    let record = AsdfOperationUpdateCachePluginVersions::new(versions.clone());
    assert_eq!(record.versions, versions);
}

#[test]
fn golang_version_choice_prefers_configuration() {
    assert_eq!(choose_version(Some("1.22.0"), Some("1.21.0")), "1.22.0");
    assert_eq!(choose_version(None, Some("1.21.0")), "1.21.0");
    assert_eq!(choose_version(None, None), "latest");
}

#[test]
fn gomod_lines_yield_the_first_version() {
    let lines = vec![
        "module example.com/app".to_string(),
        "".to_string(),
        "go 1.22.3".to_string(),
        "go 1.9".to_string(),
    ];
    assert_eq!(omni::gomod::go_version_from_lines(&lines), Some("1.22.3".to_string()));
    assert_eq!(omni::gomod::parse_go_version_line("go 1.21"), Some("1.21".to_string()));
    assert_eq!(omni::gomod::parse_go_version_line("go 1.21.x"), None);
    assert_eq!(omni::gomod::parse_go_version_line("go 1"), None);
    assert_eq!(omni::gomod::parse_go_version_line("golang 1.21"), None);
    assert_eq!(omni::gomod::parse_go_version_line(" go 1.21"), None);
    let no_version = vec!["module m".to_string()];
    assert_eq!(omni::gomod::go_version_from_lines(&no_version), None);
}
