use dotlocal::config::DotLocalConfig;
use dotlocal::entry::ProxyEntry;
use dotlocal::error::DotLocalError;
use dotlocal::record::Record;

fn entries(texts: &[&str]) -> Vec<String> {
    texts.iter().map(|t| t.to_string()).collect()
}

fn with(texts: &[&str]) -> DotLocalConfig {
    let mut config = DotLocalConfig::new();
    assert_eq!(config.add_proxies(&entries(texts)), Ok(()));
    config
}

fn record(domain: &str, paths: &[(&str, i32)], port: i32) -> Record {
    Record {
        domain: domain.to_string(),
        paths: paths.iter().map(|(p, n)| (p.to_string(), *n)).collect(),
        port,
    }
}

#[test]
fn new_configuration_has_no_records_and_both_flags_on() {
    let config = DotLocalConfig::new();
    assert!(config.records.is_empty());
    assert!(config.automatic_https_redirect);
    assert!(config.lan_enabled);
}

#[test]
fn default_route_add_is_idempotent() {
    let once = with(&["a.local:3000"]);
    let twice = with(&["a.local:3000", "a.local:3000"]);
    assert_eq!(once, twice);
    assert_eq!(once.records, vec![record("a.local", &[], 3000)]);
    let mut again = once.clone();
    assert_eq!(again.add_proxies(&entries(&["a.local:3000"])), Ok(()));
    assert_eq!(again, once);
}

#[test]
fn path_add_is_idempotent() {
    let once = with(&["a.local/x:1", "a.local/y:2", "a.local/x:9"]);
    let twice = with(&["a.local/x:1", "a.local/y:2", "a.local/x:9", "a.local/x:9"]);
    assert_eq!(once, twice);
}

#[test]
fn path_add_overwrites_same_path_only() {
    let mut config = with(&["a.local/x:1", "a.local/y:2"]);
    assert_eq!(config.records, vec![record("a.local", &[("/x", 1), ("/y", 2)], -1)]);
    assert_eq!(config.add_proxies(&entries(&["a.local/x:9"])), Ok(()));
    assert_eq!(config.records, vec![record("a.local", &[("/y", 2), ("/x", 9)], -1)]);
}

#[test]
fn path_add_keeps_the_default_port_of_a_record() {
    let config = with(&["a.local:3000", "a.local/x:1"]);
    assert_eq!(config.records, vec![record("a.local", &[("/x", 1)], 3000)]);
}

#[test]
fn path_add_compares_prefixes_exactly() {
    let config = with(&["a.local/x:1", "a.local/X:2", "a.local/x/:3"]);
    assert_eq!(config.records, vec![record("a.local", &[("/x", 1), ("/X", 2), ("/x/", 3)], -1)]);
}

#[test]
fn default_route_add_overwrites_the_port_and_keeps_the_paths() {
    let config = with(&["a.local/x:1", "a.local:3000", "a.local:4000"]);
    assert_eq!(config.records, vec![record("a.local", &[("/x", 1)], 4000)]);
}

#[test]
fn records_keep_the_order_in_which_domains_came() {
    let config = with(&["b.local:2", "a.local:1", "b.local/x:3", "c.local/y:4"]);
    assert_eq!(
        config.records,
        vec![
            record("b.local", &[("/x", 3)], 2),
            record("a.local", &[], 1),
            record("c.local", &[("/y", 4)], -1),
        ]
    );
}

#[test]
fn default_port_removal_demotes() {
    let mut config = with(&["a.local:3000", "a.local/x:1"]);
    assert_eq!(config.remove_proxies(&entries(&["a.local:3000"])), Ok(()));
    assert_eq!(config.records, vec![record("a.local", &[("/x", 1)], -1)]);
}

#[test]
fn full_removal() {
    let mut config = with(&["a.local/x:1"]);
    assert_eq!(config.records, vec![record("a.local", &[("/x", 1)], -1)]);
    assert_eq!(config.remove_proxies(&entries(&["a.local/x:1"])), Ok(()));
    assert!(config.records.is_empty());
}

#[test]
fn default_port_removal_of_a_record_without_paths_deletes_it() {
    let mut config = with(&["a.local:3000", "b.local:1"]);
    assert_eq!(config.remove_proxies(&entries(&["a.local:3000"])), Ok(()));
    assert_eq!(config.records, vec![record("b.local", &[], 1)]);
}

#[test]
fn removal_needs_the_exact_port() {
    let mut config = with(&["a.local:3000", "a.local/x:1"]);
    let before = config.clone();
    assert_eq!(config.remove_proxies(&entries(&["a.local:3001", "a.local/x:2", "a.local/y:1"])), Ok(()));
    assert_eq!(config, before);
}

#[test]
fn removal_of_an_unknown_domain_changes_nothing() {
    let mut config = with(&["a.local:3000"]);
    let before = config.clone();
    assert_eq!(config.remove_proxies(&entries(&["b.local:3000", "b.local/x:1"])), Ok(()));
    assert_eq!(config, before);
}

#[test]
fn path_removal_keeps_a_record_with_a_default_port() {
    let mut config = with(&["a.local:3000", "a.local/x:1"]);
    assert_eq!(config.remove_proxies(&entries(&["a.local/x:1"])), Ok(()));
    assert_eq!(config.records, vec![record("a.local", &[], 3000)]);
}

#[test]
fn path_removal_keeps_the_other_paths_in_order() {
    let mut config = with(&["a.local/x:1", "a.local/y:2", "a.local/z:3"]);
    assert_eq!(config.remove_proxies(&entries(&["a.local/y:2"])), Ok(()));
    assert_eq!(config.records, vec![record("a.local", &[("/x", 1), ("/z", 3)], -1)]);
}

#[test]
fn remove_all_keeps_the_flags() {
    let mut config = with(&["a.local:3000", "b.local/x:1"]);
    config.lan_enabled = false;
    config.remove_all_proxies();
    assert!(config.records.is_empty());
    assert!(config.automatic_https_redirect);
    assert!(!config.lan_enabled);
}

#[test]
fn malformed_entry_leaves_the_configuration_as_it_was() {
    let mut config = with(&["a.local:3000"]);
    let before = config.clone();
    assert_eq!(
        config.add_proxies(&entries(&["b.local:1", "c.local:x"])),
        Err(DotLocalError::InvalidPort { entry: "c.local:x".to_string() })
    );
    assert_eq!(config, before);
    assert_eq!(
        config.remove_proxies(&entries(&["a.local:3000", "nothing"])),
        Err(DotLocalError::MissingPort { entry: "nothing".to_string() })
    );
    assert_eq!(config, before);
}

#[test]
fn single_entries_can_be_added_and_removed() {
    let mut config = DotLocalConfig::new();
    let entry = ProxyEntry { domain: "a.local".to_string(), port: 5, path: Some("/p".to_string()) };
    config.add_proxy(&entry);
    assert_eq!(config.records, vec![record("a.local", &[("/p", 5)], -1)]);
    assert_eq!(config.position(&"a.local".to_string()), 0usize);
    assert_eq!(config.position(&"b.local".to_string()), 1usize);
    config.remove_proxy(&entry);
    assert!(config.records.is_empty());
}

#[test]
fn records_list_copies_the_records_in_order() {
    let config = with(&["b.local:2", "a.local/x:1"]);
    assert_eq!(config.records_list(), config.records);
}

#[test]
fn records_handed_out_and_taken_back_give_the_same_registry() {
    let mut config = with(&["b.local:2", "a.local/x:1", "a.local/y:2", "c.local:3", "c.local/z:4"]);
    config.automatic_https_redirect = false;
    let back = DotLocalConfig::from_records(
        &config.records_list(),
        config.automatic_https_redirect,
        config.lan_enabled,
    );
    assert_eq!(back, config);
}

#[test]
fn stored_records_are_keyed_by_their_domains() {
    let stored = vec![
        record("a.local", &[], 1),
        record("b.local", &[], 2),
        record("a.local", &[("/x", 3)], -1),
    ];
    let config = DotLocalConfig::from_records(&stored, false, true);
    assert_eq!(
        config.records,
        vec![record("a.local", &[("/x", 3)], -1), record("b.local", &[], 2)]
    );
    assert!(!config.automatic_https_redirect);
    assert!(config.lan_enabled);
}

#[test]
fn record_clone_is_equal() {
    let r = record("a.local", &[("/x", 1), ("/y", 2)], 3000);
    assert_eq!(r.clone(), r);
}
