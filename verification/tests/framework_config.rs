use pyrefly_django::framework_config::FrameworkConfig;

#[test]
fn test_new_config_is_empty() {
    let config = FrameworkConfig::new();
    assert!(config.is_empty());
    assert_eq!(config.option("django", "settings-module"), None);
    assert_eq!(FrameworkConfig::default(), config);
}

#[test]
fn test_option_reads_back_what_was_set() {
    let mut config = FrameworkConfig::new();
    config.set_option("django", "settings-module", "project.settings".to_owned());
    assert_eq!(config.option("django", "settings-module"), Some("project.settings"));
    assert!(!config.is_empty());
}

#[test]
fn test_setting_an_option_keeps_the_others() {
    let mut config = FrameworkConfig::new();
    config.set_option("django", "a", "1".to_owned());
    config.set_option("django", "b", "2".to_owned());
    config.set_option("flask", "a", "3".to_owned());
    assert_eq!(config.option("django", "a"), Some("1"));
    assert_eq!(config.option("django", "b"), Some("2"));
    assert_eq!(config.option("flask", "a"), Some("3"));
    assert_eq!(config.option("flask", "b"), None);
    assert_eq!(config.option("other", "a"), None);
}

#[test]
fn test_last_write_wins() {
    let mut config = FrameworkConfig::new();
    config.set_option("django", "a", "1".to_owned());
    config.set_option("django", "a", "2".to_owned());
    assert_eq!(config.option("django", "a"), Some("2"));
    let mut once = FrameworkConfig::new();
    once.set_option("django", "a", "2".to_owned());
    assert_eq!(config, once);
}

#[test]
fn test_frameworks_are_listed_sorted() {
    let mut config = FrameworkConfig::new();
    config.set_option("zeta", "x", "1".to_owned());
    config.set_option("alpha", "y", "2".to_owned());
    config.set_option("alpha", "b", "3".to_owned());
    config.add_framework("mid");
    let listed = config
        .frameworks()
        .iter()
        .map(|(f, opts)| (f.as_str(), opts.iter().map(|(k, v)| (k.as_str(), v.as_str())).collect::<Vec<_>>()))
        .collect::<Vec<_>>();
    assert_eq!(
        listed,
        vec![
            ("alpha", vec![("b", "3"), ("y", "2")]),
            ("mid", vec![]),
            ("zeta", vec![("x", "1")]),
        ]
    );
}

#[test]
fn test_add_framework_keeps_existing_options() {
    let mut config = FrameworkConfig::new();
    config.set_option("django", "a", "1".to_owned());
    config.add_framework("django");
    assert_eq!(config.option("django", "a"), Some("1"));
    let mut empty_framework = FrameworkConfig::new();
    empty_framework.add_framework("django");
    assert!(!empty_framework.is_empty());
    assert_eq!(empty_framework.option("django", "a"), None);
}

#[test]
fn test_clone_is_equal() {
    let mut config = FrameworkConfig::new();
    config.set_option("django", "a", "1".to_owned());
    config.set_option("b", "c", "d".to_owned());
    let copy = config.clone();
    assert_eq!(copy, config);
    assert_eq!(copy.option("b", "c"), Some("d"));
}

#[test]
fn test_insertion_order_does_not_change_the_config() {
    let mut one = FrameworkConfig::new();
    one.set_option("b", "y", "1".to_owned());
    one.set_option("a", "x", "2".to_owned());
    let mut two = FrameworkConfig::new();
    two.set_option("a", "x", "2".to_owned());
    two.set_option("b", "y", "1".to_owned());
    assert_eq!(one, two);
}
