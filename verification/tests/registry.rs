use amu::config::{canonicalize_failure, expand_path, Config, PathRole};
use amu::error::DotlinkError;

#[test]
fn test_canonicalize_failure_choices() {
    let missing_source =
        canonicalize_failure(PathRole::Source, String::from("/s"), true, String::from("ignored"));
    assert!(matches!(missing_source, DotlinkError::SourceNotFound(p) if p == "/s"));

    let missing_target =
        canonicalize_failure(PathRole::Target, String::from("/t"), true, String::from("ignored"));
    assert!(matches!(missing_target, DotlinkError::TargetNotFound(p) if p == "/t"));

    let denied = canonicalize_failure(
        PathRole::Source,
        String::from("/s"),
        false,
        String::from("permission denied"),
    );
    assert!(matches!(denied, DotlinkError::IoError(m) if m == "permission denied"));
}

#[test]
fn test_expand_path_with_tilde() {
    let home = dirs::home_dir().unwrap();
    let expanded = expand_path("~/.config");
    assert_eq!(expanded, home.join(".config").to_string_lossy().to_string());
}

#[test]
fn test_expand_path_without_tilde() {
    let expanded = expand_path("/usr/local/bin");
    assert_eq!(expanded, String::from("/usr/local/bin"));
}

#[test]
fn test_expand_path_other_user_unchanged() {
    let expanded = expand_path("~nobody/else");
    assert_eq!(expanded, String::from("~nobody/else"));
}

#[test]
fn test_config_add_and_remove_source() {
    let mut config = Config::default();
    let target = String::from("/home/user/.config");
    let source = String::from("/home/user/dotfiles/config");

    config.add_source(target.clone(), source.clone()).unwrap();
    assert_eq!(config.get_sources(&target).unwrap(), &vec![source.clone()]);

    config.remove_source(&target, &source).unwrap();
    assert!(config.get_sources(&target).is_none());
}

#[test]
fn test_config_add_duplicate_source() {
    let mut config = Config::default();
    let target = String::from("/home/user/.config");
    let source = String::from("/home/user/dotfiles/config");

    config.add_source(target.clone(), source.clone()).unwrap();
    let result = config.add_source(target, source);
    assert!(matches!(result, Err(DotlinkError::AlreadyRegistered { .. })));
}

#[test]
fn test_add_duplicate_leaves_registry_unchanged() {
    let mut config = Config::default();
    let target = String::from("/home/user/.config");
    let source = String::from("/home/user/dotfiles/config");
    let other = String::from("/home/user/dotfiles/extra");

    config.add_source(target.clone(), source.clone()).unwrap();
    config.add_source(target.clone(), other.clone()).unwrap();

    let before: Vec<String> = config.get_sources(&target).unwrap().clone();
    let result = config.add_source(target.clone(), source.clone());
    assert!(matches!(result, Err(DotlinkError::AlreadyRegistered { .. })));
    assert_eq!(config.get_sources(&target).unwrap(), &before);
    assert_eq!(config.targets.len(), 1);
}

#[test]
fn test_remove_not_registered_leaves_registry_unchanged() {
    let mut config = Config::default();
    let target = String::from("/home/user/.config");
    let source = String::from("/home/user/dotfiles/config");

    config.add_source(target.clone(), source.clone()).unwrap();

    let unknown = config.remove_source(&target, "/home/user/dotfiles/other");
    assert!(matches!(unknown, Err(DotlinkError::NotRegistered { .. })));
    assert_eq!(config.get_sources(&target).unwrap(), &vec![source.clone()]);

    let missing = config.remove_source("/elsewhere", &source);
    assert!(matches!(missing, Err(DotlinkError::NotRegistered { .. })));
    assert_eq!(config.get_sources(&target).unwrap(), &vec![source]);
}

#[test]
fn test_add_then_remove_round_trip_with_other_entries() {
    let mut config = Config::default();
    config
        .add_source(String::from("/t1"), String::from("/s1"))
        .unwrap();
    config
        .add_source(String::from("/t1"), String::from("/s2"))
        .unwrap();
    config
        .add_source(String::from("/t2"), String::from("/s3"))
        .unwrap();

    config
        .add_source(String::from("/t1"), String::from("/s4"))
        .unwrap();
    config.remove_source("/t1", "/s4").unwrap();

    assert_eq!(
        config.get_sources("/t1").unwrap(),
        &vec![String::from("/s1"), String::from("/s2")]
    );
    assert_eq!(config.get_sources("/t2").unwrap(), &vec![String::from("/s3")]);
    assert_eq!(config.targets.len(), 2);
}

#[test]
fn test_remove_last_source_drops_target_entry() {
    let mut config = Config::default();
    config
        .add_source(String::from("/t1"), String::from("/s1"))
        .unwrap();
    config
        .add_source(String::from("/t2"), String::from("/s2"))
        .unwrap();

    config.remove_source("/t1", "/s1").unwrap();
    assert!(config.get_sources("/t1").is_none());
    assert_eq!(config.targets.len(), 1);
    assert_eq!(config.get_sources("/t2").unwrap(), &vec![String::from("/s2")]);
}

#[test]
fn test_sources_keep_insertion_order() {
    let mut config = Config::default();
    config
        .add_source(String::from("/t"), String::from("/b"))
        .unwrap();
    config
        .add_source(String::from("/t"), String::from("/a"))
        .unwrap();
    config
        .add_source(String::from("/t"), String::from("/c"))
        .unwrap();
    assert_eq!(
        config.get_sources("/t").unwrap(),
        &vec![String::from("/b"), String::from("/a"), String::from("/c")]
    );
}
