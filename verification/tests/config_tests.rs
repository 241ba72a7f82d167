use dyndns::config::{choose_config_path, default_config_paths, expand_tilde, validate_config, Config, ConfigError};
use std::path::PathBuf;

fn config(zone: &str, record: &str, endpoints: &[&str]) -> Config {
    Config {
        zone_id: zone.to_string(),
        record_name: record.to_string(),
        proxied: None,
        ttl: None,
        cache_file: "./dyndns.cache".to_string(),
        endpoints: endpoints.iter().map(|e| e.to_string()).collect(),
    }
}

#[test]
fn accepts_complete_configuration() {
    assert_eq!(validate_config(&config("z", "home.example.com", &["https://icanhazip.com"])), Ok(()));
}

#[test]
fn blank_zone_is_reported_first() {
    let c = config("  ", "", &[]);
    assert_eq!(validate_config(&c), Err(ConfigError::EmptyZoneId));
    assert_eq!(ConfigError::EmptyZoneId.message(), "'zone_id' cannot be empty in configuration.");
}

#[test]
fn blank_record_name_is_reported() {
    let c = config("zone", "\t", &[]);
    assert_eq!(validate_config(&c), Err(ConfigError::EmptyRecordName));
    assert_eq!(ConfigError::EmptyRecordName.message(), "'record_name' cannot be empty in configuration.");
}

#[test]
fn missing_endpoints_are_reported() {
    let c = config("zone", "name", &[]);
    assert_eq!(validate_config(&c), Err(ConfigError::NoEndpoints));
    assert_eq!(
        ConfigError::NoEndpoints.message(),
        "No IP fetching endpoints configured. Please specify at least one in configuration."
    );
}

#[test]
fn explicit_path_is_used_as_given() {
    assert_eq!(choose_config_path(Some("~/my.toml"), &vec![true, true]), Ok("~/my.toml".to_string()));
}

#[test]
fn default_paths_are_searched_in_order() {
    assert_eq!(default_config_paths(), vec!["config.toml".to_string(), "/etc/dyndns/config.toml".to_string()]);
    assert_eq!(choose_config_path(None, &vec![true, true]), Ok("config.toml".to_string()));
    assert_eq!(choose_config_path(None, &vec![false, true]), Ok("/etc/dyndns/config.toml".to_string()));
    assert_eq!(choose_config_path(None, &vec![true]), Ok("config.toml".to_string()));
    assert!(choose_config_path(None, &vec![]).is_err());
}

#[test]
fn no_configuration_found() {
    let candidates = [PathBuf::from("config.toml"), PathBuf::from("/etc/dyndns/config.toml")];
    assert_eq!(
        choose_config_path(None, &vec![false, false]),
        Err(format!("No configuration file found. Checked: {:?}", candidates))
    );
}

fn std_expand(path: &str, home: Option<&str>) -> String {
    if let Some((stripped, home)) = path.strip_prefix('~').zip(home) {
        let mut home_path = PathBuf::from(home);
        if let Some(sub_path) = stripped.strip_prefix('/') {
            home_path.push(sub_path);
        } else if !stripped.is_empty() {
            home_path.push(stripped);
        }
        return home_path.to_string_lossy().into_owned();
    }
    PathBuf::from(path).to_string_lossy().into_owned()
}

#[test]
fn expands_home_directory() {
    assert_eq!(expand_tilde("~/.cache/dyndns.cache", Some("/home/u")), "/home/u/.cache/dyndns.cache");
    assert_eq!(expand_tilde("~", Some("/home/u")), "/home/u");
    assert_eq!(expand_tilde("~/", Some("/home/u")), "/home/u/");
    assert_eq!(expand_tilde("~user/x", Some("/home/u")), "/home/u/user/x");
    assert_eq!(expand_tilde("~//etc/x", Some("/home/u")), "/etc/x");
    assert_eq!(expand_tilde("~/a", Some("/root/")), "/root/a");
    assert_eq!(expand_tilde("~/a", Some("")), "a");
}

#[test]
fn leaves_other_paths_alone() {
    assert_eq!(expand_tilde("/var/cache/dyndns.cache", Some("/home/u")), "/var/cache/dyndns.cache");
    assert_eq!(expand_tilde("~/x", None), "~/x");
    assert_eq!(expand_tilde("a/~", Some("/home/u")), "a/~");
    assert_eq!(expand_tilde("", Some("/home/u")), "");
}

#[test]
fn expansion_agrees_with_pathbuf() {
    let homes = [Some("/home/u"), Some("/root/"), Some(""), Some("rel"), None];
    let paths = ["~", "~/", "~/a/b", "~a", "~//x", "~/a/", "/abs", "rel/x", "", "~~"];
    for h in homes {
        for p in paths {
            assert_eq!(expand_tilde(p, h), std_expand(p, h), "{:?} {:?}", p, h);
        }
    }
}
