use next_client::config::{route_meta_event, validation_outcome, ConfKey, Config, ConfigError, LogLevel, MetaRoute, ValidateResult};

fn s(x: &str) -> Option<String> {
    Some(x.to_string())
}

fn config(host: &str) -> Config {
    Config::from_conf_values(s(host), s("u"), s("p"), s("/r"), s("debug"), None).unwrap()
}

#[test]
fn config_values() {
    let c = config("https://cloud.example");
    assert_eq!(c.nc_host, "https://cloud.example");
    assert_eq!(c.rust_log, LogLevel::Debug);
    assert!(c.proxy.is_none());
    let c = Config::from_conf_values(s("h"), s("u"), s("p"), s("/r"), None, s("http://proxy")).unwrap();
    assert_eq!(c.rust_log, LogLevel::Off);
    assert_eq!(c.proxy.as_deref(), Some("http://proxy"));
    let c = Config::from_conf_values(s("h"), s("u"), s("p"), s("/r"), s("loud"), None).unwrap();
    assert_eq!(c.rust_log, LogLevel::Off);
}

#[test]
fn config_missing_keys() {
    let e = Config::from_conf_values(None, s("u"), s("p"), s("/r"), None, None).err();
    assert_eq!(e, Some(ConfigError::Missing(ConfKey::NcHost)));
    let e = Config::from_conf_values(s("h"), None, None, s("/r"), None, None).err();
    assert_eq!(e, Some(ConfigError::Missing(ConfKey::NcUsername)));
    let e = Config::from_conf_values(s("h"), s("u"), None, s("/r"), None, None).err();
    assert_eq!(e, Some(ConfigError::Missing(ConfKey::NcPassword)));
    let e = Config::from_conf_values(s("h"), s("u"), s("p"), None, None, None).err();
    assert_eq!(e, Some(ConfigError::Missing(ConfKey::LocalRoot)));
    assert_eq!(ConfKey::LocalRoot.name(), "LOCAL_ROOT");
}

#[test]
fn log_levels() {
    assert_eq!(LogLevel::parse("info"), Some(LogLevel::Info));
    assert_eq!(LogLevel::parse("WaRn"), Some(LogLevel::Warn));
    assert_eq!(LogLevel::parse("off"), Some(LogLevel::Off));
    assert_eq!(LogLevel::parse("TRACE"), Some(LogLevel::Trace));
    assert_eq!(LogLevel::parse("verbose"), None);
    assert_eq!(LogLevel::parse(""), None);
    assert_eq!(LogLevel::parse_or("", LogLevel::Info), LogLevel::Info);
    assert_eq!(LogLevel::Error.name(), "ERROR");
    assert_eq!(LogLevel::Debug.name(), "DEBUG");
}

#[test]
fn conf_file_entries() {
    let c = config("https://h");
    let e = c.conf_entries();
    assert_eq!(e.len(), 5);
    assert_eq!(e[0], ("NC_HOST".to_string(), "https://h".to_string()));
    assert_eq!(e[3], ("LOCAL_ROOT".to_string(), "/r".to_string()));
    assert_eq!(e[4], ("RUST_LOG".to_string(), "DEBUG".to_string()));
}

#[test]
fn validation_order() {
    let good = config("https://cloud.example");
    let plain = config("http://cloud.example");
    assert!(good.uses_tls());
    assert!(!plain.uses_tls());
    assert!(!config("xhttps://a").uses_tls());
    assert_eq!(good.validation(true, true), ValidateResult::Valid);
    assert_eq!(good.validation(true, false), ValidateResult::NetworkError);
    assert_eq!(good.validation(false, true), ValidateResult::RootPathError);
    assert_eq!(plain.validation(true, true), ValidateResult::DontUseSSLError);
    assert_eq!(plain.validation(false, true), ValidateResult::RootPathError);
    assert_eq!(validation_outcome(true, true, true), ValidateResult::Valid);
    assert_eq!(validation_outcome(true, false, true), ValidateResult::DontUseSSLError);
    assert_eq!(validation_outcome(true, true, false), ValidateResult::NetworkError);
    assert_eq!(validation_outcome(false, false, false), ValidateResult::RootPathError);
}

#[test]
fn metadata_events() {
    assert_eq!(route_meta_event("exclude"), MetaRoute::UpdateExcFile);
    assert_eq!(route_meta_event("sub/exclude"), MetaRoute::UpdateExcFile);
    assert_eq!(route_meta_event("conf.ini"), MetaRoute::UpdateConfigFile);
    assert_eq!(route_meta_event(".stash/exclude"), MetaRoute::Ignore);
    assert_eq!(route_meta_event("cache.json"), MetaRoute::Ignore);
    assert_eq!(route_meta_event("excluded"), MetaRoute::Ignore);
}
