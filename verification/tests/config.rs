use nestcli::config::app::{Config, Ipv4, SocketConfig};
use nestcli::errors::ConfigError;
use nestcli::config::bundle::PlatformTarget;

fn addr(a: u8, b: u8, c: u8, d: u8) -> Ipv4 {
    Ipv4 { octet0: a, octet1: b, octet2: c, octet3: d }
}

#[test]
fn stock_port_is_8000() {
    assert_eq!(Config::default().get_port(), 8000);
    assert_eq!(SocketConfig::default().get_port(), 8000);
}

#[test]
fn configured_port_is_kept() {
    let config = Config::new(9123);
    assert_eq!(config.get_port(), 9123);
}

#[test]
fn added_connection_can_be_looked_up() {
    let mut config = Config::default();
    assert_eq!(config.add("wiiu", addr(10, 0, 0, 7)), Ok(false));
    assert_eq!(config.get("wiiu"), Some(addr(10, 0, 0, 7)));
    assert_eq!(config.get("switch"), None);
}

#[test]
fn adding_an_existing_name_updates_its_address() {
    let mut config = Config::default();
    assert_eq!(config.add("dev", addr(10, 0, 0, 1)), Ok(false));
    assert_eq!(config.add("dev", addr(192, 168, 1, 20)), Ok(true));
    assert_eq!(config.connection_count(), 1);
    assert_eq!(config.get("dev"), Some(addr(192, 168, 1, 20)));
}

#[test]
fn empty_name_is_rejected() {
    let mut config = Config::default();
    assert_eq!(config.add("", addr(1, 2, 3, 4)), Err(ConfigError::EmptyName));
    assert_eq!(config.connection_count(), 0);
}

#[test]
fn removing_a_connection_only_touches_it() {
    let mut config = Config::default();
    config.add("one", addr(1, 1, 1, 1)).unwrap();
    config.add("two", addr(2, 2, 2, 2)).unwrap();
    assert!(config.remove("one"));
    assert!(!config.remove("one"));
    assert_eq!(config.get("one"), None);
    assert_eq!(config.get("two"), Some(addr(2, 2, 2, 2)));
    assert_eq!(config.connection_count(), 1);
    assert_eq!(config.connection_at(0).name, "two");
}

#[test]
fn attach_prefers_the_configured_table() {
    let mut config = Config::default();
    config.add("dev", addr(10, 0, 0, 5)).unwrap();
    // A configured name wins even over a parsable fallback.
    assert_eq!(config.attach_target("dev", Some(addr(1, 2, 3, 4))), Some(addr(10, 0, 0, 5)));
    // An unknown name falls back to what the caller parsed.
    assert_eq!(config.attach_target("other", Some(addr(1, 2, 3, 4))), Some(addr(1, 2, 3, 4)));
    assert_eq!(config.attach_target("other", None), None);
}

#[test]
fn platform_tags_parse() {
    assert_eq!(PlatformTarget::from_str("ctr"), Ok(PlatformTarget::Ctr));
    assert_eq!(PlatformTarget::from_str("hac"), Ok(PlatformTarget::Hac));
    assert_eq!(PlatformTarget::from_str("cafe"), Ok(PlatformTarget::Cafe));
    assert_eq!(PlatformTarget::from_str("wii"), Err("No such match".to_string()));
    assert_eq!(PlatformTarget::from_str("CTR"), Err("No such match".to_string()));
    assert_eq!(PlatformTarget::from_str(""), Err("No such match".to_string()));
}
