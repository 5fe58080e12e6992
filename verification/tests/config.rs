use front_door::config::{AppConfigRaw, Apps, AppsRaw, UpstreamTarget};

fn raw_entry(name: &str, host: &str, port: u16) -> (String, AppConfigRaw) {
    (
        name.to_string(),
        AppConfigRaw {
            upstream: UpstreamTarget {
                host: host.to_string(),
                port,
            },
        },
    )
}

#[test]
fn from_raw_builds_registry() {
    let raw = AppsRaw {
        apps: vec![
            raw_entry("fapi.prod", "10.0.0.1", 8001),
            raw_entry("fapi.dev", "10.0.0.2", 8002),
        ],
        domains: vec!["appka.fapi.prod.majnet.xyz".to_string()],
    };
    let apps = Apps::from_raw(raw);
    let entry = apps.lookup("fapi.prod").unwrap();
    assert_eq!(entry.name, "fapi.prod");
    assert_eq!(entry.upstream.host, "10.0.0.1");
    assert_eq!(entry.upstream.port, 8001);
    let entry = apps.lookup("fapi.dev").unwrap();
    assert_eq!(entry.upstream.port, 8002);
    assert!(apps.lookup("fapi.stage").is_none());
    assert_eq!(apps.domains, vec!["appka.fapi.prod.majnet.xyz".to_string()]);
}

#[test]
fn from_raw_last_duplicate_wins() {
    let raw = AppsRaw {
        apps: vec![
            raw_entry("fapi.prod", "10.0.0.1", 8001),
            raw_entry("fapi.prod", "10.0.0.9", 9009),
        ],
        domains: vec![],
    };
    let apps = Apps::from_raw(raw);
    assert_eq!(apps.apps.len(), 1);
    let entry = apps.lookup("fapi.prod").unwrap();
    assert_eq!(entry.upstream.host, "10.0.0.9");
    assert_eq!(entry.upstream.port, 9009);
}

#[test]
fn route_composes_parse_and_lookup() {
    let raw = AppsRaw {
        apps: vec![raw_entry("fapi.prod", "10.0.0.1", 8001)],
        domains: vec![],
    };
    let apps = Apps::from_raw(raw);
    let key = apps.route("appka.fapi.prod.majnet.xyz", "majnet.xyz").unwrap();
    assert_eq!(key.tenant, "fapi.prod");
    assert_eq!(key.path_prefix, Some("appka".to_string()));
}

#[test]
fn route_fails_on_unregistered_tenant() {
    let raw = AppsRaw {
        apps: vec![raw_entry("fapi.prod", "10.0.0.1", 8001)],
        domains: vec![],
    };
    let apps = Apps::from_raw(raw);
    assert!(apps.route("appka.fapi.dev.majnet.xyz", "majnet.xyz").is_none());
}

#[test]
fn route_fails_on_unparsable_host() {
    let raw = AppsRaw {
        apps: vec![raw_entry("fapi.prod", "10.0.0.1", 8001)],
        domains: vec![],
    };
    let apps = Apps::from_raw(raw);
    assert!(apps.route("fapi.prod.majnet.xyz", "majnet.xyz").is_none());
    assert!(apps.route("majnet.xyz", "majnet.xyz").is_none());
    assert!(apps.route("appka.fapi.prod.majnet.com", "majnet.xyz").is_none());
}
