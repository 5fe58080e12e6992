use front_door::host::{parse_host, peer_key};

#[test]
fn test_parse_host() {
    assert_eq!(
        parse_host("appka.fapi.prod.majnet.xyz", "majnet.xyz"),
        Some(("appka", "fapi.prod"))
    );
    assert_eq!(
        parse_host("app.fapi.dev.majnet.xyz", "majnet.xyz"),
        Some(("app", "fapi.dev"))
    );
    assert_eq!(parse_host("appka.fapi.prod.majnet.com", "majnet.xyz"), None);
    assert_eq!(parse_host("fapi.dev.majnet.xyz", "majnet.xyz"), None);
    assert_eq!(parse_host("dev.majnet.xyz", "majnet.xyz"), None);
    assert_eq!(parse_host("majnet.xyz", "majnet.xyz"), None);
}

#[test]
fn parse_rejects_partial_label_match() {
    assert_eq!(parse_host("evilmajnet.xyz", "majnet.xyz"), None);
    assert_eq!(parse_host("a.b.evilmajnet.xyz", "majnet.xyz"), None);
}

#[test]
fn parse_round_trip_composed_hostname() {
    // residual "img.static", tenant label "web", environment label "prod":
    // the tenant span returned covers both trailing labels.
    assert_eq!(
        parse_host("img.static.web.prod.example.org", "example.org"),
        Some(("img.static", "web.prod"))
    );
}

#[test]
fn parse_requires_three_labels_before_base() {
    assert_eq!(parse_host("example.org", "example.org"), None);
    assert_eq!(parse_host("prod.example.org", "example.org"), None);
    assert_eq!(parse_host("web.prod.example.org", "example.org"), None);
    assert_eq!(
        parse_host("x.web.prod.example.org", "example.org"),
        Some(("x", "web.prod"))
    );
}

#[test]
fn peer_key_shapes_routing_key() {
    assert_eq!(
        peer_key("appka.fapi.prod.majnet.xyz", "majnet.xyz"),
        Some(("fapi.prod".to_string(), Some("appka".to_string())))
    );
    assert_eq!(peer_key("majnet.xyz", "majnet.xyz"), None);
    assert_eq!(peer_key("appka.fapi.prod.majnet.com", "majnet.xyz"), None);
}

#[test]
fn peer_key_empty_residual_has_no_prefix() {
    assert_eq!(parse_host(".fapi.prod.majnet.xyz", "majnet.xyz"), Some(("", "fapi.prod")));
    assert_eq!(
        peer_key(".fapi.prod.majnet.xyz", "majnet.xyz"),
        Some(("fapi.prod".to_string(), None))
    );
}

#[test]
fn peer_key_strips_trailing_dot_of_residual() {
    assert_eq!(parse_host("a..b.c.majnet.xyz", "majnet.xyz"), Some(("a.", "b.c")));
    assert_eq!(
        peer_key("a..b.c.majnet.xyz", "majnet.xyz"),
        Some(("b.c".to_string(), Some("a".to_string())))
    );
}
