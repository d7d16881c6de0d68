use smugprobe::target::TargetConfig;

#[test]
fn parses_plain_http_with_defaults() {
    let cfg = TargetConfig::from_url("http://example.com").unwrap();
    assert!(!cfg.uses_tls);
    assert_eq!(cfg.host, "example.com");
    assert_eq!(cfg.port, 80);
    assert_eq!(cfg.path, "/");
}

#[test]
fn parses_https_with_defaults() {
    let cfg = TargetConfig::from_url("https://example.com").unwrap();
    assert!(cfg.uses_tls);
    assert_eq!(cfg.port, 443);
    assert_eq!(cfg.path, "/");
}

#[test]
fn parses_explicit_port_and_path() {
    let cfg = TargetConfig::from_url("https://internal.test:8443/admin/panel?x=1").unwrap();
    assert!(cfg.uses_tls);
    assert_eq!(cfg.host, "internal.test");
    assert_eq!(cfg.port, 8443);
    assert_eq!(cfg.path, "/admin/panel?x=1");
}

#[test]
fn parses_path_without_port() {
    let cfg = TargetConfig::from_url("http://h/x").unwrap();
    assert_eq!(cfg.host, "h");
    assert_eq!(cfg.port, 80);
    assert_eq!(cfg.path, "/x");
}

#[test]
fn rejects_unknown_scheme() {
    assert!(TargetConfig::from_url("ftp://example.com").is_err());
    assert!(TargetConfig::from_url("example.com").is_err());
    assert!(TargetConfig::from_url("").is_err());
}

#[test]
fn rejects_empty_host() {
    assert!(TargetConfig::from_url("http://").is_err());
    assert!(TargetConfig::from_url("http://:80/x").is_err());
    assert!(TargetConfig::from_url("http:///x").is_err());
}

#[test]
fn rejects_bad_port() {
    assert!(TargetConfig::from_url("http://h:/x").is_err());
    assert!(TargetConfig::from_url("http://h:12ab/x").is_err());
    assert!(TargetConfig::from_url("http://h:99999/x").is_err());
    assert!(TargetConfig::from_url("http://h:+80/x").is_err());
}

#[test]
fn round_trips_through_implied_url() {
    let cfg = TargetConfig::from_url("https://example.com/a").unwrap();
    let implied = format!(
        "{}://{}:{}{}",
        if cfg.uses_tls { "https" } else { "http" },
        cfg.host,
        cfg.port,
        cfg.path
    );
    let again = TargetConfig::from_url(&implied).unwrap();
    assert_eq!(again.uses_tls, cfg.uses_tls);
    assert_eq!(again.host, cfg.host);
    assert_eq!(again.port, cfg.port);
    assert_eq!(again.path, cfg.path);
}

#[test]
fn round_trips_default_port_explicitly() {
    let cfg = TargetConfig::from_url("http://h.example:8080/p/q").unwrap();
    let implied = format!("http://{}:{}{}", cfg.host, cfg.port, cfg.path);
    let again = TargetConfig::from_url(&implied).unwrap();
    assert_eq!(again.host, cfg.host);
    assert_eq!(again.port, cfg.port);
    assert_eq!(again.path, cfg.path);
}
