use meshly_core::config::{
    default_log_level, default_relay_bytes_per_sec, CommonConfig, ConfigError, ConsumeConfig,
    ExposeConfig, GroupConfig, HeartbeatConfig, LoggingConfig, ReconnectConfig, RelayConfig,
    RelayRateOverride, RootConfig, RootDirState, StaticConfig,
};
use meshly_core::control::ControlConfig;
use meshly_core::server::{parse_overrides, plan_server};
use toml::Value;

fn text(table: &Value, key: &str) -> Result<String, ConfigError> {
    match table.get(key).and_then(Value::as_str) {
        Some(s) => Ok(s.to_string()),
        None => Err(ConfigError::Parse(format!("missing field `{key}`"))),
    }
}

fn number(table: &Value, key: &str) -> Result<u64, ConfigError> {
    match table.get(key).and_then(Value::as_integer) {
        Some(n) if n >= 0 => Ok(n as u64),
        _ => Err(ConfigError::Parse(format!("missing field `{key}`"))),
    }
}

fn flag(table: &Value, key: &str) -> bool {
    table.get(key).and_then(Value::as_bool).unwrap_or(false)
}

fn rows<'a>(table: &'a Value, key: &str) -> Vec<&'a Value> {
    match table.get(key).and_then(Value::as_array) {
        Some(list) => list.iter().collect(),
        None => Vec::new(),
    }
}

fn parse(s: &str) -> Result<RootConfig, ConfigError> {
    let root: Value = toml::from_str(s).map_err(|e| ConfigError::Parse(e.to_string()))?;
    let mut cfg = RootConfig::default();
    if let Some(common) = root.get("common") {
        cfg.common.identity_path = text(common, "identity_path").ok();
        if let Some(logging) = common.get("logging") {
            cfg.common.logging.level = text(logging, "level").unwrap_or(default_log_level());
        }
    }
    for g in rows(&root, "group") {
        cfg.groups.push(GroupConfig {
            name: text(g, "name")?,
            group_token: text(g, "group_token")?,
        });
    }
    if let Some(h) = root.get("heartbeat") {
        cfg.heartbeat = HeartbeatConfig {
            interval_secs: number(h, "interval_secs")?,
            timeout_secs: number(h, "timeout_secs")?,
        };
    }
    if let Some(r) = root.get("relay") {
        let mut relay = RelayConfig::default();
        relay.enabled = flag(r, "enabled");
        relay.bytes_per_sec = number(r, "bytes_per_sec").unwrap_or(default_relay_bytes_per_sec());
        for o in rows(r, "rate_override") {
            relay.rate_overrides.push(RelayRateOverride {
                node_id: text(o, "node_id")?,
                bytes_per_sec: number(o, "bytes_per_sec")?,
            });
        }
        cfg.relay = Some(relay);
    }
    cfg.server_node_id = text(&root, "server_node_id").ok();
    cfg.group_token = text(&root, "group_token").ok();
    for e in rows(&root, "expose") {
        cfg.expose.push(ExposeConfig {
            name: text(e, "name")?,
            local_addr: text(e, "local_addr")?,
            shared_secret: text(e, "shared_secret")?,
        });
    }
    for e in rows(&root, "static") {
        cfg.static_services.push(StaticConfig {
            name: text(e, "name")?,
            root_dir: text(e, "root_dir")?,
            allow_directory_listing: flag(e, "allow_directory_listing"),
            shared_secret: text(e, "shared_secret")?,
        });
    }
    for e in rows(&root, "consume") {
        cfg.consume.push(ConsumeConfig {
            name: text(e, "name")?,
            local_bind: text(e, "local_bind")?,
            shared_secret: text(e, "shared_secret")?,
        });
    }
    Ok(cfg)
}

/// Stands in for the disk: one directory with one file in it.
fn root_states(cfg: &RootConfig) -> Vec<RootDirState> {
    cfg.static_services
        .iter()
        .map(|s| match s.root_dir.as_str() {
            "/srv/files" => RootDirState::Directory,
            "/srv/files/Cargo.toml" => RootDirState::NotADirectory,
            _ => RootDirState::Missing,
        })
        .collect()
}

fn load_from_str(s: &str) -> Result<RootConfig, ConfigError> {
    let cfg = parse(s)?;
    cfg.validate(&root_states(&cfg))?;
    Ok(cfg)
}

fn refusal(s: &str) -> String {
    match load_from_str(s) {
        Err(ConfigError::Validate(text)) => text,
        other => panic!("expected validate error, got {other:?}"),
    }
}

const GOOD_SERVER: &str = r#"
[common.logging]
level = "info"

[[group]]
name = "homelab"
group_token = "secret"
"#;

const GOOD_CLIENT: &str = r#"
server_node_id = "abcd"
group_token = "secret"

[[expose]]
name = "ssh"
local_addr = "127.0.0.1:22"
shared_secret = "s"

[[consume]]
name = "lan-db"
local_bind = "127.0.0.1:3307"
shared_secret = "s"
"#;

#[test]
fn parses_valid_server() {
    let cfg = load_from_str(GOOD_SERVER).unwrap();
    assert!(cfg.is_server());
    assert_eq!(cfg.groups.len(), 1);
}

#[test]
fn parses_valid_client() {
    let cfg = load_from_str(GOOD_CLIENT).unwrap();
    assert!(!cfg.is_server());
    assert_eq!(cfg.expose.len(), 1);
    assert_eq!(cfg.consume.len(), 1);
}

#[test]
fn rejects_mixed_role() {
    let mixed = r#"
server_node_id = "abcd"
group_token = "tok"

[[group]]
name = "g"
group_token = "tok"
"#;
    let err = load_from_str(mixed).unwrap_err();
    assert!(matches!(err, ConfigError::Validate(_)));
}

#[test]
fn every_client_field_is_refused_beside_a_group() {
    let group = "[[group]]\nname = \"g\"\ngroup_token = \"t\"\n";
    assert!(load_from_str(group).is_ok());
    for field in [
        "server_node_id = \"abcd\"\n",
        "group_token = \"tok\"\n",
        "[[expose]]\nname = \"a\"\nlocal_addr = \"127.0.0.1:1\"\nshared_secret = \"s\"\n",
        "[[static]]\nname = \"a\"\nroot_dir = \"/srv/files\"\nshared_secret = \"s\"\n",
        "[[consume]]\nname = \"a\"\nlocal_bind = \"127.0.0.1:1\"\nshared_secret = \"s\"\n",
    ] {
        let message = refusal(&format!("{field}{group}"));
        assert!(message.contains("mixes server"), "{field}: {message}");
    }
}

#[test]
fn rejects_empty_role() {
    let empty = r#"
[common.logging]
level = "info"
"#;
    let err = load_from_str(empty).unwrap_err();
    assert!(matches!(err, ConfigError::Validate(_)));
}

#[test]
fn rejects_same_name_expose_consume() {
    let bad = r#"
server_node_id = "abcd"
group_token = "tok"

[[expose]]
name = "ssh"
local_addr = "127.0.0.1:22"
shared_secret = "a"

[[consume]]
name = "ssh"
local_bind = "127.0.0.1:2222"
shared_secret = "b"
"#;
    let err = load_from_str(bad).unwrap_err();
    match err {
        ConfigError::Validate(s) => assert!(s.contains("ssh")),
        other => panic!("expected validate error, got {other:?}"),
    }
}

#[test]
fn rejects_bad_service_name() {
    let bad = r#"
server_node_id = "abcd"
group_token = "tok"

[[expose]]
name = "Bad Name!"
local_addr = "127.0.0.1:22"
shared_secret = "a"
"#;
    let err = load_from_str(bad).unwrap_err();
    assert!(matches!(err, ConfigError::Validate(_)));
}

#[test]
fn rejects_bad_log_level() {
    let bad = r#"
[common.logging]
level = "verbose"

[[group]]
name = "g"
group_token = "tok"
"#;
    let err = load_from_str(bad).unwrap_err();
    match err {
        ConfigError::Validate(s) => assert!(s.contains("logging.level")),
        other => panic!("unexpected {other:?}"),
    }
}

#[test]
fn parses_valid_static_entry() {
    let here = "/srv/files";
    let cfg_str = format!(
        r#"
server_node_id = "abcd"
group_token = "tok"

[[static]]
name = "files"
root_dir = "{}"
shared_secret = "s"
allow_directory_listing = true
"#,
        here
    );
    let cfg = load_from_str(&cfg_str).unwrap();
    assert_eq!(cfg.static_services.len(), 1);
    assert_eq!(cfg.static_services[0].name, "files");
    assert!(cfg.static_services[0].allow_directory_listing);
}

#[test]
fn static_defaults_allow_listing_to_false() {
    let here = "/srv/files";
    let cfg_str = format!(
        r#"
server_node_id = "abcd"
group_token = "tok"

[[static]]
name = "files"
root_dir = "{}"
shared_secret = "s"
"#,
        here
    );
    let cfg = load_from_str(&cfg_str).unwrap();
    assert!(!cfg.static_services[0].allow_directory_listing);
}

#[test]
fn rejects_static_with_missing_root_dir() {
    let bad = r#"
server_node_id = "abcd"
group_token = "tok"

[[static]]
name = "files"
root_dir = "/nope/this/does/not/exist/at/all"
shared_secret = "s"
"#;
    let err = load_from_str(bad).unwrap_err();
    match err {
        ConfigError::Validate(s) => assert!(s.contains("root_dir")),
        other => panic!("expected validate error, got {other:?}"),
    }
}

#[test]
fn rejects_static_with_root_dir_pointing_at_file() {
    let here = "/srv/files";
    let cfg_str = format!(
        r#"
server_node_id = "abcd"
group_token = "tok"

[[static]]
name = "files"
root_dir = "{}/Cargo.toml"
shared_secret = "s"
"#,
        here
    );
    let err = load_from_str(&cfg_str).unwrap_err();
    match err {
        ConfigError::Validate(s) => assert!(s.contains("not a directory")),
        other => panic!("expected validate error, got {other:?}"),
    }
}

#[test]
fn rejects_same_name_across_static_and_consume() {
    let here = "/srv/files";
    let cfg_str = format!(
        r#"
server_node_id = "abcd"
group_token = "tok"

[[static]]
name = "files"
root_dir = "{}"
shared_secret = "s"

[[consume]]
name = "files"
local_bind = "127.0.0.1:8080"
shared_secret = "s"
"#,
        here
    );
    let err = load_from_str(&cfg_str).unwrap_err();
    assert!(matches!(err, ConfigError::Validate(_)));
}

#[test]
fn rejects_same_name_across_static_and_expose() {
    let here = "/srv/files";
    let cfg_str = format!(
        r#"
server_node_id = "abcd"
group_token = "tok"

[[expose]]
name = "files"
local_addr = "127.0.0.1:22"
shared_secret = "s"

[[static]]
name = "files"
root_dir = "{}"
shared_secret = "s"
"#,
        here
    );
    let err = load_from_str(&cfg_str).unwrap_err();
    assert!(matches!(err, ConfigError::Validate(_)));
}


#[test]
fn rejects_client_missing_server_node_id() {
    let bad = r#"
group_token = "tok"

[[expose]]
name = "ssh"
local_addr = "127.0.0.1:22"
shared_secret = "a"
"#;
    let err = load_from_str(bad).unwrap_err();
    match err {
        ConfigError::Validate(s) => assert!(s.contains("server_node_id")),
        other => panic!("expected validate error, got {other:?}"),
    }
}

#[test]
fn rejects_client_with_empty_server_node_id() {
    let bad = r#"
server_node_id = ""
group_token = "tok"

[[expose]]
name = "ssh"
local_addr = "127.0.0.1:22"
shared_secret = "a"
"#;
    let err = load_from_str(bad).unwrap_err();
    match err {
        ConfigError::Validate(s) => assert!(s.contains("server_node_id")),
        other => panic!("expected validate error, got {other:?}"),
    }
}

#[test]
fn rejects_client_missing_group_token() {
    let bad = r#"
server_node_id = "abcd"

[[expose]]
name = "ssh"
local_addr = "127.0.0.1:22"
shared_secret = "a"
"#;
    let err = load_from_str(bad).unwrap_err();
    match err {
        ConfigError::Validate(s) => assert!(s.contains("group_token")),
        other => panic!("expected validate error, got {other:?}"),
    }
}

#[test]
fn rejects_relay_section_in_client_config() {
    let bad = r#"
server_node_id = "abcd"
group_token = "tok"

[relay]
bytes_per_sec = 999999

[[expose]]
name = "ssh"
local_addr = "127.0.0.1:22"
shared_secret = "a"
"#;
    let err = load_from_str(bad).unwrap_err();
    match err {
        ConfigError::Validate(s) => assert!(
            s.contains("relay") && s.contains("server-only"),
            "expected server-only relay error, got: {s}"
        ),
        other => panic!("expected validate error, got {other:?}"),
    }
}

#[test]
fn server_config_without_relay_section_is_allowed() {
    let cfg_str = r#"
[common.logging]
level = "info"

[[group]]
name = "homelab"
group_token = "tok"
"#;
    let cfg = load_from_str(cfg_str).expect("omitted [relay] is fine");
    assert!(cfg.is_server());
    assert!(cfg.relay.is_none(), "no [relay] => None, not default");
}

#[test]
fn server_config_with_relay_section_is_read() {
    let cfg_str = r#"
[common.logging]
level = "info"

[[group]]
name = "homelab"
group_token = "tok"

[relay]
bytes_per_sec = 4096
"#;
    let cfg = load_from_str(cfg_str).expect("[relay] on server is fine");
    assert!(cfg.is_server());
    let relay = cfg.relay.as_ref().expect("Some(_))");
    assert_eq!(relay.bytes_per_sec, 4096);
    assert!(relay.rate_overrides.is_empty());
}

#[test]
fn server_config_with_rate_overrides_is_accepted() {
    let nid_hex = "00".repeat(32);
    let cfg_str = format!(
        r#"
[common.logging]
level = "info"

[[group]]
name = "homelab"
group_token = "tok"

[relay]
bytes_per_sec = 102400

[[relay.rate_override]]
node_id = "{nid_hex}"
bytes_per_sec = 1048576
"#
    );
    let cfg = load_from_str(&cfg_str).expect("valid override accepted");
    let relay = cfg.relay.as_ref().expect("Some(_))");
    assert_eq!(relay.rate_overrides.len(), 1);
    assert_eq!(relay.rate_overrides[0].bytes_per_sec, 1048576);
    assert_eq!(relay.rate_overrides[0].node_id, nid_hex);
}

#[test]
fn server_config_with_malformed_rate_override_is_rejected() {
    let cfg_str = r#"
[common.logging]
level = "info"

[[group]]
name = "homelab"
group_token = "tok"

[[relay.rate_override]]
node_id = "not-a-real-endpoint-id"
bytes_per_sec = 4096
"#;
    let err = load_from_str(cfg_str).unwrap_err();
    match err {
        ConfigError::Validate(s) => assert!(
            s.contains("rate_override") && s.contains("node_id"),
            "msg: {s}"
        ),
        other => panic!("expected validate error, got {other:?}"),
    }
}

#[test]
fn server_config_with_duplicate_rate_override_is_rejected() {
    let nid_hex = "00".repeat(32);
    let cfg_str = format!(
        r#"
[common.logging]
level = "info"

[[group]]
name = "homelab"
group_token = "tok"

[[relay.rate_override]]
node_id = "{nid_hex}"
bytes_per_sec = 4096

[[relay.rate_override]]
node_id = "{nid_hex}"
bytes_per_sec = 8192
"#
    );
    let err = load_from_str(&cfg_str).unwrap_err();
    match err {
        ConfigError::Validate(s) => assert!(
            s.contains("rate_override") && s.contains("duplicate"),
            "msg: {s}"
        ),
        other => panic!("expected validate error, got {other:?}"),
    }
}

#[test]
fn rejects_duplicate_expose_names() {
    let bad = r#"
server_node_id = "abcd"
group_token = "tok"

[[expose]]
name = "ssh"
local_addr = "127.0.0.1:22"
shared_secret = "a"

[[expose]]
name = "ssh"
local_addr = "127.0.0.1:23"
shared_secret = "b"
"#;
    let err = load_from_str(bad).unwrap_err();
    match err {
        ConfigError::Validate(s) => assert!(s.contains("ssh"), "msg: {s}"),
        other => panic!("expected validate error, got {other:?}"),
    }
}

#[test]
fn relay_master_switch_defaults_to_off() {
    let cfg_str = r#"
[common.logging]
level = "info"

[[group]]
name = "homelab"
group_token = "tok"

[relay]
bytes_per_sec = 999999
"#;
    let cfg = load_from_str(cfg_str).expect("[relay] with bytes_per_sec parses");
    let relay = cfg.relay.as_ref().expect("Some(_))");
    assert!(
        !relay.enabled,
        "relay.enabled must default to false when omitted"
    );
    assert_eq!(relay.bytes_per_sec, 999999);
}

#[test]
fn relay_master_switch_explicit_on_is_accepted() {
    let cfg_str = r#"
[common.logging]
level = "info"

[[group]]
name = "homelab"
group_token = "tok"

[relay]
enabled = true
bytes_per_sec = 4096
"#;
    let cfg = load_from_str(cfg_str).expect("explicit enabled = true parses");
    let relay = cfg.relay.as_ref().expect("Some(_))");
    assert!(relay.enabled);
    assert_eq!(relay.bytes_per_sec, 4096);
}

#[test]
fn relay_master_switch_explicit_off_is_accepted() {
    let cfg_str = r#"
[common.logging]
level = "info"

[[group]]
name = "homelab"
group_token = "tok"

[relay]
enabled = false
"#;
    let cfg = load_from_str(cfg_str).expect("explicit enabled = false parses");
    let relay = cfg.relay.as_ref().expect("Some(_))");
    assert!(!relay.enabled);
    assert_eq!(relay.bytes_per_sec, 100 * 1024);
}

#[test]
fn relay_section_omitted_means_disabled() {
    let cfg_str = r#"
[common.logging]
level = "info"

[[group]]
name = "homelab"
group_token = "tok"
"#;
    let cfg = load_from_str(cfg_str).expect("omitted [relay] is fine");
    assert!(cfg.relay.is_none(), "no [relay] => None");
}

#[test]
fn relay_rate_limit_default_for_relay_config() {
    let d = RelayConfig::default();
    assert!(!d.enabled, "default RelayConfig must be disabled");
    assert!(d.rate_overrides.is_empty());
}

#[test]
fn consume_referencing_unknown_service_is_allowed() {
    let cfg_str = r#"
server_node_id = "abcd"
group_token = "tok"

[[consume]]
name = "remote-only-service"
local_bind = "127.0.0.1:9000"
shared_secret = "s"
"#;
    let cfg = load_from_str(cfg_str).expect("consume of unknown peer svc is valid");
    assert_eq!(cfg.consume.len(), 1);
    assert_eq!(cfg.consume[0].name, "remote-only-service");
}

#[test]
fn rejects_duplicate_group_names() {
    let bad = r#"
[[group]]
name = "homelab"
group_token = "a"

[[group]]
name = "homelab"
group_token = "b"
"#;
    let err = load_from_str(bad).unwrap_err();
    match err {
        ConfigError::Validate(s) => {
            assert!(s.contains("duplicate") || s.contains("homelab"));
        }
        other => panic!("expected validate error, got {other:?}"),
    }
}

// Defaults -------------------------------------------------------------------

#[test]
fn defaults_of_every_section() {
    let cfg = RootConfig::default();
    assert!(cfg.groups.is_empty() && cfg.expose.is_empty());
    assert!(cfg.static_services.is_empty() && cfg.consume.is_empty());
    assert!(cfg.relay.is_none() && cfg.server_node_id.is_none() && cfg.group_token.is_none());
    assert_eq!(cfg.common.logging.level, "info");
    assert_eq!(LoggingConfig::default().level, "info");
    assert!(CommonConfig::default().identity_path.is_none());
    assert_eq!(HeartbeatConfig::default().interval_secs, 30);
    assert_eq!(HeartbeatConfig::default().timeout_secs, 90);
    assert_eq!(RelayConfig::default().bytes_per_sec, 102_400);
    assert_eq!(default_relay_bytes_per_sec(), 102_400);
    assert_eq!(ReconnectConfig::default().initial_backoff_ms, 50);
    assert_eq!(ReconnectConfig::default().max_backoff_ms, 5000);
    assert!(ReconnectConfig::default().prefer_direct);
}

// Exact refusals -------------------------------------------------------------

#[test]
fn refusals_name_the_entry() {
    let client = "server_node_id = \"abcd\"\ngroup_token = \"tok\"\n";
    let row = |table: &str, name: &str, secret: &str| {
        let place = match table {
            "expose" => "local_addr = \"127.0.0.1:1\"",
            "consume" => "local_bind = \"127.0.0.1:2\"",
            _ => "root_dir = \"/srv/files\"",
        };
        format!("[[{table}]]\nname = \"{name}\"\n{place}\nshared_secret = \"{secret}\"\n")
    };
    for table in ["expose", "consume", "static"] {
        let with = |name: &str, secret: &str| match table {
            // A table of static services alone is no client yet.
            "static" => format!("{client}{}", row(table, name, secret)),
            _ => format!("{client}{}", row(table, name, secret)),
        };
        assert!(load_from_str(&with("ok", "s")).is_ok());
        assert_eq!(
            refusal(&with("ok", "")),
            format!("{table} \"ok\": shared_secret is empty")
        );
        assert_eq!(
            refusal(&with("ping", "s")),
            format!("{table} \"ping\": service name is reserved: \"ping\"")
        );
    }
    assert_eq!(
        refusal("[common.logging]\nlevel = \"loud\"\n[[group]]\nname = \"g\"\ngroup_token = \"t\"\n"),
        "unknown logging.level: \"loud\""
    );
}

#[test]
fn every_log_level_is_accepted() {
    for level in ["trace", "debug", "info", "warn", "error"] {
        let s = format!(
            "[common.logging]\nlevel = \"{level}\"\n[[group]]\nname = \"g\"\ngroup_token = \"t\"\n"
        );
        assert!(load_from_str(&s).is_ok(), "{level}");
    }
}

#[test]
fn an_empty_group_token_is_refused() {
    let text = refusal("[[group]]\nname = \"g\"\ngroup_token = \"\"\n");
    assert!(text.contains("g"), "{text}");
}

#[test]
fn config_errors_have_messages() {
    let io = ConfigError::Io { path: "a.toml".into(), source: "gone".into() };
    assert_eq!(io.message(), "read config file \"a.toml\": gone");
    assert_eq!(ConfigError::Parse("bad".into()).message(), "parse TOML: bad");
    assert_eq!(ConfigError::Validate("no".into()).message(), "validation: no");
}

// What a server starts with --------------------------------------------------

#[test]
fn a_server_is_planned_from_its_config() {
    let nid = "00".repeat(32);
    let cfg = load_from_str(&format!(
        "[[group]]\nname = \"g\"\ngroup_token = \"t\"\n[heartbeat]\ninterval_secs = 0\n\
         timeout_secs = 7\n[relay]\nenabled = true\nbytes_per_sec = 5\n[[relay.rate_override]]\n\
         node_id = \"{nid}\"\nbytes_per_sec = 9\n"
    ))
    .unwrap();
    let plan = plan_server(&cfg).unwrap();
    assert_eq!(plan.rate_overrides, [([0u8; 32], 9)]);
    assert_eq!(plan.default_reply_bps.map(|h| h.bytes_per_sec), Some(5));
    assert_eq!(plan.control.heartbeat_interval, 1);
    assert_eq!(plan.control.heartbeat_timeout, 7);
    let control = ControlConfig::from_heartbeat(&HeartbeatConfig::default());
    assert_eq!((control.heartbeat_interval, control.heartbeat_timeout), (30, 90));
}

#[test]
fn rate_limiting_is_off_without_the_master_switch() {
    let off = load_from_str(
        "[[group]]\nname = \"g\"\ngroup_token = \"t\"\n[relay]\nbytes_per_sec = 5\n",
    )
    .unwrap();
    assert!(plan_server(&off).unwrap().default_reply_bps.is_none());
    let absent = load_from_str(GOOD_SERVER).unwrap();
    assert!(plan_server(&absent).unwrap().default_reply_bps.is_none());
    assert!(plan_server(&load_from_str(GOOD_CLIENT).unwrap()).is_none());
}

#[test]
fn rows_without_an_id_are_skipped() {
    let rows = vec![
        RelayRateOverride { node_id: "junk".into(), bytes_per_sec: 1 },
        RelayRateOverride { node_id: "00".repeat(32), bytes_per_sec: 2 },
    ];
    assert_eq!(parse_overrides(&rows), [([0u8; 32], 2)]);
}
