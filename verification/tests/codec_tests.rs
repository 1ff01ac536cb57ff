use mountaineer::codec::{load_config_text, save_config_text};
use mountaineer::config::{validate, AliasConfig, Config, GlobalConfig, ShareConfig};

fn sample_config() -> Config {
    Config {
        global: GlobalConfig {
            shares_root: "~/MyShares".to_string(),
            check_interval_secs: 10,
            auto_failback: true,
            auto_failback_stable_secs: 60,
            connect_timeout_ms: 2000,
            lsof_recheck: false,
        },
        shares: vec![
            ShareConfig {
                name: "CORE".to_string(),
                username: "alice".to_string(),
                thunderbolt_host: "10.0.0.1".to_string(),
                fallback_host: "192.168.1.1".to_string(),
                share_name: "CORE".to_string(),
            },
            ShareConfig {
                name: "DATA".to_string(),
                username: "alice".to_string(),
                thunderbolt_host: "10.0.0.1".to_string(),
                fallback_host: "192.168.1.1".to_string(),
                share_name: "DATA$".to_string(),
            },
        ],
        aliases: vec![AliasConfig {
            name: "projects".to_string(),
            path: "~/Shares/Links/projects".to_string(),
            share: "CORE".to_string(),
            target_subpath: "dev/projects".to_string(),
        }],
    }
}

#[test]
fn config_roundtrip_through_codec() {
    let cfg = sample_config();
    let text = save_config_text(&cfg);
    let loaded = load_config_text(&text).expect("saved text loads back");
    assert_eq!(loaded, cfg);
    // and validation judges both alike
    assert_eq!(validate(&loaded).is_ok(), validate(&cfg).is_ok());
}

#[test]
fn empty_config_roundtrip() {
    let cfg = Config::default();
    let text = save_config_text(&cfg);
    let loaded = load_config_text(&text).expect("saved text loads back");
    assert_eq!(loaded, cfg);
}

#[test]
fn saved_text_is_well_shaped_toml() {
    let cfg = sample_config();
    let text = save_config_text(&cfg);
    assert!(text.starts_with("[global]\n"));
    assert!(text.contains("shares_root = \"~/MyShares\""));
    assert!(text.contains("check_interval_secs = 10"));
    assert!(text.contains("auto_failback = true"));
    assert!(text.contains("lsof_recheck = false"));
    assert!(text.contains("[[shares]]\nname = \"CORE\""));
    assert!(text.contains("share_name = \"DATA$\""));
    assert!(text.contains("[[aliases]]\nname = \"projects\""));
}

#[test]
fn load_rejects_malformed_text() {
    assert!(load_config_text("").is_none());
    assert!(load_config_text("[global]").is_none());
    assert!(load_config_text("not a config").is_none());
    let cfg = sample_config();
    let text = save_config_text(&cfg);
    let truncated = &text[..text.len() - 10];
    assert!(load_config_text(truncated).is_none());
}

#[test]
fn roundtrip_carries_newlines_quotes_and_backslashes() {
    let mut cfg = sample_config();
    cfg.shares[0].username = "line one\nline two".to_string();
    cfg.shares[0].thunderbolt_host = "host\\with\\backslashes".to_string();
    cfg.aliases[0].target_subpath = "a \"quoted\" path".to_string();
    cfg.global.shares_root = "~/Shares\nmore".to_string();
    let text = save_config_text(&cfg);
    let loaded = load_config_text(&text).expect("escaped text loads back");
    assert_eq!(loaded, cfg);
    // the file itself keeps one assignment per line
    assert!(text.contains("username = \"line one\\nline two\""));
}
