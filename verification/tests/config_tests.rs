use mountaineer::config::{
    alias_target_path, default_alias_path, expand_path, find_share, share_stable_path,
    shares_root_path, validate, volume_mount_path, AliasConfig, Config, ShareConfig,
};
use mountaineer::Backend;

const HOME: &str = "/home/testuser";

fn make_share(name: &str) -> ShareConfig {
    ShareConfig {
        name: name.to_string(),
        username: "user".to_string(),
        thunderbolt_host: "10.0.0.1".to_string(),
        fallback_host: "192.168.1.1".to_string(),
        share_name: name.to_string(),
    }
}

#[test]
fn volume_mount_path_uses_volumes_dir() {
    let path = volume_mount_path("CORE");
    assert_eq!(path, "/Volumes/CORE".to_string());
}

#[test]
fn alias_target_joins_subpath() {
    let cfg = Config::default();
    let alias = AliasConfig {
        name: "projects".to_string(),
        path: "~/Shares/Links/projects".to_string(),
        share: "CORE".to_string(),
        target_subpath: "dev/projects".to_string(),
    };
    let target = alias_target_path(&cfg, HOME, &alias);
    assert!(target.ends_with("/Shares/CORE/dev/projects"));
}

#[test]
fn validate_rejects_duplicate_share_names() {
    let cfg = Config {
        shares: vec![make_share("CORE"), make_share("core")],
        ..Config::default()
    };
    let err = validate(&cfg).unwrap_err();
    assert!(err.message().contains("duplicate share name"));
}

#[test]
fn validate_rejects_empty_share_name() {
    let mut share = make_share("");
    share.name = "  ".to_string();
    let cfg = Config {
        shares: vec![share],
        ..Config::default()
    };
    let err = validate(&cfg).unwrap_err();
    assert!(err.message().contains("empty name"));
}

#[test]
fn validate_rejects_empty_thunderbolt_host() {
    let mut share = make_share("CORE");
    share.thunderbolt_host = "".to_string();
    let cfg = Config {
        shares: vec![share],
        ..Config::default()
    };
    let err = validate(&cfg).unwrap_err();
    assert!(err.message().contains("empty thunderbolt_host"));
}

#[test]
fn validate_rejects_empty_fallback_host() {
    let mut share = make_share("CORE");
    share.fallback_host = " ".to_string();
    let cfg = Config {
        shares: vec![share],
        ..Config::default()
    };
    let err = validate(&cfg).unwrap_err();
    assert!(err.message().contains("empty fallback_host"));
}

#[test]
fn validate_rejects_duplicate_alias_names() {
    let cfg = Config {
        aliases: vec![
            AliasConfig {
                name: "projects".to_string(),
                path: "~/Shares/Links/projects".to_string(),
                share: "CORE".to_string(),
                target_subpath: "dev/projects".to_string(),
            },
            AliasConfig {
                name: "PROJECTS".to_string(),
                path: "~/Shares/Links/projects2".to_string(),
                share: "CORE".to_string(),
                target_subpath: "dev/projects2".to_string(),
            },
        ],
        ..Config::default()
    };
    let err = validate(&cfg).unwrap_err();
    assert!(err.message().contains("duplicate alias name"));
}

#[test]
fn validate_accepts_valid_config() {
    let cfg = Config {
        shares: vec![make_share("CORE"), make_share("DATA")],
        aliases: vec![AliasConfig {
            name: "projects".to_string(),
            path: "~/Shares/Links/projects".to_string(),
            share: "CORE".to_string(),
            target_subpath: "dev/projects".to_string(),
        }],
        ..Config::default()
    };
    validate(&cfg).expect("valid config should pass validation");
}

#[test]
fn config_default_values_match_spec() {
    let cfg = Config::default();
    assert_eq!(cfg.global.shares_root, "~/Shares");
    assert_eq!(cfg.global.check_interval_secs, 2);
    assert!(!cfg.global.auto_failback);
    assert_eq!(cfg.global.auto_failback_stable_secs, 30);
    assert_eq!(cfg.global.connect_timeout_ms, 800);
    assert!(cfg.global.lsof_recheck);
    assert!(cfg.shares.is_empty());
    assert!(cfg.aliases.is_empty());
}

#[test]
fn find_share_case_insensitive() {
    let cfg = Config {
        shares: vec![make_share("CORE")],
        ..Config::default()
    };
    assert!(find_share(&cfg, "core").is_some());
    assert!(find_share(&cfg, "CORE").is_some());
    assert!(find_share(&cfg, "Core").is_some());
    assert!(find_share(&cfg, "missing").is_none());
}

#[test]
fn shares_root_path_expands_tilde() {
    let cfg = Config::default();
    let path = shares_root_path(&cfg, HOME);
    assert!(!path.starts_with("~"));
    assert!(path.ends_with("/Shares"));
}

#[test]
fn share_stable_path_joins_share_name() {
    let cfg = Config::default();
    let path = share_stable_path(&cfg, HOME, "CORE");
    assert!(path.ends_with("/Shares/CORE"));
}

#[test]
fn default_alias_path_under_links() {
    let cfg = Config::default();
    let path = default_alias_path(&cfg, HOME, "myalias");
    assert!(path.ends_with("/Shares/Links/myalias"));
}

#[test]
fn alias_target_path_strips_leading_trailing_slashes() {
    let cfg = Config::default();
    let alias = AliasConfig {
        name: "test".to_string(),
        path: "~/Shares/Links/test".to_string(),
        share: "CORE".to_string(),
        target_subpath: "/dev/projects/".to_string(),
    };
    let target = alias_target_path(&cfg, HOME, &alias);
    assert!(target.ends_with("/Shares/CORE/dev/projects"));
}

#[test]
fn backend_short_labels() {
    assert_eq!(Backend::Tb.short_label(), "tb");
    assert_eq!(Backend::Fallback.short_label(), "fallback");
}

#[test]
fn validate_rejects_empty_alias_name() {
    let cfg = Config {
        aliases: vec![AliasConfig {
            name: "  ".to_string(),
            path: "~/Shares/Links/test".to_string(),
            share: "CORE".to_string(),
            target_subpath: "".to_string(),
        }],
        ..Config::default()
    };
    let err = validate(&cfg).unwrap_err();
    assert!(err.message().contains("empty name"));
}

#[test]
fn expand_path_handles_tilde_forms() {
    assert_eq!(expand_path("~", HOME), HOME);
    assert_eq!(expand_path("~/Shares", HOME), "/home/testuser/Shares");
    assert_eq!(expand_path("/usr/local/bin", HOME), "/usr/local/bin");
    assert_eq!(expand_path("relative/path", HOME), "relative/path");
}


#[test]
fn validate_accepts_unusual_characters_in_fields() {
    let mut share = make_share("CORE");
    share.username = "multi\nline \"user\" with \\slashes".to_string();
    let cfg = Config {
        shares: vec![share],
        ..Config::default()
    };
    validate(&cfg).expect("validation judges only blank names, blank hosts and duplicates");
}
