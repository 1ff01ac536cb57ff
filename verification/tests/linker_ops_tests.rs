use mountaineer::config::{AliasConfig, Config, ShareConfig};
use mountaineer::linker::{plan_publish, resolve_link_target, tmp_link_name, LinkerError};
use mountaineer::ops::{
    add_alias, add_or_update_share, apply_config_set, count_aliases_for_share, ensure_has_shares,
    parse_on_off, remove_alias, remove_share, resolve_target_shares, select_shares, yes_no,
};
use mountaineer::status::{
    detect_active_backend, inspect_alias, mount_failure_error, plan_unmount, probe_backend,
    share_still_mounted, unmount_result, AliasObservation, UnmountMethod,
};
use mountaineer::Backend;

const HOME: &str = "/home/testuser";

fn make_share(name: &str) -> ShareConfig {
    ShareConfig {
        name: name.to_string(),
        username: "user".to_string(),
        thunderbolt_host: "10.0.0.1".to_string(),
        fallback_host: "192.168.1.1".to_string(),
        share_name: name.to_string(),
    }
}

fn make_alias(name: &str, share: &str) -> AliasConfig {
    AliasConfig {
        name: name.to_string(),
        path: format!("~/Shares/Links/{}", name),
        share: share.to_string(),
        target_subpath: "dev".to_string(),
    }
}

// --- Symlink publication ---

#[test]
fn publish_never_overwrites_a_non_symlink() {
    // A link path that exists and is not a symlink fails the publish.
    let r = plan_publish(true, false, "/home/u/Shares/CORE", "CORE", 123);
    match r {
        Err(LinkerError::NotASymlink { path }) => {
            assert_eq!(path, "/home/u/Shares/CORE");
        }
        other => panic!("expected NotASymlink, got {:?}", other),
    }
    // An existing symlink and a missing path both proceed.
    assert!(plan_publish(true, true, "/p", "CORE", 123).is_ok());
    assert!(plan_publish(false, false, "/p", "CORE", 123).is_ok());
}

#[test]
fn publish_uses_hidden_temporary_sibling() {
    assert_eq!(tmp_link_name("CORE", 4242), ".CORE.tmp-4242");
    assert_eq!(plan_publish(false, false, "/p", "CORE", 7).unwrap(), ".CORE.tmp-7");
}

#[test]
fn link_targets_resolve_against_parent() {
    assert_eq!(
        resolve_link_target("/Volumes/CORE", "/home/u/Shares"),
        "/Volumes/CORE"
    );
    assert_eq!(
        resolve_link_target("CORE", "/home/u/Shares"),
        "/home/u/Shares/CORE"
    );
}

// --- Status helpers ---

#[test]
fn probe_backend_ready_needs_all_three() {
    let st = probe_backend("h".into(), "/Volumes/X".into(), true, true, true, None);
    assert!(st.ready);
    let st = probe_backend("h".into(), "/Volumes/X".into(), true, false, true, None);
    assert!(!st.ready);
    let st = probe_backend("h".into(), "/Volumes/X".into(), false, true, true, None);
    assert!(!st.ready);
}

#[test]
fn mount_failure_errors_skip_benign_collisions() {
    let benign = "CORE: File exists; an error of type -5014";
    assert_eq!(mount_failure_error("CORE", Backend::Tb, benign), None);
    let fatal = "permission denied";
    assert_eq!(
        mount_failure_error("CORE", Backend::Tb, fatal),
        Some("CORE tb mount failed: permission denied".to_string())
    );
}

#[test]
fn detect_active_backend_matches_link_target() {
    let target = "/Volumes/CORE".to_string();
    assert_eq!(
        detect_active_backend(Some(&target), "/Volumes/CORE", "/Volumes/CORE-fb"),
        Some(Backend::Tb)
    );
    assert_eq!(
        detect_active_backend(Some(&target), "/Volumes/OTHER", "/Volumes/CORE"),
        Some(Backend::Fallback)
    );
    assert_eq!(
        detect_active_backend(Some(&target), "/Volumes/A", "/Volumes/B"),
        None
    );
    assert_eq!(detect_active_backend(None, "/Volumes/A", "/Volumes/B"), None);
}

#[test]
fn unmount_plan_respects_busy_and_active() {
    assert_eq!(plan_unmount(false, false, false), UnmountMethod::NotMounted);
    assert_eq!(plan_unmount(true, true, true), UnmountMethod::Busy);
    assert_eq!(plan_unmount(true, false, true), UnmountMethod::Graceful);
    assert_eq!(plan_unmount(true, false, false), UnmountMethod::Forced);
}

#[test]
fn alias_health_judgement() {
    let alias = make_alias("projects", "CORE");
    let healthy_obs = AliasObservation {
        current_target: Some("/home/u/Shares/CORE/dev".to_string()),
        target_exists: true,
        publish_error: None,
    };
    let st = inspect_alias(
        &alias,
        "/home/u/Shares/Links/projects".to_string(),
        "/home/u/Shares/CORE/dev".to_string(),
        &healthy_obs,
    );
    assert!(st.healthy);
    assert_eq!(st.message, None);

    let missing_obs = AliasObservation {
        current_target: None,
        target_exists: true,
        publish_error: None,
    };
    let st = inspect_alias(
        &alias,
        "/home/u/Shares/Links/projects".to_string(),
        "/home/u/Shares/CORE/dev".to_string(),
        &missing_obs,
    );
    assert!(!st.healthy);
    assert_eq!(
        st.message,
        Some("alias path is missing or not a symlink".to_string())
    );

    let dangling_obs = AliasObservation {
        current_target: Some("/home/u/Shares/CORE/dev".to_string()),
        target_exists: false,
        publish_error: None,
    };
    let st = inspect_alias(
        &alias,
        "/home/u/Shares/Links/projects".to_string(),
        "/home/u/Shares/CORE/dev".to_string(),
        &dangling_obs,
    );
    assert!(!st.healthy);
    assert_eq!(
        st.message,
        Some("alias target does not currently exist".to_string())
    );

    let wrong_obs = AliasObservation {
        current_target: Some("/somewhere/else".to_string()),
        target_exists: true,
        publish_error: None,
    };
    let st = inspect_alias(
        &alias,
        "/home/u/Shares/Links/projects".to_string(),
        "/home/u/Shares/CORE/dev".to_string(),
        &wrong_obs,
    );
    assert!(!st.healthy);
    assert_eq!(
        st.message,
        Some("alias points to an unexpected target".to_string())
    );
}

// --- Config operations ---

#[test]
fn add_alias_rejects_duplicates_and_unknown_shares() {
    let mut cfg = Config {
        shares: vec![make_share("CORE")],
        aliases: vec![make_alias("projects", "CORE")],
        ..Config::default()
    };
    let err = add_alias(&mut cfg, make_alias("PROJECTS", "CORE")).unwrap_err();
    assert!(err.message().contains("already exists"));
    let err = add_alias(&mut cfg, make_alias("docs", "MISSING")).unwrap_err();
    assert!(err.message().contains("is not configured"));
    assert!(add_alias(&mut cfg, make_alias("docs", "core")).is_ok());
    assert_eq!(cfg.aliases.len(), 2);
}

#[test]
fn remove_alias_returns_the_removed_declaration() {
    let mut cfg = Config {
        shares: vec![make_share("CORE")],
        aliases: vec![make_alias("projects", "CORE")],
        ..Config::default()
    };
    let removed = remove_alias(&mut cfg, "PROJECTS").unwrap();
    assert_eq!(removed.name, "projects");
    assert!(cfg.aliases.is_empty());
    let err = remove_alias(&mut cfg, "projects").unwrap_err();
    assert!(err.message().contains("was not found"));
}

#[test]
fn add_or_update_share_replaces_case_insensitively() {
    let mut cfg = Config {
        shares: vec![make_share("CORE")],
        ..Config::default()
    };
    let mut updated = make_share("core");
    updated.username = "bob".to_string();
    assert!(add_or_update_share(&mut cfg, updated));
    assert_eq!(cfg.shares.len(), 1);
    assert_eq!(cfg.shares[0].username, "bob");
    assert!(!add_or_update_share(&mut cfg, make_share("DATA")));
    assert_eq!(cfg.shares.len(), 2);
}

#[test]
fn remove_share_and_count_referencing_aliases() {
    let mut cfg = Config {
        shares: vec![make_share("CORE"), make_share("DATA")],
        aliases: vec![make_alias("a", "CORE"), make_alias("b", "core"), make_alias("c", "DATA")],
        ..Config::default()
    };
    let removed = remove_share(&mut cfg, "core").unwrap();
    assert_eq!(removed.name, "CORE");
    assert_eq!(cfg.shares.len(), 1);
    assert_eq!(count_aliases_for_share(&cfg, "CORE"), 2);
    assert_eq!(remove_share(&mut cfg, "core"), None);
}

#[test]
fn select_shares_all_or_by_name() {
    let cfg = Config {
        shares: vec![make_share("CORE"), make_share("DATA")],
        ..Config::default()
    };
    let all = select_shares(&cfg, &Vec::new()).unwrap();
    assert_eq!(all.len(), 2);
    let one = select_shares(&cfg, &vec!["data".to_string()]).unwrap();
    assert_eq!(one.len(), 1);
    assert_eq!(one[0].name, "DATA");
    let err = select_shares(&cfg, &vec!["missing".to_string()]).unwrap_err();
    assert!(err.message().contains("is not configured"));
}

#[test]
fn resolve_target_shares_all_and_single() {
    let cfg = Config {
        shares: vec![make_share("CORE"), make_share("DATA")],
        ..Config::default()
    };
    let all = resolve_target_shares(&cfg, true, &None).unwrap();
    assert_eq!(all, vec!["CORE".to_string(), "DATA".to_string()]);
    let one = resolve_target_shares(&cfg, false, &Some("core".to_string())).unwrap();
    assert_eq!(one, vec!["core".to_string()]);
    assert!(resolve_target_shares(&cfg, false, &Some("nope".to_string())).is_err());
}

#[test]
fn ensure_has_shares_checks_emptiness() {
    assert!(!ensure_has_shares(&Config::default()));
    let cfg = Config {
        shares: vec![make_share("CORE")],
        ..Config::default()
    };
    assert!(ensure_has_shares(&cfg));
}

#[test]
fn parse_on_off_values() {
    assert_eq!(parse_on_off("on"), Ok(true));
    assert_eq!(parse_on_off("TRUE"), Ok(true));
    assert_eq!(parse_on_off("1"), Ok(true));
    assert_eq!(parse_on_off("Yes"), Ok(true));
    assert_eq!(parse_on_off("off"), Ok(false));
    assert_eq!(parse_on_off("False"), Ok(false));
    assert_eq!(parse_on_off("0"), Ok(false));
    assert_eq!(parse_on_off("NO"), Ok(false));
    let err = parse_on_off("maybe").unwrap_err();
    assert!(err.contains("expected on|off"));
}

#[test]
fn yes_no_labels() {
    assert_eq!(yes_no(true), "yes");
    assert_eq!(yes_no(false), "no");
}

#[test]
fn alias_reconcile_reports_publish_failures() {
    let cfg = Config {
        shares: vec![make_share("CORE")],
        aliases: vec![make_alias("projects", "CORE")],
        ..Config::default()
    };
    let obs = vec![AliasObservation {
        current_target: None,
        target_exists: false,
        publish_error: Some("/x exists and is not a symlink".to_string()),
    }];
    let statuses = mountaineer::ops::reconcile_aliases(&cfg, HOME, &obs);
    assert_eq!(statuses.len(), 1);
    assert!(!statuses[0].healthy);
    assert_eq!(
        statuses[0].message,
        Some("/x exists and is not a symlink".to_string())
    );
    assert!(statuses[0].target.ends_with("/Shares/CORE/dev"));
}

#[test]
fn remove_alias_takes_the_first_match() {
    // two aliases whose names differ only in case (never produced by a
    // validated config, but the operation pins the first match regardless)
    let mut cfg = Config {
        shares: vec![make_share("CORE")],
        aliases: vec![make_alias("dup", "CORE"), make_alias("DUP", "CORE")],
        ..Config::default()
    };
    let removed = remove_alias(&mut cfg, "dup").unwrap();
    assert_eq!(removed.name, "dup");
    assert_eq!(cfg.aliases.len(), 1);
    assert_eq!(cfg.aliases[0].name, "DUP");
}

#[test]
fn remove_share_takes_the_first_match() {
    let mut cfg = Config {
        shares: vec![make_share("dup"), make_share("DUP")],
        ..Config::default()
    };
    let removed = remove_share(&mut cfg, "Dup").unwrap();
    assert_eq!(removed.name, "dup");
    assert_eq!(cfg.shares.len(), 1);
    assert_eq!(cfg.shares[0].name, "DUP");
}

#[test]
fn apply_config_set_updates_one_key() {
    let g = Config::default().global;
    let g2 = apply_config_set(&g, "lsof-recheck", "off").unwrap();
    assert!(!g2.lsof_recheck);
    assert_eq!(g2.check_interval_secs, g.check_interval_secs);
    assert_eq!(g2.shares_root, g.shares_root);
    let g3 = apply_config_set(&g, "auto-failback", "ON").unwrap();
    assert!(g3.auto_failback);
    let g4 = apply_config_set(&g, "check-interval", "7").unwrap();
    assert_eq!(g4.check_interval_secs, 7);
    let g5 = apply_config_set(&g, "connect-timeout", "1500").unwrap();
    assert_eq!(g5.connect_timeout_ms, 1500);
}

#[test]
fn apply_config_set_refuses_bad_input() {
    let g = Config::default().global;
    let err = apply_config_set(&g, "check-interval", "0").unwrap_err();
    assert!(err.contains("must be >= 1"));
    let err = apply_config_set(&g, "connect-timeout", "soon").unwrap_err();
    assert!(err.contains("invalid number"));
    let err = apply_config_set(&g, "verbosity", "high").unwrap_err();
    assert!(err.contains("unknown config key"));
    assert!(apply_config_set(&g, "auto-failback", "maybe").is_err());
}

#[test]
fn share_keeps_entry_while_anything_stays_mounted() {
    let ok = unmount_result(
        "CORE".to_string(),
        Backend::Tb,
        "/Volumes/CORE".to_string(),
        UnmountMethod::Graceful,
        true,
        None,
    );
    let not_mounted = unmount_result(
        "CORE".to_string(),
        Backend::Fallback,
        "/Volumes/CORE".to_string(),
        UnmountMethod::NotMounted,
        false,
        None,
    );
    let busy = unmount_result(
        "CORE".to_string(),
        Backend::Tb,
        "/Volumes/CORE".to_string(),
        UnmountMethod::Busy,
        false,
        Some("deferred: open files detected".to_string()),
    );
    let failed = unmount_result(
        "CORE".to_string(),
        Backend::Tb,
        "/Volumes/CORE".to_string(),
        UnmountMethod::Forced,
        false,
        Some("unmount failed: busy".to_string()),
    );
    assert!(!share_still_mounted(&vec![ok.clone(), not_mounted.clone()]));
    assert!(share_still_mounted(&vec![busy, not_mounted.clone()]));
    assert!(share_still_mounted(&vec![ok, failed]));
    assert!(!share_still_mounted(&vec![not_mounted]));
}
