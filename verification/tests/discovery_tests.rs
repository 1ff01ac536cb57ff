use mountaineer::discovery::{
    check_share_available, discover_mounted_shares, parse_hardware_ports, parse_mount_smbfs,
    parse_smbutil_statshares, parse_smbutil_view_contains_share, split_once, ShareCheckResult,
    ViewCommandOutcome,
};

#[test]
fn parse_smbutil_view_contains_expected_share() {
    let sample = "\nShare                         Type    Comments\n-----                         ----    --------\nCORE-01                       Disk\nVAULT-R1                      Disk\n";
    assert!(parse_smbutil_view_contains_share(sample, "CORE-01"));
    assert!(parse_smbutil_view_contains_share(sample, "vault-r1"));
}

#[test]
fn parse_smbutil_view_reports_missing_share() {
    let sample = "\nShare                         Type    Comments\n-----                         ----    --------\nCORE-01                       Disk\n";
    assert!(!parse_smbutil_view_contains_share(sample, "VAULT-R1"));
}

#[test]
fn parse_mount_smbfs_reads_server_share_and_mount_point() {
    let sample = "//alice@nas.local/CORE on /Volumes/CORE (smbfs, nodev, nosuid, mounted by alice)\n//10.0.0.5/DATA on /Volumes/DATA (smbfs)\nnot a mount line\n";
    let mounts = parse_mount_smbfs(sample);
    assert_eq!(mounts.len(), 2);
    assert_eq!(
        mounts[0],
        (
            "nas.local".to_string(),
            "CORE".to_string(),
            "/Volumes/CORE".to_string()
        )
    );
    assert_eq!(
        mounts[1],
        (
            "10.0.0.5".to_string(),
            "DATA".to_string(),
            "/Volumes/DATA".to_string()
        )
    );
}

#[test]
fn parse_smbutil_statshares_reads_versions() {
    let sample = "====\nSHARE                         ATTRIBUTE TYPE                VALUE\n====\nCORE-01\n                              SMB_VERSION                   SMB_3.0.2\n----\nVAULT-R1\n                              SMB_VERSION                   SMB_3.0.2\n";
    let versions = parse_smbutil_statshares(sample);
    assert_eq!(versions.len(), 2);
    assert_eq!(
        versions[0],
        ("CORE-01".to_string(), "SMB 3.0.2".to_string())
    );
    assert_eq!(
        versions[1],
        ("VAULT-R1".to_string(), "SMB 3.0.2".to_string())
    );
}

#[test]
fn parse_hardware_ports_binds_devices_to_labels() {
    let sample = "Hardware Port: Wi-Fi\nDevice: en0\nEthernet Address: aa:bb:cc:dd:ee:ff\n\nHardware Port: Thunderbolt Ethernet\nDevice: en5\n";
    let ports = parse_hardware_ports(sample);
    assert_eq!(ports.len(), 2);
    assert_eq!(ports[0], ("en0".to_string(), "Wi-Fi".to_string()));
    assert_eq!(
        ports[1],
        ("en5".to_string(), "Thunderbolt Ethernet".to_string())
    );
}

#[test]
fn discover_mounted_shares_joins_versions_and_routes() {
    let mounts = vec![(
        "nas.local".to_string(),
        "CORE".to_string(),
        "/Volumes/CORE".to_string(),
    )];
    let versions = vec![("CORE".to_string(), "SMB 3.0.2".to_string())];
    let routes = vec![(
        "nas.local".to_string(),
        Some("en5".to_string()),
        Some("Thunderbolt Ethernet".to_string()),
    )];
    let shares = discover_mounted_shares(&mounts, &versions, &routes);
    assert_eq!(shares.len(), 1);
    assert_eq!(shares[0].server, "nas.local");
    assert_eq!(shares[0].share, "CORE");
    assert_eq!(shares[0].mount_point, "/Volumes/CORE");
    assert_eq!(shares[0].smb_version, Some("SMB 3.0.2".to_string()));
    assert_eq!(shares[0].interface, Some("en5".to_string()));
    assert_eq!(
        shares[0].interface_label,
        Some("Thunderbolt Ethernet".to_string())
    );
}

#[test]
fn check_share_available_classifies_outcomes() {
    let listing = "Share    Type    Comments\n-----    ----    --------\nCORE     Disk\n";
    let ok = ViewCommandOutcome {
        run_error: None,
        exit_ok: true,
        status_text: "Some(0)".to_string(),
        stdout: listing.to_string(),
        stderr: String::new(),
    };
    assert_eq!(check_share_available(&ok, "CORE"), ShareCheckResult::Available);
    assert_eq!(check_share_available(&ok, "MISSING"), ShareCheckResult::NotFound);

    let spawn_failed = ViewCommandOutcome {
        run_error: Some("smbutil view timed out after 2000ms".to_string()),
        exit_ok: false,
        status_text: String::new(),
        stdout: String::new(),
        stderr: String::new(),
    };
    match check_share_available(&spawn_failed, "CORE") {
        ShareCheckResult::Unknown { reason } => {
            assert_eq!(reason, "smbutil view timed out after 2000ms");
        }
        other => panic!("expected Unknown, got {:?}", other),
    }

    let bad_exit = ViewCommandOutcome {
        run_error: None,
        exit_ok: false,
        status_text: "Some(68)".to_string(),
        stdout: String::new(),
        stderr: "connection refused".to_string(),
    };
    match check_share_available(&bad_exit, "CORE") {
        ShareCheckResult::Unknown { reason } => {
            assert_eq!(reason, "smbutil view exited with Some(68): connection refused");
        }
        other => panic!("expected Unknown, got {:?}", other),
    }
}

#[test]
fn split_once_splits_at_first_occurrence() {
    let r = split_once("a on b on c", " on ").unwrap();
    assert_eq!(r.0, "a");
    assert_eq!(r.1, "b on c");
    assert!(split_once("abc", "xyz").is_none());
}
