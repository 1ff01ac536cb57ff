use mountaineer::discovery::ShareCheckResult;
use mountaineer::smb::{
    decide_missing_volumes_dir_action, mount_table_lists, smb_url, MissingVolumesDirAction,
    MountError,
};
use mountaineer::wol::{build_magic_packet, parse_mac};

#[test]
fn mount_error_display() {
    let err = MountError::MountFailed {
        stderr: "permission denied".into(),
        exit_code: Some(1),
    };
    assert_eq!(
        err.message(),
        "mount_smbfs failed (exit 1): permission denied"
    );

    let err = MountError::UnmountFailed {
        stderr: "not mounted".into(),
    };
    assert_eq!(err.message(), "unmount failed: not mounted");
}

#[test]
fn mount_error_display_unknown_exit() {
    let err = MountError::MountFailed {
        stderr: "signal".into(),
        exit_code: None,
    };
    assert_eq!(err.message(), "mount_smbfs failed (exit ?): signal");
}

#[test]
fn mount_error_display_other_variants() {
    let err = MountError::CreateMountPoint {
        path: "/mnt/x".into(),
        source: "permission denied".into(),
    };
    assert_eq!(
        err.message(),
        "failed to create mount point /mnt/x: permission denied"
    );
    let err = MountError::CommandSpawn {
        command: "mount_smbfs".into(),
        source: "not found".into(),
    };
    assert_eq!(err.message(), "failed to spawn mount_smbfs: not found");
    let err = MountError::MountFailed {
        stderr: "killed".into(),
        exit_code: Some(-9),
    };
    assert_eq!(err.message(), "mount_smbfs failed (exit -9): killed");
}

#[test]
fn missing_volumes_dir_action_for_not_found() {
    let action = decide_missing_volumes_dir_action(&ShareCheckResult::NotFound);
    assert_eq!(action, MissingVolumesDirAction::SkipNotFound);
}

#[test]
fn missing_volumes_dir_action_for_available_or_unknown() {
    let available = decide_missing_volumes_dir_action(&ShareCheckResult::Available);
    assert_eq!(available, MissingVolumesDirAction::AttemptMount);

    let unknown = decide_missing_volumes_dir_action(&ShareCheckResult::Unknown {
        reason: "timeout".to_string(),
    });
    assert_eq!(unknown, MissingVolumesDirAction::AttemptMount);
}

#[test]
fn smb_url_forms() {
    assert_eq!(smb_url("nas.local", "CORE"), "//nas.local/CORE");
}

#[test]
fn mount_table_listing() {
    let table = "//alice@nas.local/CORE on /Volumes/CORE (smbfs)\n";
    assert!(mount_table_lists(table, "/Volumes/CORE"));
    assert!(!mount_table_lists(table, "/Volumes/DATA"));
    assert!(!mount_table_lists("", "/Volumes/CORE"));
}

// --- Wake-on-LAN ---

#[test]
fn parse_mac_colon_separated() {
    let mac = parse_mac("d0:11:e5:13:af:1f").unwrap();
    assert_eq!(mac, [0xd0, 0x11, 0xe5, 0x13, 0xaf, 0x1f]);
}

#[test]
fn parse_mac_hyphen_separated() {
    let mac = parse_mac("d0-11-e5-13-af-1f").unwrap();
    assert_eq!(mac, [0xd0, 0x11, 0xe5, 0x13, 0xaf, 0x1f]);
}

#[test]
fn parse_mac_invalid() {
    assert!(parse_mac("invalid").is_err());
    assert!(parse_mac("d0:11:e5:13:af").is_err()); // too few
    assert!(parse_mac("d0:11:e5:13:af:1f:00").is_err()); // too many
    assert!(parse_mac("zz:11:e5:13:af:1f").is_err()); // bad hex
}

#[test]
fn magic_packet_structure() {
    let mac: Vec<u8> = vec![0xd0, 0x11, 0xe5, 0x13, 0xaf, 0x1f];
    let packet = build_magic_packet(&mac);

    // First 6 bytes are 0xFF
    assert_eq!(&packet[0..6], &[0xFF; 6]);

    // MAC repeated 16 times
    for i in 0..16 {
        let offset = 6 + i * 6;
        assert_eq!(&packet[offset..offset + 6], &mac[..]);
    }

    assert_eq!(packet.len(), 102);
}
