use getcat::update::{
    asset_pattern_for, can_install, hint_version, install_kind_for, launch_check_enabled,
    minisign_public_key, status_line, AppSettings, InstallKind, UpdateStatus, LAUNCH_CHECK_DELAY,
    RELEASES_URL, REPO_NAME, REPO_OWNER,
};

#[test]
fn asset_pattern_matches_release_naming() {
    assert_eq!(
        asset_pattern_for("macos", "aarch64"),
        Some("macos-arm64.dmg")
    );
    assert_eq!(asset_pattern_for("macos", "x86_64"), Some("macos-x64.dmg"));
    assert_eq!(
        asset_pattern_for("linux", "x86_64"),
        Some("linux-x64.tar.gz")
    );
    assert_eq!(
        asset_pattern_for("windows", "x86_64"),
        Some("windows-x64.exe")
    );
    assert_eq!(asset_pattern_for("linux", "aarch64"), None);
    assert_eq!(asset_pattern_for("freebsd", "x86_64"), None);
}

#[test]
fn public_key_is_embedded() {
    let key = minisign_public_key("untrusted comment: minisign public key\nRWQf6LRCGA9i5\n");
    assert!(key.starts_with("RW"), "{key:?}");
    assert!(!key.contains(' '));
}

#[test]
fn debug_builds_are_dev_builds() {
    for macos in [false, true] {
        for root in [None, Some("/Applications/GetCat.app")] {
            assert_eq!(install_kind_for(true, macos, root), InstallKind::DevBuild);
        }
    }
}

#[test]
fn the_key_is_the_first_plain_line_of_its_file() {
    let file = "untrusted comment: minisign public key 0123\n  RWabc+/=  \r\nRWother\n";
    assert_eq!(minisign_public_key(file), "RWabc+/=");
    assert_eq!(minisign_public_key("\n\n \nRWx"), "RWx");
    assert_eq!(minisign_public_key("untrusted comment: only\n"), "");
    assert_eq!(minisign_public_key(""), "");
}

#[test]
fn hint_only_for_available_and_staged() {
    let v = "1.2.3".to_string();
    assert_eq!(
        hint_version(&UpdateStatus::Available(v.clone())),
        Some((&v, false))
    );
    assert_eq!(
        hint_version(&UpdateStatus::Staged(v.clone())),
        Some((&v, true))
    );
    for s in [
        UpdateStatus::Idle,
        UpdateStatus::Checking,
        UpdateStatus::UpToDate,
        UpdateStatus::Downloading {
            downloaded: 1,
            total: None,
        },
        UpdateStatus::Installing,
        UpdateStatus::Errored("x".into()),
    ] {
        assert_eq!(hint_version(&s), None, "{s:?}");
    }
}

#[test]
fn status_lines() {
    let v = "2.0.0".to_string();
    assert_eq!(
        status_line(&UpdateStatus::Idle, "0.1.0"),
        "Not checked yet (current v0.1.0)"
    );
    assert_eq!(
        status_line(&UpdateStatus::Checking, "0.1.0"),
        "Checking for updates…"
    );
    assert_eq!(
        status_line(&UpdateStatus::UpToDate, "0.1.0"),
        "Up to date (v0.1.0)"
    );
    assert_eq!(
        status_line(&UpdateStatus::Available(v.clone()), "0.1.0"),
        "v2.0.0 is available"
    );
    assert_eq!(
        status_line(
            &UpdateStatus::Downloading {
                downloaded: 1_572_864,
                total: Some(3_145_728),
            },
            "0.1.0"
        ),
        "Downloading 1.5 MB / 3.0 MB"
    );
    assert_eq!(
        status_line(
            &UpdateStatus::Downloading {
                downloaded: 1_048_576,
                total: None,
            },
            "0.1.0"
        ),
        "Downloaded 1.0 MB"
    );
    assert_eq!(
        status_line(&UpdateStatus::Installing, "0.1.0"),
        "Installing…"
    );
    assert_eq!(
        status_line(&UpdateStatus::Staged(v), "0.1.0"),
        "v2.0.0 installed; restart to apply"
    );
    assert_eq!(
        status_line(
            &UpdateStatus::Errored("http error: offline".into()),
            "0.1.0"
        ),
        "Update failed: http error: offline"
    );
}

#[test]
fn launch_check_requires_setting_and_real_install() {
    let on = AppSettings {
        check_updates_on_launch: true,
        ..Default::default()
    };
    let off = AppSettings {
        check_updates_on_launch: false,
        ..Default::default()
    };
    assert!(launch_check_enabled(&on, InstallKind::Installed, false));
    assert!(!launch_check_enabled(&on, InstallKind::DevBuild, false));
    assert!(!launch_check_enabled(&on, InstallKind::Translocated, false));
    assert!(launch_check_enabled(&on, InstallKind::DevBuild, true));
    assert!(!launch_check_enabled(&off, InstallKind::Installed, false));
    assert!(!launch_check_enabled(&off, InstallKind::DevBuild, true));
}

#[test]
fn the_bundle_tells_how_the_program_was_installed() {
    let app = "/Applications/GetCat.app";
    assert_eq!(install_kind_for(true, false, None), InstallKind::DevBuild);
    assert_eq!(install_kind_for(true, true, Some(app)), InstallKind::DevBuild);
    assert_eq!(install_kind_for(false, false, None), InstallKind::Installed);
    assert_eq!(install_kind_for(false, true, Some(app)), InstallKind::Installed);
    assert_eq!(
        install_kind_for(false, true, Some("/Applications/GetCat.app/")),
        InstallKind::Installed
    );
    assert_eq!(install_kind_for(false, true, None), InstallKind::DevBuild);
    assert_eq!(
        install_kind_for(false, true, Some("/usr/local/bin/getcat")),
        InstallKind::DevBuild
    );
    assert_eq!(
        install_kind_for(
            false,
            true,
            Some("/private/var/folders/x/AppTranslocation/1/d/GetCat.app")
        ),
        InstallKind::Translocated
    );
}

#[test]
fn only_an_installed_program_installs_an_available_version() {
    let new = UpdateStatus::Available("2.0.0".into());
    assert!(can_install(InstallKind::Installed, &new));
    assert!(!can_install(InstallKind::DevBuild, &new));
    assert!(!can_install(InstallKind::Translocated, &new));
    assert!(!can_install(InstallKind::Installed, &UpdateStatus::default()));
    assert!(RELEASES_URL.contains(REPO_OWNER) && RELEASES_URL.contains(REPO_NAME));
    assert_eq!(LAUNCH_CHECK_DELAY, 5000);
}

#[test]
fn dev_builds_can_check_but_not_install() {
    let found = UpdateStatus::Available("99.0.0".into());
    assert!(hint_version(&found).is_some());
    assert!(!can_install(InstallKind::DevBuild, &found));
}
