use hoc_long_tieng::updater::{AvailableUpdate, DownloadTally, UpdateInfo, UpdaterError};

#[test]
fn newer_release_is_reported() {
    let info = UpdateInfo::from_check(
        "1.0.0".to_string(),
        Some(AvailableUpdate { version: "1.1.0".to_string(), body: Some("Fixes".to_string()) }),
    );
    assert!(info.available);
    assert_eq!(info.version, "1.1.0");
    assert_eq!(info.current_version, "1.0.0");
    assert_eq!(info.notes, "Fixes");
}

#[test]
fn release_without_notes() {
    let info = UpdateInfo::from_check(
        "1.0.0".to_string(),
        Some(AvailableUpdate { version: "2.0.0".to_string(), body: None }),
    );
    assert!(info.available);
    assert_eq!(info.notes, "");
}

#[test]
fn up_to_date() {
    let info = UpdateInfo::from_check("1.0.0".to_string(), None);
    assert!(!info.available);
    assert_eq!(info.version, "1.0.0");
    assert_eq!(info.current_version, "1.0.0");
    assert_eq!(info.notes, "");
}

#[test]
fn download_count() {
    let mut tally = DownloadTally::new();
    assert_eq!(tally.downloaded, 0);
    assert_eq!(tally.add_chunk(1000), 1000);
    assert_eq!(tally.add_chunk(24), 1024);
    assert_eq!(tally.downloaded, 1024);
}

#[test]
fn updater_messages() {
    assert_eq!(UpdaterError::Build("x".to_string()).message(), "Lỗi build updater: x");
    assert_eq!(UpdaterError::Check("offline".to_string()).message(), "Lỗi kiểm tra cập nhật: offline");
    assert_eq!(UpdaterError::Install("disk".to_string()).message(), "Lỗi cài đặt cập nhật: disk");
    assert_eq!(UpdaterError::NotFound.message(), "Không tìm thấy bản cập nhật");
}
