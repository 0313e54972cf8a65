use hoc_long_tieng::file_ops::{
    generate_filename, prepare_temp_file, recording_file_name, save_outcome, save_plan,
    temp_file_for, temp_file_name, Base64Fault, FileOpError,
};

#[test]
fn temp_name_drops_leading_dots() {
    assert_eq!(temp_file_name(0, ".webm"), "hoclongtieng_temp_19700101_000000.webm");
    assert_eq!(temp_file_name(1700000000, "webm"), "hoclongtieng_temp_20231114_221320.webm");
    assert_eq!(temp_file_name(0, "..."), "hoclongtieng_temp_19700101_000000.");
}

#[test]
fn recording_name() {
    assert_eq!(recording_file_name(1700000000), "video_hoclongtieng_20231114_221320.mp4");
}

#[test]
fn recording_name_now() {
    let name = generate_filename();
    assert!(name.starts_with("video_hoclongtieng_"));
    assert!(name.ends_with(".mp4"));
    assert_eq!(name.len(), "video_hoclongtieng_".len() + 15 + ".mp4".len());
}

#[test]
fn decoded_recording_gets_a_temp_name() {
    let f = prepare_temp_file("aGVsbG8=", ".webm").ok().unwrap();
    assert_eq!(f.bytes, b"hello".to_vec());
    assert!(f.name.starts_with("hoclongtieng_temp_"));
    assert!(f.name.ends_with(".webm"));
    assert_eq!(f.name.len(), "hoclongtieng_temp_".len() + 15 + ".webm".len());
}

#[test]
fn empty_recording_decodes_to_nothing() {
    let f = prepare_temp_file("", "webm").ok().unwrap();
    assert!(f.bytes.is_empty());
}

#[test]
fn bad_symbol_is_reported() {
    match prepare_temp_file("aGV*bG8=", "webm") {
        Err(FileOpError::Decode(fault)) => {
            assert_eq!(fault, Base64Fault::InvalidByte { offset: 3, byte: 42 });
            assert_eq!(
                FileOpError::Decode(fault).message(),
                "Lỗi decode base64: Invalid symbol 42, offset 3."
            );
        }
        _ => panic!("expected a decoding fault"),
    }
}

#[test]
fn missing_padding_is_reported() {
    assert!(matches!(prepare_temp_file("aGVsbG8", "webm"), Err(FileOpError::Decode(_))));
}

#[test]
fn temp_file_from_decoded() {
    let f = temp_file_for(Ok(vec![1, 2, 3]), 0, "mp4").ok().unwrap();
    assert_eq!(f.bytes, vec![1, 2, 3]);
    assert_eq!(f.name, "hoclongtieng_temp_19700101_000000.mp4");
    assert!(matches!(
        temp_file_for(Err(Base64Fault::InvalidPadding), 0, "mp4"),
        Err(FileOpError::Decode(Base64Fault::InvalidPadding))
    ));
}

#[test]
fn fault_texts() {
    assert_eq!(Base64Fault::InvalidLength { length: 5 }.text(), "Invalid input length: 5");
    assert_eq!(
        Base64Fault::InvalidLastSymbol { offset: 10, byte: 66 }.text(),
        "Invalid last symbol 66, offset 10."
    );
    assert_eq!(Base64Fault::InvalidPadding.text(), "Invalid padding");
}

#[test]
fn file_messages() {
    assert_eq!(FileOpError::WriteTemp("full".to_string()).message(), "Không thể ghi file tạm: full");
    assert_eq!(FileOpError::Save("denied".to_string()).message(), "Không thể lưu file: denied");
    assert_eq!(
        FileOpError::DeleteTemp("busy".to_string()).message(),
        "Không thể xóa file tạm: busy"
    );
    assert_eq!(
        FileOpError::ReadInfo("gone".to_string()).message(),
        "Không thể đọc thông tin file: gone"
    );
}

#[test]
fn missing_source_is_reported_without_copying() {
    let r = save_plan(false).unwrap();
    assert!(!r.success);
    assert_eq!(r.path, None);
    assert_eq!(r.message, "File gốc không tồn tại");
    assert!(save_plan(true).is_none());
}

#[test]
fn copied_file_is_reported() {
    let r = save_outcome("/home/u/video.mp4".to_string(), None).ok().unwrap();
    assert!(r.success);
    assert_eq!(r.path, Some("/home/u/video.mp4".to_string()));
    assert_eq!(r.message, "Lưu thành công! 🎉");
}

#[test]
fn failed_copy_is_an_error() {
    match save_outcome("/x".to_string(), Some("denied".to_string())) {
        Err(e) => assert_eq!(e.message(), "Không thể lưu file: denied"),
        Ok(_) => panic!("expected an error"),
    }
}

#[test]
fn extension_with_or_without_dot() {
    assert_eq!(temp_file_name(1700000000, ".webm"), temp_file_name(1700000000, "webm"));
}
