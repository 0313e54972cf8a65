use hoc_long_tieng::convert::{
    capture_duration, capture_progress_time, clock_fields, ffmpeg_convert_args,
    format_minutes_seconds, read_stderr_chunk, termination_report, termination_result, ConvertError,
    ConvertStatus,
};

#[test]
fn convert_arguments() {
    let args = ffmpeg_convert_args("/tmp/in.webm", "/tmp/out.mp4");
    assert_eq!(
        args,
        vec![
            "-i", "/tmp/in.webm", "-vcodec", "libx264", "-crf", "28", "-preset", "medium",
            "-acodec", "aac", "-movflags", "+faststart", "-y", "/tmp/out.mp4",
        ]
    );
}

#[test]
fn duration_line() {
    let line = "  Duration: 00:01:05.32, start: 0.000000, bitrate: 1024 kb/s";
    assert_eq!(capture_duration(line), Some("00:01:05.32".to_string()));
    assert_eq!(capture_progress_time(line), None);
}

#[test]
fn progress_line() {
    let line = "frame=  120 fps= 30 q=28.0 size=     256kB time=00:00:04.00 bitrate= 524.3kbits/s";
    assert_eq!(capture_progress_time(line), Some("00:00:04.00".to_string()));
    assert_eq!(capture_duration(line), None);
}

#[test]
fn duration_not_available() {
    assert_eq!(capture_duration("  Duration: N/A, bitrate: N/A"), None);
}

#[test]
fn clock_reading_fields() {
    assert_eq!(
        clock_fields(" 00:01:02.50 "),
        Some(("00".to_string(), "01".to_string(), "02.50".to_string()))
    );
    assert_eq!(clock_fields("01:02"), None);
    assert_eq!(clock_fields("1:2:3:4"), None);
    assert_eq!(clock_fields("::"), Some((String::new(), String::new(), String::new())));
}

#[test]
fn minutes_and_seconds() {
    assert_eq!(format_minutes_seconds(0), "00:00");
    assert_eq!(format_minutes_seconds(59), "00:59");
    assert_eq!(format_minutes_seconds(65), "01:05");
    assert_eq!(format_minutes_seconds(6000), "100:00");
}

#[test]
fn status_labels() {
    assert_eq!(ConvertStatus::Converting.label(), "converting");
    assert_eq!(ConvertStatus::Done.label(), "done");
    assert_eq!(ConvertStatus::Error.label(), "error");
}

#[test]
fn termination() {
    assert_eq!(
        termination_result(Some(0), "/tmp/out.mp4".to_string()).ok(),
        Some("/tmp/out.mp4".to_string())
    );
    assert!(matches!(
        termination_result(Some(1), "/tmp/out.mp4".to_string()),
        Err(ConvertError::ConversionFailed)
    ));
    assert!(matches!(
        termination_result(None, "/tmp/out.mp4".to_string()),
        Err(ConvertError::ConversionFailed)
    ));
}

#[test]
fn convert_messages() {
    assert_eq!(
        ConvertError::SidecarMissing("not found".to_string()).message(),
        "Không tìm thấy FFmpeg: not found"
    );
    assert_eq!(
        ConvertError::SpawnFailed("denied".to_string()).message(),
        "Không thể khởi động FFmpeg: denied"
    );
    assert_eq!(
        ConvertError::ConversionFailed.message(),
        "FFmpeg chuyển đổi thất bại. Vui lòng thử lại."
    );
    assert_eq!(ConvertError::ProcessError("boom".to_string()).message(), "Lỗi FFmpeg: boom");
    assert_eq!(ConvertError::EndedUnexpectedly.message(), "FFmpeg kết thúc bất ngờ");
}

#[test]
fn clock_fields_rebuild_the_reading() {
    let (h, m, s) = clock_fields("\t12:34:56.78 ").unwrap();
    assert_eq!(format!("{}:{}:{}", h, m, s), "12:34:56.78");
}

#[test]
fn stderr_chunk_readings() {
    let r = read_stderr_chunk(b"  Duration: 00:00:10.00, start: 0.0\nframe=1 time=00:00:02.50 bitrate=1");
    assert_eq!(r.duration, Some("00:00:10.00".to_string()));
    assert_eq!(r.position, Some("00:00:02.50".to_string()));
}

#[test]
fn stderr_chunk_with_invalid_utf8() {
    let mut bytes = vec![0xff, 0xfe];
    bytes.extend_from_slice(b" time=00:01:00.00 ");
    let r = read_stderr_chunk(&bytes);
    assert_eq!(r.duration, None);
    assert_eq!(r.position, Some("00:01:00.00".to_string()));
}

#[test]
fn successful_exit_report() {
    let r = termination_report(Some(0), "/tmp/out.mp4".to_string(), "01:05".to_string());
    assert_eq!(r.outcome.ok(), Some("/tmp/out.mp4".to_string()));
    assert_eq!(r.status, ConvertStatus::Done);
    assert_eq!(r.current_time, "01:05");
    assert_eq!(r.total_time, "01:05");
}

#[test]
fn failed_exit_report() {
    let r = termination_report(Some(1), "/tmp/out.mp4".to_string(), "01:05".to_string());
    assert!(matches!(r.outcome, Err(ConvertError::ConversionFailed)));
    assert_eq!(r.status, ConvertStatus::Error);
    assert_eq!(r.current_time, "00:00");
    assert_eq!(r.total_time, "01:05");
}
