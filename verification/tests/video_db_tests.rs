use anitrack::db::get_databse_url;
use anitrack::video::{is_video_format, length_in_seconds, video_formats, VideoLengthError};

#[test]
fn video_formats_are_mp4_and_mkv() {
    assert_eq!(video_formats(), vec!["mp4", "mkv"]);
}

#[test]
fn video_format_is_membership() {
    assert!(is_video_format("mp4"));
    assert!(is_video_format("mkv"));
    assert!(!is_video_format("avi"));
    assert!(!is_video_format("MKV"));
    assert!(!is_video_format(""));
    for f in video_formats() {
        assert!(is_video_format(f));
    }
}

#[test]
fn length_is_whole_seconds() {
    assert_eq!(length_in_seconds(5_500_000), Ok(5));
    assert_eq!(length_in_seconds(1_440_000_000), Ok(1440));
    assert_eq!(length_in_seconds(999_999), Ok(0));
    assert_eq!(length_in_seconds(i64::MAX), Ok((i64::MAX / 1_000_000) as u64));
}

#[test]
fn no_length_without_positive_duration() {
    assert_eq!(length_in_seconds(0), Err(VideoLengthError::NoDuration));
    assert_eq!(length_in_seconds(-5), Err(VideoLengthError::NoDuration));
    assert_eq!(VideoLengthError::NoDuration.message(), "Failed to get video duration");
}

#[test]
fn database_url_joins_dir_and_file() {
    assert_eq!(get_databse_url("/home/u/.anitrack", "db.sqlite"), "sqlite:///home/u/.anitrack/db.sqlite");
    assert_eq!(get_databse_url("", "x"), "sqlite:///x");
}
