use std::path::Path;

use anitrack::video::{is_video_format, video_formats};

use std::num::IntErrorKind;

use anitrack::dir::{
    classify_entry, episode_number, file_extension, first_of, gather_scans, parse_i64,
    video_details, DirAnimeEntry, EntryAction, IntParseError, ANIME_TITLE, EPISODE_NUMBER,
};

const NUMBERS: [&str; 24] = [
    "", "+", "-", "0", "-0", "+0", "+5", "007", "42", "-42", "9223372036854775807",
    "9223372036854775808", "-9223372036854775808", "-9223372036854775809",
    "99999999999999999999999", "12a", " 1", "1 ", "--1", "+-1", "１", "1_000", "0x10",
    "00000000000000000000000000001",
];

fn kind(e: &IntErrorKind) -> IntParseError {
    match e {
        IntErrorKind::Empty => IntParseError::Empty,
        IntErrorKind::InvalidDigit => IntParseError::InvalidDigit,
        IntErrorKind::PosOverflow => IntParseError::PosOverflow,
        IntErrorKind::NegOverflow => IntParseError::NegOverflow,
        other => panic!("unexpected error kind {:?}", other),
    }
}

#[test]
fn parse_agrees_with_std() {
    for s in NUMBERS.iter().chain(["99999999999999999999x", "-99999999999999999999x", "12x99999999999999999999", "x"].iter()) {
        let expected = s.parse::<i64>().map_err(|e| kind(e.kind()));
        assert_eq!(parse_i64(s), expected, "input {:?}", s);
        if let Err(e) = s.parse::<i64>() {
            assert_eq!(parse_i64(s).unwrap_err().message(), e.to_string());
        }
    }
}

#[test]
fn episode_number_falls_back_to_minus_one() {
    assert_eq!(episode_number("01"), 1);
    assert_eq!(episode_number("12"), 12);
    assert_eq!(episode_number("-3"), -3);
    assert_eq!(episode_number("11-12"), -1);
    assert_eq!(episode_number("1.5"), -1);
    assert_eq!(episode_number(""), -1);
    assert_eq!(episode_number("9223372036854775808"), -1);
}

#[test]
fn decimal_numbers_are_read_back() {
    for n in [0i64, 1, 9, 10, 99, 12345, i64::MAX] {
        let d = n.to_string();
        assert_eq!(parse_i64(&d), Ok(n));
        assert_eq!(parse_i64(&format!("+{}", d)), Ok(n));
        assert_eq!(parse_i64(&format!("-{}", d)), Ok(-n));
        assert_eq!(episode_number(&d), n);
    }
}

#[test]
fn extension_agrees_with_path() {
    for name in [
        "a.mkv", ".mkv", "..", ".", "a.", "a.b.c", "noext", "a..b", "[Sub] Show - 01.mp4",
        "..mkv", "x.tar.gz",
    ] {
        let expected = Path::new(name).extension().map(|e| e.to_str().unwrap().to_string());
        assert_eq!(file_extension(name), expected, "name {:?}", name);
    }
}

#[test]
fn extension_of_joined_name() {
    assert_eq!(file_extension(&format!("{}.{}", "show", "mkv")), Some("mkv".to_string()));
    assert_eq!(file_extension(&format!("{}.{}", ".", "mp4")), Some("mp4".to_string()));
}

#[test]
fn first_of_takes_the_first_of_its_category() {
    let elements = vec![
        (EPISODE_NUMBER, "11".to_string()),
        (ANIME_TITLE, "Black Bullet".to_string()),
        (EPISODE_NUMBER, "12".to_string()),
    ];
    assert_eq!(first_of(&elements, EPISODE_NUMBER), Some("11".to_string()));
    assert_eq!(first_of(&elements, ANIME_TITLE), Some("Black Bullet".to_string()));
    assert_eq!(first_of(&elements, 0), None);
    assert_eq!(first_of(&Vec::new(), ANIME_TITLE), None);
}

#[test]
fn details_of_a_parse() {
    let elements = vec![(ANIME_TITLE, "Show".to_string()), (EPISODE_NUMBER, "03".to_string())];
    assert_eq!(
        video_details(true, &elements),
        EntryAction::Video { name: Some("Show".to_string()), episode: Some(3), episode_error: None }
    );
    assert_eq!(video_details(false, &elements), EntryAction::Unparsed);
    let odd = vec![(EPISODE_NUMBER, "11-12".to_string())];
    assert_eq!(
        video_details(true, &odd),
        EntryAction::Video { name: None, episode: Some(-1), episode_error: Some(IntParseError::InvalidDigit) }
    );
    assert_eq!(
        video_details(true, &Vec::new()),
        EntryAction::Video { name: None, episode: None, episode_error: None }
    );
}

#[test]
fn directories_are_descended() {
    assert_eq!(classify_entry(true, "Season 1"), EntryAction::Descend);
    assert_eq!(classify_entry(true, "movie.mkv"), EntryAction::Descend);
}

#[test]
fn other_files_are_skipped() {
    assert_eq!(classify_entry(false, "notes.txt"), EntryAction::Skip);
    assert_eq!(classify_entry(false, "cover.jpg"), EntryAction::Skip);
    assert_eq!(classify_entry(false, ".mkv"), EntryAction::Skip);
    assert_eq!(classify_entry(false, "video.MKV"), EntryAction::Skip);
}

#[test]
fn video_names_are_parsed() {
    let toradora = "[TaigaSubs]_Toradora!_(2008)_-_01v2_-_Tiger_and_Dragon_[1280x720_H.264_FLAC][1234ABCD].mkv";
    assert_eq!(
        classify_entry(false, toradora),
        EntryAction::Video { name: Some("Toradora!".to_string()), episode: Some(1), episode_error: None }
    );
    let bullet = "[異域字幕組][漆黑的子彈][Black Bullet][11-12][1280x720][繁体].mp4";
    assert_eq!(
        classify_entry(false, bullet),
        EntryAction::Video { name: Some("Black Bullet".to_string()), episode: Some(11), episode_error: None }
    );
}

fn entry(path: &str, ep: i64) -> DirAnimeEntry {
    DirAnimeEntry { path: path.to_string(), length: 1400, name: Some("Show".to_string()), episode: Some(ep) }
}

#[test]
fn gathered_scans_keep_order_and_errors() {
    let results = vec![
        Ok(vec![entry("a/1.mkv", 1), entry("a/2.mkv", 2)]),
        Err("No such file or directory".to_string()),
        Ok(vec![]),
        Ok(vec![entry("b/1.mp4", 1)]),
        Err("Permission denied".to_string()),
    ];
    let (entries, errors) = gather_scans(results);
    assert_eq!(entries, vec![entry("a/1.mkv", 1), entry("a/2.mkv", 2), entry("b/1.mp4", 1)]);
    assert_eq!(errors, vec!["No such file or directory".to_string(), "Permission denied".to_string()]);
    let (none, no_errors) = gather_scans(Vec::new());
    assert!(none.is_empty() && no_errors.is_empty());
}

#[test]
fn gathering_in_two_groups_is_gathering_once() {
    let a = vec![Ok(vec![entry("a", 1)]), Err("e1".to_string())];
    let b = vec![Err("e2".to_string()), Ok(vec![entry("b", 2), entry("c", 3)])];
    let (ea, ra) = gather_scans(a.clone());
    let (eb, rb) = gather_scans(b.clone());
    let mut all = a;
    all.extend(b);
    let (e, r) = gather_scans(all);
    assert_eq!(e, [ea, eb].concat());
    assert_eq!(r, [ra, rb].concat());
}

#[test]
fn names_with_a_video_extension_are_videos() {
    for base in ["a", "[Grp] Show - 01", ".hidden"] {
        for ext in video_formats() {
            let name = format!("{}.{}", base, ext);
            assert!(is_video_format(&file_extension(&name).unwrap()), "name {:?}", name);
        }
    }
}
