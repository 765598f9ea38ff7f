use vstd::prelude::*;

use crate::text::same_text;

verus! {

/// The file extensions of the files that are scanned as videos.
pub open spec fn spec_video_formats() -> Seq<Seq<char>> {
    seq!["mp4"@, "mkv"@]
}

/// The file extensions of the files that are scanned as videos.
pub fn video_formats() -> (r: Vec<&'static str>)
    ensures
        r@.map_values(|e: &str| e@) == spec_video_formats(),
{
    let r = vec!["mp4", "mkv"];
    assert(r@.map_values(|e: &str| e@) =~= spec_video_formats());
    r
}

/// Whether `ext` is one of the video file extensions.
pub fn is_video_format(ext: &str) -> (r: bool)
    ensures
        r == spec_video_formats().contains(ext@),
{
    let formats = video_formats();
    let ghost views = formats@.map_values(|e: &str| e@);
    let mut i: usize = 0;
    while i < formats.len()
        invariant
            0 <= i <= formats.len(),
            views == formats@.map_values(|e: &str| e@),
            views == spec_video_formats(),
            forall|j: int| 0 <= j < i ==> views[j] != ext@,
        decreases formats.len() - i,
    {
        if same_text(formats[i], ext) {
            assert(views[i as int] == ext@);
            return true;
        }
        i = i + 1;
    }
    assert(!views.contains(ext@));
    false
}

/// The number of duration units per second in FFmpeg (`AV_TIME_BASE`).
pub const AV_TIME_BASE: i64 = 1_000_000;

/// Why a video has no length.
#[derive(Debug, Clone, Copy, PartialEq, Eq)]
pub enum VideoLengthError {
    /// The container reports no positive duration.
    NoDuration,
}

impl VideoLengthError {
    /// The text of the error.
    pub fn message(&self) -> (r: String)
        ensures
            r@ == "Failed to get video duration"@,
    {
        "Failed to get video duration".to_owned()
    }
}

/// The length in whole seconds of a video whose container reports
/// `duration` in FFmpeg's time base; an error when the duration is not
/// positive.
pub fn length_in_seconds(duration: i64) -> (r: Result<u64, VideoLengthError>)
    ensures
        duration > 0 ==> r == Ok::<u64, VideoLengthError>((duration / AV_TIME_BASE) as u64),
        duration <= 0 ==> r is Err,
{
    if duration > 0 {
        Ok((duration / AV_TIME_BASE) as u64)
    } else {
        Err(VideoLengthError::NoDuration)
    }
}

} // verus!
