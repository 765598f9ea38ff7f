use vstd::prelude::*;

use anitomy::Anitomy;

use crate::text::{chars_of, string_of};
use crate::video::{is_video_format, spec_video_formats};

verus! {

/// Whether every character of `d` is an ASCII digit.
pub open spec fn all_digits(d: Seq<char>) -> bool {
    forall|i: int| 0 <= i < d.len() ==> '0' <= #[trigger] d[i] <= '9'
}

/// The number that the decimal digits `d` spell.
pub open spec fn digits_value(d: Seq<char>) -> int
    decreases d.len(),
{
    if d.len() == 0 {
        0
    } else {
        digits_value(d.drop_last()) * 10 + (d.last() as int - '0' as int)
    }
}

/// Why a text is not a decimal `i64` (the kinds of `std::num::IntErrorKind`
/// that parsing an `i64` can give).
#[derive(Debug, Clone, Copy, PartialEq, Eq)]
pub enum IntParseError {
    /// The text is empty.
    Empty,
    /// The text holds a character that is not a digit where a digit belongs.
    InvalidDigit,
    /// The number is above `i64::MAX`.
    PosOverflow,
    /// The number is below `i64::MIN`.
    NegOverflow,
}

impl IntParseError {
    /// The text of the error, as std words it.
    pub fn message(&self) -> (r: &'static str)
        ensures
            r@ == match self {
                IntParseError::Empty => "cannot parse integer from empty string"@,
                IntParseError::InvalidDigit => "invalid digit found in string"@,
                IntParseError::PosOverflow => "number too large to fit in target type"@,
                IntParseError::NegOverflow => "number too small to fit in target type"@,
            },
    {
        match self {
            IntParseError::Empty => "cannot parse integer from empty string",
            IntParseError::InvalidDigit => "invalid digit found in string",
            IntParseError::PosOverflow => "number too large to fit in target type",
            IntParseError::NegOverflow => "number too small to fit in target type",
        }
    }
}

/// Whether `c` is an ASCII digit.
pub open spec fn is_digit(c: char) -> bool {
    '0' <= c <= '9'
}

/// The number of ASCII digits at the start of `d`.
pub open spec fn digit_run(d: Seq<char>) -> int
    decreases d.len(),
{
    if d.len() > 0 && is_digit(d[0]) {
        1 + digit_run(d.drop_first())
    } else {
        0
    }
}

/// What `str::parse::<i64>` makes of `s`, reading it from the left: an
/// optional `+` or `-` sign, then digits. The empty text is `Empty`, a lone
/// sign `InvalidDigit`. Otherwise, if the value of the digits before the
/// first non-digit lies outside the `i64` range, the number overflows there
/// (`PosOverflow` or `NegOverflow` by the sign); else a non-digit is
/// `InvalidDigit`; else the value.
pub open spec fn spec_parse_i64_result(s: Seq<char>) -> Result<int, IntParseError> {
    let neg = s.len() > 0 && s[0] == '-';
    let signed = s.len() > 0 && (s[0] == '-' || s[0] == '+');
    let d = if signed {
        s.drop_first()
    } else {
        s
    };
    if s.len() == 0 {
        Err(IntParseError::Empty)
    } else if d.len() == 0 {
        Err(IntParseError::InvalidDigit)
    } else {
        let b = digit_run(d);
        let v = if neg {
            -digits_value(d.take(b))
        } else {
            digits_value(d.take(b))
        };
        if v > i64::MAX {
            Err(IntParseError::PosOverflow)
        } else if v < i64::MIN {
            Err(IntParseError::NegOverflow)
        } else if b < d.len() {
            Err(IntParseError::InvalidDigit)
        } else {
            Ok(v)
        }
    }
}

/// The value that `str::parse::<i64>` reads from `s`, if it reads one.
pub open spec fn spec_parse_i64(s: Seq<char>) -> Option<int> {
    match spec_parse_i64_result(s) {
        Ok(v) => Some(v),
        Err(_) => None,
    }
}

proof fn lemma_digit_run(d: Seq<char>, k: int)
    requires
        0 <= k <= d.len(),
        forall|j: int| 0 <= j < k ==> is_digit(#[trigger] d[j]),
        k < d.len() ==> !is_digit(d[k]),
    ensures
        digit_run(d) == k,
    decreases k,
{
    if k > 0 {
        lemma_digit_run(d.drop_first(), k - 1);
    }
}

proof fn lemma_digits_value_nonneg(d: Seq<char>)
    requires
        all_digits(d),
    ensures
        digits_value(d) >= 0,
    decreases d.len(),
{
    if d.len() > 0 {
        assert(all_digits(d.drop_last()));
        lemma_digits_value_nonneg(d.drop_last());
        assert('0' <= d[d.len() - 1] <= '9');
    }
}

/// Parses a decimal `i64` the way `str::parse::<i64>` does, with the same
/// error.
pub fn parse_i64(s: &str) -> (r: Result<i64, IntParseError>)
    ensures
        match spec_parse_i64_result(s@) {
            Ok(v) => r == Ok::<i64, IntParseError>(v as i64),
            Err(e) => r == Err::<i64, IntParseError>(e),
        },
{
    let cs = chars_of(s);
    let n = cs.len();
    if n == 0 {
        return Err(IntParseError::Empty);
    }
    let neg = cs[0] == '-';
    let signed = cs[0] == '-' || cs[0] == '+';
    let start: usize = if signed {
        1
    } else {
        0
    };
    let ghost d = if signed {
        cs@.drop_first()
    } else {
        cs@
    };
    assert(d =~= cs@.skip(start as int));
    if start == n {
        assert(d.len() == 0);
        return Err(IntParseError::InvalidDigit);
    }
    // `acc` is the value of the digits read so far, until it exceeds 2^63;
    // from then on the digits are only counted.
    let mut acc: u64 = 0;
    let mut big = false;
    let mut i: usize = start;
    while i < n && '0' <= cs[i] && cs[i] <= '9'
        invariant
            start <= i <= n,
            n == cs@.len(),
            d =~= cs@.skip(start as int),
            forall|j: int| 0 <= j < i - start ==> is_digit(#[trigger] d[j]),
            all_digits(d.take(i - start)),
            !big ==> acc == digits_value(d.take(i - start)),
            !big ==> acc <= 0x8000_0000_0000_0000,
            big ==> digits_value(d.take(i - start)) > 0x8000_0000_0000_0000,
        decreases n - i,
    {
        let c = cs[i];
        let ghost prev = d.take(i - start);
        assert(d.take(i + 1 - start).drop_last() =~= prev);
        assert(d.take(i + 1 - start).last() == c);
        assert(d[i - start] == c);
        assert(all_digits(d.take(i + 1 - start)));
        proof {
            lemma_digits_value_nonneg(prev);
        }
        let digit = (c as u32 - '0' as u32) as u64;
        if !big {
            if acc <= (0x8000_0000_0000_0000u64 - digit) / 10 {
                acc = acc * 10 + digit;
            } else {
                big = true;
            }
        }
        i = i + 1;
    }
    proof {
        if i < n {
            assert(d[i - start] == cs@[i as int]);
        }
        lemma_digit_run(d, i - start);
    }
    if big {
        if neg {
            return Err(IntParseError::NegOverflow);
        } else {
            return Err(IntParseError::PosOverflow);
        }
    }
    if !neg && acc > 0x7fff_ffff_ffff_ffff {
        return Err(IntParseError::PosOverflow);
    }
    if i < n {
        return Err(IntParseError::InvalidDigit);
    }
    assert(d.take(n - start) =~= d);
    if neg {
        if acc == 0x8000_0000_0000_0000 {
            Ok(i64::MIN)
        } else {
            Ok(0 - (acc as i64))
        }
    } else {
        Ok(acc as i64)
    }
}

/// The episode number that a parsed episode string stands for: its value, or
/// -1 when it is not a decimal `i64`.
pub fn episode_number(s: &str) -> (r: i64)
    ensures
        match spec_parse_i64(s@) {
            Some(v) => r == v,
            None => r == -1,
        },
{
    match parse_i64(s) {
        Ok(v) => v,
        Err(_) => -1,
    }
}

/// The position of the last `'.'` in `s`, or -1 when there is none.
pub open spec fn last_dot(s: Seq<char>) -> int
    decreases s.len(),
{
    if s.len() == 0 {
        -1
    } else if s.last() == '.' {
        s.len() - 1
    } else {
        last_dot(s.drop_last())
    }
}

/// The extension of a file name, as `Path::extension` gives it: what follows
/// the last `'.'`, unless there is no `'.'`, the only `'.'` starts the name,
/// or the name is `".."`.
pub open spec fn spec_extension(name: Seq<char>) -> Option<Seq<char>> {
    if name == ".."@ || last_dot(name) <= 0 {
        None
    } else {
        Some(name.skip(last_dot(name) + 1))
    }
}

proof fn lemma_last_dot(s: Seq<char>, k: int)
    requires
        -1 <= k < s.len(),
        forall|j: int| k < j < s.len() ==> s[j] != '.',
        k >= 0 ==> s[k] == '.',
    ensures
        last_dot(s) == k,
    decreases s.len(),
{
    if s.len() > 0 && k < s.len() - 1 {
        lemma_last_dot(s.drop_last(), k);
    }
}

/// The extension of a file name (see `spec_extension`).
pub fn file_extension(name: &str) -> (r: Option<String>)
    ensures
        r is Some == spec_extension(name@) is Some,
        r matches Some(e) ==> e@ == spec_extension(name@)->0,
{
    proof {
        reveal_strlit("..");
    }
    let cs = chars_of(name);
    let n = cs.len();
    if n == 2 && cs[0] == '.' && cs[1] == '.' {
        assert(cs@ =~= ".."@);
        return None;
    }
    let mut k: usize = n;
    while k > 0 && cs[k - 1] != '.'
        invariant
            0 <= k <= n,
            n == cs@.len(),
            forall|j: int| k <= j < n ==> cs@[j] != '.',
        decreases k,
    {
        k = k - 1;
    }
    proof {
        lemma_last_dot(cs@, k - 1);
    }
    if k <= 1 {
        return None;
    }
    let mut ext: Vec<char> = Vec::new();
    let mut i: usize = k;
    while i < n
        invariant
            k <= i <= n,
            n == cs@.len(),
            ext@ == cs@.subrange(k as int, i as int),
        decreases n - i,
    {
        ext.push(cs[i]);
        assert(cs@.subrange(k as int, i as int).push(cs@[i as int]) =~= cs@.subrange(
            k as int,
            i + 1,
        ));
        i = i + 1;
    }
    assert(ext@ =~= cs@.skip(k as int));
    Some(string_of(&ext))
}

/// The category code of an anime title among the elements that Anitomy
/// reports (its `ElementCategory::AnimeTitle`).
pub const ANIME_TITLE: u32 = 2;

/// The category code of an episode number among the elements that Anitomy
/// reports (its `ElementCategory::EpisodeNumber`).
pub const EPISODE_NUMBER: u32 = 7;

/// The category codes and values of a list of parsed elements.
pub open spec fn element_views(elements: Seq<(u32, String)>) -> Seq<(u32, Seq<char>)> {
    elements.map_values(|e: (u32, String)| (e.0, e.1@))
}

/// The value of the first element of category `category`, as
/// `Elements::get` of Anitomy gives it.
pub open spec fn spec_first_of(elements: Seq<(u32, Seq<char>)>, category: u32) -> Option<
    Seq<char>,
>
    decreases elements.len(),
{
    if elements.len() == 0 {
        None
    } else if elements[0].0 == category {
        Some(elements[0].1)
    } else {
        spec_first_of(elements.drop_first(), category)
    }
}

/// The value of the first element of category `category`.
pub fn first_of(elements: &Vec<(u32, String)>, category: u32) -> (r: Option<String>)
    ensures
        r is Some == spec_first_of(element_views(elements@), category) is Some,
        r matches Some(v) ==> v@ == spec_first_of(element_views(elements@), category)->0,
{
    let ghost all = element_views(elements@);
    let mut i: usize = 0;
    assert(all.skip(0) =~= all);
    while i < elements.len()
        invariant
            0 <= i <= elements.len(),
            all == element_views(elements@),
            spec_first_of(all, category) == spec_first_of(all.skip(i as int), category),
        decreases elements.len() - i,
    {
        assert(all.skip(i as int)[0] == (elements@[i as int].0, elements@[i as int].1@));
        if elements[i].0 == category {
            return Some(elements[i].1.clone());
        }
        assert(all.skip(i as int).drop_first() =~= all.skip(i + 1));
        i = i + 1;
    }
    None
}

/// Whether Anitomy, parsing this file name (in some C locale), can report
/// this success flag and these elements.
pub uninterp spec fn anitomy_gives(
    file_name: Seq<char>,
    parsed: bool,
    elements: Seq<(u32, Seq<char>)>,
) -> bool;

/// `Anitomy::parse` of a fresh parser with the default options: whether
/// Anitomy counts the parse as a success, and the elements it found, in its
/// order, each as its `ElementCategory` taken as a code and its value.
/// Claimed: what comes back is something that Anitomy can give for this
/// file name (`anitomy_gives`); which it is, is not claimed, since Anitomy
/// upper-cases words through the C library's locale-dependent `towupper`,
/// so the result is not a function of the file name alone. The parser
/// panics on a name holding a NUL character, which `requires` leaves out.
#[verifier::external_body]
fn anitomy_parse(file_name: &str) -> (r: (bool, Vec<(u32, String)>))
    requires
        !file_name@.contains('\0'),
    ensures
        anitomy_gives(file_name@, r.0, element_views(r.1@)),
{
    let (ok, elements) = match Anitomy::new().parse(file_name) {
        Ok(elements) => (true, elements),
        Err(elements) => (false, elements),
    };
    (ok, elements.iter().map(|e| (e.category as u32, e.value.clone())).collect())
}

/// A video file that the scan found.
#[derive(Debug, Clone, PartialEq, Eq)]
pub struct DirAnimeEntry {
    /// The path of the file.
    pub path: String,
    /// The length of the video in seconds.
    pub length: u64,
    /// The anime title that the file name gives, if any.
    pub name: Option<String>,
    /// The episode number that the file name gives, if any (-1 when it is
    /// not a decimal number).
    pub episode: Option<i64>,
}

/// What the scan does with one directory entry.
#[derive(Debug, Clone, PartialEq, Eq)]
pub enum EntryAction {
    /// The entry is a directory: scan it as well.
    Descend,
    /// The entry is not a video file by its extension: pass over it.
    Skip,
    /// A video file whose name Anitomy could not parse: report it and pass
    /// over it.
    Unparsed,
    /// A video file, with the title and episode number that its name gives,
    /// and why the episode text is not a number when it is not (the episode
    /// number is then -1).
    Video {
        name: Option<String>,
        episode: Option<i64>,
        episode_error: Option<IntParseError>,
    },
}

/// The characters of an optional string.
pub open spec fn opt_view(o: Option<String>) -> Option<Seq<char>> {
    match o {
        Some(s) => Some(s@),
        None => None,
    }
}

/// The episode number that a parsed episode string stands for.
pub open spec fn spec_episode_number(s: Seq<char>) -> int {
    match spec_parse_i64(s) {
        Some(v) => v,
        None => -1,
    }
}

/// Whether a file name has one of the video extensions.
pub open spec fn spec_is_video_name(file_name: Seq<char>) -> bool {
    spec_extension(file_name) matches Some(e) && spec_video_formats().contains(e)
}

/// Whether `r` is what a parse with success flag `parsed` and elements
/// `elements` makes of a video file: `Unparsed` for a failed parse, else the
/// first anime title and the first episode number, the latter read as a
/// decimal number (-1, with the reason, when it is not one).
pub open spec fn details_match(parsed: bool, elements: Seq<(u32, Seq<char>)>, r: EntryAction) -> bool {
    if parsed {
        &&& r matches EntryAction::Video { name, episode, episode_error }
        &&& opt_view(name) == spec_first_of(elements, ANIME_TITLE)
        &&& episode == match spec_first_of(elements, EPISODE_NUMBER) {
            Some(e) => Some(spec_episode_number(e) as i64),
            None => None,
        }
        &&& episode_error == match spec_first_of(elements, EPISODE_NUMBER) {
            Some(e) => match spec_parse_i64_result(e) {
                Ok(_) => None,
                Err(k) => Some(k),
            },
            None => None,
        }
    } else {
        r is Unparsed
    }
}

/// What a video file's entry becomes, given what Anitomy made of its name.
pub fn video_details(parsed: bool, elements: &Vec<(u32, String)>) -> (r: EntryAction)
    ensures
        details_match(parsed, element_views(elements@), r),
{
    if !parsed {
        return EntryAction::Unparsed;
    }
    let name = first_of(elements, ANIME_TITLE);
    let (episode, episode_error) = match first_of(elements, EPISODE_NUMBER) {
        Some(e) => match parse_i64(e.as_str()) {
            Ok(v) => (Some(v), None),
            Err(k) => (Some(-1i64), Some(k)),
        },
        None => (None, None),
    };
    EntryAction::Video { name, episode, episode_error }
}

/// Decides what the scan does with a directory entry: directories are
/// scanned too, files without a video extension are passed over, and the
/// name of a video file is handed to Anitomy unchanged; what Anitomy makes
/// of it is turned into the entry by `video_details`.
pub fn classify_entry(is_dir: bool, file_name: &str) -> (r: EntryAction)
    requires
        !is_dir && spec_is_video_name(file_name@) ==> !file_name@.contains('\0'),
    ensures
        is_dir ==> r is Descend,
        !is_dir && !spec_is_video_name(file_name@) ==> r is Skip,
        !is_dir && spec_is_video_name(file_name@) ==> (r is Unparsed || r is Video),
        !is_dir && spec_is_video_name(file_name@) ==> exists|
            parsed: bool,
            elements: Seq<(u32, Seq<char>)>,
        |
            #[trigger] anitomy_gives(file_name@, parsed, elements) && details_match(
                parsed,
                elements,
                r,
            ),
{
    if is_dir {
        return EntryAction::Descend;
    }
    let video = match file_extension(file_name) {
        Some(ext) => is_video_format(ext.as_str()),
        None => false,
    };
    if !video {
        return EntryAction::Skip;
    }
    let (parsed, elements) = anitomy_parse(file_name);
    let r = video_details(parsed, &elements);
    assert(anitomy_gives(file_name@, parsed, element_views(elements@)) && details_match(
        parsed,
        element_views(elements@),
        r,
    ));
    r
}

/// The entries of the successful scans, in order.
pub open spec fn spec_scanned(results: Seq<Result<Vec<DirAnimeEntry>, String>>) -> Seq<
    DirAnimeEntry,
>
    decreases results.len(),
{
    if results.len() == 0 {
        Seq::empty()
    } else {
        match results[0] {
            Ok(v) => v@ + spec_scanned(results.drop_first()),
            Err(_) => spec_scanned(results.drop_first()),
        }
    }
}

/// The errors of the failed scans, in order.
pub open spec fn spec_scan_errors(results: Seq<Result<Vec<DirAnimeEntry>, String>>) -> Seq<String>
    decreases results.len(),
{
    if results.len() == 0 {
        Seq::empty()
    } else {
        match results[0] {
            Ok(_) => spec_scan_errors(results.drop_first()),
            Err(e) => seq![e] + spec_scan_errors(results.drop_first()),
        }
    }
}

/// Puts together the scans of the library directories: the entries of the
/// successful scans, in order, and the errors of the others, to be
/// reported.
pub fn gather_scans(results: Vec<Result<Vec<DirAnimeEntry>, String>>) -> (r: (
    Vec<DirAnimeEntry>,
    Vec<String>,
))
    ensures
        r.0@ == spec_scanned(results@),
        r.1@ == spec_scan_errors(results@),
{
    let mut rest = results;
    let mut entries: Vec<DirAnimeEntry> = Vec::new();
    let mut errors: Vec<String> = Vec::new();
    while rest.len() > 0
        invariant
            spec_scanned(results@) == entries@ + spec_scanned(rest@),
            spec_scan_errors(results@) == errors@ + spec_scan_errors(rest@),
        decreases rest.len(),
    {
        let ghost before = rest@;
        let ghost old_entries = entries@;
        let ghost old_errors = errors@;
        let first = rest.remove(0);
        assert(rest@ =~= before.drop_first());
        match first {
            Ok(mut found) => {
                let ghost found_view = found@;
                entries.append(&mut found);
                assert(old_entries + (found_view + spec_scanned(rest@)) =~= entries@ + spec_scanned(
                    rest@,
                ));
                assert(old_errors + spec_scan_errors(rest@) == errors@ + spec_scan_errors(rest@));
            },
            Err(e) => {
                errors.push(e);
                assert(old_errors + (seq![e] + spec_scan_errors(rest@)) =~= errors@
                    + spec_scan_errors(rest@));
            },
        }
    }
    assert(entries@ + Seq::<DirAnimeEntry>::empty() =~= entries@);
    assert(errors@ + Seq::<String>::empty() =~= errors@);
    (entries, errors)
}

/// The decimal digits of `n`, without leading zeros.
pub open spec fn decimal(n: nat) -> Seq<char>
    decreases n,
{
    if n < 10 {
        seq![((n + 48) as u32) as char]
    } else {
        decimal(n / 10).push((((n % 10) + 48) as u32) as char)
    }
}

proof fn lemma_decimal(n: nat)
    ensures
        all_digits(decimal(n)),
        digits_value(decimal(n)) == n,
        decimal(n).len() > 0,
        decimal(n)[0] != '-' && decimal(n)[0] != '+',
    decreases n,
{
    if n >= 10 {
        lemma_decimal(n / 10);
        let d = decimal(n);
        assert(d.drop_last() =~= decimal(n / 10));
        assert(d[0] == decimal(n / 10)[0]);
        assert(d.last() as int == (n % 10) + 48);
        assert((n / 10) * 10 + n % 10 == n);
        assert(digits_value(d) == digits_value(decimal(n / 10)) * 10 + (n % 10));
    } else {
        let d = decimal(n);
        assert(d.last() as int == n + 48);
        assert(d.drop_last() =~= Seq::<char>::empty());
        assert(digits_value(d.drop_last()) == 0);
        assert(digits_value(d) == n);
    }
}

/// A number written in decimal is read back as that number: for every `n`
/// from 0 to `i64::MAX`, parsing its decimal digits gives `n`, with or
/// without a leading `+`, and parsing them after a `-` gives `-n`.
pub proof fn law_decimal_read_back(n: nat)
    requires
        n <= i64::MAX,
    ensures
        spec_parse_i64(decimal(n)) == Some(n as int),
        spec_parse_i64(seq!['+'] + decimal(n)) == Some(n as int),
        spec_parse_i64(seq!['-'] + decimal(n)) == Some(-(n as int)),
        spec_episode_number(decimal(n)) == n,
{
    lemma_decimal(n);
    let d = decimal(n);
    assert forall|j: int| 0 <= j < d.len() implies is_digit(#[trigger] d[j]) by {
        assert('0' <= d[j] <= '9');
    }
    lemma_digit_run(d, d.len() as int);
    assert(d.take(d.len() as int) =~= d);
    assert((seq!['+'] + decimal(n)).drop_first() =~= decimal(n));
    assert((seq!['-'] + decimal(n)).drop_first() =~= decimal(n));
}

/// The extension of `base.ext` is `ext`, for every non-empty `base` and every
/// `ext` without a dot (leaving out the name `..`).
pub proof fn law_extension_of_joined(base: Seq<char>, ext: Seq<char>)
    requires
        base.len() > 0,
        !ext.contains('.'),
        base + "."@ + ext != ".."@,
    ensures
        spec_extension(base + "."@ + ext) == Some(ext),
{
    reveal_strlit(".");
    let name = base + "."@ + ext;
    let k = base.len() as int;
    assert forall|j: int| k < j < name.len() implies name[j] != '.' by {
        assert(name[j] == ext[j - k - 1]);
    }
    lemma_last_dot(name, k);
    assert(name.skip(k + 1) =~= ext);
}

/// A file whose name is a non-empty base, a dot and one of the video
/// extensions is a video file.
pub proof fn law_video_name(base: Seq<char>, ext: Seq<char>)
    requires
        base.len() > 0,
        spec_video_formats().contains(ext),
    ensures
        spec_is_video_name(base + "."@ + ext),
{
    reveal_strlit(".");
    reveal_strlit("..");
    reveal_strlit("mp4");
    reveal_strlit("mkv");
    let i = choose|i: int| 0 <= i < spec_video_formats().len() && spec_video_formats()[i] == ext;
    assert(ext.len() == 3);
    assert(!ext.contains('.')) by {
        if ext.contains('.') {
            let j = choose|j: int| 0 <= j < ext.len() && ext[j] == '.';
            assert(i == 0 || i == 1);
        }
    }
    assert((base + "."@ + ext).len() > 2);
    law_extension_of_joined(base, ext);
}

/// Scanning the directories in two groups gives what scanning them in one
/// does: the entries and the errors of the first group, then those of the
/// second.
pub proof fn law_gather_split(
    a: Seq<Result<Vec<DirAnimeEntry>, String>>,
    b: Seq<Result<Vec<DirAnimeEntry>, String>>,
)
    ensures
        spec_scanned(a + b) == spec_scanned(a) + spec_scanned(b),
        spec_scan_errors(a + b) == spec_scan_errors(a) + spec_scan_errors(b),
    decreases a.len(),
{
    if a.len() == 0 {
        assert(a + b =~= b);
        assert(spec_scanned(a) + spec_scanned(b) =~= spec_scanned(b));
        assert(spec_scan_errors(a) + spec_scan_errors(b) =~= spec_scan_errors(b));
    } else {
        assert((a + b).drop_first() =~= a.drop_first() + b);
        law_gather_split(a.drop_first(), b);
        assert((a + b)[0] == a[0]);
        match a[0] {
            Ok(v) => {
                assert(v@ + (spec_scanned(a.drop_first()) + spec_scanned(b)) =~= (v@ + spec_scanned(
                    a.drop_first(),
                )) + spec_scanned(b));
            },
            Err(e) => {
                assert(seq![e] + (spec_scan_errors(a.drop_first()) + spec_scan_errors(b)) =~= (seq![e]
                    + spec_scan_errors(a.drop_first())) + spec_scan_errors(b));
            },
        }
    }
}

/// `k` zero digits.
pub open spec fn zeros(k: nat) -> Seq<char> {
    Seq::new(k, |i: int| '0')
}

proof fn lemma_leading_zero(x: Seq<char>)
    requires
        all_digits(x),
    ensures
        digits_value(seq!['0'] + x) == digits_value(x),
    decreases x.len(),
{
    let w = seq!['0'] + x;
    if x.len() == 0 {
        assert(w.drop_last() =~= Seq::<char>::empty());
        assert(digits_value(w.drop_last()) == 0);
        assert(w.last() == '0');
        assert(digits_value(w) == 0);
    } else {
        assert(w.drop_last() =~= seq!['0'] + x.drop_last());
        assert(all_digits(x.drop_last()));
        lemma_leading_zero(x.drop_last());
        assert(w.last() == x.last());
        assert(digits_value(w) == digits_value(w.drop_last()) * 10 + (w.last() as int - '0' as int));
        assert(digits_value(x) == digits_value(x.drop_last()) * 10 + (x.last() as int - '0' as int));
    }
}

proof fn lemma_zeros_then(k: nat, x: Seq<char>)
    requires
        all_digits(x),
    ensures
        all_digits(zeros(k) + x),
        digits_value(zeros(k) + x) == digits_value(x),
    decreases k,
{
    if k == 0 {
        assert(zeros(k) + x =~= x);
    } else {
        lemma_zeros_then((k - 1) as nat, x);
        assert(zeros(k) + x =~= seq!['0'] + (zeros((k - 1) as nat) + x));
        lemma_leading_zero(zeros((k - 1) as nat) + x);
    }
}

/// Leading zeros do not change a number: for every `n` from 0 to
/// `i64::MAX` and every `k`, `k` zeros followed by the decimal digits of `n`
/// are read as `n`, and as the episode number `n`.
pub proof fn law_zero_padded_read_back(n: nat, k: nat)
    requires
        n <= i64::MAX,
    ensures
        spec_parse_i64_result(zeros(k) + decimal(n)) == Ok::<int, IntParseError>(n as int),
        spec_parse_i64(zeros(k) + decimal(n)) == Some(n as int),
        spec_episode_number(zeros(k) + decimal(n)) == n,
{
    lemma_decimal(n);
    lemma_zeros_then(k, decimal(n));
    let d = zeros(k) + decimal(n);
    assert(d[0] != '-' && d[0] != '+') by {
        if k > 0 {
            assert(d[0] == '0');
        } else {
            assert(d[0] == decimal(n)[0]);
        }
    }
    assert forall|j: int| 0 <= j < d.len() implies is_digit(#[trigger] d[j]) by {
        assert('0' <= d[j] <= '9');
    }
    lemma_digit_run(d, d.len() as int);
    assert(d.take(d.len() as int) =~= d);
}

proof fn lemma_first_of_index(elements: Seq<(u32, Seq<char>)>, category: u32, i: int)
    requires
        0 <= i < elements.len(),
        elements[i].0 == category,
        forall|j: int| 0 <= j < i ==> elements[j].0 != category,
    ensures
        spec_first_of(elements, category) == Some(elements[i].1),
    decreases i,
{
    if i > 0 {
        lemma_first_of_index(elements.drop_first(), category, i - 1);
    }
}

proof fn lemma_first_of_none(elements: Seq<(u32, Seq<char>)>, category: u32)
    requires
        forall|j: int| 0 <= j < elements.len() ==> elements[j].0 != category,
    ensures
        spec_first_of(elements, category) is None,
    decreases elements.len(),
{
    if elements.len() > 0 {
        lemma_first_of_none(elements.drop_first(), category);
    }
}

/// The title of a successfully parsed video is the value of the first
/// anime-title element, whatever the other elements are (with or without an
/// episode number), and there is none when no element is an anime title.
pub proof fn law_video_title_is_first_title(
    elements: Seq<(u32, Seq<char>)>,
    i: int,
    r: EntryAction,
)
    requires
        details_match(true, elements, r),
    ensures
        r matches EntryAction::Video { name, .. } && (
        (0 <= i < elements.len() && elements[i].0 == ANIME_TITLE && forall|j: int|
            0 <= j < i ==> elements[j].0 != ANIME_TITLE) ==> (name matches Some(t) && t@
            == elements[i].1)),
        r matches EntryAction::Video { name, .. } && ((forall|j: int|
            0 <= j < elements.len() ==> elements[j].0 != ANIME_TITLE) ==> name is None),
{
    if 0 <= i < elements.len() && elements[i].0 == ANIME_TITLE && forall|j: int|
        0 <= j < i ==> elements[j].0 != ANIME_TITLE {
        lemma_first_of_index(elements, ANIME_TITLE, i);
    }
    if forall|j: int| 0 <= j < elements.len() ==> elements[j].0 != ANIME_TITLE {
        lemma_first_of_none(elements, ANIME_TITLE);
    }
}

/// A successful scan contributes all its entries, in order, and no error; a
/// failed scan contributes its error and no entry.
pub proof fn law_gather_one_scan(v: Vec<DirAnimeEntry>, e: String)
    ensures
        spec_scanned(seq![Ok::<Vec<DirAnimeEntry>, String>(v)]) == v@,
        spec_scanned(seq![Ok::<Vec<DirAnimeEntry>, String>(v)]).len() == v@.len(),
        spec_scan_errors(seq![Ok::<Vec<DirAnimeEntry>, String>(v)]) == Seq::<String>::empty(),
        spec_scanned(seq![Err::<Vec<DirAnimeEntry>, String>(e)]) == Seq::<DirAnimeEntry>::empty(),
        spec_scan_errors(seq![Err::<Vec<DirAnimeEntry>, String>(e)]) == seq![e],
{
    let ok = seq![Ok::<Vec<DirAnimeEntry>, String>(v)];
    let err = seq![Err::<Vec<DirAnimeEntry>, String>(e)];
    let none = Seq::<Result<Vec<DirAnimeEntry>, String>>::empty();
    assert(spec_scanned(none) == Seq::<DirAnimeEntry>::empty());
    assert(spec_scan_errors(none) == Seq::<String>::empty());
    assert(ok.drop_first() =~= none);
    assert(err.drop_first() =~= none);
    assert(ok[0] == Ok::<Vec<DirAnimeEntry>, String>(v));
    assert(err[0] == Err::<Vec<DirAnimeEntry>, String>(e));
    assert(spec_scanned(ok) == v@ + spec_scanned(none));
    assert(spec_scan_errors(ok) == spec_scan_errors(none));
    assert(spec_scanned(err) == spec_scanned(none));
    assert(spec_scan_errors(err) == seq![e] + spec_scan_errors(none));
    assert(v@ + Seq::<DirAnimeEntry>::empty() =~= v@);
    assert(seq![e] + Seq::<String>::empty() =~= seq![e]);
}

} // verus!
