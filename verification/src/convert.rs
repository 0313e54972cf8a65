//! The verified parts of converting a recording with FFmpeg: the command
//! line, reading progress out of FFmpeg's log lines, clock rendering, and
//! the outcome and error reports.

use crate::text::{
    count_char, join_fields, lemma_split_fields_count, lemma_split_fields_free_of_sep,
    lemma_split_then_join, padded_decimal, push_char, push_padded, split_fields, split_on,
    trim_whitespace, trimmed,
};
use regex::Regex;
use vstd::prelude::*;
use vstd::utf8::{decode_utf8, valid_utf8};

verus! {

// ---------------------------------------------------------------------------
// The FFmpeg command line.

/// The arguments that convert `input` (WebM) to `output` (H.264/AAC MP4,
/// CRF 28, medium preset, fast-start, overwriting `output`).
pub open spec fn convert_args(input: Seq<char>, output: Seq<char>) -> Seq<Seq<char>> {
    seq![
        "-i"@, input,
        "-vcodec"@, "libx264"@,
        "-crf"@, "28"@,
        "-preset"@, "medium"@,
        "-acodec"@, "aac"@,
        "-movflags"@, "+faststart"@,
        "-y"@, output,
    ]
}

/// The FFmpeg arguments for converting `input_path` into `output_path`.
pub fn ffmpeg_convert_args(input_path: &str, output_path: &str) -> (args: Vec<String>)
    ensures
        args.deep_view() == convert_args(input_path@, output_path@),
{
    let mut args: Vec<String> = Vec::new();
    args.push(String::from_str("-i"));
    args.push(String::from_str(input_path));
    args.push(String::from_str("-vcodec"));
    args.push(String::from_str("libx264"));
    args.push(String::from_str("-crf"));
    args.push(String::from_str("28"));
    args.push(String::from_str("-preset"));
    args.push(String::from_str("medium"));
    args.push(String::from_str("-acodec"));
    args.push(String::from_str("aac"));
    args.push(String::from_str("-movflags"));
    args.push(String::from_str("+faststart"));
    args.push(String::from_str("-y"));
    args.push(String::from_str(output_path));
    proof {
        assert(args.deep_view() =~= convert_args(input_path@, output_path@));
    }
    args
}


// ---------------------------------------------------------------------------
// Reading FFmpeg's log lines.

/// Capture group 1 of the leftmost-first match of the regular expression
/// `pattern` (syntax of the `regex` crate) in `haystack`; `None` when the
/// pattern does not compile, nothing matches, or group 1 takes no part in
/// the match.
pub uninterp spec fn regex_group_one(pattern: Seq<char>, haystack: Seq<char>) -> Option<Seq<char>>;

/// `Regex::new(pattern)` followed by `captures(haystack)` and `get(1)`; the
/// result is exactly the named `regex_group_one` of the two arguments.
/// Nothing more of the regex semantics is stated here.
#[verifier::external_body]
fn capture_group_one(pattern: &str, haystack: &str) -> (res: Option<String>)
    ensures
        match res {
            Some(s) => regex_group_one(pattern@, haystack@) == Some(s@),
            None => regex_group_one(pattern@, haystack@) is None,
        },
{
    match Regex::new(pattern) {
        Ok(re) => match re.captures(haystack) {
            Some(caps) => match caps.get(1) {
                Some(group) => Some(group.as_str().to_string()),
                None => None,
            },
            None => None,
        },
        Err(_) => None,
    }
}

/// The pattern of the total-duration line FFmpeg prints for its input.
pub open spec fn duration_pattern() -> Seq<char> {
    "Duration:\\s*(\\d+:\\d+:\\d+\\.\\d+)"@
}

/// The pattern of the position in FFmpeg's periodic progress lines.
pub open spec fn progress_pattern() -> Seq<char> {
    "time=(\\d+:\\d+:\\d+\\.\\d+)"@
}

/// The `HH:MM:SS.xx` total duration announced in an FFmpeg log line, if any.
pub fn capture_duration(line: &str) -> (res: Option<String>)
    ensures
        match res {
            Some(s) => regex_group_one(duration_pattern(), line@) == Some(s@),
            None => regex_group_one(duration_pattern(), line@) is None,
        },
{
    capture_group_one("Duration:\\s*(\\d+:\\d+:\\d+\\.\\d+)", line)
}

/// The `HH:MM:SS.xx` position reported in an FFmpeg progress line, if any.
pub fn capture_progress_time(line: &str) -> (res: Option<String>)
    ensures
        match res {
            Some(s) => regex_group_one(progress_pattern(), line@) == Some(s@),
            None => regex_group_one(progress_pattern(), line@) is None,
        },
{
    capture_group_one("time=(\\d+:\\d+:\\d+\\.\\d+)", line)
}

/// What `String::from_utf8_lossy` makes of `bytes`: their UTF-8 decoding,
/// each invalid sequence replaced by U+FFFD.
pub uninterp spec fn utf8_lossy(bytes: Seq<u8>) -> Seq<char>;

/// `String::from_utf8_lossy(bytes)`, owned: the text is the named
/// `utf8_lossy` of the bytes, and for valid UTF-8 it is exactly their
/// decoding. How invalid sequences are replaced is not stated here.
#[verifier::external_body]
fn decode_utf8_lossy(bytes: &[u8]) -> (res: String)
    ensures
        res@ == utf8_lossy(bytes@),
        valid_utf8(bytes@) ==> res@ == decode_utf8(bytes@),
{
    String::from_utf8_lossy(bytes).to_string()
}

/// The clock readings found in one chunk of FFmpeg's error output.
#[derive(Debug)]
pub struct StderrReadings {
    /// The total duration of the input, when announced.
    pub duration: Option<String>,
    /// The position reached, when reported.
    pub position: Option<String>,
}

/// Reads a chunk of FFmpeg's error output as (lossy) UTF-8 and picks out
/// the duration and position readings.
pub fn read_stderr_chunk(bytes: &[u8]) -> (res: StderrReadings)
    ensures
        match res.duration {
            Some(s) => regex_group_one(duration_pattern(), utf8_lossy(bytes@)) == Some(s@),
            None => regex_group_one(duration_pattern(), utf8_lossy(bytes@)) is None,
        },
        match res.position {
            Some(s) => regex_group_one(progress_pattern(), utf8_lossy(bytes@)) == Some(s@),
            None => regex_group_one(progress_pattern(), utf8_lossy(bytes@)) is None,
        },
{
    let line = decode_utf8_lossy(bytes);
    let duration = capture_duration(line.as_str());
    let position = capture_progress_time(line.as_str());
    StderrReadings { duration, position }
}

/// The hours, minutes and seconds fields of a clock reading `H:M:S`:
/// the trimmed text split at `:`, when that gives exactly three fields.
pub open spec fn clock_fields_spec(text: Seq<char>) -> Option<(Seq<char>, Seq<char>, Seq<char>)> {
    let parts = split_fields(trimmed(text), ':');
    if parts.len() == 3 {
        Some((parts[0], parts[1], parts[2]))
    } else {
        None
    }
}

/// Splits a clock reading such as ` 00:01:02.50 ` into its three fields
/// (`"00"`, `"01"`, `"02.50"`); `None` unless there are exactly three.
pub fn clock_fields(time_str: &str) -> (res: Option<(String, String, String)>)
    ensures
        match res {
            Some((h, m, s)) => clock_fields_spec(time_str@) == Some((h@, m@, s@)),
            None => clock_fields_spec(time_str@) is None,
        },
        res is Some <==> count_char(trimmed(time_str@), ':') == 2,
        res matches Some((h, m, s)) ==> {
            &&& trimmed(time_str@) == h@ + seq![':'] + m@ + seq![':'] + s@
            &&& !h@.contains(':') && !m@.contains(':') && !s@.contains(':')
        },
{
    proof {
        lemma_clock_fields_two_colons(time_str@);
        if clock_fields_spec(time_str@) is Some {
            lemma_clock_fields_rebuild(time_str@);
        }
    }
    let parts = split_on(trim_whitespace(time_str), ':');
    if parts.len() == 3 {
        let h = parts[0].clone();
        let m = parts[1].clone();
        let s = parts[2].clone();
        proof {
            assert(parts.deep_view()[0] == parts@[0]@);
            assert(parts.deep_view()[1] == parts@[1]@);
            assert(parts.deep_view()[2] == parts@[2]@);
        }
        Some((h, m, s))
    } else {
        None
    }
}

/// A clock reading has its three fields exactly when its trimmed text holds
/// exactly two `:`; any other number of `:` gives none.
pub proof fn lemma_clock_fields_two_colons(text: Seq<char>)
    ensures
        clock_fields_spec(text) is Some <==> count_char(trimmed(text), ':') == 2,
{
    lemma_split_fields_count(trimmed(text), ':');
}

/// The three fields of a clock reading rebuild the trimmed reading when
/// joined with `:`, and none of them contains a `:`.
pub proof fn lemma_clock_fields_rebuild(text: Seq<char>)
    requires
        clock_fields_spec(text) is Some,
    ensures
        ({
            let (h, m, s) = clock_fields_spec(text)->0;
            &&& trimmed(text) == h + seq![':'] + m + seq![':'] + s
            &&& !h.contains(':') && !m.contains(':') && !s.contains(':')
        }),
{
    let parts = split_fields(trimmed(text), ':');
    lemma_split_then_join(trimmed(text), ':');
    lemma_split_fields_free_of_sep(trimmed(text), ':', 0);
    lemma_split_fields_free_of_sep(trimmed(text), ':', 1);
    lemma_split_fields_free_of_sep(trimmed(text), ':', 2);
    assert(parts.drop_last().drop_last().len() == 1);
    assert(join_fields(parts.drop_last().drop_last(), ':') == parts[0]);
    assert(join_fields(parts.drop_last(), ':') == parts[0].push(':') + parts[1]);
    assert(join_fields(parts, ':') =~= parts[0] + seq![':'] + parts[1] + seq![':'] + parts[2]);
}

// ---------------------------------------------------------------------------
// Rendering and outcomes.

/// `MM:SS` for a whole number of seconds: minutes and seconds zero-padded to
/// two digits (minutes beyond 99 are written in full).
pub open spec fn minutes_seconds(total: nat) -> Seq<char> {
    padded_decimal(total / 60, 2) + seq![':'] + padded_decimal(total % 60, 2)
}

/// Renders a whole number of seconds as `MM:SS`.
pub fn format_minutes_seconds(total: u64) -> (res: String)
    ensures
        res@ == minutes_seconds(total as nat),
{
    let mut s = String::new();
    push_padded(&mut s, total / 60, 2);
    push_char(&mut s, ':');
    push_padded(&mut s, total % 60, 2);
    proof {
        assert(s@ =~= minutes_seconds(total as nat));
    }
    s
}

/// The stage a conversion is in, as reported to the user interface.
#[derive(Clone, Copy, Debug, PartialEq, Eq, Structural)]
pub enum ConvertStatus {
    Converting,
    Done,
    Error,
}

impl ConvertStatus {
    pub open spec fn label_spec(self) -> Seq<char> {
        match self {
            ConvertStatus::Converting => "converting"@,
            ConvertStatus::Done => "done"@,
            ConvertStatus::Error => "error"@,
        }
    }

    /// The status word sent with progress reports.
    pub fn label(&self) -> (res: String)
        ensures
            res@ == self.label_spec(),
    {
        match self {
            ConvertStatus::Converting => String::from_str("converting"),
            ConvertStatus::Done => String::from_str("done"),
            ConvertStatus::Error => String::from_str("error"),
        }
    }
}

/// Why a conversion did not produce its output.
#[derive(Debug)]
pub enum ConvertError {
    /// The bundled FFmpeg could not be found.
    SidecarMissing(String),
    /// FFmpeg could not be started.
    SpawnFailed(String),
    /// FFmpeg ran but exited unsuccessfully.
    ConversionFailed,
    /// FFmpeg reported an error event.
    ProcessError(String),
    /// FFmpeg's event stream ended without a termination.
    EndedUnexpectedly,
}

impl ConvertError {
    pub open spec fn message_spec(self) -> Seq<char> {
        match self {
            ConvertError::SidecarMissing(d) => "Không tìm thấy FFmpeg: "@ + d@,
            ConvertError::SpawnFailed(d) => "Không thể khởi động FFmpeg: "@ + d@,
            ConvertError::ConversionFailed => "FFmpeg chuyển đổi thất bại. Vui lòng thử lại."@,
            ConvertError::ProcessError(d) => "Lỗi FFmpeg: "@ + d@,
            ConvertError::EndedUnexpectedly => "FFmpeg kết thúc bất ngờ"@,
        }
    }

    /// The message shown to the user.
    pub fn message(&self) -> (res: String)
        ensures
            res@ == self.message_spec(),
    {
        match self {
            ConvertError::SidecarMissing(d) => {
                let mut s = String::from_str("Không tìm thấy FFmpeg: ");
                s.append(d.as_str());
                s
            },
            ConvertError::SpawnFailed(d) => {
                let mut s = String::from_str("Không thể khởi động FFmpeg: ");
                s.append(d.as_str());
                s
            },
            ConvertError::ConversionFailed => String::from_str(
                "FFmpeg chuyển đổi thất bại. Vui lòng thử lại.",
            ),
            ConvertError::ProcessError(d) => {
                let mut s = String::from_str("Lỗi FFmpeg: ");
                s.append(d.as_str());
                s
            },
            ConvertError::EndedUnexpectedly => String::from_str("FFmpeg kết thúc bất ngờ"),
        }
    }
}

/// What is reported when FFmpeg exits: the command's result, and the
/// status and clock texts of the last progress report.
#[derive(Debug)]
pub struct TerminationReport {
    pub outcome: Result<String, ConvertError>,
    pub status: ConvertStatus,
    pub current_time: String,
    pub total_time: String,
}

/// The report for FFmpeg exiting with `exit_code`, the input's duration
/// rendered as `total_time`: on success the output path, status `done` and
/// the position at the total; otherwise a failed conversion, status `error`
/// and the position back at `00:00`.
pub fn termination_report(exit_code: Option<i32>, output_path: String, total_time: String) -> (res:
    TerminationReport)
    ensures
        res.total_time@ == total_time@,
        exit_code == Some(0i32) ==> {
            &&& res.outcome == Ok::<String, ConvertError>(output_path)
            &&& res.status == ConvertStatus::Done
            &&& res.current_time@ == total_time@
        },
        exit_code != Some(0i32) ==> {
            &&& res.outcome matches Err(ConvertError::ConversionFailed)
            &&& res.status == ConvertStatus::Error
            &&& res.current_time@ == minutes_seconds(0)
        },
{
    let outcome = termination_result(exit_code, output_path);
    match outcome {
        Ok(path) => TerminationReport {
            outcome: Ok(path),
            status: ConvertStatus::Done,
            current_time: total_time.clone(),
            total_time,
        },
        Err(e) => TerminationReport {
            outcome: Err(e),
            status: ConvertStatus::Error,
            current_time: format_minutes_seconds(0),
            total_time,
        },
    }
}

/// The result of a conversion whose FFmpeg process exited with `exit_code`:
/// the output path on exit code 0, a failed conversion otherwise (including
/// a process killed without an exit code).
pub fn termination_result(exit_code: Option<i32>, output_path: String) -> (res: Result<
    String,
    ConvertError,
>)
    ensures
        exit_code == Some(0i32) ==> res == Ok::<String, ConvertError>(output_path),
        exit_code != Some(0i32) ==> res matches Err(ConvertError::ConversionFailed),
{
    match exit_code {
        Some(code) => {
            if code == 0 {
                Ok(output_path)
            } else {
                Err(ConvertError::ConversionFailed)
            }
        },
        None => Err(ConvertError::ConversionFailed),
    }
}

} // verus!
