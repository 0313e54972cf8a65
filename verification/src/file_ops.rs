//! The verified parts of the file commands: decoding a recorded blob,
//! naming temporary and saved files, and the reports of save and delete.

use crate::calendar::{current_unix_seconds, format_timestamp, stamp_at};
use crate::text::{
    decimal_digits, lemma_leading_dot_ignored, push_decimal, strip_leading_dots,
    without_leading_dots,
};
use base64::engine::general_purpose::STANDARD;
use base64::{DecodeError, Engine};
use vstd::prelude::*;

verus! {

// ---------------------------------------------------------------------------
// Base64.

/// Why a Base64 text was rejected (the cases of `base64::DecodeError`).
#[derive(Clone, Copy, Debug, PartialEq, Eq, Structural)]
pub enum Base64Fault {
    /// A byte outside the alphabet, or padding not at the end.
    InvalidByte { offset: usize, byte: u8 },
    /// The number of symbols cannot be a Base64 length.
    InvalidLength { length: usize },
    /// The last symbol carries bits that decoding would drop.
    InvalidLastSymbol { offset: usize, byte: u8 },
    /// Padding absent or not canonical.
    InvalidPadding,
}

impl Base64Fault {
    pub open spec fn text_spec(self) -> Seq<char> {
        match self {
            Base64Fault::InvalidByte { offset, byte } => "Invalid symbol "@ + decimal_digits(
                byte as nat,
            ) + ", offset "@ + decimal_digits(offset as nat) + "."@,
            Base64Fault::InvalidLength { length } => "Invalid input length: "@ + decimal_digits(
                length as nat,
            ),
            Base64Fault::InvalidLastSymbol { offset, byte } => "Invalid last symbol "@
                + decimal_digits(byte as nat) + ", offset "@ + decimal_digits(offset as nat)
                + "."@,
            Base64Fault::InvalidPadding => "Invalid padding"@,
        }
    }

    /// The description of the fault, worded as the `base64` crate words it.
    pub fn text(&self) -> (res: String)
        ensures
            res@ == self.text_spec(),
    {
        match self {
            Base64Fault::InvalidByte { offset, byte } => {
                let mut s = String::from_str("Invalid symbol ");
                push_decimal(&mut s, *byte as u64);
                s.append(", offset ");
                push_decimal(&mut s, *offset as u64);
                s.append(".");
                s
            },
            Base64Fault::InvalidLength { length } => {
                let mut s = String::from_str("Invalid input length: ");
                push_decimal(&mut s, *length as u64);
                s
            },
            Base64Fault::InvalidLastSymbol { offset, byte } => {
                let mut s = String::from_str("Invalid last symbol ");
                push_decimal(&mut s, *byte as u64);
                s.append(", offset ");
                push_decimal(&mut s, *offset as u64);
                s.append(".");
                s
            },
            Base64Fault::InvalidPadding => String::from_str("Invalid padding"),
        }
    }
}

/// What the standard Base64 engine (RFC 4648 alphabet, canonical padding
/// required, no trailing bits) makes of the UTF-8 bytes of `text`: the
/// decoded bytes, or the fault it reports.
pub uninterp spec fn standard_base64_decoding(text: Seq<char>) -> Result<Seq<u8>, Base64Fault>;

/// `base64::engine::general_purpose::STANDARD.decode(text)`: its result is
/// the named `standard_base64_decoding` of the text, the error translated
/// case by case into `Base64Fault`. What the decoding is is not stated here.
#[verifier::external_body]
fn decode_standard_base64(text: &str) -> (res: Result<Vec<u8>, Base64Fault>)
    ensures
        match res {
            Ok(bytes) => standard_base64_decoding(text@) == Ok::<Seq<u8>, Base64Fault>(bytes@),
            Err(fault) => standard_base64_decoding(text@) == Err::<Seq<u8>, Base64Fault>(fault),
        },
{
    match STANDARD.decode(text) {
        Ok(bytes) => Ok(bytes),
        Err(DecodeError::InvalidByte(offset, byte)) => Err(Base64Fault::InvalidByte { offset, byte }),
        Err(DecodeError::InvalidLength(length)) => Err(Base64Fault::InvalidLength { length }),
        Err(DecodeError::InvalidLastSymbol(offset, byte)) => Err(
            Base64Fault::InvalidLastSymbol { offset, byte },
        ),
        Err(DecodeError::InvalidPadding) => Err(Base64Fault::InvalidPadding),
    }
}


// ---------------------------------------------------------------------------
// Errors.

/// Why a file command failed.
#[derive(Debug)]
pub enum FileOpError {
    /// The recorded blob was not valid Base64.
    Decode(Base64Fault),
    /// The temporary file could not be written (the system's reason).
    WriteTemp(String),
    /// The file could not be copied to its destination.
    Save(String),
    /// The temporary file could not be removed.
    DeleteTemp(String),
    /// The file's metadata could not be read.
    ReadInfo(String),
}

impl FileOpError {
    pub open spec fn message_spec(self) -> Seq<char> {
        match self {
            FileOpError::Decode(fault) => "Lỗi decode base64: "@ + fault.text_spec(),
            FileOpError::WriteTemp(d) => "Không thể ghi file tạm: "@ + d@,
            FileOpError::Save(d) => "Không thể lưu file: "@ + d@,
            FileOpError::DeleteTemp(d) => "Không thể xóa file tạm: "@ + d@,
            FileOpError::ReadInfo(d) => "Không thể đọc thông tin file: "@ + d@,
        }
    }

    /// The message shown to the user.
    pub fn message(&self) -> (res: String)
        ensures
            res@ == self.message_spec(),
    {
        let (mut s, detail) = match self {
            FileOpError::Decode(fault) => (String::from_str("Lỗi decode base64: "), fault.text()),
            FileOpError::WriteTemp(d) => (String::from_str("Không thể ghi file tạm: "), d.clone()),
            FileOpError::Save(d) => (String::from_str("Không thể lưu file: "), d.clone()),
            FileOpError::DeleteTemp(d) => (String::from_str("Không thể xóa file tạm: "), d.clone()),
            FileOpError::ReadInfo(d) => (
                String::from_str("Không thể đọc thông tin file: "),
                d.clone(),
            ),
        };
        s.append(detail.as_str());
        s
    }
}

// ---------------------------------------------------------------------------
// File names.

/// `hoclongtieng_temp_<stamp>.<extension without leading dots>`.
pub open spec fn temp_file_name_spec(secs: int, extension: Seq<char>) -> Seq<char> {
    "hoclongtieng_temp_"@ + stamp_at(secs) + "."@ + without_leading_dots(extension)
}

/// `video_hoclongtieng_<stamp>.mp4`.
pub open spec fn recording_file_name_spec(secs: int) -> Seq<char> {
    "video_hoclongtieng_"@ + stamp_at(secs) + ".mp4"@
}

/// An extension names the same temporary file with or without its dot.
pub proof fn lemma_temp_name_ignores_dot(secs: int, extension: Seq<char>)
    ensures
        temp_file_name_spec(secs, seq!['.'] + extension) == temp_file_name_spec(secs, extension),
{
    lemma_leading_dot_ignored(extension);
}

/// The name of the temporary file for a recording made `secs` seconds after
/// the epoch, with the given extension (leading dots dropped).
pub fn temp_file_name(secs: u64, extension: &str) -> (res: String)
    ensures
        res@ == temp_file_name_spec(secs as int, extension@),
{
    let mut s = String::from_str("hoclongtieng_temp_");
    let stamp = format_timestamp(secs);
    s.append(stamp.as_str());
    s.append(".");
    s.append(strip_leading_dots(extension));
    s
}

/// The default name offered for saving a recording made `secs` seconds
/// after the epoch.
pub fn recording_file_name(secs: u64) -> (res: String)
    ensures
        res@ == recording_file_name_spec(secs as int),
{
    let mut s = String::from_str("video_hoclongtieng_");
    let stamp = format_timestamp(secs);
    s.append(stamp.as_str());
    s.append(".mp4");
    s
}

/// The default name offered for saving a recording made now.
pub fn generate_filename() -> (res: String)
    ensures
        exists|secs: u64| res@ == recording_file_name_spec(secs as int),
{
    let secs = current_unix_seconds();
    recording_file_name(secs)
}

// ---------------------------------------------------------------------------
// The temporary file of a recording.

/// What to write for a recording: the file name (in the system's temporary
/// directory) and the bytes.
#[derive(Debug)]
pub struct TempFile {
    pub name: String,
    pub bytes: Vec<u8>,
}

/// The temporary file for a decoded recording made at `secs`: the decoding
/// fault becomes a `Decode` error; otherwise the decoded bytes under the
/// temporary name.
pub fn temp_file_for(decoded: Result<Vec<u8>, Base64Fault>, secs: u64, extension: &str) -> (res:
    Result<TempFile, FileOpError>)
    ensures
        match decoded {
            Ok(bytes) => res matches Ok(f) && f.bytes@ == bytes@ && f.name@
                == temp_file_name_spec(secs as int, extension@),
            Err(fault) => res matches Err(FileOpError::Decode(e)) && e == fault,
        },
{
    match decoded {
        Ok(bytes) => Ok(TempFile { name: temp_file_name(secs, extension), bytes }),
        Err(fault) => Err(FileOpError::Decode(fault)),
    }
}

/// Decodes a Base64 recording and names its temporary file after the
/// current time: a decoding fault is reported as `Decode` before the clock
/// is read.
pub fn prepare_temp_file(base64_data: &str, extension: &str) -> (res: Result<TempFile, FileOpError>)
    ensures
        match standard_base64_decoding(base64_data@) {
            Ok(bytes) => res matches Ok(f) && f.bytes@ == bytes && exists|secs: u64|
                f.name@ == temp_file_name_spec(secs as int, extension@),
            Err(fault) => res matches Err(FileOpError::Decode(e)) && e == fault,
        },
{
    let decoded = decode_standard_base64(base64_data);
    match decoded {
        Ok(bytes) => {
            let secs = current_unix_seconds();
            let res = temp_file_for(Ok(bytes), secs, extension);
            assert(res matches Ok(f) ==> f.name@ == temp_file_name_spec(secs as int, extension@));
            res
        },
        Err(fault) => Err(FileOpError::Decode(fault)),
    }
}

// ---------------------------------------------------------------------------
// Saving and deleting.

/// The report of a save: whether it happened, where to, and a message.
#[derive(Debug)]
pub struct SaveResult {
    pub success: bool,
    pub path: Option<String>,
    pub message: String,
}

/// Before copying: a missing source is reported (without copying) as an
/// unsuccessful save; `None` means the copy should go ahead.
pub fn save_plan(source_exists: bool) -> (res: Option<SaveResult>)
    ensures
        source_exists <==> res is None,
        res matches Some(r) ==> !r.success && r.path is None && r.message@
            == "File gốc không tồn tại"@,
{
    if source_exists {
        None
    } else {
        Some(SaveResult {
            success: false,
            path: None,
            message: String::from_str("File gốc không tồn tại"),
        })
    }
}

/// After copying to `dest_path`: a failed copy is an error carrying the
/// system's reason; a successful one is reported with its destination.
pub fn save_outcome(dest_path: String, copy_error: Option<String>) -> (res: Result<
    SaveResult,
    FileOpError,
>)
    ensures
        match copy_error {
            Some(reason) => res matches Err(FileOpError::Save(d)) && d@ == reason@,
            None => res matches Ok(r) && r.success && r.path == Some(dest_path)
                && r.message@ == "Lưu thành công! 🎉"@,
        },
{
    match copy_error {
        Some(reason) => Err(FileOpError::Save(reason)),
        None => Ok(
            SaveResult {
                success: true,
                path: Some(dest_path),
                message: String::from_str("Lưu thành công! 🎉"),
            },
        ),
    }
}

} // verus!
