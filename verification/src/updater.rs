//! The verified parts of self-updating: the report of an update check, the
//! running byte count of a download, and the error reports.

use vstd::prelude::*;

verus! {

/// What an update check found, as the updater describes a newer release.
#[derive(Debug)]
pub struct AvailableUpdate {
    /// The version of the newer release.
    pub version: String,
    /// Its release notes, when it has any.
    pub body: Option<String>,
}

/// The report of an update check.
#[derive(Debug)]
pub struct UpdateInfo {
    pub available: bool,
    pub version: String,
    pub current_version: String,
    pub notes: String,
}

impl UpdateInfo {
    /// The report for the running version `current_version` given what the
    /// check found: a newer release is reported with its version and notes
    /// (empty when it has none); otherwise the running version is reported
    /// as the latest, with no notes.
    pub fn from_check(current_version: String, found: Option<AvailableUpdate>) -> (res: UpdateInfo)
        ensures
            res.current_version@ == current_version@,
            match found {
                Some(update) => {
                    &&& res.available
                    &&& res.version@ == update.version@
                    &&& res.notes@ == match update.body {
                        Some(b) => b@,
                        None => Seq::<char>::empty(),
                    }
                },
                None => {
                    &&& !res.available
                    &&& res.version@ == current_version@
                    &&& res.notes@ == Seq::<char>::empty()
                },
            },
    {
        match found {
            Some(update) => {
                let notes = match update.body {
                    Some(b) => b,
                    None => String::new(),
                };
                UpdateInfo {
                    available: true,
                    version: update.version,
                    current_version,
                    notes,
                }
            },
            None => UpdateInfo {
                available: false,
                version: current_version.clone(),
                current_version,
                notes: String::new(),
            },
        }
    }
}

/// The running count of bytes received while downloading an update.
#[derive(Debug)]
pub struct DownloadTally {
    pub downloaded: u64,
}

impl DownloadTally {
    /// Nothing received yet.
    pub fn new() -> (res: DownloadTally)
        ensures
            res.downloaded == 0,
    {
        DownloadTally { downloaded: 0 }
    }

    /// Counts a received chunk of `chunk_length` bytes and returns the new
    /// total. The total must stay within `u64`.
    pub fn add_chunk(&mut self, chunk_length: usize) -> (total: u64)
        requires
            old(self).downloaded + chunk_length <= u64::MAX,
        ensures
            final(self).downloaded == old(self).downloaded + chunk_length,
            total == final(self).downloaded,
    {
        self.downloaded = self.downloaded + chunk_length as u64;
        self.downloaded
    }
}

/// Why checking for or installing an update failed.
#[derive(Debug)]
pub enum UpdaterError {
    /// The updater could not be set up.
    Build(String),
    /// The check for a newer release failed.
    Check(String),
    /// Downloading or installing the release failed.
    Install(String),
    /// There is no newer release to install.
    NotFound,
}

impl UpdaterError {
    pub open spec fn message_spec(self) -> Seq<char> {
        match self {
            UpdaterError::Build(d) => "Lỗi build updater: "@ + d@,
            UpdaterError::Check(d) => "Lỗi kiểm tra cập nhật: "@ + d@,
            UpdaterError::Install(d) => "Lỗi cài đặt cập nhật: "@ + d@,
            UpdaterError::NotFound => "Không tìm thấy bản cập nhật"@,
        }
    }

    /// The message shown to the user.
    pub fn message(&self) -> (res: String)
        ensures
            res@ == self.message_spec(),
    {
        match self {
            UpdaterError::Build(d) => {
                let mut s = String::from_str("Lỗi build updater: ");
                s.append(d.as_str());
                s
            },
            UpdaterError::Check(d) => {
                let mut s = String::from_str("Lỗi kiểm tra cập nhật: ");
                s.append(d.as_str());
                s
            },
            UpdaterError::Install(d) => {
                let mut s = String::from_str("Lỗi cài đặt cập nhật: ");
                s.append(d.as_str());
                s
            },
            UpdaterError::NotFound => String::from_str("Không tìm thấy bản cập nhật"),
        }
    }
}

} // verus!
