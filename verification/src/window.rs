//! What the user-facing shell and the engine say to one another: the
//! commands a user can issue and the events the engine reports back.

use vstd::prelude::*;
use crate::peer::PeerId;
use crate::data::{ShareDirectory, ShareDirectorySignature};

verus! {

/// A running inbound transfer, as shown to the user.
pub struct Download {
    pub peer: PeerId,
    pub download_id: u128,
    pub file_identifier: u128,
    pub directory_identifier: u128,
    pub progress: u64,
    pub file_name: String,
    pub file_path: String,
}

/// A progress report for a transfer.
pub struct DownloadUpdate {
    pub progress: u64,
    pub download_id: u128,
}

/// Why a transfer ended early.
pub struct DownloadCanceled {
    pub reason: String,
    pub download_id: u128,
}

/// Why a transfer never began.
pub struct DownloadNotStarted {
    pub reason: String,
}

/// An error reported to the user.
pub struct BackendError {
    pub error: String,
    pub title: String,
}

/// A request to open a file with the system's handler.
pub struct OpenFile {
    pub file_path: String,
}

/// A command the user issues to the engine.
pub enum WindowResponse {
    CreateShareDirectory(String),
    GetAllShareDirectoryData(bool),
    GetPeers(bool),
    AddFiles { directory_identifier: String, file_paths: Vec<String> },
    ShareDirectoryToPeers { directory_identifier: String, peers: Vec<PeerId> },
    DownloadFile { directory_identifier: String, file_identifier: String },
    DeleteFile { directory_identifier: String, file_identifier: String },
    CancelDownload { peer: PeerId, download_identifier: String },
    LeaveDirectory { directory_identifier: String },
}

/// An event the engine reports to the user interface.
pub enum WindowRequest {
    UpdateDirectory(ShareDirectory),
    UpdateShareDirectories(Vec<ShareDirectory>),
    GetPeers(Vec<PeerId>),
    NewShareDirectory(ShareDirectorySignature),
    Error(BackendError),
    DownloadStarted(Download),
    DownloadUpdate(DownloadUpdate),
    DownloadCanceled(DownloadCanceled),
}

/// The event name each report is published under.
pub open spec fn request_name(r: &WindowRequest) -> Seq<char> {
    match r {
        WindowRequest::UpdateDirectory(..) => "UpdateDirectory"@,
        WindowRequest::UpdateShareDirectories(..) => "UpdateShareDirectories"@,
        WindowRequest::GetPeers(..) => "GetPeers"@,
        WindowRequest::NewShareDirectory(..) => "NewShareDirectory"@,
        WindowRequest::Error(..) => "Error"@,
        WindowRequest::DownloadStarted(..) => "DownloadStarted"@,
        WindowRequest::DownloadUpdate(..) => "DownloadUpdate"@,
        WindowRequest::DownloadCanceled(..) => "DownloadCanceled"@,
    }
}

impl WindowRequest {
    /// The event name this report is published under.
    pub fn to_string(&self) -> (r: &'static str)
        ensures
            r@ == request_name(self),
    {
        match self {
            WindowRequest::UpdateDirectory(..) => "UpdateDirectory",
            WindowRequest::UpdateShareDirectories(..) => "UpdateShareDirectories",
            WindowRequest::GetPeers(..) => "GetPeers",
            WindowRequest::NewShareDirectory(..) => "NewShareDirectory",
            WindowRequest::Error(..) => "Error",
            WindowRequest::DownloadStarted(..) => "DownloadStarted",
            WindowRequest::DownloadUpdate(..) => "DownloadUpdate",
            WindowRequest::DownloadCanceled(..) => "DownloadCanceled",
        }
    }
}

} // verus!
