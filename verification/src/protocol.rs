//! Wire types for IPC between the daemon and the picker UI.
//!
//! Both processes exchange the same message types, framed by
//! [`crate::codec`]. The JSON shape (camelCase field names, a `type` tag
//! on each message and a `kind` tag on each filter pattern) is produced
//! at the process edges; this module holds the values and the logic on
//! them. Paths travel as UTF-8 strings.

use vstd::prelude::*;

verus! {

/// Daemon -> picker UI. The picker UI shows a dialog for the request and
/// eventually replies with a [`PickerResponse`] carrying the same
/// `handle`.
#[derive(Debug, Clone)]
pub enum PickerRequest {
    /// Open one or more existing files (`FileChooser.OpenFile`).
    OpenFile {
        /// Unique correlation handle; the matching response carries it.
        handle: String,
        /// Caller-controlled, display only; never used for authorisation.
        app_id: String,
        title: String,
        /// File-extension or MIME filters; empty means "all files".
        filters: Vec<FileFilter>,
        /// Filter the caller pre-selected, if any.
        current_filter: Option<FileFilter>,
        /// Whether more than one file may be picked.
        multiple: bool,
        /// Whether the picker is modal to the parent window (recorded,
        /// not enforced on Wayland).
        modal: bool,
        /// Whether folders are picked instead of files.
        directory: bool,
        /// Where the picker opens.
        current_folder: Option<String>,
        /// Caller's parent window, `wayland:NNNN` or `x11:0xABCD`.
        parent_window: Option<String>,
    },
    /// Save a single file (`FileChooser.SaveFile`).
    SaveFile {
        handle: String,
        app_id: String,
        title: String,
        filters: Vec<FileFilter>,
        current_filter: Option<FileFilter>,
        current_name: Option<String>,
        current_folder: Option<String>,
        current_file: Option<String>,
        parent_window: Option<String>,
    },
    /// Save several files into one directory (`FileChooser.SaveFiles`).
    SaveFiles {
        handle: String,
        app_id: String,
        title: String,
        files: Vec<String>,
        current_folder: Option<String>,
        parent_window: Option<String>,
    },
    /// Daemon-initiated cancellation; the picker hides and does not
    /// respond.
    Cancel { handle: String },
}

/// Picker UI -> daemon.
#[derive(Debug, Clone)]
pub enum PickerResponse {
    /// User confirmed; `paths` is non-empty in practice.
    Picked {
        handle: String,
        paths: Vec<String>,
        /// Filter selected at confirm time, echoed back to the caller.
        current_filter: Option<FileFilter>,
    },
    /// User dismissed the picker.
    Cancelled { handle: String },
    /// Picker UI hit a fatal error.
    Error { handle: String, message: String },
}

/// Filter declaration: display name plus patterns (portal type
/// `(sa(us))`).
#[derive(Debug, Clone, PartialEq, Eq)]
pub struct FileFilter {
    /// Display name, e.g. "Images".
    pub name: String,
    /// Glob or MIME patterns.
    pub patterns: Vec<FilterPattern>,
}

/// One filter pattern.
#[derive(Debug, Clone, PartialEq, Eq)]
pub enum FilterPattern {
    /// Glob like `*.png`, matched against the file name.
    Glob { pattern: String },
    /// MIME type like `image/png`.
    Mime { mime_type: String },
}

/// Mathematical view of a [`FilterPattern`].
pub enum PatternView {
    Glob(Seq<char>),
    Mime(Seq<char>),
}

/// Mathematical view of a [`FileFilter`].
pub struct FilterView {
    pub name: Seq<char>,
    pub patterns: Seq<PatternView>,
}

impl View for FilterPattern {
    type V = PatternView;

    open spec fn view(&self) -> PatternView {
        match self {
            FilterPattern::Glob { pattern } => PatternView::Glob(pattern@),
            FilterPattern::Mime { mime_type } => PatternView::Mime(mime_type@),
        }
    }
}

/// Views of a sequence of patterns.
pub open spec fn patterns_view(ps: Seq<FilterPattern>) -> Seq<PatternView> {
    ps.map_values(|p: FilterPattern| p@)
}

impl View for FileFilter {
    type V = FilterView;

    open spec fn view(&self) -> FilterView {
        FilterView { name: self.name@, patterns: patterns_view(self.patterns@) }
    }
}

/// The correlation handle of a request.
pub open spec fn request_handle_of(req: PickerRequest) -> Seq<char> {
    match req {
        PickerRequest::OpenFile { handle, .. } => handle@,
        PickerRequest::SaveFile { handle, .. } => handle@,
        PickerRequest::SaveFiles { handle, .. } => handle@,
        PickerRequest::Cancel { handle } => handle@,
    }
}

/// The correlation handle of a response.
pub open spec fn response_handle_of(resp: PickerResponse) -> Seq<char> {
    match resp {
        PickerResponse::Picked { handle, .. } => handle@,
        PickerResponse::Cancelled { handle } => handle@,
        PickerResponse::Error { handle, .. } => handle@,
    }
}

/// Borrow the correlation handle out of any request variant.
pub fn request_handle(req: &PickerRequest) -> (h: &str)
    ensures
        h@ == request_handle_of(*req),
{
    match req {
        PickerRequest::OpenFile { handle, .. } => handle.as_str(),
        PickerRequest::SaveFile { handle, .. } => handle.as_str(),
        PickerRequest::SaveFiles { handle, .. } => handle.as_str(),
        PickerRequest::Cancel { handle } => handle.as_str(),
    }
}

/// Borrow the correlation handle out of any response variant.
pub fn response_handle(resp: &PickerResponse) -> (h: &str)
    ensures
        h@ == response_handle_of(*resp),
{
    match resp {
        PickerResponse::Picked { handle, .. } => handle.as_str(),
        PickerResponse::Cancelled { handle } => handle.as_str(),
        PickerResponse::Error { handle, .. } => handle.as_str(),
    }
}

/// What the picker UI does with a request from the daemon.
#[derive(Debug, Clone, PartialEq, Eq)]
pub enum UiAction {
    /// A daemon-initiated cancel: hide the window, tell the frontend to
    /// clear the request with this handle, send no response.
    Hide { handle: String },
    /// A pick or save request: show and focus the window and pass the
    /// request to the frontend.
    Show,
}

/// How the picker UI handles `req`.
pub fn ui_action(req: &PickerRequest) -> (a: UiAction)
    ensures
        match *req {
            PickerRequest::Cancel { handle } => a == UiAction::Hide { handle },
            _ => a == UiAction::Show,
        },
{
    match req {
        PickerRequest::Cancel { handle } => UiAction::Hide { handle: handle.clone() },
        _ => UiAction::Show,
    }
}

} // verus!
