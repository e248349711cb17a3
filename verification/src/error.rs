//! What can go wrong.

use crate::path::{lossy_text, path_quoted, quote_path, utf8_lossy};
use crate::text::{decimal, push_decimal};
use vstd::prelude::*;
use vstd::string::*;

verus! {

/// The errors of the converter.
#[derive(Debug)]
pub enum AppError {
    /// A file system error, with what the system says of it.
    Io(String),
    /// An error while a directory was walked.
    Walkdir(String),
    /// An error while a PDF was processed.
    Pdf(String),
    /// An error while a WebP image was encoded.
    Webp(String),
    /// An error while an image was processed.
    Image(String),
    /// Too little space where the output goes.
    InsufficientDiskSpace {
        need: u64,
        available: u64,
        path: Vec<u8>,
    },
    /// An invalid or malformed path.
    InvalidPath(String),
    /// No PDF files in the source directory.
    NoPdfFiles,
    /// The source directory does not exist.
    SourceNotFound(Vec<u8>),
    /// The source path is not a directory.
    SourceNotDir(Vec<u8>),
    /// Any other error, in its own words.
    Custom(String),
    /// Cancelled by the user.
    Cancelled,
    /// The error log could not be written.
    LogError(String),
}

/// An error with its texts and paths.
pub ghost enum ErrorModel {
    Io(Seq<char>),
    Walkdir(Seq<char>),
    Pdf(Seq<char>),
    Webp(Seq<char>),
    Image(Seq<char>),
    InsufficientDiskSpace { need: u64, available: u64, path: Seq<u8> },
    InvalidPath(Seq<char>),
    NoPdfFiles,
    SourceNotFound(Seq<u8>),
    SourceNotDir(Seq<u8>),
    Custom(Seq<char>),
    Cancelled,
    LogError(Seq<char>),
}

impl View for AppError {
    type V = ErrorModel;

    open spec fn view(&self) -> ErrorModel {
        match *self {
            AppError::Io(e) => ErrorModel::Io(e@),
            AppError::Walkdir(e) => ErrorModel::Walkdir(e@),
            AppError::Pdf(e) => ErrorModel::Pdf(e@),
            AppError::Webp(e) => ErrorModel::Webp(e@),
            AppError::Image(e) => ErrorModel::Image(e@),
            AppError::InsufficientDiskSpace { need, available, path } =>
                ErrorModel::InsufficientDiskSpace { need, available, path: path@ },
            AppError::InvalidPath(e) => ErrorModel::InvalidPath(e@),
            AppError::NoPdfFiles => ErrorModel::NoPdfFiles,
            AppError::SourceNotFound(path) => ErrorModel::SourceNotFound(path@),
            AppError::SourceNotDir(path) => ErrorModel::SourceNotDir(path@),
            AppError::Custom(e) => ErrorModel::Custom(e@),
            AppError::Cancelled => ErrorModel::Cancelled,
            AppError::LogError(e) => ErrorModel::LogError(e@),
        }
    }
}

impl ErrorModel {
    /// The error in words.
    pub open spec fn text(self) -> Seq<char> {
        match self {
            ErrorModel::Io(e) => "IO error: "@ + e,
            ErrorModel::Walkdir(e) => "Walkdir error: "@ + e,
            ErrorModel::Pdf(e) => "PDF processing error: "@ + e,
            ErrorModel::Webp(e) => "WebP encoding error: "@ + e,
            ErrorModel::Image(e) => "Image error: "@ + e,
            ErrorModel::InsufficientDiskSpace { need, available, path } =>
                "Insufficient disk space: have "@ + decimal(available as nat)
                    + " bytes, need approximately "@ + decimal(need as nat) + " bytes on "@
                    + path_quoted(path),
            ErrorModel::InvalidPath(e) => "Invalid path: "@ + e,
            ErrorModel::NoPdfFiles => "No PDF files found in source directory"@,
            ErrorModel::SourceNotFound(path) => "Source directory does not exist: "@ + utf8_lossy(
                path,
            ),
            ErrorModel::SourceNotDir(path) => "Source is not a directory: "@ + utf8_lossy(path),
            ErrorModel::Custom(e) => e,
            ErrorModel::Cancelled => "Operation cancelled by user"@,
            ErrorModel::LogError(e) => "Failed to write error log: "@ + e,
        }
    }
}

/// `label` followed by `detail`.
pub(crate) fn labelled(label: &str, detail: &str) -> (r: String)
    ensures
        r@ == label@ + detail@,
{
    let mut out: String = label.to_owned();
    out.append(detail);
    out
}

impl AppError {
    /// The error in words.
    pub open spec fn text(self) -> Seq<char> {
        self@.text()
    }

    /// Puts the error in words.
    pub fn message(&self) -> (r: String)
        ensures
            r@ == self.text(),
    {
        match self {
            AppError::Io(e) => labelled("IO error: ", e.as_str()),
            AppError::Walkdir(e) => labelled("Walkdir error: ", e.as_str()),
            AppError::Pdf(e) => labelled("PDF processing error: ", e.as_str()),
            AppError::Webp(e) => labelled("WebP encoding error: ", e.as_str()),
            AppError::Image(e) => labelled("Image error: ", e.as_str()),
            AppError::InsufficientDiskSpace { need, available, path } => {
                let mut out: String = "Insufficient disk space: have ".to_owned();
                push_decimal(&mut out, *available);
                out.append(" bytes, need approximately ");
                push_decimal(&mut out, *need);
                out.append(" bytes on ");
                out.append(quote_path(path.as_slice()).as_str());
                out
            },
            AppError::InvalidPath(e) => labelled("Invalid path: ", e.as_str()),
            AppError::NoPdfFiles => "No PDF files found in source directory".to_owned(),
            AppError::SourceNotFound(path) => {
                let shown: String = lossy_text(path.as_slice());
                labelled("Source directory does not exist: ", shown.as_str())
            },
            AppError::SourceNotDir(path) => {
                let shown: String = lossy_text(path.as_slice());
                labelled("Source is not a directory: ", shown.as_str())
            },
            AppError::Custom(e) => e.clone(),
            AppError::Cancelled => "Operation cancelled by user".to_owned(),
            AppError::LogError(e) => labelled("Failed to write error log: ", e.as_str()),
        }
    }
}

impl From<String> for AppError {
    fn from(msg: String) -> (r: AppError) {
        AppError::Custom(msg)
    }
}

impl vstd::std_specs::convert::FromSpecImpl<String> for AppError {
    open spec fn obeys_from_spec() -> bool {
        true
    }

    open spec fn from_spec(msg: String) -> AppError {
        AppError::Custom(msg)
    }
}

impl From<&str> for AppError {
    fn from(msg: &str) -> (r: AppError)
        ensures
            r matches AppError::Custom(m) && m@ == msg@,
    {
        AppError::Custom(msg.to_owned())
    }
}

impl vstd::std_specs::convert::FromSpecImpl<&str> for AppError {
    open spec fn obeys_from_spec() -> bool {
        false
    }

    open spec fn from_spec(msg: &str) -> AppError {
        arbitrary()
    }
}

/// An error in words ends with what it was made of, and tells two errors with different words or
/// numbers apart.
pub proof fn law_errors_tell_their_cause(e: Seq<char>, f: Seq<char>)
    ensures
        ErrorModel::Custom(e).text() == e,
        ErrorModel::Io(e).text() == "IO error: "@ + e,
        ErrorModel::Walkdir(e).text() == "Walkdir error: "@ + e,
        ErrorModel::Pdf(e).text() == "PDF processing error: "@ + e,
        ErrorModel::Webp(e).text() == "WebP encoding error: "@ + e,
        ErrorModel::Image(e).text() == "Image error: "@ + e,
        ErrorModel::InvalidPath(e).text() == "Invalid path: "@ + e,
        ErrorModel::LogError(e).text() == "Failed to write error log: "@ + e,
        ErrorModel::Pdf(e).text() == ErrorModel::Pdf(f).text() ==> e == f,
        ErrorModel::Io(e).text() == ErrorModel::Io(f).text() ==> e == f,
        ErrorModel::Webp(e).text() == ErrorModel::Webp(f).text() ==> e == f,
        ErrorModel::Walkdir(e).text() == ErrorModel::Walkdir(f).text() ==> e == f,
{
    lemma_same_behind("PDF processing error: "@, e, f);
    lemma_same_behind("IO error: "@, e, f);
    lemma_same_behind("WebP encoding error: "@, e, f);
    lemma_same_behind("Walkdir error: "@, e, f);
}

proof fn lemma_same_behind(label: Seq<char>, e: Seq<char>, f: Seq<char>)
    ensures
        label + e == label + f ==> e == f,
{
    if label + e == label + f {
        assert((label + e).skip(label.len() as int) =~= e);
        assert((label + f).skip(label.len() as int) =~= f);
    }
}

/// Where there is too little space, the words tell what there is and what it takes, and where.
pub proof fn law_too_little_space_is_told(need: u64, available: u64, path: Seq<u8>)
    ensures
        (ErrorModel::InsufficientDiskSpace { need, available, path }).text()
            == "Insufficient disk space: have "@ + decimal(available as nat)
            + " bytes, need approximately "@ + decimal(need as nat) + " bytes on "@ + path_quoted(
            path,
        ),
        ErrorModel::SourceNotFound(path).text() == "Source directory does not exist: "@ + utf8_lossy(
            path,
        ),
        ErrorModel::SourceNotDir(path).text() == "Source is not a directory: "@ + utf8_lossy(path),
        ErrorModel::NoPdfFiles.text() == "No PDF files found in source directory"@,
        ErrorModel::Cancelled.text() == "Operation cancelled by user"@,
{
}

} // verus!
