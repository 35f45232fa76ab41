//! The failures that a client reports.

use vstd::prelude::*;
use crate::bytes::{bytes_of, copy_bytes, is_text, push_all, text};

verus! {

/// The category of an error that the server signalled, chosen by the leading
/// token of its error line.
#[derive(Clone, Copy, Debug, PartialEq, Eq)]
pub enum Category {
    /// `ERR`: the server refused the request.
    Response,
    /// `EXECABORT`: a script execution was aborted.
    ExecAbort,
    /// `LOADING`: the server is loading its data.
    BusyLoading,
    /// `NOSCRIPT`: the script asked for does not exist.
    NoScript,
    /// `MOVED`: the key lives on another node.
    Moved,
    /// `ASK`: the key is moving to another node.
    Ask,
    /// `TRYAGAIN`: the request must be retried.
    TryAgain,
    /// `CLUSTERDOWN`: the cluster is down.
    ClusterDown,
    /// `CROSSSLOT`: the request spans several slots.
    CrossSlot,
    /// `MASTERDOWN`: the master is unavailable.
    MasterDown,
    /// `READONLY`: a write went to a read-only server.
    ReadOnly,
    /// `NOTBUSY`: nothing was running that could be stopped.
    NotBusy,
}

/// A failure of the client or of the server, as the caller sees it.
#[derive(Clone, Debug, PartialEq, Eq)]
pub enum ClientError {
    /// The transport could not be established.
    ConnectFailed,
    /// An operation was attempted while the connection was not open.
    ConnectionError,
    /// Sending or receiving failed on a connection that was taken to be open.
    TransportError,
    /// The reply bytes are malformed, or the stream ended inside a frame.
    FramingError,
    /// An integer reply does not fit the 64-bit signed range.
    DecodeError,
    /// The server answered with an error of a known category.
    ServerError { category: Category, detail: Vec<u8>, code: Vec<u8> },
    /// The value is not of the kind that the operation needs: the server said
    /// so with an error outside the known categories (then `code` is its
    /// leading token), or the reply has the wrong shape (then `code` is empty).
    TypeMismatch { detail: Vec<u8>, code: Vec<u8> },
    /// The key holds a type that a generic fetch cannot return.
    UnsupportedType,
}

/// The mathematical value of a failure.
pub enum ErrorView {
    ConnectFailed,
    ConnectionError,
    TransportError,
    FramingError,
    DecodeError,
    ServerError { category: Category, detail: Seq<u8>, code: Seq<u8> },
    TypeMismatch { detail: Seq<u8>, code: Seq<u8> },
    UnsupportedType,
}

impl View for ClientError {
    type V = ErrorView;

    open spec fn view(&self) -> ErrorView {
        match self {
            ClientError::ConnectFailed => ErrorView::ConnectFailed,
            ClientError::ConnectionError => ErrorView::ConnectionError,
            ClientError::TransportError => ErrorView::TransportError,
            ClientError::FramingError => ErrorView::FramingError,
            ClientError::DecodeError => ErrorView::DecodeError,
            ClientError::ServerError { category, detail, code } => ErrorView::ServerError {
                category: *category,
                detail: detail@,
                code: code@,
            },
            ClientError::TypeMismatch { detail, code } => ErrorView::TypeMismatch {
                detail: detail@,
                code: code@,
            },
            ClientError::UnsupportedType => ErrorView::UnsupportedType,
        }
    }
}

/// The category that the leading token of an error line stands for, if it is
/// one of the known ones.
pub open spec fn category_of(code: Seq<u8>) -> Option<Category> {
    if code == text("ERR") {
        Some(Category::Response)
    } else if code == text("EXECABORT") {
        Some(Category::ExecAbort)
    } else if code == text("LOADING") {
        Some(Category::BusyLoading)
    } else if code == text("NOSCRIPT") {
        Some(Category::NoScript)
    } else if code == text("MOVED") {
        Some(Category::Moved)
    } else if code == text("ASK") {
        Some(Category::Ask)
    } else if code == text("TRYAGAIN") {
        Some(Category::TryAgain)
    } else if code == text("CLUSTERDOWN") {
        Some(Category::ClusterDown)
    } else if code == text("CROSSSLOT") {
        Some(Category::CrossSlot)
    } else if code == text("MASTERDOWN") {
        Some(Category::MasterDown)
    } else if code == text("READONLY") {
        Some(Category::ReadOnly)
    } else if code == text("NOTBUSY") {
        Some(Category::NotBusy)
    } else {
        None
    }
}

/// The failure that an error reply stands for: a server error when its
/// leading token names a known category, a type mismatch otherwise.
pub open spec fn classified(code: Seq<u8>, message: Seq<u8>) -> ErrorView {
    match category_of(code) {
        Some(category) => ErrorView::ServerError { category, detail: message, code },
        None => ErrorView::TypeMismatch { detail: message, code },
    }
}

/// The failure that a reply of the wrong shape stands for.
pub open spec fn shape_mismatch() -> ErrorView {
    ErrorView::TypeMismatch { detail: Seq::empty(), code: Seq::empty() }
}

impl Category {
    /// The category that the leading token `code` stands for.
    pub fn of_code(code: &[u8]) -> (category: Option<Category>)
        ensures
            category == category_of(code@),
    {
        if is_text(code, "ERR") {
            Some(Category::Response)
        } else if is_text(code, "EXECABORT") {
            Some(Category::ExecAbort)
        } else if is_text(code, "LOADING") {
            Some(Category::BusyLoading)
        } else if is_text(code, "NOSCRIPT") {
            Some(Category::NoScript)
        } else if is_text(code, "MOVED") {
            Some(Category::Moved)
        } else if is_text(code, "ASK") {
            Some(Category::Ask)
        } else if is_text(code, "TRYAGAIN") {
            Some(Category::TryAgain)
        } else if is_text(code, "CLUSTERDOWN") {
            Some(Category::ClusterDown)
        } else if is_text(code, "CROSSSLOT") {
            Some(Category::CrossSlot)
        } else if is_text(code, "MASTERDOWN") {
            Some(Category::MasterDown)
        } else if is_text(code, "READONLY") {
            Some(Category::ReadOnly)
        } else if is_text(code, "NOTBUSY") {
            Some(Category::NotBusy)
        } else {
            None
        }
    }

    /// The display name of the category.
    pub open spec fn name_text(self) -> Seq<u8> {
        match self {
            Category::Response => text("response error"),
            Category::ExecAbort => text("script execution aborted"),
            Category::BusyLoading => text("busy loading"),
            Category::NoScript => text("no script"),
            Category::Moved => text("key moved"),
            Category::Ask => text("key moved (ask)"),
            Category::TryAgain => text("try again"),
            Category::ClusterDown => text("cluster down"),
            Category::CrossSlot => text("cross-slot"),
            Category::MasterDown => text("master down"),
            Category::ReadOnly => text("read-only"),
            Category::NotBusy => text("not busy"),
        }
    }

    /// The display name of the category.
    pub fn name(&self) -> (name: &'static str)
        ensures
            text(name) == self.name_text(),
    {
        match self {
            Category::Response => "response error",
            Category::ExecAbort => "script execution aborted",
            Category::BusyLoading => "busy loading",
            Category::NoScript => "no script",
            Category::Moved => "key moved",
            Category::Ask => "key moved (ask)",
            Category::TryAgain => "try again",
            Category::ClusterDown => "cluster down",
            Category::CrossSlot => "cross-slot",
            Category::MasterDown => "master down",
            Category::ReadOnly => "read-only",
            Category::NotBusy => "not busy",
        }
    }
}

impl ClientError {
    /// Classifies an error reply by its leading token.
    pub fn classify(code: Vec<u8>, message: Vec<u8>) -> (error: ClientError)
        ensures
            error@ == classified(code@, message@),
    {
        match Category::of_code(code.as_slice()) {
            Some(category) => ClientError::ServerError { category, detail: message, code },
            None => ClientError::TypeMismatch { detail: message, code },
        }
    }
}

/// The category of a failure, as text. Failures of the transport and of the
/// framing have fixed categories; a server error has that of its leading
/// token.
pub open spec fn category_text(e: ErrorView) -> Seq<u8> {
    match e {
        ErrorView::ConnectFailed => text("connect failed"),
        ErrorView::ConnectionError => text("connection error"),
        ErrorView::TransportError => text("I/O error"),
        ErrorView::FramingError => text("framing error"),
        ErrorView::DecodeError => text("decode error"),
        ErrorView::ServerError { category, .. } => category.name_text(),
        ErrorView::TypeMismatch { code, .. } => if code.len() == 0 {
            text("type error")
        } else {
            text("extension error")
        },
        ErrorView::UnsupportedType => text("unsupported type"),
    }
}

/// The detail of a failure: what the server said after the leading token,
/// or `not specified` where there is nothing.
pub open spec fn detail_text(e: ErrorView) -> Seq<u8> {
    match e {
        ErrorView::ServerError { detail, .. } if detail.len() > 0 => detail,
        ErrorView::TypeMismatch { detail, .. } if detail.len() > 0 => detail,
        _ => text("not specified"),
    }
}

/// The code of a failure: the leading token of the server's error line, or
/// `unknown` where there is none.
pub open spec fn code_text(e: ErrorView) -> Seq<u8> {
    match e {
        ErrorView::ServerError { code, .. } if code.len() > 0 => code,
        ErrorView::TypeMismatch { code, .. } if code.len() > 0 => code,
        _ => text("unknown"),
    }
}

/// The diagnostic text of a failure: category, detail and code, each behind
/// its label. A type that a generic fetch cannot return has a text of its
/// own.
pub open spec fn message_text(e: ErrorView) -> Seq<u8> {
    if e is UnsupportedType {
        text("field type unknown")
    } else {
        text("Redis Error: ") + category_text(e) + text("\nDetails: ") + detail_text(e) + text(
            "\nCode: ",
        ) + code_text(e)
    }
}

impl ClientError {
    /// The category of the failure, as text.
    pub fn category(&self) -> (out: Vec<u8>)
        ensures
            out@ == category_text(self@),
    {
        match self {
            ClientError::ConnectFailed => bytes_of("connect failed"),
            ClientError::ConnectionError => bytes_of("connection error"),
            ClientError::TransportError => bytes_of("I/O error"),
            ClientError::FramingError => bytes_of("framing error"),
            ClientError::DecodeError => bytes_of("decode error"),
            ClientError::ServerError { category, .. } => bytes_of(category.name()),
            ClientError::TypeMismatch { code, .. } => if code.len() == 0 {
                bytes_of("type error")
            } else {
                bytes_of("extension error")
            },
            ClientError::UnsupportedType => bytes_of("unsupported type"),
        }
    }

    /// The detail of the failure, `not specified` where there is none.
    pub fn detail(&self) -> (out: Vec<u8>)
        ensures
            out@ == detail_text(self@),
    {
        match self {
            ClientError::ServerError { detail, .. } => if detail.len() > 0 {
                copy_bytes(detail.as_slice())
            } else {
                bytes_of("not specified")
            },
            ClientError::TypeMismatch { detail, .. } => if detail.len() > 0 {
                copy_bytes(detail.as_slice())
            } else {
                bytes_of("not specified")
            },
            _ => bytes_of("not specified"),
        }
    }

    /// The code of the failure, `unknown` where there is none.
    pub fn code(&self) -> (out: Vec<u8>)
        ensures
            out@ == code_text(self@),
    {
        match self {
            ClientError::ServerError { code, .. } => if code.len() > 0 {
                copy_bytes(code.as_slice())
            } else {
                bytes_of("unknown")
            },
            ClientError::TypeMismatch { code, .. } => if code.len() > 0 {
                copy_bytes(code.as_slice())
            } else {
                bytes_of("unknown")
            },
            _ => bytes_of("unknown"),
        }
    }

    /// The diagnostic text of the failure.
    pub fn message(&self) -> (out: Vec<u8>)
        ensures
            out@ == message_text(self@),
    {
        if let ClientError::UnsupportedType = self {
            return bytes_of("field type unknown");
        }
        let mut out: Vec<u8> = bytes_of("Redis Error: ");
        let category = self.category();
        push_all(&mut out, category.as_slice());
        push_all(&mut out, "\nDetails: ".as_bytes());
        let detail = self.detail();
        push_all(&mut out, detail.as_slice());
        push_all(&mut out, "\nCode: ".as_bytes());
        let code = self.code();
        push_all(&mut out, code.as_slice());
        out
    }
}

} // verus!
