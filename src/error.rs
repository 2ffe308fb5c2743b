use vstd::prelude::*;

verus! {

/// Every way an object operation can fail.
#[derive(Debug, Clone, PartialEq, Eq)]
pub enum ObjectError {
    /// Reading or writing the underlying bytes failed.
    Io,
    /// The digest text is not exactly 40 hexadecimal characters.
    InvalidDigest,
    /// No object is stored under the digest.
    NotFound,
    /// The header terminator is missing or the header is malformed.
    CorruptObject,
    /// The header names a kind that is not supported; the raw token is kept.
    UnknownKind(Vec<u8>),
    /// Fewer content bytes are present than the header declares.
    TruncatedObject,
    /// Bytes follow the declared content.
    TrailingData,
}

/// The mathematical value of an [`ObjectError`].
pub enum ErrorView {
    Io,
    InvalidDigest,
    NotFound,
    CorruptObject,
    UnknownKind(Seq<u8>),
    TruncatedObject,
    TrailingData,
}

impl View for ObjectError {
    type V = ErrorView;

    open spec fn view(&self) -> ErrorView {
        match self {
            ObjectError::Io => ErrorView::Io,
            ObjectError::InvalidDigest => ErrorView::InvalidDigest,
            ObjectError::NotFound => ErrorView::NotFound,
            ObjectError::CorruptObject => ErrorView::CorruptObject,
            ObjectError::UnknownKind(t) => ErrorView::UnknownKind(t@),
            ObjectError::TruncatedObject => ErrorView::TruncatedObject,
            ObjectError::TrailingData => ErrorView::TrailingData,
        }
    }
}

} // verus!
