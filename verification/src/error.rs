//! Error kinds reported by the capture engine.

use vstd::prelude::*;

verus! {

/// Errors reported by the capture handle and the stream reader.
#[derive(Debug)]
pub enum PcapNgError {
    /// The backing resource could not be opened.
    FileOpenError,
    /// The backing resource could not be flushed or closed.
    FileCloseError,
    /// An operation was attempted before `open` or after `close`.
    FileNotOpen,
    /// A read operation was attempted on a handle not opened in read mode.
    OperationOnlySupportedInReadMode,
    /// A write operation was attempted on a handle opened in read mode.
    OperationOnlySupportedInWriteMode,
    /// The double-length framing of a block did not hold: the trailing
    /// length differed from the leading one, the declared length was not a
    /// multiple of four bytes at least twelve bytes long, or the stream
    /// ended before the declared length.
    FramingError,
    /// A catch-all for other errors, carrying a description.
    UnknownError(String),
}

} // verus!
