//! Capture handle: ties a byte stream to an access mode.
//!
//! A handle is created closed, with a path, a fixed mode, and an empty
//! stream. `open` attaches the current contents of the backing resource (for
//! write mode, the freshly written preamble); the write calls append encoded
//! blocks to the stream; `read_packets` walks it; `close` detaches it again
//! without touching what was written. Opening, loading and persisting the
//! backing file itself is the surrounding application's business.

use crate::codec;
use crate::codec::spec_custom_block;
use crate::codec::spec_enhanced_packet;
use crate::codec::spec_enhanced_packet_with_time;
use crate::codec::spec_preamble;
use crate::error::PcapNgError;
use crate::reader;
use crate::reader::BlockHandler;
use vstd::prelude::*;

verus! {

/// The mode a capture file is opened in.
#[derive(Debug, Clone, Copy, PartialEq, Eq, Structural)]
pub enum PcapNgOpenMode {
    /// Creates the file anew and writes the section header preamble first.
    Write,
    /// Appends blocks to an existing capture file, without a preamble.
    Append,
    /// Reads blocks from an existing capture file.
    Read,
}

/// The abstract state of a capture handle.
pub ghost struct PcapNgView {
    /// The path of the backing file, as given at construction.
    pub path: Seq<char>,
    /// The access mode, fixed at construction.
    pub mode: PcapNgOpenMode,
    /// Whether the handle currently holds its stream open.
    pub is_open: bool,
    /// The bytes of the capture stream the handle has seen or written.
    pub stream: Seq<u8>,
}

/// Holds between two handle states that agree on everything but the stream:
/// the path, the mode, and that the handle is open.
pub open spec fn unchanged_but_stream(before: PcapNgView, after: PcapNgView) -> bool {
    &&& after.path == before.path
    &&& after.mode == before.mode
    &&& after.is_open == before.is_open
}

/// A capture file handle: one byte stream, one fixed access mode.
pub struct PcapNg {
    path: String,
    mode: PcapNgOpenMode,
    is_open: bool,
    stream: Vec<u8>,
}

impl View for PcapNg {
    type V = PcapNgView;

    closed spec fn view(&self) -> PcapNgView {
        PcapNgView {
            path: self.path@,
            mode: self.mode,
            is_open: self.is_open,
            stream: self.stream@,
        }
    }
}

impl PcapNg {
    /// Creates a closed handle for `path` in the given mode.
    pub fn new(path: String, mode: PcapNgOpenMode) -> (r: Self)
        ensures
            r@.path == path@,
            r@.mode == mode,
            !r@.is_open,
            r@.stream == Seq::<u8>::empty(),
    {
        PcapNg { path, mode, is_open: false, stream: Vec::new() }
    }

    /// Opens the handle on the backing resource whose current bytes are
    /// `contents`. In write mode the stream is truncated and the section
    /// header preamble written; in append and read mode the stream starts
    /// as `contents`, and nothing is written.
    pub fn open(&mut self, contents: Vec<u8>) -> (r: Result<(), PcapNgError>)
        ensures
            r is Ok,
            final(self)@.is_open,
            final(self)@.path == old(self)@.path,
            final(self)@.mode == old(self)@.mode,
            final(self)@.stream == if old(self)@.mode == PcapNgOpenMode::Write {
                spec_preamble()
            } else {
                contents@
            },
    {
        if self.mode == PcapNgOpenMode::Write {
            self.stream = codec::encode_section_header();
        } else {
            self.stream = contents;
        }
        self.is_open = true;
        Ok(())
    }

    /// Appends one Custom Block carrying `data` under this engine's
    /// Private Enterprise Number. Fails on a handle opened in read mode,
    /// and on one not open; on failure the handle is unchanged.
    pub fn write_custom(&mut self, data: Vec<u8>) -> (r: Result<(), PcapNgError>)
        requires
            old(self)@.mode != PcapNgOpenMode::Read && old(self)@.is_open ==> (data@.len()
                <= codec::CUSTOM_PAYLOAD_MAX && old(self)@.stream.len() + data@.len() + 20
                <= usize::MAX),
        ensures
            old(self)@.mode == PcapNgOpenMode::Read ==> (r
                == Err::<(), PcapNgError>(PcapNgError::OperationOnlySupportedInWriteMode)
                && *final(self) == *old(self)),
            old(self)@.mode != PcapNgOpenMode::Read && !old(self)@.is_open ==> (r
                == Err::<(), PcapNgError>(PcapNgError::FileNotOpen) && *final(self) == *old(self)),
            old(self)@.mode != PcapNgOpenMode::Read && old(self)@.is_open ==> (r is Ok
                && final(self)@.stream == old(self)@.stream
                + spec_custom_block(codec::PCAPNG_PEN, data@)
                && unchanged_but_stream(old(self)@, final(self)@)),
    {
        if self.mode == PcapNgOpenMode::Read {
            return Err(PcapNgError::OperationOnlySupportedInWriteMode);
        }
        if !self.is_open {
            return Err(PcapNgError::FileNotOpen);
        }
        let mut block = codec::encode_custom_block(codec::PCAPNG_PEN, &data);
        proof {
            codec::lemma_padding_invariant(codec::PCAPNG_PEN, 0, data@);
        }
        self.stream.append(&mut block);
        Ok(())
    }

    /// Appends one Enhanced Packet Block without a timestamp, carrying
    /// `data` as one whole captured packet on interface zero. Fails on a
    /// handle opened in read mode, and on one not open; on failure the
    /// handle is unchanged.
    pub fn write_packet(&mut self, data: Vec<u8>) -> (r: Result<(), PcapNgError>)
        requires
            old(self)@.mode != PcapNgOpenMode::Read && old(self)@.is_open ==> (data@.len()
                <= codec::PACKET_PAYLOAD_MAX && old(self)@.stream.len() + data@.len() + 28
                <= usize::MAX),
        ensures
            old(self)@.mode == PcapNgOpenMode::Read ==> (r
                == Err::<(), PcapNgError>(PcapNgError::OperationOnlySupportedInWriteMode)
                && *final(self) == *old(self)),
            old(self)@.mode != PcapNgOpenMode::Read && !old(self)@.is_open ==> (r
                == Err::<(), PcapNgError>(PcapNgError::FileNotOpen) && *final(self) == *old(self)),
            old(self)@.mode != PcapNgOpenMode::Read && old(self)@.is_open ==> (r is Ok
                && final(self)@.stream == old(self)@.stream + spec_enhanced_packet(0, data@)
                && unchanged_but_stream(old(self)@, final(self)@)),
    {
        if self.mode == PcapNgOpenMode::Read {
            return Err(PcapNgError::OperationOnlySupportedInWriteMode);
        }
        if !self.is_open {
            return Err(PcapNgError::FileNotOpen);
        }
        let mut block = codec::encode_enhanced_packet(0, &data);
        self.stream.append(&mut block);
        Ok(())
    }

    /// Appends one Enhanced Packet Block whose timestamp low half is
    /// `timestamp` (the high half is zero), carrying `data` as one whole
    /// captured packet on interface zero. Fails on a handle opened in read
    /// mode, and on one not open; on failure the handle is unchanged.
    pub fn write_packet_with_time(&mut self, data: Vec<u8>, timestamp: u32) -> (r: Result<
        (),
        PcapNgError,
    >)
        requires
            old(self)@.mode != PcapNgOpenMode::Read && old(self)@.is_open ==> (data@.len()
                <= codec::PACKET_WITH_TIME_PAYLOAD_MAX && old(self)@.stream.len() + data@.len()
                + 36 <= usize::MAX),
        ensures
            old(self)@.mode == PcapNgOpenMode::Read ==> (r
                == Err::<(), PcapNgError>(PcapNgError::OperationOnlySupportedInWriteMode)
                && *final(self) == *old(self)),
            old(self)@.mode != PcapNgOpenMode::Read && !old(self)@.is_open ==> (r
                == Err::<(), PcapNgError>(PcapNgError::FileNotOpen) && *final(self) == *old(self)),
            old(self)@.mode != PcapNgOpenMode::Read && old(self)@.is_open ==> (r is Ok
                && final(self)@.stream == old(self)@.stream
                + spec_enhanced_packet_with_time(0, 0, timestamp, data@)
                && unchanged_but_stream(old(self)@, final(self)@)),
    {
        if self.mode == PcapNgOpenMode::Read {
            return Err(PcapNgError::OperationOnlySupportedInWriteMode);
        }
        if !self.is_open {
            return Err(PcapNgError::FileNotOpen);
        }
        let mut block = codec::encode_enhanced_packet_with_time(0, 0, timestamp, &data);
        self.stream.append(&mut block);
        Ok(())
    }

    /// Walks the stream block by block, handing each block to `handler`
    /// with a counter that starts at one, the moment it is scanned: blocks
    /// before a framing violation are delivered even when the read then
    /// fails. Without a handler the stream is still parsed and validated in
    /// full. Fails on a handle not opened in read mode, on one not open
    /// (the handler is then never invoked), and on a framing violation in
    /// the stream. The handle itself is unchanged.
    pub fn read_packets<H: BlockHandler>(&mut self, handler: Option<&mut H>) -> (r: Result<
        (),
        PcapNgError,
    >)
        requires
            old(self)@.mode == PcapNgOpenMode::Read && old(self)@.is_open && handler is Some
                ==> old(self)@.stream.len() <= 12 * 0xFFFF_FFFF,
        ensures
            *final(self) == *old(self),
            old(self)@.mode != PcapNgOpenMode::Read ==> (r
                == Err::<(), PcapNgError>(PcapNgError::OperationOnlySupportedInReadMode)),
            old(self)@.mode == PcapNgOpenMode::Read && !old(self)@.is_open ==> (r
                == Err::<(), PcapNgError>(PcapNgError::FileNotOpen)),
            old(self)@.mode == PcapNgOpenMode::Read && old(self)@.is_open ==> ((r is Ok
                <==> reader::spec_parse(old(self)@.stream) is Some) && (r is Err ==> r
                == Err::<(), PcapNgError>(PcapNgError::FramingError))),
            old(self)@.mode == PcapNgOpenMode::Read && old(self)@.is_open && handler is Some
                ==> (final(handler->Some_0).seen() == old(handler->Some_0).seen()
                + reader::spec_deliveries(reader::spec_parse_prefix(old(self)@.stream))),
            (old(self)@.mode != PcapNgOpenMode::Read || !old(self)@.is_open) && handler is Some
                ==> (final(handler->Some_0).seen() == old(handler->Some_0).seen()),
    {
        if self.mode != PcapNgOpenMode::Read {
            return Err(PcapNgError::OperationOnlySupportedInReadMode);
        }
        if !self.is_open {
            return Err(PcapNgError::FileNotOpen);
        }
        reader::read_all(&self.stream, handler)
    }

    /// Closes the handle. Safe to call on a handle never opened and safe to
    /// call twice: it never fails, and it leaves the stream exactly as
    /// written.
    pub fn close(&mut self)
        ensures
            !final(self)@.is_open,
            final(self)@.path == old(self)@.path,
            final(self)@.mode == old(self)@.mode,
            final(self)@.stream == old(self)@.stream,
    {
        self.is_open = false;
    }

    /// The bytes of the capture stream as the handle holds them.
    pub fn contents(&self) -> (r: &Vec<u8>)
        ensures
            r@ == self@.stream,
    {
        &self.stream
    }

    /// The path of the backing file, as given at construction.
    pub fn path(&self) -> (r: &String)
        ensures
            r@ == self@.path,
    {
        &self.path
    }

    /// The access mode the handle was created with.
    pub fn mode(&self) -> (r: PcapNgOpenMode)
        ensures
            r == self@.mode,
    {
        self.mode
    }

    /// Whether the handle currently holds its stream open.
    pub fn is_open(&self) -> (r: bool)
        ensures
            r == self@.is_open,
    {
        self.is_open
    }
}

} // verus!
