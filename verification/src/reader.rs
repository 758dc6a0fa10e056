//! Stream reader: walks a byte stream block by block.
//!
//! The reader starts at a block boundary, reads the eight-byte header, checks
//! that the declared total length is plausible and present in full, checks
//! the trailing length against the leading one, and hands the block to the
//! caller's handler before moving to the next boundary. A clean end of the
//! stream ends the walk; a short or inconsistent block is a framing error.

use crate::codec::is_encoded_block;
use crate::codec::lemma_custom_block_well_formed;
use crate::codec::lemma_preamble_well_formed;
use crate::codec::pad_len;
use crate::codec::spec_custom_block;
use crate::codec::spec_idb;
use crate::codec::spec_le32;
use crate::codec::spec_preamble;
use crate::codec::spec_shb;
use crate::codec::spec_u32_at;
use crate::codec::zeros;
use crate::codec::CUSTOM_BLOCK_TYPE;
use crate::codec::CUSTOM_PAYLOAD_MAX;
use crate::error::PcapNgError;
use vstd::prelude::*;

verus! {

/// The abstract content of one parsed block: its type, its total length,
/// and its body (the bytes between the leading and the trailing length).
pub ghost struct SpecBlock {
    /// The 32-bit block type.
    pub block_type: u32,
    /// The declared total length of the block, framing words included.
    pub total_length: u32,
    /// The body: `total_length - 12` bytes after the header, padding kept.
    pub payload: Seq<u8>,
}

/// One parsed block as handed to callers.
pub struct BlockRecord {
    /// The 32-bit block type.
    pub block_type: u32,
    /// The declared total length of the block, framing words included.
    pub total_length: u32,
    /// The body: `total_length - 12` bytes after the header, padding kept.
    pub payload: Vec<u8>,
}

impl View for BlockRecord {
    type V = SpecBlock;

    open spec fn view(&self) -> SpecBlock {
        SpecBlock { block_type: self.block_type, total_length: self.total_length, payload: self.payload@ }
    }
}

/// The sequence of abstract blocks a sequence of records stands for.
pub open spec fn records_view(records: Seq<BlockRecord>) -> Seq<SpecBlock> {
    records.map_values(|b: BlockRecord| b@)
}

/// Parses a byte stream into its blocks. `None` is a framing error: a
/// nonempty rest too short for a header, a declared length below twelve or
/// not a multiple of four, a stream shorter than a declared length, or a
/// trailing length that differs from the leading one.
pub open spec fn spec_parse(s: Seq<u8>) -> Option<Seq<SpecBlock>>
    decreases s.len(),
{
    if s.len() == 0 {
        Some(Seq::empty())
    } else if s.len() < 8 {
        None
    } else {
        let total = spec_u32_at(s, 4);
        if total < 12 || total % 4 != 0 || s.len() < total {
            None
        } else if spec_u32_at(s, total - 4) != total {
            None
        } else {
            match spec_parse(s.skip(total)) {
                Some(rest) => Some(
                    seq![
                        SpecBlock {
                            block_type: spec_u32_at(s, 0) as u32,
                            total_length: total as u32,
                            payload: s.subrange(8, total - 4),
                        },
                    ] + rest,
                ),
                None => None,
            }
        }
    }
}

/// Decoding four bytes of a suffix reads the same bytes as the whole.
proof fn lemma_u32_at_skip(s: Seq<u8>, off: int, i: int)
    requires
        0 <= off,
        0 <= i,
        off + i + 4 <= s.len(),
    ensures
        spec_u32_at(s.skip(off), i) == spec_u32_at(s, off + i),
{
    assert(s.skip(off)[i] == s[off + i]);
    assert(s.skip(off)[i + 1] == s[off + i + 1]);
    assert(s.skip(off)[i + 2] == s[off + i + 2]);
    assert(s.skip(off)[i + 3] == s[off + i + 3]);
}

/// The records of the longest well-framed prefix of `s`: where `spec_parse`
/// fails the whole stream on the first framing violation, this keeps the
/// complete blocks scanned before it.
pub open spec fn spec_parse_prefix(s: Seq<u8>) -> Seq<SpecBlock>
    decreases s.len(),
{
    if s.len() < 8 {
        Seq::empty()
    } else {
        let total = spec_u32_at(s, 4);
        if total < 12 || total % 4 != 0 || s.len() < total || spec_u32_at(s, total - 4) != total {
            Seq::empty()
        } else {
            seq![
                SpecBlock {
                    block_type: spec_u32_at(s, 0) as u32,
                    total_length: total as u32,
                    payload: s.subrange(8, total - 4),
                },
            ] + spec_parse_prefix(s.skip(total))
        }
    }
}

/// On a stream that parses in full, the longest well-framed prefix is the
/// whole stream: both readings agree.
pub proof fn lemma_parse_prefix_complete(s: Seq<u8>)
    requires
        spec_parse(s) is Some,
    ensures
        spec_parse_prefix(s) == spec_parse(s).unwrap(),
    decreases s.len(),
{
    if s.len() == 0 {
        assert(spec_parse_prefix(s) =~= spec_parse(s).unwrap());
    } else {
        let total = spec_u32_at(s, 4);
        lemma_parse_prefix_complete(s.skip(total));
    }
}

/// The record a well-framed block parses into: its leading type word, its
/// length, and its body.
pub open spec fn spec_block_record(b: Seq<u8>) -> SpecBlock {
    SpecBlock {
        block_type: spec_u32_at(b, 0) as u32,
        total_length: b.len() as u32,
        payload: b.subrange(8, b.len() - 4),
    }
}

/// Parsing a stream that starts with a well-framed block yields that
/// block's record followed by the parse of the rest.
pub proof fn lemma_parse_prepend_block(b: Seq<u8>, rest: Seq<u8>)
    requires
        is_encoded_block(b),
        spec_parse(rest) is Some,
    ensures
        spec_parse(b + rest) == Some(seq![spec_block_record(b)] + spec_parse(rest).unwrap()),
{
    let s = b + rest;
    assert forall|i: int| 0 <= i < b.len() implies s[i] == b[i] by {}
    assert(spec_u32_at(s, 0) == spec_u32_at(b, 0));
    assert(spec_u32_at(s, 4) == spec_u32_at(b, 4));
    assert(spec_u32_at(s, b.len() - 4) == spec_u32_at(b, b.len() - 4));
    assert(s.subrange(8, b.len() - 4) =~= b.subrange(8, b.len() - 4));
    assert(s.skip(b.len() as int) =~= rest);
}

/// Truncation law: a well-framed block cut short by its last byte no longer
/// parses; the reader reports a framing error instead of a block.
pub proof fn lemma_truncated_block_fails(b: Seq<u8>)
    requires
        is_encoded_block(b),
    ensures
        spec_parse(b.take(b.len() - 1)) is None,
{
    let t = b.take(b.len() - 1);
    assert(spec_u32_at(t, 4) == spec_u32_at(b, 4));
}

/// The bytes of a run of custom blocks, one per payload, in order.
pub open spec fn spec_custom_stream(pen: u32, payloads: Seq<Seq<u8>>) -> Seq<u8>
    decreases payloads.len(),
{
    if payloads.len() == 0 {
        Seq::empty()
    } else {
        spec_custom_block(pen, payloads[0]) + spec_custom_stream(pen, payloads.skip(1))
    }
}

/// The record a custom block with the given payload parses back into: the
/// custom block type, and a body of the enterprise number, the payload, and
/// its zero padding.
pub open spec fn spec_custom_record(pen: u32, payload: Seq<u8>) -> SpecBlock {
    SpecBlock {
        block_type: CUSTOM_BLOCK_TYPE,
        total_length: (16 + payload.len() + pad_len(payload.len() as int)) as u32,
        payload: spec_le32(pen as int) + payload + zeros(pad_len(payload.len() as int)),
    }
}

/// Round-trip law: a stream of encoded custom blocks parses back into one
/// record per block, in writing order; record `i` holds the `i`-th payload
/// (after the four enterprise-number bytes, before the padding).
pub proof fn lemma_custom_round_trip(pen: u32, payloads: Seq<Seq<u8>>)
    requires
        forall|i: int|
            0 <= i < payloads.len() ==> #[trigger] payloads[i].len() <= CUSTOM_PAYLOAD_MAX,
    ensures
        spec_parse(spec_custom_stream(pen, payloads)) == Some(
            payloads.map_values(|p: Seq<u8>| spec_custom_record(pen, p)),
        ),
        forall|i: int|
            0 <= i < payloads.len() ==> #[trigger] spec_custom_record(
                pen,
                payloads[i],
            ).payload.subrange(4, 4 + payloads[i].len() as int) == payloads[i],
    decreases payloads.len(),
{
    assert forall|i: int| 0 <= i < payloads.len() implies #[trigger] spec_custom_record(
        pen,
        payloads[i],
    ).payload.subrange(4, 4 + payloads[i].len() as int) == payloads[i] by {
        assert(spec_custom_record(pen, payloads[i]).payload.subrange(4, 4 + payloads[i].len() as int)
            =~= payloads[i]);
    }
    if payloads.len() == 0 {
        assert(payloads.map_values(|p: Seq<u8>| spec_custom_record(pen, p)) =~= Seq::<
            SpecBlock,
        >::empty());
    } else {
        let first = payloads[0];
        let tail = payloads.skip(1);
        assert(forall|i: int| 0 <= i < tail.len() ==> #[trigger] tail[i].len()
            <= CUSTOM_PAYLOAD_MAX);
        lemma_custom_round_trip(pen, tail);
        lemma_custom_block_well_formed(pen, first);
        lemma_parse_prepend_block(spec_custom_block(pen, first), spec_custom_stream(pen, tail));
        assert(spec_block_record(spec_custom_block(pen, first)) == spec_custom_record(pen, first));
        assert(seq![spec_custom_record(pen, first)] + tail.map_values(
            |p: Seq<u8>| spec_custom_record(pen, p),
        ) =~= payloads.map_values(|p: Seq<u8>| spec_custom_record(pen, p)));
    }
}

/// A freshly written capture stream — the preamble, then any run of custom
/// blocks — parses into the section header record, the interface record,
/// and one record per custom block, in writing order.
pub proof fn lemma_capture_stream_parses(pen: u32, payloads: Seq<Seq<u8>>)
    requires
        forall|i: int|
            0 <= i < payloads.len() ==> #[trigger] payloads[i].len() <= CUSTOM_PAYLOAD_MAX,
    ensures
        spec_parse(spec_preamble() + spec_custom_stream(pen, payloads)) == Some(
            seq![spec_block_record(spec_shb()), spec_block_record(spec_idb())]
                + payloads.map_values(|p: Seq<u8>| spec_custom_record(pen, p)),
        ),
{
    lemma_custom_round_trip(pen, payloads);
    lemma_preamble_well_formed();
    let customs = spec_custom_stream(pen, payloads);
    let records = payloads.map_values(|p: Seq<u8>| spec_custom_record(pen, p));
    lemma_parse_prepend_block(spec_idb(), customs);
    lemma_parse_prepend_block(spec_shb(), spec_idb() + customs);
    assert(spec_preamble() + customs =~= spec_shb() + (spec_idb() + customs));
    assert(seq![spec_block_record(spec_shb())] + (seq![spec_block_record(spec_idb())] + records)
        =~= seq![spec_block_record(spec_shb()), spec_block_record(spec_idb())] + records);
}

/// One handler invocation, as a handler's ghost history records it: the
/// counter and the block that was handed over.
pub ghost struct SpecDelivery {
    /// The counter passed with the block, starting at one.
    pub block_counter: u32,
    /// The 32-bit block type passed with the block.
    pub block_type: u32,
    /// The declared total length passed with the block.
    pub total_length: u32,
    /// The body passed with the block.
    pub payload: Seq<u8>,
}

/// The handler invocations a run of parsed records gives rise to: one per
/// record, in order, with counters running from one.
pub open spec fn spec_deliveries(records: Seq<SpecBlock>) -> Seq<SpecDelivery> {
    Seq::new(
        records.len(),
        |i: int|
            SpecDelivery {
                block_counter: (i + 1) as u32,
                block_type: records[i].block_type,
                total_length: records[i].total_length,
                payload: records[i].payload,
            },
    )
}

/// Delivery law: on a freshly written capture stream — the preamble, then
/// any run of custom blocks — the reader hands its handler exactly the
/// section header record, the interface record and one record per custom
/// block, in writing order (the counters from one stand in
/// `spec_deliveries`).
pub proof fn lemma_capture_stream_delivered(pen: u32, payloads: Seq<Seq<u8>>)
    requires
        forall|i: int|
            0 <= i < payloads.len() ==> #[trigger] payloads[i].len() <= CUSTOM_PAYLOAD_MAX,
    ensures
        spec_parse_prefix(spec_preamble() + spec_custom_stream(pen, payloads)) == seq![
            spec_block_record(spec_shb()),
            spec_block_record(spec_idb()),
        ] + payloads.map_values(|p: Seq<u8>| spec_custom_record(pen, p)),
{
    lemma_capture_stream_parses(pen, payloads);
    lemma_parse_prefix_complete(spec_preamble() + spec_custom_stream(pen, payloads));
}

/// The capability a caller hands to the reader: one call per parsed block,
/// in on-disk order, with a counter that starts at one. The ghost history
/// `seen` pins what the reader handed over: every implementation records
/// each call, so the reader's contract can say which blocks were delivered.
pub trait BlockHandler {
    /// The blocks this handler has been handed so far, in order. A handler
    /// verified against this trait overrides this with its own history,
    /// since the default cannot satisfy `on_block`'s contract; it stands
    /// only so that unverified handlers need not define ghost state.
    open spec fn seen(&self) -> Seq<SpecDelivery> {
        Seq::empty()
    }

    /// Receives the `block_counter`-th block of the stream with its type,
    /// its declared total length, and its body, and records the call.
    fn on_block(&mut self, block_counter: u32, block_type: u32, total_length: u32, payload: Vec<u8>)
        ensures
            final(self).seen() == old(self).seen().push(
                (SpecDelivery { block_counter, block_type, total_length, payload: payload@ }),
            ),
    ;
}

/// A handler that ignores every block at run time: with it the reader only
/// parses and validates the stream.
pub struct NoopBlockHandler {
    history: Ghost<Seq<SpecDelivery>>,
}

impl NoopBlockHandler {
    /// A handler with an empty history.
    pub fn new() -> (r: NoopBlockHandler)
        ensures
            r.seen() == Seq::<SpecDelivery>::empty(),
    {
        NoopBlockHandler { history: Ghost(Seq::empty()) }
    }
}

impl BlockHandler for NoopBlockHandler {
    closed spec fn seen(&self) -> Seq<SpecDelivery> {
        self.history@
    }

    fn on_block(
        &mut self,
        block_counter: u32,
        block_type: u32,
        total_length: u32,
        payload: Vec<u8>,
    ) {
        proof {
            self.history@ = self.history@.push(
                SpecDelivery { block_counter, block_type, total_length, payload: payload@ },
            );
        }
    }
}

/// Reads the eight-byte block header at `offset`: the block type and the
/// declared total length.
pub fn decode_block_header(stream: &Vec<u8>, offset: usize) -> (r: (u32, u32))
    requires
        offset + 8 <= stream@.len(),
    ensures
        r.0 as int == spec_u32_at(stream@, offset as int),
        r.1 as int == spec_u32_at(stream@, offset as int + 4),
{
    let _stream_len = stream.len();
    let block_type = crate::codec::get_u32_le(stream, offset);
    let total_length = crate::codec::get_u32_le(stream, offset + 4);
    (block_type, total_length)
}

/// Extracts the body of the block whose header stands at `offset`: the
/// `total_length - 12` bytes after the header. Fails with a framing error
/// when the declared length is below twelve or not a multiple of four, when
/// the stream ends before the declared length, or when the trailing length
/// differs from the declared one.
pub fn decode_block_payload(stream: &Vec<u8>, offset: usize, total_length: u32) -> (r: Result<
    Vec<u8>,
    PcapNgError,
>)
    requires
        offset + 8 <= stream@.len(),
    ensures
        ({
            let t = total_length as int;
            let off = offset as int;
            let well_framed = 12 <= t && t % 4 == 0 && off + t <= stream@.len() && spec_u32_at(
                stream@,
                off + t - 4,
            ) == t;
            match r {
                Ok(payload) => well_framed && payload@ == stream@.subrange(off + 8, off + t - 4),
                Err(e) => !well_framed && e is FramingError,
            }
        }),
{
    let n = stream.len();
    if total_length < 12 || total_length % 4 != 0 {
        return Err(PcapNgError::FramingError);
    }
    let total = total_length as usize;
    if n - offset < total {
        return Err(PcapNgError::FramingError);
    }
    let trailing = crate::codec::get_u32_le(stream, offset + total - 4);
    if trailing != total_length {
        return Err(PcapNgError::FramingError);
    }
    let payload_end = offset + total - 4;
    let mut payload: Vec<u8> = Vec::new();
    let mut j = offset + 8;
    while j < payload_end
        invariant
            offset + 8 <= j <= payload_end,
            payload_end <= stream@.len(),
            payload@ == stream@.subrange(offset as int + 8, j as int),
        decreases payload_end - j,
    {
        payload.push(stream[j]);
        j = j + 1;
        proof {
            assert(payload@ =~= stream@.subrange(offset as int + 8, j as int));
        }
    }
    proof {
        assert(payload@ =~= stream@.subrange(
            offset as int + 8,
            offset as int + total_length as int - 4,
        ));
    }
    Ok(payload)
}

/// Parses the whole stream into one record per block, in on-disk order.
/// Succeeds exactly when the stream is a clean sequence of well-framed
/// blocks; any framing violation fails the whole read.
pub fn read_all_blocks(stream: &Vec<u8>) -> (r: Result<Vec<BlockRecord>, PcapNgError>)
    ensures
        match r {
            Ok(records) => spec_parse(stream@) == Some(records_view(records@)),
            Err(e) => spec_parse(stream@) is None && e is FramingError,
        },
{
    let n = stream.len();
    let mut records: Vec<BlockRecord> = Vec::new();
    let mut offset: usize = 0;
    proof {
        assert(stream@.skip(0) =~= stream@);
        assert(records_view(records@) =~= Seq::<SpecBlock>::empty());
    }
    while offset < n
        invariant
            offset <= n == stream@.len(),
            match spec_parse(stream@.skip(offset as int)) {
                Some(rest) => spec_parse(stream@) == Some(records_view(records@) + rest),
                None => spec_parse(stream@) is None,
            },
        decreases n - offset,
    {
        let ghost t = stream@.skip(offset as int);
        let remaining = n - offset;
        if remaining < 8 {
            return Err(PcapNgError::FramingError);
        }
        let (block_type, total_length) = decode_block_header(stream, offset);
        proof {
            lemma_u32_at_skip(stream@, offset as int, 0);
            lemma_u32_at_skip(stream@, offset as int, 4);
            if 12 <= total_length as int <= stream@.len() - offset as int {
                lemma_u32_at_skip(stream@, offset as int, total_length as int - 4);
            }
        }
        let payload = match decode_block_payload(stream, offset, total_length) {
            Ok(p) => p,
            Err(_) => {
                return Err(PcapNgError::FramingError);
            },
        };
        let record = BlockRecord { block_type, total_length, payload };
        let ghost old_records = records@;
        records.push(record);
        offset = offset + (total_length as usize);
        proof {
            assert(t.subrange(8, total_length as int - 4) =~= stream@.subrange(
                offset as int - total_length as int + 8,
                offset as int - 4,
            ));
            assert(t.skip(total_length as int) =~= stream@.skip(offset as int));
            assert(records_view(records@) =~= records_view(old_records) + seq![record@]);
            match spec_parse(stream@.skip(offset as int)) {
                Some(rest) => {
                    assert(spec_parse(t) == Some(seq![record@] + rest));
                    assert(records_view(old_records) + (seq![record@] + rest) =~= records_view(
                        records@,
                    ) + rest);
                },
                None => {},
            }
        }
    }
    proof {
        assert(stream@.skip(offset as int) =~= Seq::<u8>::empty());
        assert(records_view(records@) + Seq::<SpecBlock>::empty() =~= records_view(records@));
    }
    Ok(records)
}

/// Walks the stream block by block, handing each block to `handler` the
/// moment it is scanned — blocks before a framing violation are delivered
/// even when the read then fails. The handler's history ends extended by
/// exactly the deliveries of the longest well-framed prefix, with counters
/// from one in on-disk order; the result is `Ok` exactly when the whole
/// stream is well framed.
#[verifier::loop_isolation(false)]
#[verifier::rlimit(60)]
pub fn read_all_into<H: BlockHandler>(stream: &Vec<u8>, handler: &mut H) -> (r: Result<
    (),
    PcapNgError,
>)
    requires
        stream@.len() <= 12 * 0xFFFF_FFFF,
    ensures
        r is Ok <==> spec_parse(stream@) is Some,
        r is Err ==> r == Err::<(), PcapNgError>(PcapNgError::FramingError),
        final(handler).seen() == old(handler).seen() + spec_deliveries(spec_parse_prefix(stream@)),
{
    let n = stream.len();
    let ghost base = handler.seen();
    let ghost mut done: Seq<SpecBlock> = Seq::empty();
    let mut offset: usize = 0;
    let mut counter: u32 = 0;
    proof {
        assert(stream@.skip(0) =~= stream@);
        assert(Seq::<SpecBlock>::empty() + spec_parse_prefix(stream@) =~= spec_parse_prefix(
            stream@,
        ));
        assert(base + spec_deliveries(done) =~= base);
    }
    while offset < n
        invariant
            offset <= n == stream@.len(),
            n <= 12 * 0xFFFF_FFFF,
            counter as int == done.len(),
            12 * done.len() <= offset as int,
            handler.seen() == base + spec_deliveries(done),
            match spec_parse(stream@.skip(offset as int)) {
                Some(rest) => spec_parse(stream@) == Some(done + rest),
                None => spec_parse(stream@) is None,
            },
            spec_parse_prefix(stream@) == done + spec_parse_prefix(stream@.skip(offset as int)),
        decreases n - offset,
    {
        let ghost t = stream@.skip(offset as int);
        let remaining = n - offset;
        if remaining < 8 {
            proof {
                assert(done + spec_parse_prefix(t) =~= done);
            }
            return Err(PcapNgError::FramingError);
        }
        let (block_type, total_length) = decode_block_header(stream, offset);
        proof {
            lemma_u32_at_skip(stream@, offset as int, 0);
            lemma_u32_at_skip(stream@, offset as int, 4);
            if 12 <= total_length as int <= stream@.len() - offset as int {
                lemma_u32_at_skip(stream@, offset as int, total_length as int - 4);
            }
        }
        let payload = match decode_block_payload(stream, offset, total_length) {
            Ok(p) => p,
            Err(_) => {
                proof {
                    assert(done + spec_parse_prefix(t) =~= done);
                }
                return Err(PcapNgError::FramingError);
            },
        };
        counter = counter + 1;
        let ghost record = SpecBlock { block_type, total_length, payload: payload@ };
        handler.on_block(counter, block_type, total_length, payload);
        offset = offset + (total_length as usize);
        proof {
            let ghost before = done;
            done = done.push(record);
            assert(t.subrange(8, total_length as int - 4) =~= stream@.subrange(
                offset as int - total_length as int + 8,
                offset as int - 4,
            ));
            assert(t.skip(total_length as int) =~= stream@.skip(offset as int));
            assert(spec_deliveries(done) =~= spec_deliveries(before).push(
                SpecDelivery {
                    block_counter: counter,
                    block_type,
                    total_length,
                    payload: payload@,
                },
            ));
            assert(handler.seen() =~= base + spec_deliveries(done));
            assert(before + (seq![record] + spec_parse_prefix(stream@.skip(offset as int)))
                =~= done + spec_parse_prefix(stream@.skip(offset as int)));
            match spec_parse(stream@.skip(offset as int)) {
                Some(rest) => {
                    assert(spec_parse(t) == Some(seq![record] + rest));
                    assert(before + (seq![record] + rest) =~= done + rest);
                },
                None => {},
            }
        }
    }
    proof {
        assert(stream@.skip(offset as int) =~= Seq::<u8>::empty());
        assert(done + Seq::<SpecBlock>::empty() =~= done);
        assert(done + spec_parse_prefix(stream@.skip(offset as int)) =~= done);
    }
    Ok(())
}

/// Walks the stream block by block and hands each block to `handler`, with
/// a counter that starts at one and follows on-disk order; blocks before a
/// framing violation are delivered even when the read then fails. Without a
/// handler the stream is still parsed and validated in full. Succeeds
/// exactly when the whole stream is well framed.
pub fn read_all<H: BlockHandler>(stream: &Vec<u8>, handler: Option<&mut H>) -> (r: Result<
    (),
    PcapNgError,
>)
    requires
        handler is Some ==> stream@.len() <= 12 * 0xFFFF_FFFF,
    ensures
        r is Ok <==> spec_parse(stream@) is Some,
        r is Err ==> r == Err::<(), PcapNgError>(PcapNgError::FramingError),
        handler is Some ==> final(handler->Some_0).seen() == old(handler->Some_0).seen()
            + spec_deliveries(spec_parse_prefix(stream@)),
{
    match handler {
        None => match read_all_blocks(stream) {
            Ok(_) => Ok(()),
            Err(_) => Err(PcapNgError::FramingError),
        },
        Some(h) => read_all_into(stream, h),
    }
}

} // verus!
