//! Block codec: binary layout of the PCAPNG blocks this engine emits.
//!
//! Every block on the wire is `u32 block_type | u32 total_length | body |
//! u32 total_length`, little-endian, with the body zero-padded so that
//! `total_length` is a multiple of four. The length stands at both ends of
//! the block (double-length framing), so a reader can walk the stream in
//! either direction and detect truncation.

use vstd::arithmetic::div_mod::lemma_div_denominator;
use vstd::arithmetic::div_mod::lemma_fundamental_div_mod;
use vstd::arithmetic::div_mod::lemma_multiply_divide_lt;
use vstd::arithmetic::div_mod::lemma_small_mod;
use vstd::prelude::*;

verus! {

/// Block type of the Section Header Block.
pub const SHB_BLOCK_TYPE: u32 = 0x0A0D0D0A;

/// Block type of the Interface Description Block.
pub const IDB_BLOCK_TYPE: u32 = 0x00000001;

/// Block type of the Enhanced Packet Block.
pub const EPB_BLOCK_TYPE: u32 = 0x00000006;

/// Block type of the Custom Block.
pub const CUSTOM_BLOCK_TYPE: u32 = 0x00000BAD;

/// Byte-order magic carried by the Section Header Block.
pub const BYTE_ORDER_MAGIC: u32 = 0x1A2B3C4D;

/// Private Enterprise Number under which this engine's custom blocks are
/// written.
pub const PCAPNG_PEN: u32 = 31337;

/// Link type recorded in the Interface Description Block: raw packet data.
pub const LINKTYPE_RAW: u32 = 101;

/// The largest payload a custom block can carry: its total length,
/// `16 + len + padding`, must fit in the 32-bit length field.
pub const CUSTOM_PAYLOAD_MAX: usize = 0xFFFF_FFEC;

/// The largest packet an Enhanced Packet Block without a timestamp can
/// carry: its total length is `24 + len + padding`.
pub const PACKET_PAYLOAD_MAX: usize = 0xFFFF_FFE4;

/// The largest packet an Enhanced Packet Block with a timestamp can carry:
/// its total length is `32 + len + padding`.
pub const PACKET_WITH_TIME_PAYLOAD_MAX: usize = 0xFFFF_FFDC;

/// Number of zero bytes that round `n` up to the next multiple of four.
pub open spec fn pad_len(n: int) -> int {
    if n % 4 == 0 {
        0
    } else {
        4 - n % 4
    }
}

/// A sequence of `n` zero bytes.
pub open spec fn zeros(n: int) -> Seq<u8> {
    Seq::new(n as nat, |i: int| 0u8)
}

/// The four little-endian bytes of a 32-bit value.
pub open spec fn spec_le32(v: int) -> Seq<u8> {
    seq![
        (v % 256) as u8,
        ((v / 256) % 256) as u8,
        ((v / 65536) % 256) as u8,
        ((v / 16777216) % 256) as u8,
    ]
}

/// The 32-bit value encoded little-endian by the four bytes of `s` starting
/// at index `i`.
pub open spec fn spec_u32_at(s: Seq<u8>, i: int) -> int {
    s[i] + 256 * s[i + 1] + 65536 * s[i + 2] + 16777216 * s[i + 3]
}

/// Decoding the four little-endian bytes of a 32-bit value gives the value
/// back.
pub proof fn lemma_le32_roundtrip(v: int)
    requires
        0 <= v < 0x1_0000_0000,
    ensures
        spec_u32_at(spec_le32(v), 0) == v,
{
    lemma_fundamental_div_mod(v, 256);
    lemma_fundamental_div_mod(v / 256, 256);
    lemma_div_denominator(v, 256, 256);
    lemma_fundamental_div_mod(v / 65536, 256);
    lemma_div_denominator(v, 65536, 256);
    lemma_multiply_divide_lt(v, 16777216, 256);
    lemma_small_mod((v / 16777216) as nat, 256);
}

/// When four consecutive bytes of `s` are the little-endian encoding of `v`,
/// decoding `s` at that position gives `v`.
pub proof fn lemma_u32_at_of_le32(s: Seq<u8>, i: int, v: int)
    requires
        0 <= v < 0x1_0000_0000,
        0 <= i,
        i + 4 <= s.len(),
        s.subrange(i, i + 4) == spec_le32(v),
    ensures
        spec_u32_at(s, i) == v,
{
    assert(s[i] == s.subrange(i, i + 4)[0]);
    assert(s[i + 1] == s.subrange(i, i + 4)[1]);
    assert(s[i + 2] == s.subrange(i, i + 4)[2]);
    assert(s[i + 3] == s.subrange(i, i + 4)[3]);
    lemma_le32_roundtrip(v);
}

/// A well-framed block: at least twelve bytes, a multiple of four long, and
/// carrying its own length little-endian both at offset four and in its last
/// four bytes.
pub open spec fn is_encoded_block(b: Seq<u8>) -> bool {
    &&& 12 <= b.len() <= 0xFFFF_FFFF
    &&& b.len() % 4 == 0
    &&& spec_u32_at(b, 4) == b.len()
    &&& spec_u32_at(b, b.len() - 4) == b.len()
}

/// Double-length law: the length fields at the head and at the tail of a
/// well-framed block decode to the same value.
pub proof fn lemma_double_length(b: Seq<u8>)
    requires
        is_encoded_block(b),
    ensures
        spec_u32_at(b, 4) == spec_u32_at(b, b.len() - 4),
{
}

/// A framed block: type, total length, body, and the total length again.
/// The total length counts all four framing words, `12 + body.len()`.
pub open spec fn spec_block(block_type: u32, body: Seq<u8>) -> Seq<u8> {
    let total = 12 + body.len();
    spec_le32(block_type as int) + spec_le32(total as int) + body + spec_le32(total as int)
}

/// A block framed by `spec_block` around a body of a length that is a
/// multiple of four is well framed, and its framing words decode to its type
/// and its length.
pub proof fn lemma_block_well_formed(block_type: u32, body: Seq<u8>)
    requires
        body.len() % 4 == 0,
        body.len() <= 0xFFFF_FFF3,
    ensures
        is_encoded_block(spec_block(block_type, body)),
        spec_block(block_type, body).len() == 12 + body.len(),
        spec_u32_at(spec_block(block_type, body), 0) == block_type,
        spec_block(block_type, body).subrange(8, spec_block(block_type, body).len() - 4) == body,
{
    let b = spec_block(block_type, body);
    let total = 12 + body.len() as int;
    assert(b.subrange(0, 4) =~= spec_le32(block_type as int));
    assert(b.subrange(4, 8) =~= spec_le32(total));
    assert(b.subrange(b.len() - 4, b.len() as int) =~= spec_le32(total));
    lemma_u32_at_of_le32(b, 0, block_type as int);
    lemma_u32_at_of_le32(b, 4, total);
    lemma_u32_at_of_le32(b, b.len() - 4, total);
    assert(b.subrange(8, b.len() - 4) =~= body);
}

/// The bytes of a Section Header Block: type, length 28, byte-order magic,
/// version 1.0 (major 1, minor 0, packed little-endian in one word), a zero
/// section length, and the trailing length.
pub open spec fn spec_shb() -> Seq<u8> {
    spec_block(
        SHB_BLOCK_TYPE,
        spec_le32(BYTE_ORDER_MAGIC as int) + spec_le32(1) + spec_le32(0) + spec_le32(0),
    )
}

/// The bytes of the Interface Description Block written once after the
/// section header: link type raw, reserved zero, snap length zero.
pub open spec fn spec_idb() -> Seq<u8> {
    spec_block(IDB_BLOCK_TYPE, spec_le32(LINKTYPE_RAW as int) + spec_le32(0))
}

/// The preamble written when a capture file is created: one Section Header
/// Block followed by one Interface Description Block.
pub open spec fn spec_preamble() -> Seq<u8> {
    spec_shb() + spec_idb()
}

/// The bytes of a Custom Block: the Private Enterprise Number, the payload,
/// and zero padding to a 32-bit boundary, inside the double-length framing.
pub open spec fn spec_custom_block(pen: u32, payload: Seq<u8>) -> Seq<u8> {
    spec_block(
        CUSTOM_BLOCK_TYPE,
        spec_le32(pen as int) + payload + zeros(pad_len(payload.len() as int)),
    )
}

/// The bytes of an Enhanced Packet Block without a timestamp: interface id,
/// captured length, original length (both equal to the packet length), the
/// packet, and zero padding, inside the double-length framing.
pub open spec fn spec_enhanced_packet(interface_id: u32, data: Seq<u8>) -> Seq<u8> {
    spec_block(
        EPB_BLOCK_TYPE,
        spec_le32(interface_id as int) + spec_le32(data.len() as int) + spec_le32(
            data.len() as int,
        ) + data + zeros(pad_len(data.len() as int)),
    )
}

/// The bytes of an Enhanced Packet Block with a timestamp: as without one,
/// but with the two 32-bit timestamp halves between the interface id and the
/// captured length.
pub open spec fn spec_enhanced_packet_with_time(
    interface_id: u32,
    timestamp_high: u32,
    timestamp_low: u32,
    data: Seq<u8>,
) -> Seq<u8> {
    spec_block(
        EPB_BLOCK_TYPE,
        spec_le32(interface_id as int) + spec_le32(timestamp_high as int) + spec_le32(
            timestamp_low as int,
        ) + spec_le32(data.len() as int) + spec_le32(data.len() as int) + data + zeros(
            pad_len(data.len() as int),
        ),
    )
}

/// Padding law: every encoded block is a multiple of four bytes long, and a
/// custom block is at least twelve bytes longer than its payload (sixteen,
/// counting the enterprise number).
pub proof fn lemma_padding_invariant(pen: u32, interface_id: u32, payload: Seq<u8>)
    ensures
        spec_custom_block(pen, payload).len() % 4 == 0,
        spec_custom_block(pen, payload).len() == 16 + payload.len() + pad_len(
            payload.len() as int,
        ),
        spec_custom_block(pen, payload).len() >= payload.len() + 16,
        spec_enhanced_packet(interface_id, payload).len() % 4 == 0,
        spec_enhanced_packet(interface_id, payload).len() == 24 + payload.len() + pad_len(
            payload.len() as int,
        ),
{
    lemma_pad_aligns(payload.len() as int);
}

/// Appends the four little-endian bytes of `v`.
fn push_u32_le(buf: &mut Vec<u8>, v: u32)
    ensures
        final(buf)@ == old(buf)@ + spec_le32(v as int),
{
    buf.push((v % 256) as u8);
    buf.push(((v / 256) % 256) as u8);
    buf.push(((v / 65536) % 256) as u8);
    buf.push(((v / 16777216) % 256) as u8);
    proof {
        assert(buf@ =~= old(buf)@ + spec_le32(v as int));
    }
}

/// Appends a copy of `data`.
fn push_bytes(buf: &mut Vec<u8>, data: &Vec<u8>)
    requires
        old(buf)@.len() + data@.len() <= usize::MAX,
    ensures
        final(buf)@ == old(buf)@ + data@,
{
    let mut i: usize = 0;
    while i < data.len()
        invariant
            i <= data@.len(),
            buf@ == old(buf)@ + data@.subrange(0, i as int),
        decreases data@.len() - i,
    {
        buf.push(data[i]);
        i = i + 1;
        proof {
            assert(buf@ =~= old(buf)@ + data@.subrange(0, i as int));
        }
    }
    proof {
        assert(buf@ =~= old(buf)@ + data@);
    }
}

/// Appends `n` zero bytes.
fn push_zeros(buf: &mut Vec<u8>, n: usize)
    requires
        old(buf)@.len() + n <= usize::MAX,
    ensures
        final(buf)@ == old(buf)@ + zeros(n as int),
{
    let mut i: usize = 0;
    while i < n
        invariant
            i <= n,
            buf@ == old(buf)@ + zeros(i as int),
        decreases n - i,
    {
        buf.push(0u8);
        i = i + 1;
        proof {
            assert(buf@ =~= old(buf)@ + zeros(i as int));
        }
    }
}

/// Number of zero bytes that round `len` up to the next multiple of four.
fn pad_of(len: usize) -> (r: usize)
    ensures
        r == pad_len(len as int),
        r < 4,
{
    (4 - len % 4) % 4
}

/// Padding rounds a length up to a multiple of four, adding at most three.
pub proof fn lemma_pad_aligns(n: int)
    requires
        0 <= n,
    ensures
        0 <= pad_len(n) < 4,
        (n + pad_len(n)) % 4 == 0,
{
    lemma_fundamental_div_mod(n, 4);
}

/// An encoded custom block is well framed; its body is the enterprise
/// number, the payload and the padding.
pub proof fn lemma_custom_block_well_formed(pen: u32, payload: Seq<u8>)
    requires
        payload.len() <= CUSTOM_PAYLOAD_MAX,
    ensures
        is_encoded_block(spec_custom_block(pen, payload)),
        spec_custom_block(pen, payload).len() == 16 + payload.len() + pad_len(
            payload.len() as int,
        ),
        spec_u32_at(spec_custom_block(pen, payload), 0) == CUSTOM_BLOCK_TYPE,
        spec_custom_block(pen, payload).subrange(8, spec_custom_block(pen, payload).len() - 4)
            == spec_le32(pen as int) + payload + zeros(pad_len(payload.len() as int)),
{
    let body = spec_le32(pen as int) + payload + zeros(pad_len(payload.len() as int));
    lemma_pad_aligns(payload.len() as int);
    lemma_block_well_formed(CUSTOM_BLOCK_TYPE, body);
}

/// An encoded Enhanced Packet Block without a timestamp is well framed.
pub proof fn lemma_enhanced_packet_well_formed(interface_id: u32, data: Seq<u8>)
    requires
        data.len() <= PACKET_PAYLOAD_MAX,
    ensures
        is_encoded_block(spec_enhanced_packet(interface_id, data)),
        spec_enhanced_packet(interface_id, data).len() == 24 + data.len() + pad_len(
            data.len() as int,
        ),
        spec_u32_at(spec_enhanced_packet(interface_id, data), 0) == EPB_BLOCK_TYPE,
{
    let body = spec_le32(interface_id as int) + spec_le32(data.len() as int) + spec_le32(
        data.len() as int,
    ) + data + zeros(pad_len(data.len() as int));
    lemma_pad_aligns(data.len() as int);
    lemma_block_well_formed(EPB_BLOCK_TYPE, body);
}

/// An encoded Enhanced Packet Block with a timestamp is well framed.
#[verifier::rlimit(60)]
pub proof fn lemma_enhanced_packet_with_time_well_formed(
    interface_id: u32,
    timestamp_high: u32,
    timestamp_low: u32,
    data: Seq<u8>,
)
    requires
        data.len() <= PACKET_WITH_TIME_PAYLOAD_MAX,
    ensures
        is_encoded_block(spec_enhanced_packet_with_time(
            interface_id,
            timestamp_high,
            timestamp_low,
            data,
        )),
        spec_enhanced_packet_with_time(interface_id, timestamp_high, timestamp_low, data).len()
            == 32 + data.len() + pad_len(data.len() as int),
        spec_u32_at(
            spec_enhanced_packet_with_time(interface_id, timestamp_high, timestamp_low, data),
            0,
        ) == EPB_BLOCK_TYPE,
{
    let body = spec_le32(interface_id as int) + spec_le32(timestamp_high as int) + spec_le32(
        timestamp_low as int,
    ) + spec_le32(data.len() as int) + spec_le32(data.len() as int) + data + zeros(
        pad_len(data.len() as int),
    );
    lemma_pad_aligns(data.len() as int);
    lemma_block_well_formed(EPB_BLOCK_TYPE, body);
}

/// Both preamble blocks are well framed and carry their fixed types.
pub proof fn lemma_preamble_well_formed()
    ensures
        spec_shb().len() == 28,
        spec_idb().len() == 20,
        is_encoded_block(spec_shb()),
        is_encoded_block(spec_idb()),
        spec_u32_at(spec_shb(), 0) == SHB_BLOCK_TYPE,
        spec_u32_at(spec_idb(), 0) == IDB_BLOCK_TYPE,
        spec_preamble().len() == 48,
{
    lemma_block_well_formed(
        SHB_BLOCK_TYPE,
        spec_le32(BYTE_ORDER_MAGIC as int) + spec_le32(1) + spec_le32(0) + spec_le32(0),
    );
    lemma_block_well_formed(IDB_BLOCK_TYPE, spec_le32(LINKTYPE_RAW as int) + spec_le32(0));
}

/// Wraps `body` in the double-length framing: type, total length, body,
/// total length.
fn frame_block(block_type: u32, body: &Vec<u8>) -> (r: Vec<u8>)
    requires
        body@.len() <= 0xFFFF_FFF3,
    ensures
        r@ == spec_block(block_type, body@),
        r@.len() == 12 + body@.len(),
{
    let total = (12 + body.len()) as u32;
    let mut r: Vec<u8> = Vec::new();
    push_u32_le(&mut r, block_type);
    push_u32_le(&mut r, total);
    push_bytes(&mut r, body);
    push_u32_le(&mut r, total);
    proof {
        assert(r@ =~= spec_block(block_type, body@));
    }
    r
}

/// Encodes the fixed preamble written once when a capture file is created:
/// the Section Header Block followed by the Interface Description Block.
pub fn encode_section_header() -> (r: Vec<u8>)
    ensures
        r@ == spec_preamble(),
        r@ == spec_shb() + spec_idb(),
        r@.len() == 48,
{
    let mut shb_body: Vec<u8> = Vec::new();
    push_u32_le(&mut shb_body, BYTE_ORDER_MAGIC);
    push_u32_le(&mut shb_body, 1);
    push_u32_le(&mut shb_body, 0);
    push_u32_le(&mut shb_body, 0);
    proof {
        assert(shb_body@ =~= spec_le32(BYTE_ORDER_MAGIC as int) + spec_le32(1) + spec_le32(0)
            + spec_le32(0));
    }
    let mut r = frame_block(SHB_BLOCK_TYPE, &shb_body);
    let mut idb_body: Vec<u8> = Vec::new();
    push_u32_le(&mut idb_body, LINKTYPE_RAW);
    push_u32_le(&mut idb_body, 0);
    proof {
        assert(idb_body@ =~= spec_le32(LINKTYPE_RAW as int) + spec_le32(0));
    }
    let mut idb = frame_block(IDB_BLOCK_TYPE, &idb_body);
    r.append(&mut idb);
    r
}

/// Encodes one Custom Block: the enterprise number `pen`, then `payload`,
/// zero-padded to a 32-bit boundary, inside the double-length framing.
pub fn encode_custom_block(pen: u32, payload: &Vec<u8>) -> (r: Vec<u8>)
    requires
        payload@.len() <= CUSTOM_PAYLOAD_MAX,
    ensures
        r@ == spec_custom_block(pen, payload@),
        is_encoded_block(r@),
        r@.len() == 16 + payload@.len() + pad_len(payload@.len() as int),
        r@.len() % 4 == 0,
        r@.len() >= payload@.len() + 16,
        spec_u32_at(r@, 0) == CUSTOM_BLOCK_TYPE,
{
    let len = payload.len();
    let pad = pad_of(len);
    let mut body: Vec<u8> = Vec::new();
    push_u32_le(&mut body, pen);
    push_bytes(&mut body, payload);
    push_zeros(&mut body, pad);
    proof {
        assert(body@ =~= spec_le32(pen as int) + payload@ + zeros(pad_len(payload@.len() as int)));
        lemma_custom_block_well_formed(pen, payload@);
    }
    frame_block(CUSTOM_BLOCK_TYPE, &body)
}

/// Encodes one Enhanced Packet Block without a timestamp, for `data`
/// captured in full on the interface `interface_id`.
pub fn encode_enhanced_packet(interface_id: u32, data: &Vec<u8>) -> (r: Vec<u8>)
    requires
        data@.len() <= PACKET_PAYLOAD_MAX,
    ensures
        r@ == spec_enhanced_packet(interface_id, data@),
        is_encoded_block(r@),
        r@.len() == 24 + data@.len() + pad_len(data@.len() as int),
        spec_u32_at(r@, 0) == EPB_BLOCK_TYPE,
{
    let len = data.len();
    let pad = pad_of(len);
    let len32 = len as u32;
    let mut body: Vec<u8> = Vec::new();
    push_u32_le(&mut body, interface_id);
    push_u32_le(&mut body, len32);
    push_u32_le(&mut body, len32);
    push_bytes(&mut body, data);
    push_zeros(&mut body, pad);
    proof {
        assert(body@ =~= spec_le32(interface_id as int) + spec_le32(data@.len() as int)
            + spec_le32(data@.len() as int) + data@ + zeros(pad_len(data@.len() as int)));
        lemma_enhanced_packet_well_formed(interface_id, data@);
    }
    frame_block(EPB_BLOCK_TYPE, &body)
}

/// Encodes one Enhanced Packet Block with a timestamp, for `data` captured
/// in full on the interface `interface_id`. The two halves together form the
/// 64-bit block timestamp, `timestamp_high` holding its upper 32 bits.
pub fn encode_enhanced_packet_with_time(
    interface_id: u32,
    timestamp_high: u32,
    timestamp_low: u32,
    data: &Vec<u8>,
) -> (r: Vec<u8>)
    requires
        data@.len() <= PACKET_WITH_TIME_PAYLOAD_MAX,
    ensures
        r@ == spec_enhanced_packet_with_time(interface_id, timestamp_high, timestamp_low, data@),
        is_encoded_block(r@),
        r@.len() == 32 + data@.len() + pad_len(data@.len() as int),
        spec_u32_at(r@, 0) == EPB_BLOCK_TYPE,
{
    let len = data.len();
    let pad = pad_of(len);
    let len32 = len as u32;
    let mut body: Vec<u8> = Vec::new();
    push_u32_le(&mut body, interface_id);
    push_u32_le(&mut body, timestamp_high);
    push_u32_le(&mut body, timestamp_low);
    push_u32_le(&mut body, len32);
    push_u32_le(&mut body, len32);
    push_bytes(&mut body, data);
    push_zeros(&mut body, pad);
    proof {
        assert(body@ =~= spec_le32(interface_id as int) + spec_le32(timestamp_high as int)
            + spec_le32(timestamp_low as int) + spec_le32(data@.len() as int) + spec_le32(
            data@.len() as int,
        ) + data@ + zeros(pad_len(data@.len() as int)));
        lemma_enhanced_packet_with_time_well_formed(
            interface_id,
            timestamp_high,
            timestamp_low,
            data@,
        );
    }
    frame_block(EPB_BLOCK_TYPE, &body)
}

/// Reads the 32-bit little-endian value at `off`.
pub fn get_u32_le(bytes: &Vec<u8>, off: usize) -> (r: u32)
    requires
        off + 4 <= bytes@.len(),
    ensures
        r as int == spec_u32_at(bytes@, off as int),
{
    let _stream_len = bytes.len();
    let b0 = bytes[off] as u32;
    let b1 = bytes[off + 1] as u32;
    let b2 = bytes[off + 2] as u32;
    let b3 = bytes[off + 3] as u32;
    b0 + b1 * 256 + b2 * 65536 + b3 * 16777216
}

} // verus!
