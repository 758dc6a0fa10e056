use pcapng::{
    decode_block_header, decode_block_payload, encode_custom_block, read_all, read_all_blocks,
    BlockHandler, NoopBlockHandler, PcapNgError, CUSTOM_BLOCK_TYPE, PCAPNG_PEN,
};

struct Collector {
    blocks: Vec<(u32, u32, u32, Vec<u8>)>,
}

impl BlockHandler for Collector {
    fn on_block(&mut self, block_counter: u32, block_type: u32, total_length: u32, payload: Vec<u8>) {
        self.blocks.push((block_counter, block_type, total_length, payload));
    }
}

#[test]
fn round_trip_custom_blocks() {
    let lengths = [0usize, 1, 3, 4, 5, 11];
    let payloads: Vec<Vec<u8>> = lengths
        .iter()
        .enumerate()
        .map(|(i, &len)| (0..len).map(|j| (i * 40 + j + 1) as u8).collect())
        .collect();
    let mut stream: Vec<u8> = Vec::new();
    for payload in &payloads {
        stream.extend_from_slice(&encode_custom_block(PCAPNG_PEN, payload));
    }
    let records = read_all_blocks(&stream).expect("well-framed stream must parse");
    assert_eq!(records.len(), payloads.len());
    for (record, payload) in records.iter().zip(payloads.iter()) {
        assert_eq!(record.block_type, CUSTOM_BLOCK_TYPE);
        // the body starts with the enterprise number
        assert_eq!(&record.payload[0..4], &0x7A69u32.to_le_bytes());
        // then carries the payload itself
        assert_eq!(&record.payload[4..4 + payload.len()], &payload[..]);
        // and ends in zero padding to the 32-bit boundary
        for &b in &record.payload[4 + payload.len()..] {
            assert_eq!(b, 0);
        }
    }
    // through the handler: counters run 1..N in writing order
    let mut collector = Collector { blocks: Vec::new() };
    read_all(&stream, Some(&mut collector)).expect("well-framed stream must parse");
    assert_eq!(collector.blocks.len(), payloads.len());
    for (i, (counter, block_type, _total, payload)) in collector.blocks.iter().enumerate() {
        assert_eq!(*counter, (i + 1) as u32);
        assert_eq!(*block_type, CUSTOM_BLOCK_TYPE);
        assert_eq!(&payload[4..4 + payloads[i].len()], &payloads[i][..]);
    }
}

#[test]
fn truncated_stream_is_framing_error() {
    let payload: Vec<u8> = b"truncate me".to_vec();
    let mut stream = encode_custom_block(PCAPNG_PEN, &payload);
    stream.pop();
    let result = read_all_blocks(&stream);
    assert!(matches!(result, Err(PcapNgError::FramingError)));
    assert!(matches!(read_all::<NoopBlockHandler>(&stream, None), Err(PcapNgError::FramingError)));
}

#[test]
fn empty_stream_parses_to_no_blocks() {
    let stream: Vec<u8> = Vec::new();
    let records = read_all_blocks(&stream).expect("an empty stream is a clean end");
    assert_eq!(records.len(), 0);
    assert!(read_all::<NoopBlockHandler>(&stream, None).is_ok());
    let mut noop = NoopBlockHandler::new();
    assert!(read_all(&stream, Some(&mut noop)).is_ok());
}

#[test]
fn short_header_is_framing_error() {
    let stream: Vec<u8> = vec![1, 2, 3, 4, 5, 6, 7];
    assert!(matches!(read_all_blocks(&stream), Err(PcapNgError::FramingError)));
}

#[test]
fn bad_declared_length_is_framing_error() {
    // declared length below twelve
    let mut stream: Vec<u8> = Vec::new();
    stream.extend_from_slice(&0x0BADu32.to_le_bytes());
    stream.extend_from_slice(&8u32.to_le_bytes());
    stream.extend_from_slice(&8u32.to_le_bytes());
    assert!(matches!(read_all_blocks(&stream), Err(PcapNgError::FramingError)));
    // declared length not a multiple of four
    let mut stream: Vec<u8> = Vec::new();
    stream.extend_from_slice(&0x0BADu32.to_le_bytes());
    stream.extend_from_slice(&13u32.to_le_bytes());
    stream.extend_from_slice(&[0; 5]);
    assert!(matches!(read_all_blocks(&stream), Err(PcapNgError::FramingError)));
}

#[test]
fn trailing_length_mismatch_is_framing_error() {
    let payload: Vec<u8> = vec![1, 2, 3, 4];
    let mut stream = encode_custom_block(PCAPNG_PEN, &payload);
    let n = stream.len();
    stream[n - 4] = stream[n - 4].wrapping_add(4);
    assert!(matches!(read_all_blocks(&stream), Err(PcapNgError::FramingError)));
}

#[test]
fn decode_header_and_payload() {
    let payload: Vec<u8> = vec![10, 20, 30, 40, 50];
    let block = encode_custom_block(PCAPNG_PEN, &payload);
    let (block_type, total_length) = decode_block_header(&block, 0);
    assert_eq!(block_type, CUSTOM_BLOCK_TYPE);
    assert_eq!(total_length as usize, block.len());
    let body = decode_block_payload(&block, 0, total_length).expect("framing is intact");
    assert_eq!(body.len(), block.len() - 12);
    assert_eq!(&body[4..9], &payload[..]);
    // a wrong declared length is refused
    assert!(matches!(
        decode_block_payload(&block, 0, total_length + 4),
        Err(PcapNgError::FramingError)
    ));
}
