use pcapng::{
    BlockHandler, NoopBlockHandler, PcapNg, PcapNgError, PcapNgOpenMode, CUSTOM_BLOCK_TYPE,
    EPB_BLOCK_TYPE, IDB_BLOCK_TYPE, PCAPNG_PEN, SHB_BLOCK_TYPE,
};

struct Collector {
    blocks: Vec<(u32, u32, u32, Vec<u8>)>,
}

impl BlockHandler for Collector {
    fn on_block(&mut self, block_counter: u32, block_type: u32, total_length: u32, payload: Vec<u8>) {
        self.blocks.push((block_counter, block_type, total_length, payload));
    }
}

#[test]
fn write_and_read_test() {
    let mut pcap_writer = PcapNg::new("test.pcapng".to_string(), PcapNgOpenMode::Write);
    pcap_writer.open(Vec::new()).expect("issue opening file");
    pcap_writer
        .write_custom("this is a test".as_bytes().to_vec())
        .expect("issue writing custom frame");
    let written = pcap_writer.contents().clone();
    pcap_writer.close();
    let mut pcap_reader = PcapNg::new("test.pcapng".to_string(), PcapNgOpenMode::Read);
    pcap_reader.open(written).expect("issue opening file");
    let mut collector = Collector { blocks: Vec::new() };
    pcap_reader.read_packets(Some(&mut collector)).unwrap();
    pcap_reader.close();
    assert_eq!(collector.blocks.len(), 3);
}

#[test]
fn end_to_end_capture() {
    let mut writer = PcapNg::new("cap.pcapng".to_string(), PcapNgOpenMode::Write);
    writer.open(Vec::new()).expect("opening for write never fails");
    writer.write_custom(b"this is a test".to_vec()).expect("handle is open for writing");
    writer.close();
    let file_bytes = writer.contents().clone();

    let mut reader = PcapNg::new("cap.pcapng".to_string(), PcapNgOpenMode::Read);
    reader.open(file_bytes).expect("opening for read never fails");
    let mut collector = Collector { blocks: Vec::new() };
    reader.read_packets(Some(&mut collector)).expect("the written stream is well framed");
    reader.close();

    assert_eq!(collector.blocks.len(), 3);
    assert_eq!(collector.blocks[0].1, SHB_BLOCK_TYPE);
    assert_eq!(collector.blocks[1].1, IDB_BLOCK_TYPE);
    let (counter, block_type, total_length, payload) = &collector.blocks[2];
    assert_eq!(*counter, 3);
    assert_eq!(*block_type, CUSTOM_BLOCK_TYPE);
    assert_eq!(*total_length, 32);
    assert_eq!(&payload[0..4], &PCAPNG_PEN.to_le_bytes());
    assert_eq!(&payload[4..18], b"this is a test");
    assert_eq!(&payload[18..], &[0, 0]);
}

#[test]
fn mode_guard() {
    // a write call on a handle opened in read mode
    let mut reader = PcapNg::new("cap.pcapng".to_string(), PcapNgOpenMode::Read);
    reader.open(Vec::new()).unwrap();
    let result = reader.write_packet(vec![1, 2, 3]);
    assert!(matches!(result, Err(PcapNgError::OperationOnlySupportedInWriteMode)));
    let result = reader.write_custom(vec![1, 2, 3]);
    assert!(matches!(result, Err(PcapNgError::OperationOnlySupportedInWriteMode)));
    let result = reader.write_packet_with_time(vec![1, 2, 3], 7);
    assert!(matches!(result, Err(PcapNgError::OperationOnlySupportedInWriteMode)));
    // a read call on a handle opened in write mode
    let mut writer = PcapNg::new("cap.pcapng".to_string(), PcapNgOpenMode::Write);
    writer.open(Vec::new()).unwrap();
    let result = writer.read_packets::<NoopBlockHandler>(None);
    assert!(matches!(result, Err(PcapNgError::OperationOnlySupportedInReadMode)));
}

#[test]
fn not_open_errors() {
    // a write call before open, and a read call before open
    let mut writer = PcapNg::new("cap.pcapng".to_string(), PcapNgOpenMode::Write);
    assert!(matches!(writer.write_custom(vec![1]), Err(PcapNgError::FileNotOpen)));
    let mut reader = PcapNg::new("cap.pcapng".to_string(), PcapNgOpenMode::Read);
    assert!(matches!(
        reader.read_packets::<NoopBlockHandler>(None),
        Err(PcapNgError::FileNotOpen)
    ));
    // a write call after close
    let mut writer = PcapNg::new("cap.pcapng".to_string(), PcapNgOpenMode::Write);
    writer.open(Vec::new()).unwrap();
    writer.close();
    assert!(matches!(writer.write_custom(vec![1]), Err(PcapNgError::FileNotOpen)));
}

#[test]
fn idempotent_close() {
    let mut writer = PcapNg::new("cap.pcapng".to_string(), PcapNgOpenMode::Write);
    writer.open(Vec::new()).unwrap();
    writer.write_custom(b"payload".to_vec()).unwrap();
    let before = writer.contents().clone();
    writer.close();
    assert_eq!(writer.contents(), &before);
    writer.close();
    assert_eq!(writer.contents(), &before);
    assert!(!writer.is_open());
    // closing a handle that was never opened is a no-op too
    let mut untouched = PcapNg::new("cap.pcapng".to_string(), PcapNgOpenMode::Write);
    untouched.close();
    assert_eq!(untouched.contents().len(), 0);
}

#[test]
fn append_mode_keeps_existing_stream() {
    let mut writer = PcapNg::new("cap.pcapng".to_string(), PcapNgOpenMode::Write);
    writer.open(Vec::new()).unwrap();
    writer.write_custom(b"first".to_vec()).unwrap();
    writer.close();
    let first_file = writer.contents().clone();

    let mut appender = PcapNg::new("cap.pcapng".to_string(), PcapNgOpenMode::Append);
    appender.open(first_file.clone()).unwrap();
    // no second preamble is written
    assert_eq!(appender.contents().len(), first_file.len());
    appender.write_custom(b"second".to_vec()).unwrap();
    appender.close();
    let full_file = appender.contents().clone();

    let mut reader = PcapNg::new("cap.pcapng".to_string(), PcapNgOpenMode::Read);
    reader.open(full_file).unwrap();
    let mut collector = Collector { blocks: Vec::new() };
    reader.read_packets(Some(&mut collector)).unwrap();
    assert_eq!(collector.blocks.len(), 4);
    assert_eq!(&collector.blocks[2].3[4..9], b"first");
    assert_eq!(&collector.blocks[3].3[4..10], b"second");
}

#[test]
fn packets_with_and_without_time() {
    let mut writer = PcapNg::new("cap.pcapng".to_string(), PcapNgOpenMode::Write);
    writer.open(Vec::new()).unwrap();
    writer.write_packet(vec![0xAA, 0xBB]).unwrap();
    writer.write_packet_with_time(vec![0xCC], 0x01020304).unwrap();
    writer.close();
    let file_bytes = writer.contents().clone();

    let mut reader = PcapNg::new("cap.pcapng".to_string(), PcapNgOpenMode::Read);
    reader.open(file_bytes).unwrap();
    let mut collector = Collector { blocks: Vec::new() };
    reader.read_packets(Some(&mut collector)).unwrap();
    assert_eq!(collector.blocks.len(), 4);

    // without a timestamp: interface id, captured and original length, data
    let plain = &collector.blocks[2];
    assert_eq!(plain.1, EPB_BLOCK_TYPE);
    assert_eq!(plain.2, 28);
    assert_eq!(&plain.3[0..4], &0u32.to_le_bytes());
    assert_eq!(&plain.3[4..8], &2u32.to_le_bytes());
    assert_eq!(&plain.3[8..12], &2u32.to_le_bytes());
    assert_eq!(&plain.3[12..14], &[0xAA, 0xBB]);

    // with a timestamp: the two halves stand before the lengths
    let timed = &collector.blocks[3];
    assert_eq!(timed.1, EPB_BLOCK_TYPE);
    assert_eq!(timed.2, 36);
    assert_eq!(&timed.3[4..8], &0u32.to_le_bytes());
    assert_eq!(&timed.3[8..12], &0x01020304u32.to_le_bytes());
    assert_eq!(&timed.3[12..16], &1u32.to_le_bytes());
    assert_eq!(&timed.3[16..20], &1u32.to_le_bytes());
    assert_eq!(timed.3[20], 0xCC);
}

#[test]
fn framing_error_through_the_handle() {
    let mut writer = PcapNg::new("cap.pcapng".to_string(), PcapNgOpenMode::Write);
    writer.open(Vec::new()).unwrap();
    writer.write_custom(b"cut short".to_vec()).unwrap();
    writer.close();
    let mut file_bytes = writer.contents().clone();
    file_bytes.pop();

    let mut reader = PcapNg::new("cap.pcapng".to_string(), PcapNgOpenMode::Read);
    reader.open(file_bytes).unwrap();
    let result = reader.read_packets::<NoopBlockHandler>(None);
    assert!(matches!(result, Err(PcapNgError::FramingError)));
}

#[test]
fn blocks_before_a_framing_error_are_delivered() {
    let mut writer = PcapNg::new("cap.pcapng".to_string(), PcapNgOpenMode::Write);
    writer.open(Vec::new()).unwrap();
    writer.write_custom(b"first".to_vec()).unwrap();
    writer.write_custom(b"second".to_vec()).unwrap();
    writer.close();
    let mut file_bytes = writer.contents().clone();
    file_bytes.pop(); // cut the last block one byte short

    let mut reader = PcapNg::new("cap.pcapng".to_string(), PcapNgOpenMode::Read);
    reader.open(file_bytes).unwrap();
    let mut collector = Collector { blocks: Vec::new() };
    let result = reader.read_packets(Some(&mut collector));
    assert!(matches!(result, Err(PcapNgError::FramingError)));
    // every complete block before the cut was handed over, in order
    assert_eq!(collector.blocks.len(), 3);
    assert_eq!(collector.blocks[0].0, 1);
    assert_eq!(collector.blocks[0].1, SHB_BLOCK_TYPE);
    assert_eq!(collector.blocks[1].0, 2);
    assert_eq!(collector.blocks[1].1, IDB_BLOCK_TYPE);
    assert_eq!(collector.blocks[2].0, 3);
    assert_eq!(collector.blocks[2].1, CUSTOM_BLOCK_TYPE);
    assert_eq!(&collector.blocks[2].3[4..9], b"first");
    // the truncated block itself never reached the handler
}

#[test]
fn handler_untouched_on_mode_and_open_errors() {
    let mut writer = PcapNg::new("cap.pcapng".to_string(), PcapNgOpenMode::Write);
    writer.open(Vec::new()).unwrap();
    let mut collector = Collector { blocks: Vec::new() };
    let result = writer.read_packets(Some(&mut collector));
    assert!(matches!(result, Err(PcapNgError::OperationOnlySupportedInReadMode)));
    assert_eq!(collector.blocks.len(), 0);

    let mut reader = PcapNg::new("cap.pcapng".to_string(), PcapNgOpenMode::Read);
    let result = reader.read_packets(Some(&mut collector));
    assert!(matches!(result, Err(PcapNgError::FileNotOpen)));
    assert_eq!(collector.blocks.len(), 0);
}
