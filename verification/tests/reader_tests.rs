//! Reader tests: summary access, bulk queries, counts, metadata scans and
//! error reporting, on logs built in memory with the `mcap` writer.

use std::borrow::Cow;
use std::collections::BTreeMap;
use std::io::Cursor;

use mcap_replay::reader::MCAPReader;
use mcap_replay::types::LogError;

/// One chunk; channel 0 at times [10, 20, 30], channel 1 at [15, 25].
fn two_channel_log() -> Vec<u8> {
    let mut w = mcap::WriteOptions::new()
        .compression(None)
        .create(Cursor::new(Vec::new()))
        .unwrap();
    let sid = w.add_schema("numbers", "raw", b"u8").unwrap();
    w.add_channel_with_id(0, sid, "topic_a", "raw", &BTreeMap::new())
        .unwrap();
    w.add_channel_with_id(1, 0, "topic_b", "raw", &BTreeMap::new())
        .unwrap();
    for (ch, t) in [(0u16, 10u64), (1, 15), (0, 20), (1, 25), (0, 30)] {
        w.write_to_known_channel(
            &mcap::records::MessageHeader {
                channel_id: ch,
                sequence: t as u32,
                log_time: t,
                publish_time: t,
            },
            &[t as u8],
        )
        .unwrap();
    }
    w.finish().unwrap();
    w.into_inner().into_inner()
}

/// A log written without a summary section.
fn summaryless_log() -> Vec<u8> {
    let mut w = mcap::WriteOptions::new()
        .compression(None)
        .use_chunks(false)
        .disable_seeking(true)
        .repeat_channels(false)
        .repeat_schemas(false)
        .emit_statistics(false)
        .emit_summary_offsets(false)
        .emit_chunk_indexes(false)
        .emit_message_indexes(false)
        .emit_attachment_indexes(false)
        .emit_metadata_indexes(false)
        .create(Cursor::new(Vec::new()))
        .unwrap();
    w.add_channel_with_id(0, 0, "topic_a", "raw", &BTreeMap::new())
        .unwrap();
    w.write_to_known_channel(
        &mcap::records::MessageHeader {
            channel_id: 0,
            sequence: 1,
            log_time: 10,
            publish_time: 10,
        },
        &[1],
    )
    .unwrap();
    w.finish().unwrap();
    w.into_inner().into_inner()
}

#[test]
fn summary_is_parsed_once_at_open() {
    let reader = MCAPReader::from_bytes(two_channel_log(), false);
    assert!(reader.has_summary());
    assert_eq!(reader.get_last_error(), "");
    let summary = reader.read_summary().unwrap();
    assert_eq!(summary.channels.len(), 2);
    assert_eq!(summary.schemas.len(), 1);
    assert!(!summary.chunk_indexes.is_empty());
    assert!(summary.stats.is_some());
}

#[test]
fn messages_in_time_range_matches_example() {
    // one chunk, channel 0 at [10, 20, 30], channel 1 at [15, 25]:
    // the window [12, 26] holds [15, 20, 25] in that order
    let mut reader = MCAPReader::from_bytes(two_channel_log(), false);
    let msgs = reader.messages_in_time_range(12, 26);
    let times: Vec<u64> = msgs.iter().map(|m| m.log_time).collect();
    assert_eq!(times, vec![15, 20, 25]);
    assert_eq!(reader.get_last_error(), "");
}

#[test]
fn message_count_for_channel_matches_example() {
    let mut reader = MCAPReader::from_bytes(two_channel_log(), false);
    assert_eq!(reader.message_count_for_channel(1), 2);
    assert_eq!(reader.message_count_for_channel(0), 3);
    assert_eq!(reader.message_count_for_channel(7), 0);
}

#[test]
fn count_in_range_equals_range_query_length() {
    let mut reader = MCAPReader::from_bytes(two_channel_log(), false);
    for (s, e) in [(0i64, 100i64), (12, 26), (10, 10), (31, 40), (15, 15)] {
        let count = reader.message_count_in_range(s, e);
        let found = reader.messages_in_time_range(s, e);
        assert_eq!(count, found.len() as i64, "range [{s}, {e}]");
    }
}

#[test]
fn message_count_total_uses_statistics() {
    let mut reader = MCAPReader::from_bytes(two_channel_log(), false);
    assert_eq!(reader.message_count_total(), 5);
}

#[test]
fn message_count_for_channel_in_range_counts_exactly() {
    let mut reader = MCAPReader::from_bytes(two_channel_log(), false);
    assert_eq!(reader.message_count_for_channel_in_range(0, 12, 26), 1);
    assert_eq!(reader.message_count_for_channel_in_range(1, 12, 26), 2);
    assert_eq!(reader.message_count_for_channel_in_range(1, 26, 12), 0);
    assert_eq!(
        reader.last_error,
        Some(LogError::InvalidArgument),
        "inverted range is rejected"
    );
}

#[test]
fn messages_for_channel_keeps_only_that_channel() {
    let mut reader = MCAPReader::from_bytes(two_channel_log(), false);
    let msgs = reader.messages_for_channel(1);
    let times: Vec<u64> = msgs.iter().map(|m| m.log_time).collect();
    assert_eq!(times, vec![15, 25]);
    assert!(msgs.iter().all(|m| m.channel_id == 1));
}

#[test]
fn messages_for_channels_accepts_a_set() {
    let mut reader = MCAPReader::from_bytes(two_channel_log(), false);
    let both = reader.messages_for_channels(&vec![0, 1]);
    assert_eq!(both.len(), 5);
    let none = reader.messages_for_channels(&vec![-3]);
    assert_eq!(none.len(), 0);
}

#[test]
fn messages_for_topic_resolves_the_topic() {
    let mut reader = MCAPReader::from_bytes(two_channel_log(), false);
    let msgs = reader.messages_for_topic(&"topic_b".to_string());
    let times: Vec<u64> = msgs.iter().map(|m| m.log_time).collect();
    assert_eq!(times, vec![15, 25]);
    let nothing = reader.messages_for_topic(&"no_such_topic".to_string());
    assert!(nothing.is_empty());
}

#[test]
fn topic_to_channel_id_returns_lowest_match() {
    let reader = MCAPReader::from_bytes(two_channel_log(), false);
    assert_eq!(reader.topic_to_channel_id(&"topic_a".to_string()), 0);
    assert_eq!(reader.topic_to_channel_id(&"topic_b".to_string()), 1);
    assert_eq!(reader.topic_to_channel_id(&"missing".to_string()), -1);
}

#[test]
fn channel_and_schema_tables_are_exposed() {
    let mut reader = MCAPReader::from_bytes(two_channel_log(), false);
    let mut ids = reader.channel_ids();
    ids.sort();
    assert_eq!(ids, vec![0, 1]);
    let mut topics = reader.topic_names();
    topics.sort();
    assert_eq!(topics, vec!["topic_a".to_string(), "topic_b".to_string()]);
    let schema = reader.schema_for_channel(0).expect("channel 0 has a schema");
    assert_eq!(schema.name, "numbers");
    assert_eq!(schema.data, b"u8".to_vec());
    assert!(reader.schema_for_channel(1).is_none());
    let with_schema = reader.channels_for_schema(schema.id as i32);
    assert_eq!(with_schema, vec![0]);
    assert_eq!(reader.chunk_count() >= 1, true);
    assert_eq!(
        reader.chunk_indexes().len() as i32,
        reader.chunk_count(),
        "chunk index rows match the count"
    );
}

#[test]
fn time_bounds_come_from_statistics() {
    let reader = MCAPReader::from_bytes(two_channel_log(), false);
    assert_eq!(reader.first_message_time_usec(), 10);
    assert_eq!(reader.last_message_time_usec(), 30);
    assert_eq!(reader.duration_usec(), 20);
}

#[test]
fn linear_scan_decodes_every_message() {
    let mut reader = MCAPReader::from_bytes(two_channel_log(), false);
    let msgs = reader.messages();
    assert_eq!(msgs.len(), 5);
    // storage order, and payloads decoded from the chunk, not echoed input
    assert_eq!(msgs[0].log_time, 10);
    assert_eq!(msgs[0].data, vec![10u8]);
    assert_eq!(msgs[1].data, vec![15u8]);
    let raw = reader.raw_messages();
    assert_eq!(raw.len(), 5);
    assert_eq!(raw[4].0.log_time, 30);
    assert_eq!(raw[4].1, vec![30u8]);
}

#[test]
fn footer_points_at_the_summary() {
    let mut reader = MCAPReader::from_bytes(two_channel_log(), false);
    let footer = reader.footer().expect("well-formed log has a footer");
    assert!(footer.summary_start > 0);
}

#[test]
fn message_indexes_are_sorted_per_channel() {
    let mut reader = MCAPReader::from_bytes(two_channel_log(), false);
    let chunks = reader.chunk_indexes();
    let table = reader.message_indexes_for_chunk(&chunks[0]);
    assert_eq!(table.len(), 2);
    let (ch0, entries0) = &table[0];
    assert_eq!(*ch0, 0);
    let times: Vec<u64> = entries0.iter().map(|e| e.log_time).collect();
    assert_eq!(times, vec![10, 20, 30]);
    // seeking an entry decodes exactly the message it describes
    let msg = reader
        .seek_message(&chunks[0], &entries0[1])
        .expect("entry decodes");
    assert_eq!(msg.log_time, 20);
    assert_eq!(msg.channel_id, 0);
    assert_eq!(msg.data, vec![20u8]);
}

#[test]
fn default_write_options_round_trip() {
    let mut w = mcap::WriteOptions::new()
        .create(Cursor::new(Vec::new()))
        .unwrap();
    w.add_channel_with_id(0, 0, "topic_a", "raw", &BTreeMap::new())
        .unwrap();
    for t in [10u64, 20, 30] {
        w.write_to_known_channel(
            &mcap::records::MessageHeader {
                channel_id: 0,
                sequence: t as u32,
                log_time: t,
                publish_time: t,
            },
            &[t as u8],
        )
        .unwrap();
    }
    w.finish().unwrap();
    let bytes = w.into_inner().into_inner();
    let mut reader = MCAPReader::from_bytes(bytes, false);
    let msgs = reader.messages_in_time_range(0, 100);
    assert_eq!(msgs.len(), 3);
    assert_eq!(msgs[2].data, vec![30u8]);
}

/// The eight leading magic bytes of a log.
fn magic() -> Vec<u8> {
    vec![0x89, b'M', b'C', b'A', b'P', 0x30, b'\r', b'\n']
}

/// A record frame: opcode, little-endian length, body.
fn frame(op: u8, body: &[u8]) -> Vec<u8> {
    let mut out = vec![op];
    out.extend_from_slice(&(body.len() as u64).to_le_bytes());
    out.extend_from_slice(body);
    out
}

#[test]
fn crafted_attachment_record_fails_closed() {
    // an attachment body whose name and media-type fields leave the
    // decoder's header cursor past the body's CRC trailer: 16 bytes of
    // timestamps, a 5-byte name, an empty media type and a data length
    // put the header end at 37 of a 40-byte body
    let mut body = Vec::new();
    body.extend_from_slice(&0u64.to_le_bytes());
    body.extend_from_slice(&0u64.to_le_bytes());
    body.extend_from_slice(&5u32.to_le_bytes());
    body.extend_from_slice(b"notes");
    body.extend_from_slice(&0u32.to_le_bytes());
    body.extend_from_slice(&0u64.to_le_bytes());
    assert_eq!(body.len(), 37);
    body.resize(40, 0);
    let mut bytes = magic();
    bytes.extend_from_slice(&frame(0x09, &body));
    let mut reader = MCAPReader::from_bytes(bytes, true);
    // the linear scan refuses the log instead of reaching the decoder
    let msgs = reader.messages();
    assert!(msgs.is_empty());
    assert_eq!(reader.last_error, Some(LogError::DecodeFailure));
    assert!(reader.raw_messages().is_empty());
    assert_eq!(reader.last_error, Some(LogError::DecodeFailure));
}

#[test]
fn crafted_attachment_inside_chunk_fails_closed() {
    // the same crafted attachment, wrapped in an uncompressed chunk record
    let mut att_body = Vec::new();
    att_body.extend_from_slice(&0u64.to_le_bytes());
    att_body.extend_from_slice(&0u64.to_le_bytes());
    att_body.extend_from_slice(&5u32.to_le_bytes());
    att_body.extend_from_slice(b"notes");
    att_body.extend_from_slice(&0u32.to_le_bytes());
    att_body.extend_from_slice(&0u64.to_le_bytes());
    att_body.resize(40, 0);
    let records = frame(0x09, &att_body);
    let mut chunk_body = Vec::new();
    chunk_body.extend_from_slice(&0u64.to_le_bytes()); // start time
    chunk_body.extend_from_slice(&0u64.to_le_bytes()); // end time
    chunk_body.extend_from_slice(&(records.len() as u64).to_le_bytes()); // uncompressed size
    chunk_body.extend_from_slice(&0u32.to_le_bytes()); // crc
    chunk_body.extend_from_slice(&0u32.to_le_bytes()); // empty compression string
    chunk_body.extend_from_slice(&(records.len() as u64).to_le_bytes()); // compressed size
    chunk_body.extend_from_slice(&records);
    let mut bytes = magic();
    bytes.extend_from_slice(&frame(0x06, &chunk_body));
    let mut reader = MCAPReader::from_bytes(bytes, true);
    assert!(reader.messages().is_empty());
    assert_eq!(reader.last_error, Some(LogError::DecodeFailure));
}

#[test]
fn wrapping_frame_length_fails_closed() {
    // a record frame declaring a body length within nine bytes of the
    // platform maximum: the decoder's framing sum wraps before its
    // end-of-stream comparison, so the scan must refuse the log outright
    let mut bytes = magic();
    bytes.push(0x05);
    bytes.extend_from_slice(&(u64::MAX - 8).to_le_bytes());
    assert_eq!(bytes.len(), 17);
    let mut reader = MCAPReader::from_bytes(bytes.clone(), true);
    assert!(reader.messages().is_empty());
    assert_eq!(reader.last_error, Some(LogError::DecodeFailure));
    assert!(reader.raw_messages().is_empty());
    assert_eq!(reader.last_error, Some(LogError::DecodeFailure));

    // the same frame header inside an uncompressed chunk record
    let mut records = vec![0x05u8];
    records.extend_from_slice(&(u64::MAX - 8).to_le_bytes());
    let mut chunk_body = Vec::new();
    chunk_body.extend_from_slice(&0u64.to_le_bytes()); // start time
    chunk_body.extend_from_slice(&0u64.to_le_bytes()); // end time
    chunk_body.extend_from_slice(&(records.len() as u64).to_le_bytes()); // uncompressed size
    chunk_body.extend_from_slice(&0u32.to_le_bytes()); // crc
    chunk_body.extend_from_slice(&0u32.to_le_bytes()); // empty compression string
    chunk_body.extend_from_slice(&(records.len() as u64).to_le_bytes()); // compressed size
    chunk_body.extend_from_slice(&records);
    let mut wrapped = magic();
    wrapped.extend_from_slice(&frame(0x06, &chunk_body));
    let mut reader = MCAPReader::from_bytes(wrapped, true);
    assert!(reader.messages().is_empty());
    assert_eq!(reader.last_error, Some(LogError::DecodeFailure));
}

#[test]
fn unsupported_compression_fails_closed() {
    // a chunk record declaring a compression this build does not carry
    let mut chunk_body = Vec::new();
    chunk_body.extend_from_slice(&0u64.to_le_bytes());
    chunk_body.extend_from_slice(&0u64.to_le_bytes());
    chunk_body.extend_from_slice(&0u64.to_le_bytes());
    chunk_body.extend_from_slice(&0u32.to_le_bytes());
    chunk_body.extend_from_slice(&4u32.to_le_bytes());
    chunk_body.extend_from_slice(b"zstd");
    chunk_body.extend_from_slice(&0u64.to_le_bytes());
    let mut bytes = magic();
    bytes.extend_from_slice(&frame(0x06, &chunk_body));
    let mut reader = MCAPReader::from_bytes(bytes, true);
    assert!(reader.messages().is_empty());
    assert_eq!(reader.last_error, Some(LogError::DecodeFailure));
}

#[test]
fn attachments_and_metadata_round_trip() {
    let mut w = mcap::WriteOptions::new()
        .compression(None)
        .create(Cursor::new(Vec::new()))
        .unwrap();
    w.add_channel_with_id(0, 0, "topic_a", "raw", &BTreeMap::new())
        .unwrap();
    w.attach(&mcap::Attachment {
        log_time: 7,
        create_time: 6,
        name: "notes.txt".to_string(),
        media_type: "text/plain".to_string(),
        data: Cow::Borrowed(b"hello"),
    })
    .unwrap();
    let mut kv = BTreeMap::new();
    kv.insert("origin".to_string(), "bench".to_string());
    w.write_metadata(&mcap::records::Metadata {
        name: "run".to_string(),
        metadata: kv,
    })
    .unwrap();
    w.finish().unwrap();
    let bytes = w.into_inner().into_inner();
    let mut reader = MCAPReader::from_bytes(bytes, false);
    let atts = reader.attachments();
    assert_eq!(atts.len(), 1);
    assert_eq!(atts[0].name, "notes.txt");
    assert_eq!(atts[0].media_type, "text/plain");
    assert_eq!(atts[0].data, b"hello".to_vec());
    assert_eq!(atts[0].log_time, 7);
    let metas = reader.metadata_entries();
    assert_eq!(metas.len(), 1);
    assert_eq!(metas[0].name, "run");
    assert_eq!(metas[0].entries.len(), 1);
    assert_eq!(metas[0].entries[0].0, "origin");
    assert_eq!(metas[0].entries[0].1, "bench");
}

#[test]
fn missing_summary_degrades_softly() {
    let mut reader = MCAPReader::from_bytes(summaryless_log(), false);
    assert!(!reader.has_summary());
    assert!(reader.read_summary().is_none());
    // indexed queries fail closed with a retrievable error
    assert!(reader.messages_in_time_range(0, 100).is_empty());
    assert_eq!(reader.last_error, Some(LogError::SummaryUnavailable));
    assert!(reader.get_last_error().contains("no summary"));
    assert_eq!(reader.message_count_total(), 0);
    assert_eq!(reader.first_message_time_usec(), -1);
    // the linear scan still works without a summary
    let msgs = reader.messages();
    assert_eq!(msgs.len(), 1);
    assert_eq!(reader.get_last_error(), "");
}

#[test]
fn malformed_bytes_record_a_decode_failure() {
    let reader = MCAPReader::from_bytes(b"not an mcap log at all".to_vec(), false);
    assert!(!reader.has_summary());
    assert_eq!(reader.last_error, Some(LogError::DecodeFailure));
    assert!(reader.get_last_error().contains("decoding"));
}

#[test]
fn inverted_range_is_an_invalid_argument() {
    let mut reader = MCAPReader::from_bytes(two_channel_log(), false);
    assert!(reader.messages_in_time_range(26, 12).is_empty());
    assert_eq!(reader.last_error, Some(LogError::InvalidArgument));
    assert!(reader.get_last_error().contains("invalid argument"));
    assert!(reader.messages_for_channel(-1).is_empty());
    assert_eq!(reader.last_error, Some(LogError::InvalidArgument));
}

#[test]
fn negative_bounds_mean_unbounded() {
    let mut reader = MCAPReader::from_bytes(two_channel_log(), false);
    let all = reader.messages_in_time_range(-1, -1);
    assert_eq!(all.len(), 5);
    let tail = reader.messages_in_time_range(20, -1);
    let times: Vec<u64> = tail.iter().map(|m| m.log_time).collect();
    assert_eq!(times, vec![20, 25, 30]);
    assert_eq!(reader.message_count_in_range(-1, -1), 5);
}

#[test]
fn close_releases_the_source() {
    let mut reader = MCAPReader::from_bytes(two_channel_log(), false);
    reader.close();
    assert!(!reader.has_summary());
    assert_eq!(reader.get_last_error(), "");
    assert_eq!(reader.message_count_total(), 0);
}

#[test]
fn every_error_has_a_description() {
    assert!(!LogError::SummaryUnavailable.text().is_empty());
    assert!(!LogError::DecodeFailure.text().is_empty());
    assert!(!LogError::NotOpen.text().is_empty());
    assert!(!LogError::InvalidArgument.text().is_empty());
}

#[test]
fn corrupted_chunk_keeps_partial_results() {
    // two chunks; corrupt a byte inside the second chunk's record
    let mut w = mcap::WriteOptions::new()
        .compression(None)
        .create(Cursor::new(Vec::new()))
        .unwrap();
    w.add_channel_with_id(0, 0, "topic_a", "raw", &BTreeMap::new())
        .unwrap();
    for t in [10u64, 20] {
        w.write_to_known_channel(
            &mcap::records::MessageHeader {
                channel_id: 0,
                sequence: t as u32,
                log_time: t,
                publish_time: t,
            },
            &[t as u8],
        )
        .unwrap();
    }
    w.flush().unwrap();
    for t in [30u64, 40] {
        w.write_to_known_channel(
            &mcap::records::MessageHeader {
                channel_id: 0,
                sequence: t as u32,
                log_time: t,
                publish_time: t,
            },
            &[t as u8],
        )
        .unwrap();
    }
    w.finish().unwrap();
    let mut bytes = w.into_inner().into_inner();
    let mut probe = MCAPReader::from_bytes(bytes.clone(), false);
    let chunks = probe.chunk_indexes();
    assert_eq!(chunks.len(), 2);
    // clobber the start of the second chunk's records region
    let off = chunks[1].chunk_start_offset as usize + 49;
    for b in &mut bytes[off..off + 9] {
        *b ^= 0xff;
    }

    let mut reader = MCAPReader::from_bytes(bytes, false);
    // the bulk query stops at the bad chunk, keeping earlier messages
    let partial = reader.messages_in_time_range(0, 100);
    let times: Vec<u64> = partial.iter().map(|m| m.log_time).collect();
    assert_eq!(times, vec![10, 20]);
    assert_eq!(reader.last_error, Some(LogError::DecodeFailure));
    // the iterator skips the bad chunk and drains the rest
    let mut it = reader.stream_messages_iterator();
    let mut seen = Vec::new();
    while let Some(m) = it.get_next_message() {
        seen.push(m.log_time);
    }
    assert_eq!(seen, vec![10, 20]);
}

#[test]
fn ignore_end_magic_tolerates_a_clipped_tail() {
    let mut bytes = two_channel_log();
    let n = bytes.len();
    // clobber the end-of-file magic
    for b in &mut bytes[n - 8..] {
        *b = 0;
    }
    let mut strict = MCAPReader::from_bytes(bytes.clone(), false);
    let _ = strict.messages();
    assert_eq!(strict.last_error, Some(LogError::DecodeFailure));
    let mut lenient = MCAPReader::from_bytes(bytes, true);
    let msgs = lenient.messages();
    assert_eq!(msgs.len(), 5);
    assert_eq!(lenient.get_last_error(), "");
}
