//! Merge iterator tests: global time order across chunks, the peek/consume
//! protocol, channel filtering, and the seek operations.

use std::collections::BTreeMap;
use std::io::Cursor;

use mcap_replay::iterator::MCAPMessageIterator;
use mcap_replay::reader::MCAPReader;

/// Two chunks; channel 0 at [10, 20, 30] and channel 1 at [15, 25] in the
/// first chunk, channel 0 at [40, 60] and channel 1 at [50] in the second.
fn two_chunk_log() -> Vec<u8> {
    let mut w = mcap::WriteOptions::new()
        .compression(None)
        .create(Cursor::new(Vec::new()))
        .unwrap();
    w.add_channel_with_id(0, 0, "topic_a", "raw", &BTreeMap::new())
        .unwrap();
    w.add_channel_with_id(1, 0, "topic_b", "raw", &BTreeMap::new())
        .unwrap();
    for (ch, t) in [(0u16, 10u64), (1, 15), (0, 20), (1, 25), (0, 30)] {
        w.write_to_known_channel(
            &mcap::records::MessageHeader {
                channel_id: ch,
                sequence: t as u32,
                log_time: t,
                publish_time: t,
            },
            &[t as u8],
        )
        .unwrap();
    }
    w.flush().unwrap(); // close the first chunk
    for (ch, t) in [(0u16, 40u64), (1, 50), (0, 60)] {
        w.write_to_known_channel(
            &mcap::records::MessageHeader {
                channel_id: ch,
                sequence: t as u32,
                log_time: t,
                publish_time: t,
            },
            &[t as u8],
        )
        .unwrap();
    }
    w.finish().unwrap();
    w.into_inner().into_inner()
}

fn drain(it: &mut MCAPMessageIterator) -> Vec<u64> {
    let mut out = Vec::new();
    while let Some(m) = it.get_next_message() {
        out.push(m.log_time);
    }
    out
}

#[test]
fn drains_every_message_in_time_order() {
    let reader = MCAPReader::from_bytes(two_chunk_log(), false);
    let mut it = reader.stream_messages_iterator();
    assert_eq!(drain(&mut it), vec![10, 15, 20, 25, 30, 40, 50, 60]);
    assert_eq!(it.current_index(), 8);
    assert!(it.get_next_message().is_none());
}

#[test]
fn peek_does_not_advance() {
    let reader = MCAPReader::from_bytes(two_chunk_log(), false);
    let mut it = reader.stream_messages_iterator();
    assert!(it.has_next_message());
    let peeked = it.peek_message().unwrap();
    assert_eq!(peeked.log_time, 10);
    assert_eq!(it.current_index(), 0);
    let taken = it.get_next_message().unwrap();
    assert_eq!(taken.log_time, 10);
    assert_eq!(it.current_index(), 1);
    assert_eq!(it.peek_message().unwrap().log_time, 15);
}

#[test]
fn rewind_restarts_the_stream() {
    let reader = MCAPReader::from_bytes(two_chunk_log(), false);
    let mut it = reader.stream_messages_iterator();
    assert_eq!(it.get_next_message().unwrap().log_time, 10);
    assert_eq!(it.get_next_message().unwrap().log_time, 15);
    it.rewind();
    assert_eq!(it.current_index(), 0);
    assert_eq!(it.get_next_message().unwrap().log_time, 10);
}

#[test]
fn channel_filter_restricts_the_stream() {
    let reader = MCAPReader::from_bytes(two_chunk_log(), false);
    let mut it = reader.stream_messages_iterator();
    it.for_channel(1);
    assert_eq!(drain(&mut it), vec![15, 25, 50]);
    it.clear_filter();
    assert_eq!(drain(&mut it).len(), 8);
}

#[test]
fn seek_to_time_lands_on_first_at_or_after() {
    let reader = MCAPReader::from_bytes(two_chunk_log(), false);
    let mut it = reader.stream_messages_iterator();
    assert!(it.seek_to_time(15));
    assert_eq!(drain(&mut it), vec![15, 20, 25, 30, 40, 50, 60]);
    assert!(it.seek_to_time(16));
    assert_eq!(it.get_next_message().unwrap().log_time, 20);
    // a seek into the second chunk
    assert!(it.seek_to_time(35));
    assert_eq!(drain(&mut it), vec![40, 50, 60]);
    // past the end: nothing at or after
    assert!(!it.seek_to_time(61));
}

#[test]
fn seek_then_drain_is_the_time_suffix() {
    let reader = MCAPReader::from_bytes(two_chunk_log(), false);
    let mut full = reader.stream_messages_iterator();
    let all = drain(&mut full);
    for t in [0i64, 10, 11, 25, 39, 40, 60] {
        let mut it = reader.stream_messages_iterator();
        assert!(it.seek_to_time(t), "seek to {t}");
        let expected: Vec<u64> = all.iter().copied().filter(|x| *x >= t as u64).collect();
        assert_eq!(drain(&mut it), expected, "suffix from {t}");
    }
}

#[test]
fn seek_nearest_falls_back_to_latest_before() {
    let reader = MCAPReader::from_bytes(two_chunk_log(), false);
    let mut it = reader.stream_messages_iterator();
    // nothing at or before 5: positions at the first message instead
    assert!(it.seek_to_time_nearest(5));
    assert_eq!(it.peek_message().unwrap().log_time, 10);
    // past the end: positions at the last message
    assert!(it.seek_to_time_nearest(100));
    assert_eq!(it.peek_message().unwrap().log_time, 60);
    // in the middle with an exact hit
    assert!(it.seek_to_time_nearest(25));
    assert_eq!(it.peek_message().unwrap().log_time, 25);
}

#[test]
fn seek_next_on_channel_is_strictly_after() {
    let reader = MCAPReader::from_bytes(two_chunk_log(), false);
    let mut it = reader.stream_messages_iterator();
    assert!(it.seek_to_next_on_channel(1, 15));
    assert_eq!(it.peek_message().unwrap().log_time, 25);
    assert!(it.seek_to_next_on_channel(1, 25));
    assert_eq!(it.peek_message().unwrap().log_time, 50);
    assert!(!it.seek_to_next_on_channel(1, 50));
    assert!(!it.seek_to_next_on_channel(9, 0));
}

#[test]
fn get_message_at_time_is_exact() {
    let reader = MCAPReader::from_bytes(two_chunk_log(), false);
    let it = reader.stream_messages_iterator();
    let hit = it.get_message_at_time(0, 20).expect("message exists");
    assert_eq!(hit.log_time, 20);
    assert_eq!(hit.channel_id, 0);
    assert_eq!(hit.data, vec![20u8]);
    assert!(it.get_message_at_time(0, 21).is_none());
    assert!(it.get_message_at_time(1, 20).is_none());
    let second_chunk = it.get_message_at_time(1, 50).expect("message exists");
    assert_eq!(second_chunk.log_time, 50);
}

#[test]
fn iterator_without_summary_is_empty() {
    let mut w = mcap::WriteOptions::new()
        .compression(None)
        .use_chunks(false)
        .disable_seeking(true)
        .repeat_channels(false)
        .repeat_schemas(false)
        .emit_statistics(false)
        .emit_summary_offsets(false)
        .emit_chunk_indexes(false)
        .emit_message_indexes(false)
        .emit_attachment_indexes(false)
        .emit_metadata_indexes(false)
        .create(Cursor::new(Vec::new()))
        .unwrap();
    w.add_channel_with_id(0, 0, "topic_a", "raw", &BTreeMap::new())
        .unwrap();
    w.write_to_known_channel(
        &mcap::records::MessageHeader {
            channel_id: 0,
            sequence: 1,
            log_time: 10,
            publish_time: 10,
        },
        &[1],
    )
    .unwrap();
    w.finish().unwrap();
    let reader = MCAPReader::from_bytes(w.into_inner().into_inner(), false);
    let mut it = reader.stream_messages_iterator();
    assert!(!it.has_next_message());
    assert!(it.get_next_message().is_none());
    assert!(!it.seek_to_time(0));
}
