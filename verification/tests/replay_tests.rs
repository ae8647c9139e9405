//! Replay scheduler tests with a simulated wall clock: target computation,
//! tick emission windows, speed scaling, filtering, seeking and looping.

use std::collections::BTreeMap;
use std::io::Cursor;

use mcap_replay::reader::MCAPReader;
use mcap_replay::replay::MCAPReplay;

/// One chunk; channel 0 at [10, 20, 30], channel 1 at [15, 25].
fn small_log() -> Vec<u8> {
    let mut w = mcap::WriteOptions::new()
        .compression(None)
        .create(Cursor::new(Vec::new()))
        .unwrap();
    w.add_channel_with_id(0, 0, "topic_a", "raw", &BTreeMap::new())
        .unwrap();
    w.add_channel_with_id(1, 0, "topic_b", "raw", &BTreeMap::new())
        .unwrap();
    for (ch, t) in [(0u16, 10u64), (1, 15), (0, 20), (1, 25), (0, 30)] {
        w.write_to_known_channel(
            &mcap::records::MessageHeader {
                channel_id: ch,
                sequence: t as u32,
                log_time: t,
                publish_time: t,
            },
            &[t as u8],
        )
        .unwrap();
    }
    w.finish().unwrap();
    w.into_inner().into_inner()
}

fn ready_replay() -> MCAPReplay {
    let mut replay = MCAPReplay::new();
    replay.set_reader(MCAPReader::from_bytes(small_log(), false));
    replay
}

#[test]
fn start_anchors_at_the_first_message() {
    let mut replay = ready_replay();
    assert!(!replay.is_running());
    assert_eq!(replay.current_time_usec(1_000), -1);
    assert!(replay.start(1_000));
    assert!(replay.is_running());
    // the logical clock advances with the wall clock at real-time speed
    assert_eq!(replay.current_time_usec(1_000), 10);
    assert_eq!(replay.current_time_usec(1_007), 17);
}

#[test]
fn start_without_reader_fails() {
    let mut replay = MCAPReplay::new();
    assert!(!replay.start(0));
    assert!(!replay.is_running());
}

#[test]
fn start_without_obtainable_data_fails() {
    // a summary-less log offers no indexed stream: start must fail closed
    let mut w = mcap::WriteOptions::new()
        .compression(None)
        .use_chunks(false)
        .disable_seeking(true)
        .repeat_channels(false)
        .repeat_schemas(false)
        .emit_statistics(false)
        .emit_summary_offsets(false)
        .emit_chunk_indexes(false)
        .emit_message_indexes(false)
        .emit_attachment_indexes(false)
        .emit_metadata_indexes(false)
        .create(Cursor::new(Vec::new()))
        .unwrap();
    w.add_channel_with_id(0, 0, "topic_a", "raw", &BTreeMap::new())
        .unwrap();
    w.write_to_known_channel(
        &mcap::records::MessageHeader {
            channel_id: 0,
            sequence: 1,
            log_time: 10,
            publish_time: 10,
        },
        &[1],
    )
    .unwrap();
    w.finish().unwrap();
    let mut replay = MCAPReplay::new();
    replay.set_reader(MCAPReader::from_bytes(w.into_inner().into_inner(), false));
    assert!(!replay.start(1_000));
    assert!(!replay.is_running());
    assert_eq!(replay.current_time_usec(1_000), -1);
    // a start time past every message also offers nothing... but a failed
    // seek leaves the fresh iterator at the log's start, so a range start
    // beyond the data still finds the full stream and succeeds
    let mut past = ready_replay();
    past.set_time_range(99, -1, 0);
    assert!(past.start(1_000));
}

#[test]
fn ticks_emit_exactly_the_due_window() {
    let mut replay = ready_replay();
    assert!(replay.start(1_000));
    // target 15: messages at 10 and 15 are due, once each, in order
    let first = replay.update_replay(1_005);
    let times: Vec<u64> = first.iter().map(|m| m.log_time).collect();
    assert_eq!(times, vec![10, 15]);
    // target 25: exactly the messages in (15, 25]
    let second = replay.update_replay(1_015);
    let times: Vec<u64> = second.iter().map(|m| m.log_time).collect();
    assert_eq!(times, vec![20, 25]);
    // no progress, nothing due
    let third = replay.update_replay(1_015);
    assert!(third.is_empty());
    assert!(replay.is_running());
}

#[test]
fn exhaustion_stops_without_looping() {
    let mut replay = ready_replay();
    assert!(replay.start(1_000));
    let all = replay.update_replay(2_000);
    assert_eq!(all.len(), 5);
    assert!(!replay.is_running());
    // a tick on a stopped scheduler does nothing
    assert!(replay.update_replay(3_000).is_empty());
}

#[test]
fn looping_restarts_without_losing_the_boundary() {
    let mut replay = ready_replay();
    replay.set_looping(true);
    assert!(replay.start(1_000));
    let first_pass = replay.update_replay(2_000);
    assert_eq!(first_pass.len(), 5);
    assert!(replay.is_running(), "looping replay keeps running");
    // restarted at the log's first message time with a fresh anchor
    assert_eq!(replay.current_time_usec(2_000), 10);
    // the boundary message at the start comes back exactly once
    let second_pass = replay.update_replay(2_000);
    let times: Vec<u64> = second_pass.iter().map(|m| m.log_time).collect();
    assert_eq!(times, vec![10]);
}

#[test]
fn speed_scales_the_clock() {
    let mut replay = ready_replay();
    replay.set_speed(2_000);
    assert!(replay.start(1_000));
    // 5 us of wall time at double speed advance the log clock by 10
    assert_eq!(replay.current_time_usec(1_005), 20);
    let due = replay.update_replay(1_005);
    let times: Vec<u64> = due.iter().map(|m| m.log_time).collect();
    assert_eq!(times, vec![10, 15, 20]);
    // zero is coerced to real time
    replay.set_speed(0);
    assert_eq!(replay.speed_milli, 1_000);
}

#[test]
fn time_range_clamps_the_clock_and_restarts() {
    let mut replay = ready_replay();
    replay.set_time_range(15, 25, 0);
    assert!(replay.start(1_000));
    assert_eq!(replay.current_time_usec(1_000), 15);
    // the logical clock never passes the end bound
    assert_eq!(replay.current_time_usec(9_999), 25);
    let due = replay.update_replay(1_020);
    let times: Vec<u64> = due.iter().map(|m| m.log_time).collect();
    assert_eq!(times, vec![15, 20, 25]);
    // the message at 30 lies past the range: the scheduler stops
    let rest = replay.update_replay(1_040);
    assert!(rest.is_empty());
    assert!(!replay.is_running());
}

#[test]
fn channel_filter_applies_per_message() {
    let mut replay = ready_replay();
    replay.set_filter_channels(&vec![1], 0);
    assert!(replay.start(1_000));
    let due = replay.update_replay(1_030);
    let times: Vec<u64> = due.iter().map(|m| m.log_time).collect();
    assert_eq!(times, vec![15, 25]);
    assert!(due.iter().all(|m| m.channel_id == 1));
}

#[test]
fn filter_change_keeps_the_logical_time() {
    let mut replay = ready_replay();
    assert!(replay.start(1_000));
    let _ = replay.update_replay(1_005);
    // switch filters mid-run at wall time 1_007 (logical time 17)
    replay.set_filter_channels(&vec![0], 1_007);
    assert!(replay.is_running());
    assert_eq!(replay.current_time_usec(1_007), 17);
    let due = replay.update_replay(1_015);
    let times: Vec<u64> = due.iter().map(|m| m.log_time).collect();
    assert_eq!(times, vec![20], "only channel 0 up to log time 25");
    // dropping the filter rebuilds at the current logical time (25)
    replay.clear_filter_channels(1_015);
    assert!(replay.is_running());
    assert_eq!(replay.current_time_usec(1_015), 25);
    let rest = replay.update_replay(1_020);
    let times: Vec<u64> = rest.iter().map(|m| m.log_time).collect();
    assert_eq!(times, vec![25, 30]);
}

#[test]
fn seek_repositions_and_reanchors() {
    let mut replay = ready_replay();
    assert!(replay.start(1_000));
    assert!(replay.seek_to_time(25, 1_003));
    assert_eq!(replay.current_time_usec(1_003), 25);
    let due = replay.update_replay(1_003);
    let times: Vec<u64> = due.iter().map(|m| m.log_time).collect();
    assert_eq!(times, vec![25]);
    // seeking past the end fails closed
    assert!(!replay.seek_to_time(99, 1_004));
}

#[test]
fn stop_clears_the_anchors() {
    let mut replay = ready_replay();
    assert!(replay.start(1_000));
    replay.stop();
    assert!(!replay.is_running());
    assert_eq!(replay.current_time_usec(5_000), -1);
    assert!(replay.update_replay(5_000).is_empty());
}

#[test]
fn clear_reader_detaches() {
    let mut replay = ready_replay();
    assert!(replay.start(1_000));
    replay.clear_reader();
    assert!(!replay.is_running());
    assert!(!replay.start(2_000));
}
