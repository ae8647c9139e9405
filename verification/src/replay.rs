//! The replay scheduler: a tick-driven state machine mapping wall-clock
//! time to log time.
//!
//! The host calls [`MCAPReplay::update_replay`] once per scheduling tick
//! with the current monotonic wall clock in microseconds.  The scheduler
//! computes the target log time from the anchors captured at the last
//! (re)start or seek, scaled by the playback speed, and returns every due
//! message in log-time order; the host delivers them to its callback after
//! the call, so a callback may freely operate on the scheduler.  On
//! exhaustion the scheduler either stops or, when looping, restarts at the
//! configured start time.

use vstd::prelude::*;

use crate::iterator::{first_end_geq, seek_remaining, MCAPMessageIterator};
use crate::reader::{clamp_neg, time_to_i64, MCAPReader};
use crate::types::{Message, MessageV};

verus! {

/// How a tick's message scan ended.
pub enum TickEnd {
    /// The next message is beyond the target: wait for a later tick.
    Pause,
    /// The stream is exhausted or past the end bound: stop or restart.
    End,
}

/// Whether a channel id passes an optional channel set (`None` accepts
/// all).
pub open spec fn passes_filter(filt: Option<Seq<u16>>, id: u16) -> bool {
    match filt {
        Some(s) => s.contains(id),
        None => true,
    }
}

/// What one tick consumes and emits from the stream `rem`, up to log time
/// `target`, within the end bound, applying the channel set lazily: the
/// emitted messages in order, the number of messages consumed, and how the
/// scan ended.
pub open spec fn spec_tick(
    rem: Seq<MessageV>,
    target: u64,
    end: Option<u64>,
    filt: Option<Seq<u16>>,
) -> (Seq<MessageV>, int, TickEnd)
    decreases rem.len(),
{
    if rem.len() == 0 {
        (Seq::empty(), 0, TickEnd::End)
    } else {
        let m = rem[0];
        if end matches Some(e) && m.log_time > e {
            (Seq::empty(), 0, TickEnd::End)
        } else if m.log_time > target {
            (Seq::empty(), 0, TickEnd::Pause)
        } else {
            let rest = spec_tick(rem.skip(1), target, end, filt);
            if passes_filter(filt, m.channel_id) {
                (seq![m] + rest.0, rest.1 + 1, rest.2)
            } else {
                (rest.0, rest.1 + 1, rest.2)
            }
        }
    }
}

/// Wall-clock elapsed time scaled by the playback speed (in thousandths),
/// saturating to `u64`.
pub open spec fn spec_scaled(elapsed: u64, speed_milli: u64) -> u64 {
    let x = elapsed * speed_milli / 1000;
    if x > u64::MAX {
        u64::MAX
    } else {
        x as u64
    }
}

/// The target log time of a tick: the anchor log time advanced by the
/// scaled elapsed wall time, clamped to the end bound.
pub open spec fn spec_target(anchor_log: u64, elapsed: u64, speed_milli: u64, end: Option<u64>) -> u64 {
    let t = if anchor_log + spec_scaled(elapsed, speed_milli) > u64::MAX {
        u64::MAX
    } else {
        (anchor_log + spec_scaled(elapsed, speed_milli)) as u64
    };
    match end {
        Some(e) => if t > e {
            e
        } else {
            t
        },
        None => t,
    }
}

/// Elapsed wall time, zero when the clock reads before the anchor.
pub open spec fn spec_elapsed(now: u64, anchor_wall: u64) -> u64 {
    if now >= anchor_wall {
        (now - anchor_wall) as u64
    } else {
        0
    }
}

/// The single-channel fast path: a one-element channel set is pushed into
/// the iterator; larger sets are applied lazily per message.
pub open spec fn fast_path(filt: Option<Seq<u16>>) -> Option<u16> {
    match filt {
        Some(s) => if s.len() == 1 {
            Some(s[0])
        } else {
            None
        },
        None => None,
    }
}

/// A `u64` log time clamped to the `i64` range (how timestamps cross the
/// host boundary).
pub open spec fn clamp_time_u64(t: u64) -> u64 {
    if t > i64::MAX {
        i64::MAX as u64
    } else {
        t
    }
}

/// The log time a (re)start positions at: the configured range start, else
/// the log's first message time, else zero.
pub open spec fn spec_start_time(
    time_start: Option<u64>,
    reader: Option<MCAPReader>,
) -> u64 {
    match time_start {
        Some(s) => s,
        None => match reader {
            Some(rd) => match rd.summary {
                Some(sm) => match sm@.stats {
                    Some(st) => clamp_time_u64(st.message_start_time),
                    None => 0,
                },
                None => 0,
            },
            None => 0,
        },
    }
}

/// The stream a freshly built, freshly seeked iterator holds: the full
/// stream when no chunk reaches `t` (a failed seek leaves the iterator at
/// the start), else the post-seek stream.
pub open spec fn fresh_remaining(reader: MCAPReader, fc: Option<u16>, t: u64) -> Seq<MessageV> {
    match reader.summary {
        None => Seq::empty(),
        Some(s) => {
            let chunks = s@.chunk_indexes;
            let ids = crate::model::ids_of(s@.channels);
            match first_end_geq(chunks, t, 0) {
                None => crate::model::stream_from(reader.bytes@, ids, chunks, fc),
                Some(ci) => seek_remaining(reader.bytes@, ids, chunks.skip(ci), fc, t),
            }
        },
    }
}

/// Real-time replay scheduler over an attached reader.
pub struct MCAPReplay {
    /// The log being replayed.
    pub reader: Option<MCAPReader>,
    /// Accepted channel ids; `None` accepts every channel.
    pub filter_channels: Option<Vec<u16>>,
    /// Inclusive range start in microseconds, when configured.
    pub time_start: Option<u64>,
    /// Inclusive range end in microseconds, when configured.
    pub time_end: Option<u64>,
    /// Whether replay is running.
    pub running: bool,
    /// Playback speed in thousandths of real time (1000 = real time);
    /// always positive.
    pub speed_milli: u64,
    /// Restart at the range start on exhaustion.
    pub looping: bool,
    /// The active merge iterator.
    pub iter: Option<MCAPMessageIterator>,
    /// Wall clock at the last (re)start or seek.
    pub anchor_wall_usec: Option<u64>,
    /// Log time at the last (re)start or seek.
    pub anchor_log_usec: Option<u64>,
}

impl MCAPReplay {
    /// Well-formedness: the active iterator is well formed and the speed is
    /// positive.
    pub open spec fn wf(self) -> bool {
        &&& self.speed_milli > 0
        &&& match self.iter {
            Some(it) => it.wf(),
            None => true,
        }
    }

    /// The ghost view of the optional channel set.
    pub open spec fn filt(self) -> Option<Seq<u16>> {
        match self.filter_channels {
            Some(ref v) => Some(v@),
            None => None,
        }
    }

    /// The chunk rows the active (or about-to-be-built) iterator walks:
    /// the active iterator's, else the attached reader's.
    pub open spec fn active_chunks(self) -> Seq<crate::types::ChunkInfoV> {
        match self.iter {
            Some(it) => it.chunks(),
            None => match self.reader {
                Some(rd) => match rd.summary {
                    Some(s) => s@.chunk_indexes,
                    None => Seq::empty(),
                },
                None => Seq::empty(),
            },
        }
    }

    /// The bytes the active (or about-to-be-built) iterator reads.
    pub open spec fn active_bytes(self) -> Seq<u8> {
        match self.iter {
            Some(it) => it.bytes@,
            None => match self.reader {
                Some(rd) => rd.bytes@,
                None => Seq::empty(),
            },
        }
    }

    /// The channel filter of the active (or about-to-be-built) iterator.
    pub open spec fn active_fc(self) -> Option<u16> {
        match self.iter {
            Some(it) => it.filter_channel,
            None => fast_path(self.filt()),
        }
    }

    /// The channel ids the active (or about-to-be-built) iterator resolves
    /// messages against.
    pub open spec fn active_ids(self) -> Seq<u16> {
        match self.iter {
            Some(it) => it.ids(),
            None => match self.reader {
                Some(rd) => match rd.summary {
                    Some(s) => crate::model::ids_of(s@.channels),
                    None => Seq::empty(),
                },
                None => Seq::empty(),
            },
        }
    }

    /// The stream the active iterator still holds; empty without one.
    pub open spec fn iter_remaining(self) -> Seq<MessageV> {
        match self.iter {
            Some(it) => it.remaining(),
            None => Seq::empty(),
        }
    }

    /// The scheduler's configuration (reader, filter, range, speed,
    /// looping) is unchanged.
    pub open spec fn same_config(self, o: Self) -> bool {
        &&& self.reader == o.reader
        &&& self.filter_channels == o.filter_channels
        &&& self.time_start == o.time_start
        &&& self.time_end == o.time_end
        &&& self.speed_milli == o.speed_milli
        &&& self.looping == o.looping
    }

    /// A stopped scheduler with default speed and no reader attached.
    pub fn new() -> (r: Self)
        ensures
            r.reader is None,
            r.filter_channels is None,
            r.time_start is None,
            r.time_end is None,
            !r.running,
            r.speed_milli == 1000,
            !r.looping,
            r.iter is None,
            r.anchor_wall_usec is None,
            r.anchor_log_usec is None,
            r.wf(),
    {
        MCAPReplay {
            reader: None,
            filter_channels: None,
            time_start: None,
            time_end: None,
            running: false,
            speed_milli: 1000,
            looping: false,
            iter: None,
            anchor_wall_usec: None,
            anchor_log_usec: None,
        }
    }

    /// Attach the reader to replay, dropping any active iterator.
    pub fn set_reader(&mut self, reader: MCAPReader)
        requires
            old(self).wf(),
        ensures
            final(self).wf(),
            final(self).reader == Some(reader),
            final(self).iter is None,
            final(self).filter_channels == old(self).filter_channels,
            final(self).time_start == old(self).time_start,
            final(self).time_end == old(self).time_end,
            final(self).speed_milli == old(self).speed_milli,
            final(self).looping == old(self).looping,
            final(self).running == old(self).running,
            final(self).anchor_wall_usec == old(self).anchor_wall_usec,
            final(self).anchor_log_usec == old(self).anchor_log_usec,
    {
        self.reader = Some(reader);
        self.iter = None;
    }

    /// Detach the reader, stopping replay.
    pub fn clear_reader(&mut self)
        requires
            old(self).wf(),
        ensures
            final(self).wf(),
            final(self).reader is None,
            final(self).iter is None,
            !final(self).running,
            final(self).anchor_wall_usec is None,
            final(self).anchor_log_usec is None,
            final(self).filter_channels == old(self).filter_channels,
            final(self).time_start == old(self).time_start,
            final(self).time_end == old(self).time_end,
            final(self).speed_milli == old(self).speed_milli,
            final(self).looping == old(self).looping,
    {
        self.stop();
        self.reader = None;
        self.iter = None;
    }

    /// Whether replay is running.
    pub fn is_running(&self) -> (r: bool)
        ensures
            r == self.running,
    {
        self.running
    }

    /// Set the playback speed in thousandths of real time; zero is coerced
    /// to real time.
    pub fn set_speed(&mut self, speed_milli: u64)
        requires
            old(self).wf(),
        ensures
            final(self).wf(),
            final(self).speed_milli == if speed_milli == 0 {
                1000u64
            } else {
                speed_milli
            },
            final(self).reader == old(self).reader,
            final(self).filter_channels == old(self).filter_channels,
            final(self).time_start == old(self).time_start,
            final(self).time_end == old(self).time_end,
            final(self).looping == old(self).looping,
            final(self).running == old(self).running,
            final(self).iter == old(self).iter,
            final(self).anchor_wall_usec == old(self).anchor_wall_usec,
            final(self).anchor_log_usec == old(self).anchor_log_usec,
    {
        self.speed_milli = if speed_milli == 0 {
            1000
        } else {
            speed_milli
        };
    }

    /// Enable or disable looping.
    pub fn set_looping(&mut self, looping: bool)
        requires
            old(self).wf(),
        ensures
            final(self).wf(),
            final(self).looping == looping,
            final(self).reader == old(self).reader,
            final(self).filter_channels == old(self).filter_channels,
            final(self).time_start == old(self).time_start,
            final(self).time_end == old(self).time_end,
            final(self).speed_milli == old(self).speed_milli,
            final(self).running == old(self).running,
            final(self).iter == old(self).iter,
            final(self).anchor_wall_usec == old(self).anchor_wall_usec,
            final(self).anchor_log_usec == old(self).anchor_log_usec,
    {
        self.looping = looping;
    }

    /// Stop replay: drop the iterator and the anchors.
    pub fn stop(&mut self)
        requires
            old(self).wf(),
        ensures
            final(self).wf(),
            final(self).same_config(*old(self)),
            !final(self).running,
            final(self).iter is None,
            final(self).anchor_wall_usec is None,
            final(self).anchor_log_usec is None,
    {
        self.running = false;
        self.iter = None;
        self.anchor_wall_usec = None;
        self.anchor_log_usec = None;
    }

    /// The current logical replay time in microseconds: the anchor log time
    /// advanced by scaled elapsed wall time and clamped to the end bound;
    /// `-1` before a start.
    pub fn current_time_usec(&self, now_usec: u64) -> (r: i64)
        requires
            self.wf(),
        ensures
            r as int == match (self.anchor_log_usec, self.anchor_wall_usec) {
                (Some(al), Some(aw)) => crate::reader::clamp_time(
                    spec_target(al, spec_elapsed(now_usec, aw), self.speed_milli, self.time_end),
                ),
                _ => -1,
            },
    {
        match (&self.anchor_log_usec, &self.anchor_wall_usec) {
            (Some(al), Some(aw)) => {
                let t = compute_target(*al, *aw, now_usec, self.speed_milli, &self.time_end);
                time_to_i64(t)
            },
            _ => -1,
        }
    }

    /// Build a fresh iterator from the attached reader, pushing a
    /// single-channel filter into it; fails only without a reader.  Does
    /// not seek or re-anchor.
    fn setup_iterator(&mut self) -> (r: bool)
        requires
            old(self).wf(),
        ensures
            final(self).wf(),
            final(self).same_config(*old(self)),
            final(self).running == old(self).running,
            final(self).anchor_wall_usec == old(self).anchor_wall_usec,
            final(self).anchor_log_usec == old(self).anchor_log_usec,
            r == (old(self).reader is Some),
            if r {
                final(self).iter matches Some(it) && old(self).reader matches Some(rd) && it.wf()
                    && it.bytes@ == rd.bytes@ && it.filter_channel == fast_path(old(self).filt())
                    && (match rd.summary {
                    Some(ref s) => it.summary matches Some(c) && c@ == s@,
                    None => it.summary is None,
                }) && it.remaining() == crate::model::stream_from(
                    it.bytes@,
                    it.ids(),
                    it.chunks(),
                    it.filter_channel,
                ) && it.index == 0
            } else {
                final(self).iter == old(self).iter
            },
    {
        let fc: Option<u16> = match &self.filter_channels {
            Some(v) => {
                if v.len() == 1 {
                    Some(v[0])
                } else {
                    None
                }
            },
            None => None,
        };
        let it = match &self.reader {
            Some(rd) => MCAPMessageIterator::new_from_reader(rd, fc),
            None => {
                return false;
            },
        };
        self.iter = Some(it);
        true
    }
}

impl MCAPReplay {
    /// The log time a (re)start positions at, clamped to the host's `i64`
    /// timestamp range.
    fn compute_start_time(&self) -> (r: u64)
        ensures
            r == clamp_time_u64(spec_start_time(self.time_start, self.reader)),
    {
        let raw: u64 = match &self.time_start {
            Some(s) => *s,
            None => match &self.reader {
                Some(rd) => {
                    let t = rd.first_message_time_usec();
                    if t < 0 {
                        0
                    } else {
                        t as u64
                    }
                },
                None => 0,
            },
        };
        if raw > i64::MAX as u64 {
            i64::MAX as u64
        } else {
            raw
        }
    }

    /// Start replay from the configured range start (or the log's first
    /// message time), anchoring at the given wall clock.  Fails without an
    /// attached reader, and without obtainable data: when nothing remains
    /// to play from the start position (for instance on a summary-less
    /// log), `start` returns `false` and changes nothing.
    pub fn start(&mut self, now_usec: u64) -> (r: bool)
        requires
            old(self).wf(),
        ensures
            final(self).wf(),
            match old(self).reader {
                None => r == false && *final(self) == *old(self),
                Some(ref rd) => {
                    let st = clamp_time_u64(
                        spec_start_time(old(self).time_start, old(self).reader),
                    );
                    let rem = fresh_remaining(*rd, fast_path(old(self).filt()), st);
                    if rem.len() == 0 {
                        r == false && *final(self) == *old(self)
                    } else {
                        r == true && final(self).same_config(*old(self)) && final(self).running
                            && final(self).anchor_wall_usec == Some(now_usec)
                            && final(self).anchor_log_usec == Some(st) && (final(self).iter matches Some(it) && it.wf() && it.remaining() == rem)
                    }
                },
            },
    {
        if self.reader.is_none() {
            return false;
        }
        let start_t = self.compute_start_time();
        let fc: Option<u16> = match &self.filter_channels {
            Some(v) => {
                if v.len() == 1 {
                    Some(v[0])
                } else {
                    None
                }
            },
            None => None,
        };
        let mut it = match &self.reader {
            Some(rd) => MCAPMessageIterator::new_from_reader(rd, fc),
            None => vstd::pervasive::unreached(),
        };
        let _seeked = it.seek_to_time(time_to_i64(start_t));
        if !it.has_next_message() {
            return false;
        }
        self.iter = Some(it);
        self.anchor_log_usec = Some(start_t);
        self.anchor_wall_usec = Some(now_usec);
        self.running = true;
        true
    }

    /// Restart at the configured range start with a fresh iterator and a
    /// new wall-clock anchor; stops if no reader is attached.
    fn restart_from_range_start(&mut self, now_usec: u64)
        requires
            old(self).wf(),
        ensures
            final(self).wf(),
            final(self).same_config(*old(self)),
            match old(self).reader {
                None => !final(self).running && final(self).iter is None && final(self).anchor_wall_usec is None && final(self).anchor_log_usec is None,
                Some(ref rd) => {
                    let st = clamp_time_u64(
                        spec_start_time(old(self).time_start, old(self).reader),
                    );
                    final(self).running && final(self).anchor_wall_usec == Some(now_usec)
                        && final(self).anchor_log_usec == Some(st) && (final(self).iter matches Some(
                        it,
                    ) && it.wf() && it.remaining() == fresh_remaining(
                        *rd,
                        fast_path(old(self).filt()),
                        st,
                    ))
                },
            },
    {
        let start_t = self.compute_start_time();
        if !self.setup_iterator() {
            self.stop();
            return ;
        }
        match &mut self.iter {
            Some(it) => {
                let _seeked = it.seek_to_time(time_to_i64(start_t));
            },
            None => {},
        }
        self.anchor_log_usec = Some(start_t);
        self.anchor_wall_usec = Some(now_usec);
        self.running = true;
    }

    /// Seek to a log time and continue from there: repositions the active
    /// iterator (building one first if none is active) and re-anchors.
    /// Fails closed when no iterator can be built or nothing follows the
    /// time.
    pub fn seek_to_time(&mut self, log_time_usec: i64, now_usec: u64) -> (r: bool)
        requires
            old(self).wf(),
        ensures
            final(self).wf(),
            final(self).same_config(*old(self)),
            final(self).running == old(self).running,
            ({
                let t = clamp_neg(log_time_usec);
                if old(self).iter is None && old(self).reader is None {
                    r == false && *final(self) == *old(self)
                } else {
                    match first_end_geq(old(self).active_chunks(), t, 0) {
                        None => r == false && final(self).anchor_wall_usec == old(self).anchor_wall_usec && final(self).anchor_log_usec == old(self).anchor_log_usec,
                        Some(ci) => {
                            let rem = seek_remaining(
                                old(self).active_bytes(),
                                old(self).active_ids(),
                                old(self).active_chunks().skip(ci),
                                old(self).active_fc(),
                                t,
                            );
                            if rem.len() > 0 {
                                r == true && final(self).anchor_wall_usec == Some(now_usec)
                                    && final(self).anchor_log_usec == Some(t) && (final(self).iter matches Some(it1) && it1.remaining() == rem)
                            } else {
                                r == false && final(self).anchor_wall_usec == old(self).anchor_wall_usec && final(self).anchor_log_usec == old(self).anchor_log_usec && final(self).iter_remaining()
                                    == Seq::<MessageV>::empty()
                            }
                        },
                    }
                }
            }),
    {
        let t: u64 = if log_time_usec < 0 {
            0
        } else {
            log_time_usec as u64
        };
        if self.iter.is_none() {
            if !self.setup_iterator() {
                return false;
            }
        }
        let ok = match &mut self.iter {
            Some(it) => it.seek_to_time(log_time_usec),
            None => vstd::pervasive::unreached(),
        };
        if !ok {
            return false;
        }
        self.anchor_log_usec = Some(t);
        self.anchor_wall_usec = Some(now_usec);
        true
    }

    /// Restrict replay to a set of channel ids; ids outside the valid
    /// channel range are dropped, and an empty remaining set accepts every
    /// channel.  A running replay rebuilds its iterator at the current
    /// logical time and re-anchors, so no time jump is visible.
    pub fn set_filter_channels(&mut self, channel_ids: &Vec<i32>, now_usec: u64)
        requires
            old(self).wf(),
        ensures
            final(self).wf(),
            final(self).filt() == if crate::reader::valid_ids(channel_ids@).len() == 0 {
                None::<Seq<u16>>
            } else {
                Some(crate::reader::valid_ids(channel_ids@))
            },
            final(self).reader == old(self).reader,
            final(self).time_start == old(self).time_start,
            final(self).time_end == old(self).time_end,
            final(self).speed_milli == old(self).speed_milli,
            final(self).looping == old(self).looping,
            final(self).running == old(self).running,
            rebuilt_at_current(*old(self), *final(self), now_usec),
    {
        let ids = crate::reader::keep_valid_ids(channel_ids);
        if ids.len() == 0 {
            self.filter_channels = None;
        } else {
            self.filter_channels = Some(ids);
        }
        self.rebuild_if_running(now_usec);
    }

    /// Clear the channel filter; a running replay rebuilds its iterator at
    /// the current logical time and re-anchors.
    pub fn clear_filter_channels(&mut self, now_usec: u64)
        requires
            old(self).wf(),
        ensures
            final(self).wf(),
            final(self).filter_channels is None,
            final(self).reader == old(self).reader,
            final(self).time_start == old(self).time_start,
            final(self).time_end == old(self).time_end,
            final(self).speed_milli == old(self).speed_milli,
            final(self).looping == old(self).looping,
            final(self).running == old(self).running,
            rebuilt_at_current(*old(self), *final(self), now_usec),
    {
        self.filter_channels = None;
        self.rebuild_if_running(now_usec);
    }

    /// Rebuild the iterator at the current logical time and re-anchor, when
    /// running.
    fn rebuild_if_running(&mut self, now_usec: u64)
        requires
            old(self).wf(),
        ensures
            final(self).wf(),
            final(self).filter_channels == old(self).filter_channels,
            final(self).reader == old(self).reader,
            final(self).time_start == old(self).time_start,
            final(self).time_end == old(self).time_end,
            final(self).speed_milli == old(self).speed_milli,
            final(self).looping == old(self).looping,
            final(self).running == old(self).running,
            rebuilt_at_current(*old(self), *final(self), now_usec),
    {
        if self.running {
            let cur: u64 = match (&self.anchor_log_usec, &self.anchor_wall_usec) {
                (Some(al), Some(aw)) => compute_target(
                    *al,
                    *aw,
                    now_usec,
                    self.speed_milli,
                    &self.time_end,
                ),
                _ => 0,
            };
            let cur = if cur > i64::MAX as u64 {
                i64::MAX as u64
            } else {
                cur
            };
            let had_reader = self.setup_iterator();
            if had_reader {
                match &mut self.iter {
                    Some(it) => {
                        let _seeked = it.seek_to_time(time_to_i64(cur));
                    },
                    None => {},
                }
            }
            self.anchor_log_usec = Some(cur);
            self.anchor_wall_usec = Some(now_usec);
        }
    }

    /// Set the inclusive replay time range; a negative bound clears that
    /// bound.  A running replay restarts from the new range start.
    pub fn set_time_range(&mut self, start_usec: i64, end_usec: i64, now_usec: u64)
        requires
            old(self).wf(),
        ensures
            final(self).wf(),
            final(self).time_start == if start_usec >= 0 {
                Some(start_usec as u64)
            } else {
                None::<u64>
            },
            final(self).time_end == if end_usec >= 0 {
                Some(end_usec as u64)
            } else {
                None::<u64>
            },
            final(self).reader == old(self).reader,
            final(self).filter_channels == old(self).filter_channels,
            final(self).speed_milli == old(self).speed_milli,
            final(self).looping == old(self).looping,
            !old(self).running ==> final(self).running == old(self).running && final(self).iter
                == old(self).iter && final(self).anchor_wall_usec == old(self).anchor_wall_usec
                && final(self).anchor_log_usec == old(self).anchor_log_usec,
            old(self).running ==> match old(self).reader {
                None => !final(self).running && final(self).iter is None && final(self).anchor_wall_usec is None && final(self).anchor_log_usec is None,
                Some(ref rd) => {
                    let st = clamp_time_u64(
                        spec_start_time(final(self).time_start, old(self).reader),
                    );
                    final(self).running && final(self).anchor_wall_usec == Some(now_usec)
                        && final(self).anchor_log_usec == Some(st) && (final(self).iter matches Some(
                        it,
                    ) && it.wf() && it.remaining() == fresh_remaining(
                        *rd,
                        fast_path(old(self).filt()),
                        st,
                    ))
                },
            },
    {
        self.time_start = if start_usec >= 0 {
            Some(start_usec as u64)
        } else {
            None
        };
        self.time_end = if end_usec >= 0 {
            Some(end_usec as u64)
        } else {
            None
        };
        if self.running {
            self.restart_from_range_start(now_usec);
        }
    }

    /// One scheduler tick: compute the target log time from the wall clock,
    /// consume every due message (skipping ones the channel set rejects),
    /// and return the accepted ones in log-time order for the host to
    /// deliver.  On exhaustion, restart at the range start when looping,
    /// else stop.
    pub fn update_replay(&mut self, now_usec: u64) -> (r: Vec<Message>)
        requires
            old(self).wf(),
        ensures
            final(self).wf(),
            !(old(self).running && old(self).anchor_wall_usec is Some && old(self).anchor_log_usec is Some) ==> r@.len() == 0 && *final(self) == *old(self),
            (old(self).running && old(self).anchor_wall_usec is Some && old(self).anchor_log_usec is Some) ==> ({
                let target = spec_target(
                    old(self).anchor_log_usec.unwrap(),
                    spec_elapsed(now_usec, old(self).anchor_wall_usec.unwrap()),
                    old(self).speed_milli,
                    old(self).time_end,
                );
                let tick = spec_tick(
                    old(self).iter_remaining(),
                    target,
                    old(self).time_end,
                    old(self).filt(),
                );
                crate::types::views_of(r@) == tick.0 && final(self).same_config(*old(self))
                    && match tick.2 {
                    TickEnd::Pause => final(self).running && final(self).iter_remaining() == old(self).iter_remaining().skip(tick.1) && final(self).anchor_wall_usec == old(self).anchor_wall_usec && final(self).anchor_log_usec == old(self).anchor_log_usec,
                    TickEnd::End => if old(self).looping {
                        match old(self).reader {
                            None => !final(self).running && final(self).iter is None && final(self).anchor_wall_usec is None && final(self).anchor_log_usec is None,
                            Some(ref rd) => {
                                let st = clamp_time_u64(
                                    spec_start_time(old(self).time_start, old(self).reader),
                                );
                                final(self).running && final(self).anchor_wall_usec == Some(
                                    now_usec,
                                ) && final(self).anchor_log_usec == Some(st) && (final(self).iter matches Some(it) && it.remaining() == fresh_remaining(
                                    *rd,
                                    fast_path(old(self).filt()),
                                    st,
                                ))
                            },
                        }
                    } else {
                        !final(self).running && final(self).iter is None && final(self).anchor_wall_usec is None && final(self).anchor_log_usec is None
                    },
                }
            }),
    {
        if !self.running {
            return Vec::new();
        }
        let (al, aw) = match (&self.anchor_log_usec, &self.anchor_wall_usec) {
            (Some(al), Some(aw)) => (*al, *aw),
            _ => {
                return Vec::new();
            },
        };
        let target = compute_target(al, aw, now_usec, self.speed_milli, &self.time_end);
        let ghost rem0 = self.iter_remaining();
        let ghost end0 = self.time_end;
        let ghost filt0 = self.filt();
        let mut to_emit: Vec<Message> = Vec::new();
        let ghost mut consumed: int = 0;
        let mut reached_end = false;
        let mut pause = false;
        proof {
            assert(crate::types::views_of(to_emit@) + spec_tick(rem0, target, end0, filt0).0
                =~= spec_tick(rem0, target, end0, filt0).0);
        }
        while !reached_end && !pause
            invariant
                self.wf(),
                self.running == old(self).running,
                self.reader == old(self).reader,
                self.filter_channels == old(self).filter_channels,
                self.time_start == old(self).time_start,
                self.time_end == old(self).time_end,
                self.speed_milli == old(self).speed_milli,
                self.looping == old(self).looping,
                self.anchor_wall_usec == old(self).anchor_wall_usec,
                self.anchor_log_usec == old(self).anchor_log_usec,
                end0 == self.time_end,
                filt0 == self.filt(),
                !reached_end && !pause ==> spec_tick(rem0, target, end0, filt0) == ({
                    let cur = spec_tick(self.iter_remaining(), target, end0, filt0);
                    (
                        crate::types::views_of(to_emit@) + cur.0,
                        consumed + cur.1,
                        cur.2,
                    )
                }),
                reached_end ==> spec_tick(rem0, target, end0, filt0) == (
                    crate::types::views_of(to_emit@),
                    consumed,
                    TickEnd::End,
                ),
                pause ==> spec_tick(rem0, target, end0, filt0) == (
                    crate::types::views_of(to_emit@),
                    consumed,
                    TickEnd::Pause,
                ) && self.iter_remaining() == rem0.skip(consumed),
                !reached_end && !pause ==> self.iter_remaining() == rem0.skip(consumed),
                0 <= consumed <= rem0.len(),
            decreases self.iter_remaining().len(), (if reached_end || pause { 0int } else { 1int }),
        {
            let next_opt = match &mut self.iter {
                Some(it) => it.peek_message(),
                None => None,
            };
            let next = match next_opt {
                Some(m) => m,
                None => {
                    reached_end = true;
                    proof {
                        assert(self.iter_remaining().len() == 0);
                        assert(crate::types::views_of(to_emit@) + Seq::<MessageV>::empty()
                            =~= crate::types::views_of(to_emit@));
                    }
                    continue ;
                },
            };
            let past_end = match &self.time_end {
                Some(e) => next.log_time > *e,
                None => false,
            };
            if past_end {
                reached_end = true;
                proof {
                    assert(crate::types::views_of(to_emit@) + Seq::<MessageV>::empty()
                        =~= crate::types::views_of(to_emit@));
                }
            } else if next.log_time <= target {
                let got = match &mut self.iter {
                    Some(it) => it.get_next_message(),
                    None => None,
                };
                let m = match got {
                    Some(m) => m,
                    None => vstd::pervasive::unreached(),
                };
                let keep = match &self.filter_channels {
                    Some(v) => crate::model::contains_id(v, m.channel_id),
                    None => true,
                };
                let ghost prev_emit = crate::types::views_of(to_emit@);
                if keep {
                    to_emit.push(m);
                }
                proof {
                    consumed = consumed + 1;
                    assert(rem0.skip(consumed - 1).skip(1) =~= rem0.skip(consumed));
                    if keep {
                        assert(crate::types::views_of(to_emit@) =~= prev_emit.push(
                            rem0.skip(consumed - 1)[0],
                        ));
                        let cur = spec_tick(self.iter_remaining(), target, end0, filt0);
                        assert(crate::types::views_of(to_emit@) + cur.0 =~= prev_emit + (seq![
                            rem0.skip(consumed - 1)[0],
                        ] + cur.0));
                    }
                }
            } else {
                pause = true;
            }
        }
        if reached_end {
            if self.looping {
                self.restart_from_range_start(now_usec);
            } else {
                self.stop();
            }
        }
        to_emit
    }
}

/// After a filter change: a running scheduler holds a fresh iterator
/// positioned at the logical time derived from the old anchors, and is
/// re-anchored there; a stopped one is untouched.
pub open spec fn rebuilt_at_current(pre: MCAPReplay, post: MCAPReplay, now_usec: u64) -> bool {
    if !pre.running {
        post.iter == pre.iter && post.anchor_wall_usec == pre.anchor_wall_usec
            && post.anchor_log_usec == pre.anchor_log_usec
    } else {
        let cur = clamp_time_u64(
            match (pre.anchor_log_usec, pre.anchor_wall_usec) {
                (Some(al), Some(aw)) => spec_target(
                    al,
                    spec_elapsed(now_usec, aw),
                    pre.speed_milli,
                    pre.time_end,
                ),
                _ => 0,
            },
        );
        &&& post.anchor_wall_usec == Some(now_usec)
        &&& post.anchor_log_usec == Some(cur)
        &&& match pre.reader {
            None => post.iter == pre.iter,
            Some(rd) => post.iter matches Some(it) && it.wf() && it.remaining()
                == fresh_remaining(rd, fast_path(post.filt()), cur),
        }
    }
}

/// The tick target: anchor log time plus scaled elapsed wall time, clamped
/// to the end bound.
pub(crate) fn compute_target(
    anchor_log: u64,
    anchor_wall: u64,
    now: u64,
    speed_milli: u64,
    end: &Option<u64>,
) -> (r: u64)
    ensures
        r == spec_target(anchor_log, spec_elapsed(now, anchor_wall), speed_milli, *end),
{
    let elapsed: u64 = if now >= anchor_wall {
        now - anchor_wall
    } else {
        0
    };
    proof {
        assert(elapsed as int * speed_milli as int <= u64::MAX as int * u64::MAX as int) by (nonlinear_arith)
            requires
                elapsed <= u64::MAX,
                speed_milli <= u64::MAX,
        ;
    }
    let scaled_wide: u128 = (elapsed as u128) * (speed_milli as u128) / 1000;
    let scaled: u64 = if scaled_wide > u64::MAX as u128 {
        u64::MAX
    } else {
        scaled_wide as u64
    };
    let t = anchor_log.saturating_add(scaled);
    match end {
        Some(e) => {
            if t > *e {
                *e
            } else {
                t
            }
        },
        None => t,
    }
}

} // verus!
