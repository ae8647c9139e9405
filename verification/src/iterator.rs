//! The merge iterator: yields messages across chunks and channels in
//! non-decreasing log-time order, with seek support.
//!
//! For the current chunk the iterator buffers every message passing the
//! channel filter, sorted by log time, and yields them one at a time; when
//! the batch is exhausted it advances to the next chunk index whose batch
//! is non-empty.  A chunk that fails to decode contributes nothing.  The
//! ghost function [`MCAPMessageIterator::remaining`] gives the exact
//! sequence of messages still to be yielded; every method's contract is
//! stated against it.

use vstd::prelude::*;

use crate::model::{
    chunk_batch, chunk_messages, filter_channel, spec_chunk_messages, stream_from, time_sorted,
};
use crate::reader::MCAPReader;
use crate::sort::{keep_channel, lemma_sort_by_time_ensures, sort_messages_by_time};
use crate::types::{
    clone_bytes, views_of, ChunkInfoV, LogSummary, Message, MessageV,
};

verus! {

/// The sequence a peeked message contributes.
pub open spec fn peek_seq(p: Option<Message>) -> Seq<MessageV> {
    match p {
        Some(m) => seq![m@],
        None => Seq::empty(),
    }
}

/// Streaming iterator over the indexed messages of a log.
pub struct MCAPMessageIterator {
    /// The log's bytes (the iterator keeps its own copy).
    pub bytes: Vec<u8>,
    /// The summary the iterator walks; `None` yields nothing.
    pub summary: Option<LogSummary>,
    /// Single-channel filter pushed into batch loading.
    pub filter_channel: Option<u16>,
    /// Messages yielded so far, saturating.
    pub index: i64,
    /// The message returned by the next `get_next_message`, if already
    /// fetched by a peek.
    pub peek: Option<Message>,
    /// Index of the chunk the current batch came from (or the next chunk to
    /// try when no batch is loaded).
    pub chunk_i: usize,
    /// The current chunk's sorted, filtered batch.
    pub chunk_msgs: Vec<Message>,
    /// Position of the next unyielded message within the batch.
    pub chunk_pos: usize,
}

impl MCAPMessageIterator {
    /// The chunk index rows the iterator walks.
    pub open spec fn chunks(self) -> Seq<ChunkInfoV> {
        match self.summary {
            Some(s) => s@.chunk_indexes,
            None => Seq::empty(),
        }
    }

    /// The channel ids the iterator resolves messages against.
    pub open spec fn ids(self) -> Seq<u16> {
        match self.summary {
            Some(s) => crate::model::ids_of(s@.channels),
            None => Seq::empty(),
        }
    }

    /// Well-formedness: a loaded batch is exactly the current chunk's
    /// non-empty sorted batch with a valid position; otherwise the position
    /// is zero and the chunk cursor is within bounds.
    pub open spec fn wf(self) -> bool {
        &&& self.index >= 0
        &&& if self.chunk_msgs@.len() == 0 {
            self.chunk_pos == 0 && self.chunk_i <= self.chunks().len()
        } else {
            &&& self.summary is Some
            &&& self.chunk_i < self.chunks().len()
            &&& views_of(self.chunk_msgs@) == chunk_batch(
                self.bytes@,
                self.ids(),
                self.chunks()[self.chunk_i as int],
                self.filter_channel,
            )
            &&& self.chunk_pos <= self.chunk_msgs@.len()
        }
    }

    /// The messages still to be yielded, in order: the peeked message, the
    /// rest of the current batch, then the batches of the chunks after the
    /// current one.
    pub open spec fn remaining(self) -> Seq<MessageV> {
        match self.summary {
            None => peek_seq(self.peek),
            Some(s) => peek_seq(self.peek) + if self.chunk_msgs@.len() == 0 {
                stream_from(
                    self.bytes@,
                    self.ids(),
                    self.chunks().skip(if self.chunk_i <= self.chunks().len() {
                        self.chunk_i as int
                    } else {
                        self.chunks().len() as int
                    }),
                    self.filter_channel,
                )
            } else {
                views_of(self.chunk_msgs@).skip(self.chunk_pos as int) + stream_from(
                    self.bytes@,
                    self.ids(),
                    self.chunks().skip(self.chunk_i + 1),
                    self.filter_channel,
                )
            },
        }
    }

    /// The iterator's configuration (source, summary, filter) is unchanged.
    pub open spec fn same_config(self, o: Self) -> bool {
        &&& self.bytes == o.bytes
        &&& self.summary == o.summary
        &&& self.filter_channel == o.filter_channel
    }

    /// Build an iterator over a reader's log, optionally filtered to one
    /// channel.  The iterator takes copies of the bytes and the summary.
    pub fn new_from_reader(reader: &MCAPReader, filter_channel: Option<u16>) -> (r: Self)
        ensures
            r.bytes@ == reader.bytes@,
            match reader.summary {
                Some(ref s) => r.summary matches Some(c) && c@ == s@,
                None => r.summary is None,
            },
            r.filter_channel == filter_channel,
            r.wf(),
            r.index == 0,
            r.remaining() == stream_from(r.bytes@, r.ids(), r.chunks(), filter_channel),
    {
        let summary = match &reader.summary {
            Some(s) => Some(s.clone()),
            None => None,
        };
        let r = MCAPMessageIterator {
            bytes: clone_bytes(&reader.bytes),
            summary,
            filter_channel,
            index: 0,
            peek: None,
            chunk_i: 0,
            chunk_msgs: Vec::new(),
            chunk_pos: 0,
        };
        proof {
            assert(r.chunks().skip(0) =~= r.chunks());
            assert(r.remaining() =~= stream_from(r.bytes@, r.ids(), r.chunks(), filter_channel));
        }
        r
    }

    /// Clear the iteration position, keeping source, summary and filter.
    fn reset_iteration_state(&mut self)
        ensures
            final(self).same_config(*old(self)),
            final(self).wf(),
            final(self).index == 0,
            final(self).peek is None,
            final(self).chunk_i == 0,
            final(self).chunk_msgs@.len() == 0,
            final(self).chunk_pos == 0,
            final(self).remaining() == match final(self).summary {
                Some(_) => stream_from(
                    final(self).bytes@,
                    final(self).ids(),
                    final(self).chunks(),
                    final(self).filter_channel,
                ),
                None => Seq::<MessageV>::empty(),
            },
    {
        self.index = 0;
        self.peek = None;
        self.chunk_i = 0;
        self.chunk_msgs = Vec::new();
        self.chunk_pos = 0;
        proof {
            assert(self.chunks().skip(0) =~= self.chunks());
            if self.summary is Some {
                assert(self.remaining() =~= stream_from(
                    self.bytes@,
                    self.ids(),
                    self.chunks(),
                    self.filter_channel,
                ));
            }
        }
    }

    /// Rewind to the start of the stream.
    pub fn rewind(&mut self)
        ensures
            final(self).same_config(*old(self)),
            final(self).wf(),
            final(self).index == 0,
            final(self).remaining() == stream_from(
                final(self).bytes@,
                final(self).ids(),
                final(self).chunks(),
                final(self).filter_channel,
            ),
    {
        self.reset_iteration_state();
        proof {
            if self.summary is None {
                assert(self.remaining() =~= stream_from(
                    self.bytes@,
                    self.ids(),
                    self.chunks(),
                    self.filter_channel,
                ));
            }
        }
    }

    /// Restrict the stream to one channel and rewind.  A negative id clears
    /// the filter, matching the unsigned narrowing the host interface uses.
    pub fn for_channel(&mut self, channel_id: i32)
        ensures
            final(self).bytes == old(self).bytes,
            final(self).summary == old(self).summary,
            final(self).filter_channel == if 0 <= channel_id <= u16::MAX {
                Some(channel_id as u16)
            } else {
                None::<u16>
            },
            final(self).wf(),
            final(self).index == 0,
            final(self).remaining() == stream_from(
                final(self).bytes@,
                final(self).ids(),
                final(self).chunks(),
                final(self).filter_channel,
            ),
    {
        if 0 <= channel_id && channel_id <= u16::MAX as i32 {
            self.filter_channel = Some(channel_id as u16);
        } else {
            self.filter_channel = None;
        }
        self.rewind();
    }

    /// Remove the channel filter and rewind.
    pub fn clear_filter(&mut self)
        ensures
            final(self).bytes == old(self).bytes,
            final(self).summary == old(self).summary,
            final(self).filter_channel is None,
            final(self).wf(),
            final(self).index == 0,
            final(self).remaining() == stream_from(
                final(self).bytes@,
                final(self).ids(),
                final(self).chunks(),
                None,
            ),
    {
        self.filter_channel = None;
        self.rewind();
    }

    /// How many messages have been yielded so far (saturating).
    pub fn current_index(&self) -> (r: i64)
        ensures
            r == self.index,
    {
        self.index
    }

    /// Load the first non-empty batch at or after chunk `chunk_i`, leaving
    /// the position at its start.  Chunks whose batch is empty or fails to
    /// decode are skipped.  Returns whether a batch was found.
    fn prepare_next_chunk(&mut self) -> (r: bool)
        requires
            old(self).summary is Some,
            old(self).chunk_i <= old(self).chunks().len(),
        ensures
            final(self).same_config(*old(self)),
            final(self).index == old(self).index,
            final(self).peek == old(self).peek,
            final(self).chunk_pos == 0,
            old(self).chunk_i <= final(self).chunk_i <= final(self).chunks().len(),
            forall|k: int|
                old(self).chunk_i <= k < final(self).chunk_i ==> chunk_batch(
                    final(self).bytes@,
                    final(self).ids(),
                    #[trigger] final(self).chunks()[k],
                    final(self).filter_channel,
                ).len() == 0,
            if r {
                &&& final(self).chunk_i < final(self).chunks().len()
                &&& views_of(final(self).chunk_msgs@) == chunk_batch(
                    final(self).bytes@,
                    final(self).ids(),
                    final(self).chunks()[final(self).chunk_i as int],
                    final(self).filter_channel,
                )
                &&& final(self).chunk_msgs@.len() > 0
            } else {
                &&& final(self).chunk_i == final(self).chunks().len()
                &&& final(self).chunk_msgs@.len() == 0
            },
    {
        self.chunk_msgs = Vec::new();
        self.chunk_pos = 0;
        let s = match &self.summary {
            Some(s) => s,
            None => {
                proof {
                    assert(false);
                }
                return false;
            },
        };
        let n = s.chunk_indexes.len();
        let ids_v = crate::model::channel_ids_of(&s.channels);
        while self.chunk_i < n
            invariant
                self.summary == old(self).summary,
                self.summary matches Some(sm) && sm == s,
                n == s.chunk_indexes@.len(),
                self.chunk_i <= n,
                self.bytes == old(self).bytes,
                self.filter_channel == old(self).filter_channel,
                self.index == old(self).index,
                self.peek == old(self).peek,
                self.chunk_msgs@.len() == 0,
                self.chunk_pos == 0,
                old(self).chunk_i <= self.chunk_i,
                ids_v@ == self.ids(),
                forall|k: int|
                    old(self).chunk_i <= k < self.chunk_i ==> chunk_batch(
                        self.bytes@,
                        self.ids(),
                        #[trigger] self.chunks()[k],
                        self.filter_channel,
                    ).len() == 0,
            decreases n - self.chunk_i,
        {
            let c = &s.chunk_indexes[self.chunk_i];
            match chunk_messages(&self.bytes, &ids_v, c) {
                Err(_) => {
                    proof {
                        assert(chunk_batch(self.bytes@, self.ids(),
                            self.chunks()[self.chunk_i as int], self.filter_channel).len() == 0);
                    }
                },
                Ok(msgs) => {
                    let kept = keep_channel(&msgs, self.filter_channel);
                    let sorted = sort_messages_by_time(&kept);
                    proof {
                        assert(views_of(sorted@) == chunk_batch(
                            self.bytes@,
                            self.ids(),
                            self.chunks()[self.chunk_i as int],
                            self.filter_channel,
                        ));
                    }
                    if sorted.len() > 0 {
                        self.chunk_msgs = sorted;
                        return true;
                    }
                },
            }
            self.chunk_i = self.chunk_i + 1;
        }
        false
    }

    /// Pull the next message of the stream, advancing past exhausted
    /// batches; `None` when the stream is exhausted.  Does not touch the
    /// peek slot or the yield counter.
    fn next_message_internal(&mut self) -> (r: Option<Message>)
        requires
            old(self).wf(),
            old(self).peek is None,
        ensures
            final(self).same_config(*old(self)),
            final(self).wf(),
            final(self).index == old(self).index,
            final(self).peek is None,
            match r {
                Some(m) => old(self).remaining().len() > 0 && m@ == old(self).remaining()[0]
                    && final(self).remaining() == old(self).remaining().skip(1),
                None => old(self).remaining().len() == 0 && final(self).remaining().len() == 0,
            },
    {
        if self.summary.is_none() {
            return None;
        }
        let ghost pre = *self;
        if self.chunk_msgs.len() == 0 {
            if !self.prepare_next_chunk() {
                proof {
                    lemma_stream_skip_empty(
                        self.bytes@,
                        self.ids(),
                        self.chunks(),
                        self.filter_channel,
                        pre.chunk_i as int,
                        self.chunks().len() as int,
                    );
                    assert(self.chunks().skip(self.chunks().len() as int)
                        =~= Seq::<ChunkInfoV>::empty());
                }
                return None;
            }
            proof {
                lemma_stream_skip_empty(
                    self.bytes@,
                    self.ids(),
                    self.chunks(),
                    self.filter_channel,
                    pre.chunk_i as int,
                    self.chunk_i as int,
                );
            }
        } else if self.chunk_pos >= self.chunk_msgs.len() {
            let n = match &self.summary {
                Some(s) => s.chunk_indexes.len(),
                None => 0,
            };
            proof {
                assert(self.chunk_i < n);
            }
            self.chunk_i = self.chunk_i + 1;
            self.chunk_msgs = Vec::new();
            self.chunk_pos = 0;
            let ghost mid = *self;
            if !self.prepare_next_chunk() {
                proof {
                    lemma_stream_skip_empty(
                        self.bytes@,
                        self.ids(),
                        self.chunks(),
                        self.filter_channel,
                        mid.chunk_i as int,
                        self.chunks().len() as int,
                    );
                    assert(self.chunks().skip(self.chunks().len() as int)
                        =~= Seq::<ChunkInfoV>::empty());
                    assert(views_of(pre.chunk_msgs@).skip(pre.chunk_pos as int)
                        =~= Seq::<MessageV>::empty());
                }
                return None;
            }
            proof {
                lemma_stream_skip_empty(
                    self.bytes@,
                    self.ids(),
                    self.chunks(),
                    self.filter_channel,
                    mid.chunk_i as int,
                    self.chunk_i as int,
                );
                assert(views_of(pre.chunk_msgs@).skip(pre.chunk_pos as int)
                    =~= Seq::<MessageV>::empty());
            }
        }
        // a non-empty batch with an unread position is loaded now
        proof {
            if self.chunk_i < self.chunks().len() {
                lemma_stream_from_unfold(
                    self.bytes@,
                    self.ids(),
                    self.chunks(),
                    self.filter_channel,
                    self.chunk_i as int,
                );
            }
        }
        let m = self.chunk_msgs[self.chunk_pos].clone();
        self.chunk_pos = self.chunk_pos + 1;
        proof {
            assert(m@ == views_of(self.chunk_msgs@)[self.chunk_pos - 1]);
            assert(views_of(self.chunk_msgs@).skip(self.chunk_pos - 1).skip(1)
                =~= views_of(self.chunk_msgs@).skip(self.chunk_pos as int));
            assert(old(self).remaining().skip(1) =~= final(self).remaining());
        }
        Some(m)
    }

    /// Whether another message is available, fetching it into the peek slot.
    pub fn has_next_message(&mut self) -> (r: bool)
        requires
            old(self).wf(),
        ensures
            final(self).same_config(*old(self)),
            final(self).wf(),
            final(self).index == old(self).index,
            final(self).remaining() == old(self).remaining(),
            r == (old(self).remaining().len() > 0),
            r == (final(self).peek is Some),
    {
        if self.peek.is_none() {
            let ghost pre = *self;
            let got = self.next_message_internal();
            let fetched = got.is_some();
            self.peek = got;
            proof {
                assert(final(self).remaining() =~= pre.remaining());
            }
            return fetched;
        }
        true
    }

    /// The next message without consuming it.
    pub fn peek_message(&mut self) -> (r: Option<Message>)
        requires
            old(self).wf(),
        ensures
            final(self).same_config(*old(self)),
            final(self).wf(),
            final(self).index == old(self).index,
            final(self).remaining() == old(self).remaining(),
            match r {
                Some(m) => old(self).remaining().len() > 0 && m@ == old(self).remaining()[0],
                None => old(self).remaining().len() == 0,
            },
    {
        let available = self.has_next_message();
        match &self.peek {
            Some(m) => Some(m.clone()),
            None => None,
        }
    }

    /// Fetch and consume the next message; `None` when exhausted.
    pub fn get_next_message(&mut self) -> (r: Option<Message>)
        requires
            old(self).wf(),
        ensures
            final(self).same_config(*old(self)),
            final(self).wf(),
            match r {
                Some(m) => old(self).remaining().len() > 0 && m@ == old(self).remaining()[0]
                    && final(self).remaining() == old(self).remaining().skip(1) && final(self).index
                    == if old(self).index < i64::MAX {
                    old(self).index + 1
                } else {
                    i64::MAX as int
                },
                None => old(self).remaining().len() == 0 && final(self).remaining().len() == 0
                    && final(self).index == old(self).index,
            },
    {
        let available = self.has_next_message();
        if !available {
            return None;
        }
        let ghost pre = *self;
        let m = match self.peek.take() {
            Some(m) => m,
            None => {
                proof {
                    assert(false);
                }
                vstd::pervasive::unreached()
            },
        };
        if self.index < i64::MAX {
            self.index = self.index + 1;
        }
        proof {
            assert(final(self).remaining() =~= pre.remaining().skip(1));
        }
        Some(m)
    }
}

/// The messages of `b` with log time at least `t`, in order.
pub open spec fn from_time(b: Seq<MessageV>, t: u64) -> Seq<MessageV> {
    b.filter(|m: MessageV| m.log_time >= t)
}

/// What the stream looks like after seeking to time `t` from chunk suffix
/// `chunks`: within the first chunk whose batch is non-empty, only the
/// messages at or after `t` are kept; if none remain there, the stream
/// simply continues at the next non-empty batch.
pub open spec fn seek_remaining(
    bytes: Seq<u8>,
    ids: Seq<u16>,
    chunks: Seq<ChunkInfoV>,
    fc: Option<u16>,
    t: u64,
) -> Seq<MessageV>
    decreases chunks.len(),
{
    if chunks.len() == 0 {
        Seq::empty()
    } else {
        let b = chunk_batch(bytes, ids, chunks[0], fc);
        if b.len() == 0 {
            seek_remaining(bytes, ids, chunks.skip(1), fc, t)
        } else {
            let d = from_time(b, t);
            if d.len() > 0 {
                d + stream_from(bytes, ids, chunks.skip(1), fc)
            } else {
                stream_from(bytes, ids, chunks.skip(1), fc)
            }
        }
    }
}

/// The first chunk at or after `i` whose end-of-range reaches `t`.
pub open spec fn first_end_geq(chunks: Seq<ChunkInfoV>, t: u64, i: int) -> Option<int>
    decreases chunks.len() - i,
{
    if i < 0 || i >= chunks.len() {
        None
    } else if chunks[i].message_end_time >= t {
        Some(i)
    } else {
        first_end_geq(chunks, t, i + 1)
    }
}

/// The greatest log time at most `t` among the messages of `msgs` passing
/// the channel filter.
pub open spec fn max_le(msgs: Seq<MessageV>, fc: Option<u16>, t: u64) -> Option<u64>
    decreases msgs.len(),
{
    if msgs.len() == 0 {
        None
    } else {
        let prev = max_le(msgs.drop_last(), fc, t);
        let m = msgs.last();
        if crate::model::spec_channel_passes(fc, m.channel_id) && m.log_time <= t {
            match prev {
                None => Some(m.log_time),
                Some(p) => Some(
                    if m.log_time > p {
                        m.log_time
                    } else {
                        p
                    },
                ),
            }
        } else {
            prev
        }
    }
}

/// [`max_le`] over a chunk's decoded messages; `None` if decoding fails.
pub open spec fn max_le_chunk(
    bytes: Seq<u8>,
    ids: Seq<u16>,
    c: ChunkInfoV,
    fc: Option<u16>,
    t: u64,
) -> Option<u64> {
    match spec_chunk_messages(bytes, ids, c) {
        Ok(msgs) => max_le(msgs, fc, t),
        Err(_) => None,
    }
}

/// Scan chunks from `i`, stopping at the first whose range starts after
/// `t`, for the chunk and log time of the latest message at or before `t`
/// passing the channel filter.  An earlier chunk keeps a tie.
pub open spec fn find_nearest_loop(
    bytes: Seq<u8>,
    ids: Seq<u16>,
    chunks: Seq<ChunkInfoV>,
    fc: Option<u16>,
    t: u64,
    i: int,
    best: Option<(int, u64)>,
) -> Option<(int, u64)>
    decreases chunks.len() - i,
{
    if i < 0 || i >= chunks.len() {
        best
    } else if chunks[i].message_start_time > t {
        best
    } else {
        let next = match (best, max_le_chunk(bytes, ids, chunks[i], fc, t)) {
            (None, None) => None,
            (None, Some(c)) => Some((i, c)),
            (Some((bi, bt)), None) => Some((bi, bt)),
            (Some((bi, bt)), Some(c)) => if c > bt {
                Some((i, c))
            } else {
                Some((bi, bt))
            },
        };
        find_nearest_loop(bytes, ids, chunks, fc, t, i + 1, next)
    }
}

/// `t + 1`, saturating.
pub open spec fn sat_inc(t: u64) -> u64 {
    if t == u64::MAX {
        u64::MAX
    } else {
        (t + 1) as u64
    }
}

/// The least log time at least `tt` among the messages of `msgs` on
/// channel `ch`.
pub open spec fn min_from(msgs: Seq<MessageV>, ch: u16, tt: u64) -> Option<u64>
    decreases msgs.len(),
{
    if msgs.len() == 0 {
        None
    } else {
        let prev = min_from(msgs.drop_last(), ch, tt);
        let m = msgs.last();
        if m.channel_id == ch && m.log_time >= tt {
            match prev {
                None => Some(m.log_time),
                Some(p) => Some(
                    if m.log_time < p {
                        m.log_time
                    } else {
                        p
                    },
                ),
            }
        } else {
            prev
        }
    }
}

/// [`min_from`] over a chunk's decoded messages; `None` if decoding fails.
pub open spec fn min_from_chunk(
    bytes: Seq<u8>,
    ids: Seq<u16>,
    c: ChunkInfoV,
    ch: u16,
    tt: u64,
) -> Option<u64> {
    match spec_chunk_messages(bytes, ids, c) {
        Ok(msgs) => min_from(msgs, ch, tt),
        Err(_) => None,
    }
}

/// Scan chunks from `i`, skipping those ending at or before `t`, for the
/// first chunk holding a message on channel `ch` strictly after `t`, and
/// the earliest such log time in it.
pub open spec fn find_next_loop(
    bytes: Seq<u8>,
    ids: Seq<u16>,
    chunks: Seq<ChunkInfoV>,
    ch: u16,
    t: u64,
    i: int,
) -> Option<(int, u64)>
    decreases chunks.len() - i,
{
    if i < 0 || i >= chunks.len() {
        None
    } else if chunks[i].message_end_time <= t {
        find_next_loop(bytes, ids, chunks, ch, t, i + 1)
    } else {
        match min_from_chunk(bytes, ids, chunks[i], ch, sat_inc(t)) {
            Some(bt) => Some((i, bt)),
            None => find_next_loop(bytes, ids, chunks, ch, t, i + 1),
        }
    }
}

/// The entry list of the first index-table pair on channel `ch`.
pub open spec fn find_pair(
    tab: Seq<(u16, Seq<crate::types::IndexEntry>)>,
    ch: u16,
) -> Option<Seq<crate::types::IndexEntry>>
    decreases tab.len(),
{
    if tab.len() == 0 {
        None
    } else if tab[0].0 == ch {
        Some(tab[0].1)
    } else {
        find_pair(tab.skip(1), ch)
    }
}

/// The first index entry with log time exactly `t`.
pub open spec fn first_entry_at(es: Seq<crate::types::IndexEntry>, t: u64) -> Option<
    crate::types::IndexEntry,
>
    decreases es.len(),
{
    if es.len() == 0 {
        None
    } else if es[0].log_time == t {
        Some(es[0])
    } else {
        first_entry_at(es.skip(1), t)
    }
}

/// Exact indexed lookup: scan the chunks containing `t` for a message on
/// channel `ch` with log time exactly `t`.  An index-table read failure or
/// a failed message decode stops the lookup with no result.
pub open spec fn get_at_loop(
    bytes: Seq<u8>,
    chunks: Seq<ChunkInfoV>,
    cs: Seq<crate::types::ChannelInfoV>,
    ch: u16,
    t: u64,
    i: int,
) -> Option<MessageV>
    decreases chunks.len() - i,
{
    if i < 0 || i >= chunks.len() {
        None
    } else if t < chunks[i].message_start_time || t > chunks[i].message_end_time {
        get_at_loop(bytes, chunks, cs, ch, t, i + 1)
    } else {
        match crate::model::spec_chunk_index_table(bytes, chunks[i], cs) {
            Err(_) => None,
            Ok(tab) => match find_pair(tab, ch) {
                None => get_at_loop(bytes, chunks, cs, ch, t, i + 1),
                Some(es) => match first_entry_at(es, t) {
                    None => get_at_loop(bytes, chunks, cs, ch, t, i + 1),
                    Some(e) => match crate::model::spec_seek_message(
                        bytes,
                        crate::model::ids_of(cs),
                        chunks[i],
                        e.offset,
                    ) {
                        Ok(m) => Some(m),
                        Err(_) => None,
                    },
                },
            },
        }
    }
}

/// A chunk batch is always time-sorted.
pub proof fn lemma_chunk_batch_sorted(bytes: Seq<u8>, ids: Seq<u16>, c: ChunkInfoV, fc: Option<u16>)
    ensures
        time_sorted(chunk_batch(bytes, ids, c, fc)),
{
    match spec_chunk_messages(bytes, ids, c) {
        Ok(msgs) => {
            lemma_sort_by_time_ensures(filter_channel(msgs, fc));
        },
        Err(_) => {},
    }
}

/// In a time-sorted batch, the messages at or after `t` are exactly the
/// suffix starting at the lower bound of `t`.
pub proof fn lemma_from_time_at(b: Seq<MessageV>, t: u64, p: int)
    requires
        time_sorted(b),
        0 <= p <= b.len(),
        forall|k: int| 0 <= k < p ==> b[k].log_time < t,
        forall|k: int| p <= k < b.len() ==> b[k].log_time >= t,
    ensures
        from_time(b, t) == b.skip(p),
{
    let pred = |m: MessageV| m.log_time >= t;
    let front = b.take(p);
    let back = b.skip(p);
    assert(b =~= front + back);
    Seq::filter_distributes_over_add(front, back, pred);
    crate::indexes::lemma_filter_none(front, pred);
    crate::indexes::lemma_filter_all(back, pred);
    assert(from_time(b, t) =~= b.skip(p));
}

/// Skipping chunks whose batches are empty does not change the post-seek
/// stream either.
pub proof fn lemma_seek_remaining_skip_empty(
    bytes: Seq<u8>,
    ids: Seq<u16>,
    chunks: Seq<ChunkInfoV>,
    fc: Option<u16>,
    t: u64,
    i: int,
    j: int,
)
    requires
        0 <= i <= j <= chunks.len(),
        forall|k: int| i <= k < j ==> chunk_batch(bytes, ids, #[trigger] chunks[k], fc).len() == 0,
    ensures
        seek_remaining(bytes, ids, chunks.skip(i), fc, t) == seek_remaining(
            bytes,
            ids,
            chunks.skip(j),
            fc,
            t,
        ),
    decreases j - i,
{
    if i < j {
        assert(chunks.skip(i)[0] == chunks[i]);
        assert(chunks.skip(i).skip(1) =~= chunks.skip(i + 1));
        lemma_seek_remaining_skip_empty(bytes, ids, chunks, fc, t, i + 1, j);
    }
}

/// A chunk suffix with only empty batches yields an empty post-seek stream.
pub proof fn lemma_seek_remaining_all_empty(
    bytes: Seq<u8>,
    ids: Seq<u16>,
    chunks: Seq<ChunkInfoV>,
    fc: Option<u16>,
    t: u64,
    i: int,
)
    requires
        0 <= i <= chunks.len(),
        forall|k: int|
            i <= k < chunks.len() ==> chunk_batch(bytes, ids, #[trigger] chunks[k], fc).len() == 0,
    ensures
        seek_remaining(bytes, ids, chunks.skip(i), fc, t) == Seq::<MessageV>::empty(),
{
    lemma_seek_remaining_skip_empty(bytes, ids, chunks, fc, t, i, chunks.len() as int);
    assert(chunks.skip(chunks.len() as int) =~= Seq::<ChunkInfoV>::empty());
}

/// First index whose log time is at least `t` in a time-sorted batch.
pub(crate) fn msg_lower_bound(v: &Vec<Message>, t: u64) -> (r: usize)
    requires
        time_sorted(views_of(v@)),
    ensures
        0 <= r <= v@.len(),
        forall|k: int| 0 <= k < r ==> views_of(v@)[k].log_time < t,
        forall|k: int| r <= k < v@.len() ==> views_of(v@)[k].log_time >= t,
{
    let mut lo: usize = 0;
    let mut hi: usize = v.len();
    while lo < hi
        invariant
            0 <= lo <= hi <= v@.len(),
            time_sorted(views_of(v@)),
            forall|k: int| 0 <= k < lo ==> views_of(v@)[k].log_time < t,
            forall|k: int| hi <= k < v@.len() ==> views_of(v@)[k].log_time >= t,
        decreases hi - lo,
    {
        let mid = lo + (hi - lo) / 2;
        if v[mid].log_time < t {
            proof {
                assert forall|k: int| 0 <= k <= mid implies views_of(v@)[k].log_time < t by {
                    assert(views_of(v@)[k].log_time <= views_of(v@)[mid as int].log_time);
                }
            }
            lo = mid + 1;
        } else {
            proof {
                assert forall|k: int| mid <= k < v@.len() implies views_of(v@)[k].log_time >= t by {
                    assert(views_of(v@)[mid as int].log_time <= views_of(v@)[k].log_time);
                }
            }
            hi = mid;
        }
    }
    lo
}

/// Skipping chunks whose batches are empty does not change the stream.
pub proof fn lemma_stream_skip_empty(
    bytes: Seq<u8>,
    ids: Seq<u16>,
    chunks: Seq<ChunkInfoV>,
    fc: Option<u16>,
    i: int,
    j: int,
)
    requires
        0 <= i <= j <= chunks.len(),
        forall|k: int| i <= k < j ==> chunk_batch(bytes, ids, #[trigger] chunks[k], fc).len() == 0,
    ensures
        stream_from(bytes, ids, chunks.skip(i), fc) == stream_from(bytes, ids, chunks.skip(j), fc),
    decreases j - i,
{
    if i < j {
        assert(chunks.skip(i)[0] == chunks[i]);
        assert(chunks.skip(i).skip(1) =~= chunks.skip(i + 1));
        assert(chunk_batch(bytes, ids, chunks[i], fc) =~= Seq::<MessageV>::empty());
        assert(stream_from(bytes, ids, chunks.skip(i), fc) =~= stream_from(
            bytes,
            ids,
            chunks.skip(i + 1),
            fc,
        ));
        lemma_stream_skip_empty(bytes, ids, chunks, fc, i + 1, j);
    }
}

impl MCAPMessageIterator {
    /// Reset and position at the first message with log time at least `t`,
    /// starting the batch search at chunk `ci`.
    fn load_and_seek_at_or_after(&mut self, ci: usize, t: u64) -> (r: bool)
        requires
            old(self).summary is Some,
            ci <= old(self).chunks().len(),
        ensures
            final(self).same_config(*old(self)),
            final(self).wf(),
            final(self).index == 0,
            final(self).remaining() == seek_remaining(
                old(self).bytes@,
                old(self).ids(),
                old(self).chunks().skip(ci as int),
                old(self).filter_channel,
                t,
            ),
            r == (final(self).remaining().len() > 0),
    {
        self.reset_iteration_state();
        self.chunk_i = ci;
        let ghost chunks = self.chunks();
        let ghost fc = self.filter_channel;
        let ghost bts = self.bytes@;
        let ghost gids = self.ids();
        if !self.prepare_next_chunk() {
            proof {
                lemma_seek_remaining_all_empty(bts, gids, chunks, fc, t, ci as int);
                assert(self.chunks().skip(self.chunks().len() as int) =~= Seq::<
                    ChunkInfoV,
                >::empty());
            }
            return false;
        }
        let ghost j = self.chunk_i as int;
        proof {
            lemma_seek_remaining_skip_empty(bts, gids, chunks, fc, t, ci as int, j);
            assert(chunks.skip(j)[0] == chunks[j]);
            assert(chunks.skip(j).skip(1) =~= chunks.skip(j + 1));
            lemma_chunk_batch_sorted(bts, gids, chunks[j], fc);
        }
        let pos = msg_lower_bound(&self.chunk_msgs, t);
        proof {
            lemma_from_time_at(views_of(self.chunk_msgs@), t, pos as int);
        }
        if pos < self.chunk_msgs.len() {
            self.chunk_pos = pos;
            proof {
                assert(final(self).remaining() =~= seek_remaining(
                    bts,
                    gids,
                    chunks.skip(ci as int),
                    fc,
                    t,
                ));
            }
            true
        } else {
            proof {
                assert(from_time(views_of(self.chunk_msgs@), t) =~= Seq::<MessageV>::empty());
            }
            let n = match &self.summary {
                Some(s) => s.chunk_indexes.len(),
                None => 0,
            };
            proof {
                assert(self.chunk_i < n);
            }
            self.chunk_i = self.chunk_i + 1;
            self.chunk_msgs = Vec::new();
            self.chunk_pos = 0;
            let ghost mid = *self;
            let ok = self.prepare_next_chunk();
            proof {
                if ok {
                    lemma_stream_skip_empty(bts, gids, chunks, fc, j + 1, self.chunk_i as int);
                    lemma_stream_from_unfold(bts, gids, chunks, fc, self.chunk_i as int);
                    assert(final(self).remaining() =~= stream_from(
                        bts,
                        gids,
                        chunks.skip(j + 1),
                        fc,
                    ));
                } else {
                    lemma_stream_skip_empty(bts, gids, chunks, fc, j + 1, chunks.len() as int);
                    assert(chunks.skip(chunks.len() as int) =~= Seq::<ChunkInfoV>::empty());
                    assert(final(self).remaining() =~= stream_from(
                        bts,
                        gids,
                        chunks.skip(j + 1),
                        fc,
                    ));
                }
            }
            ok
        }
    }

    /// Seek to the first message with log time at least the given time:
    /// find the first chunk whose end-of-range reaches it, position there by
    /// binary search, and fall through to the next non-empty batch if that
    /// chunk has nothing at or after it.  Fails closed - `false` and no
    /// repositioning - when there is no summary or no such chunk.
    pub fn seek_to_time(&mut self, log_time_usec: i64) -> (r: bool)
        requires
            old(self).wf(),
        ensures
            final(self).same_config(*old(self)),
            final(self).wf(),
            match old(self).summary {
                None => r == false && *final(self) == *old(self),
                Some(_) => {
                    let t = crate::reader::clamp_neg(log_time_usec);
                    match first_end_geq(old(self).chunks(), t, 0) {
                        None => r == false && *final(self) == *old(self),
                        Some(ci) => final(self).remaining() == seek_remaining(
                            old(self).bytes@,
                            old(self).ids(),
                            old(self).chunks().skip(ci),
                            old(self).filter_channel,
                            t,
                        ) && r == (final(self).remaining().len() > 0) && final(self).index == 0,
                    }
                },
            },
    {
        if self.summary.is_none() {
            return false;
        }
        let t: u64 = if log_time_usec < 0 {
            0
        } else {
            log_time_usec as u64
        };
        let found: Option<usize> = {
            let s = match &self.summary {
                Some(s) => s,
                None => vstd::pervasive::unreached(),
            };
            let n = s.chunk_indexes.len();
            let mut res: Option<usize> = None;
            let mut i: usize = 0;
            while i < n && res.is_none()
                invariant
                    n == s.chunk_indexes@.len(),
                    self.summary matches Some(sm) && sm == s,
                    i <= n,
                    match res {
                        None => first_end_geq(self.chunks(), t, 0) == first_end_geq(
                            self.chunks(),
                            t,
                            i as int,
                        ),
                        Some(ci) => ci < n && first_end_geq(self.chunks(), t, 0) == Some(ci as int),
                    },
                decreases n - i, (if res is Some { 0int } else { 1int }),
            {
                if s.chunk_indexes[i].message_end_time >= t {
                    res = Some(i);
                } else {
                    i = i + 1;
                }
            }
            res
        };
        match found {
            None => false,
            Some(ci) => self.load_and_seek_at_or_after(ci, t),
        }
    }

    /// Seek to the first message at or after the given time; when nothing
    /// follows it, fall back to the message with the greatest log time at
    /// or before it.
    pub fn seek_to_time_nearest(&mut self, log_time_usec: i64) -> (r: bool)
        requires
            old(self).wf(),
        ensures
            final(self).same_config(*old(self)),
            final(self).wf(),
            match old(self).summary {
                None => r == false && *final(self) == *old(self),
                Some(_) => {
                    let t = crate::reader::clamp_neg(log_time_usec);
                    let chunks = old(self).chunks();
                    let fc = old(self).filter_channel;
                    let bts = old(self).bytes@;
                    let gids = old(self).ids();
                    let direct = match first_end_geq(chunks, t, 0) {
                        Some(ci) => seek_remaining(bts, gids, chunks.skip(ci), fc, t),
                        None => Seq::<MessageV>::empty(),
                    };
                    if direct.len() > 0 {
                        r == true && final(self).remaining() == direct && final(self).index == 0
                    } else {
                        match find_nearest_loop(bts, gids, chunks, fc, t, 0, None) {
                            None => r == false && (match first_end_geq(chunks, t, 0) {
                                Some(_) => final(self).remaining() == Seq::<MessageV>::empty(),
                                None => *final(self) == *old(self),
                            }),
                            Some((ci, bt)) => final(self).remaining() == seek_remaining(
                                bts,
                                gids,
                                chunks.skip(ci),
                                fc,
                                bt,
                            ) && r == (final(self).remaining().len() > 0) && final(self).index == 0,
                        }
                    }
                },
            },
    {
        if self.seek_to_time(log_time_usec) {
            return true;
        }
        if self.summary.is_none() {
            return false;
        }
        let t: u64 = if log_time_usec < 0 {
            0
        } else {
            log_time_usec as u64
        };
        let found: Option<(usize, u64)> = {
            let s = match &self.summary {
                Some(s) => s,
                None => vstd::pervasive::unreached(),
            };
            let n = s.chunk_indexes.len();
            let ids_v = crate::model::channel_ids_of(&s.channels);
            let mut best: Option<(usize, u64)> = None;
            let mut i: usize = 0;
            let mut stopped = false;
            while i < n && !stopped
                invariant
                    n == s.chunk_indexes@.len(),
                    self.summary matches Some(sm) && sm == s,
                    i <= n,
                    ids_v@ == self.ids(),
                    match best {
                        None => true,
                        Some((bi, _)) => bi < n,
                    },
                    find_nearest_loop(
                        self.bytes@,
                        self.ids(),
                        self.chunks(),
                        self.filter_channel,
                        t,
                        0,
                        None,
                    ) == if stopped {
                        match best {
                            None => None,
                            Some((bi, bt)) => Some((bi as int, bt)),
                        }
                    } else {
                        find_nearest_loop(
                            self.bytes@,
                            self.ids(),
                            self.chunks(),
                            self.filter_channel,
                            t,
                            i as int,
                            match best {
                                None => None,
                                Some((bi, bt)) => Some((bi as int, bt)),
                            },
                        )
                    },
                decreases n - i, (if stopped { 0int } else { 1int }),
            {
                if s.chunk_indexes[i].message_start_time > t {
                    stopped = true;
                } else {
                    let cand = chunk_max_le(
                        &self.bytes,
                        &ids_v,
                        &s.chunk_indexes[i],
                        self.filter_channel,
                        t,
                    );
                    best = match (best, cand) {
                        (None, None) => None,
                        (None, Some(c)) => Some((i, c)),
                        (Some((bi, bt)), None) => Some((bi, bt)),
                        (Some((bi, bt)), Some(c)) => if c > bt {
                            Some((i, c))
                        } else {
                            Some((bi, bt))
                        },
                    };
                    i = i + 1;
                }
            }
            best
        };
        match found {
            None => false,
            Some((ci, bt)) => self.load_and_seek_at_or_after(ci, bt),
        }
    }

    /// Seek to the earliest message on `channel_id` strictly after the given
    /// time.  Fails closed when there is no summary, the id is out of range,
    /// or no such message exists.
    pub fn seek_to_next_on_channel(&mut self, channel_id: i32, after_time_usec: i64) -> (r: bool)
        requires
            old(self).wf(),
        ensures
            final(self).same_config(*old(self)),
            final(self).wf(),
            match old(self).summary {
                None => r == false && *final(self) == *old(self),
                Some(_) => {
                    if channel_id < 0 || channel_id > u16::MAX {
                        r == false && *final(self) == *old(self)
                    } else {
                        let t = crate::reader::clamp_neg(after_time_usec);
                        match find_next_loop(
                            old(self).bytes@,
                            old(self).ids(),
                            old(self).chunks(),
                            channel_id as u16,
                            t,
                            0,
                        ) {
                            None => r == false && *final(self) == *old(self),
                            Some((ci, bt)) => final(self).remaining() == seek_remaining(
                                old(self).bytes@,
                                old(self).ids(),
                                old(self).chunks().skip(ci),
                                old(self).filter_channel,
                                bt,
                            ) && r == (final(self).remaining().len() > 0) && final(self).index == 0,
                        }
                    }
                },
            },
    {
        if self.summary.is_none() {
            return false;
        }
        if channel_id < 0 || channel_id > u16::MAX as i32 {
            return false;
        }
        let ch = channel_id as u16;
        let t: u64 = if after_time_usec < 0 {
            0
        } else {
            after_time_usec as u64
        };
        let tt: u64 = if t == u64::MAX {
            u64::MAX
        } else {
            t + 1
        };
        let found: Option<(usize, u64)> = {
            let s = match &self.summary {
                Some(s) => s,
                None => vstd::pervasive::unreached(),
            };
            let n = s.chunk_indexes.len();
            let ids_v = crate::model::channel_ids_of(&s.channels);
            let mut res: Option<(usize, u64)> = None;
            let mut i: usize = 0;
            while i < n && res.is_none()
                invariant
                    n == s.chunk_indexes@.len(),
                    self.summary matches Some(sm) && sm == s,
                    i <= n,
                    tt == sat_inc(t),
                    ids_v@ == self.ids(),
                    match res {
                        None => find_next_loop(self.bytes@, self.ids(), self.chunks(), ch, t, 0)
                            == find_next_loop(
                            self.bytes@,
                            self.ids(),
                            self.chunks(),
                            ch,
                            t,
                            i as int,
                        ),
                        Some((ri, bt)) => ri < n && find_next_loop(
                            self.bytes@,
                            self.ids(),
                            self.chunks(),
                            ch,
                            t,
                            0,
                        ) == Some((ri as int, bt)),
                    },
                decreases n - i, (if res is Some { 0int } else { 1int }),
            {
                if s.chunk_indexes[i].message_end_time > t {
                    let cand = chunk_min_from(&self.bytes, &ids_v, &s.chunk_indexes[i], ch, tt);
                    match cand {
                        Some(bt) => {
                            res = Some((i, bt));
                        },
                        None => {
                            i = i + 1;
                        },
                    }
                } else {
                    i = i + 1;
                }
            }
            res
        };
        match found {
            None => false,
            Some((ci, bt)) => self.load_and_seek_at_or_after(ci, bt),
        }
    }

    /// Exact indexed lookup: the message on `channel_id` with log time
    /// exactly the given time, found through the message indexes of the
    /// chunks whose range contains it.
    pub fn get_message_at_time(&self, channel_id: i32, log_time_usec: i64) -> (r: Option<Message>)
        ensures
            match self.summary {
                None => r is None,
                Some(ref s) => {
                    if channel_id < 0 || channel_id > u16::MAX {
                        r is None
                    } else {
                        let t = crate::reader::clamp_neg(log_time_usec);
                        let expected = get_at_loop(
                            self.bytes@,
                            self.chunks(),
                            s@.channels,
                            channel_id as u16,
                            t,
                            0,
                        );
                        match r {
                            Some(m) => expected == Some(m@),
                            None => expected is None,
                        }
                    }
                },
            },
    {
        let s = match &self.summary {
            Some(s) => s,
            None => {
                return None;
            },
        };
        if channel_id < 0 || channel_id > u16::MAX as i32 {
            return None;
        }
        let ch = channel_id as u16;
        let t: u64 = if log_time_usec < 0 {
            0
        } else {
            log_time_usec as u64
        };
        let n = s.chunk_indexes.len();
        let ids_v = crate::model::channel_ids_of(&s.channels);
        for i in 0..n
            invariant
                n == s.chunk_indexes@.len(),
                self.summary matches Some(sm) && sm == s,
                0 <= channel_id <= u16::MAX,
                ch == channel_id as u16,
                t == crate::reader::clamp_neg(log_time_usec),
                ids_v@ == crate::model::ids_of(s@.channels),
                get_at_loop(self.bytes@, self.chunks(), s@.channels, ch, t, 0) == get_at_loop(
                    self.bytes@,
                    self.chunks(),
                    s@.channels,
                    ch,
                    t,
                    i as int,
                ),
        {
            let c = &s.chunk_indexes[i];
            if c.message_start_time <= t && t <= c.message_end_time {
                let tab = match crate::indexes::chunk_index_table(&self.bytes, c, &s.channels) {
                    Ok(tab) => tab,
                    Err(_) => {
                        return None;
                    },
                };
                match find_pair_index(&tab, ch) {
                    None => {},
                    Some(j) => {
                        match crate::indexes::find_first_at(&tab[j].1, t) {
                            None => {
                                proof {
                                    lemma_first_entry_at(tab@[j as int].1@, t, None);
                                }
                            },
                            Some(p) => {
                                proof {
                                    lemma_first_entry_at(tab@[j as int].1@, t, Some(p as int));
                                }
                                let entry = tab[j].1[p];
                                match crate::model::seek_in_chunk(
                                    &self.bytes,
                                    &ids_v,
                                    c,
                                    entry.offset,
                                ) {
                                    Ok(m) => {
                                        return Some(m);
                                    },
                                    Err(_) => {
                                        return None;
                                    },
                                }
                            },
                        }
                    },
                }
            }
        }
        None
    }
}

impl MCAPReader {
    /// An indexed streaming iterator over this log's messages, unfiltered,
    /// positioned at the start.
    pub fn stream_messages_iterator(&self) -> (r: MCAPMessageIterator)
        ensures
            r.bytes@ == self.bytes@,
            match self.summary {
                Some(ref s) => r.summary matches Some(c) && c@ == s@,
                None => r.summary is None,
            },
            r.filter_channel is None,
            r.wf(),
            r.index == 0,
            r.remaining() == stream_from(r.bytes@, r.ids(), r.chunks(), None),
    {
        MCAPMessageIterator::new_from_reader(self, None)
    }
}

/// The greatest log time at most `t` among a chunk's decoded messages
/// passing the channel filter.
pub(crate) fn chunk_max_le(
    bytes: &Vec<u8>,
    ids: &Vec<u16>,
    c: &crate::types::ChunkInfo,
    fc: Option<u16>,
    t: u64,
) -> (r: Option<u64>)
    ensures
        r == max_le_chunk(bytes@, ids@, c@, fc, t),
{
    let msgs = match chunk_messages(bytes, ids, c) {
        Ok(m) => m,
        Err(_) => {
            return None;
        },
    };
    let ghost all = views_of(msgs@);
    let n = msgs.len();
    let mut best: Option<u64> = None;
    proof {
        assert(all.take(0) =~= Seq::<MessageV>::empty());
    }
    for i in 0..n
        invariant
            n == msgs@.len(),
            all == views_of(msgs@),
            best == max_le(all.take(i as int), fc, t),
    {
        proof {
            assert(all.take(i + 1).drop_last() =~= all.take(i as int));
            assert(all.take(i + 1).last() == all[i as int]);
        }
        let passes = match fc {
            Some(cid) => msgs[i].channel_id == cid,
            None => true,
        };
        if passes && msgs[i].log_time <= t {
            best = match best {
                None => Some(msgs[i].log_time),
                Some(p) => Some(
                    if msgs[i].log_time > p {
                        msgs[i].log_time
                    } else {
                        p
                    },
                ),
            };
        }
    }
    proof {
        assert(all.take(n as int) =~= all);
    }
    best
}

/// The least log time at least `tt` among a chunk's decoded messages on
/// channel `ch`.
pub(crate) fn chunk_min_from(
    bytes: &Vec<u8>,
    ids: &Vec<u16>,
    c: &crate::types::ChunkInfo,
    ch: u16,
    tt: u64,
) -> (r: Option<u64>)
    ensures
        r == min_from_chunk(bytes@, ids@, c@, ch, tt),
{
    let msgs = match chunk_messages(bytes, ids, c) {
        Ok(m) => m,
        Err(_) => {
            return None;
        },
    };
    let ghost all = views_of(msgs@);
    let n = msgs.len();
    let mut best: Option<u64> = None;
    proof {
        assert(all.take(0) =~= Seq::<MessageV>::empty());
    }
    for i in 0..n
        invariant
            n == msgs@.len(),
            all == views_of(msgs@),
            best == min_from(all.take(i as int), ch, tt),
    {
        proof {
            assert(all.take(i + 1).drop_last() =~= all.take(i as int));
            assert(all.take(i + 1).last() == all[i as int]);
        }
        if msgs[i].channel_id == ch && msgs[i].log_time >= tt {
            best = match best {
                None => Some(msgs[i].log_time),
                Some(p) => Some(
                    if msgs[i].log_time < p {
                        msgs[i].log_time
                    } else {
                        p
                    },
                ),
            };
        }
    }
    proof {
        assert(all.take(n as int) =~= all);
    }
    best
}

/// Index of the first index-table pair on channel `ch`.
pub(crate) fn find_pair_index(
    tab: &Vec<(u16, Vec<crate::types::IndexEntry>)>,
    ch: u16,
) -> (r: Option<usize>)
    ensures
        match r {
            Some(j) => j < tab@.len() && tab@[j as int].0 == ch && find_pair(
                crate::indexes::table_views(tab@),
                ch,
            ) == Some(tab@[j as int].1@),
            None => find_pair(crate::indexes::table_views(tab@), ch) is None,
        },
{
    let ghost all = crate::indexes::table_views(tab@);
    let n = tab.len();
    proof {
        assert(all.skip(0) =~= all);
    }
    for j in 0..n
        invariant
            n == tab@.len(),
            all == crate::indexes::table_views(tab@),
            find_pair(all, ch) == find_pair(all.skip(j as int), ch),
    {
        proof {
            assert(all.skip(j as int)[0] == all[j as int]);
            assert(all.skip(j as int).skip(1) =~= all.skip(j + 1));
        }
        if tab[j].0 == ch {
            return Some(j);
        }
    }
    proof {
        assert(all.skip(n as int) =~= Seq::<(u16, Seq<crate::types::IndexEntry>)>::empty());
    }
    None
}

/// A first-match characterization pins down [`first_entry_at`].
pub proof fn lemma_first_entry_at(es: Seq<crate::types::IndexEntry>, t: u64, r: Option<int>)
    requires
        match r {
            Some(i) => 0 <= i < es.len() && es[i].log_time == t && forall|k: int|
                0 <= k < i ==> (#[trigger] es[k]).log_time != t,
            None => forall|k: int| 0 <= k < es.len() ==> (#[trigger] es[k]).log_time != t,
        },
    ensures
        first_entry_at(es, t) == match r {
            Some(i) => Some(es[i]),
            None => None::<crate::types::IndexEntry>,
        },
    decreases es.len(),
{
    if es.len() > 0 && !(r matches Some(i) && i == 0) {
        assert(es.skip(1) =~= es.subrange(1, es.len() as int));
        match r {
            Some(i) => lemma_first_entry_at(es.skip(1), t, Some(i - 1)),
            None => lemma_first_entry_at(es.skip(1), t, None),
        }
    }
}

/// One unfolding of the stream at chunk `i`.
pub proof fn lemma_stream_from_unfold(
    bytes: Seq<u8>,
    ids: Seq<u16>,
    chunks: Seq<ChunkInfoV>,
    fc: Option<u16>,
    i: int,
)
    requires
        0 <= i < chunks.len(),
    ensures
        stream_from(bytes, ids, chunks.skip(i), fc) == chunk_batch(bytes, ids, chunks[i], fc)
            + stream_from(bytes, ids, chunks.skip(i + 1), fc),
{
    assert(chunks.skip(i)[0] == chunks[i]);
    assert(chunks.skip(i).skip(1) =~= chunks.skip(i + 1));
}

} // verus!
