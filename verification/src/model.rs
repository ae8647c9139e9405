//! Message filters and the specification-level model of chunk decoding,
//! batch sorting, streaming and counting.
//!
//! The executable parts of the reader, iterator and scheduler are specified
//! against the functions of this module, which in turn bottom out in the
//! named decode results of [`crate::codec`].

use vstd::prelude::*;

use crate::codec::{chunk_decode, message_index_decode};
use crate::framing::{check_chunk_record, chunk_record_ok, emit_chain_ok};
use crate::types::views_of;
use crate::types::{
    ChannelInfo, ChannelInfoV, ChunkInfo, ChunkInfoV, IndexEntry, LogError, Message, MessageV,
};

verus! {

/// A reusable message filter: optional inclusive time bounds and an
/// optional set of accepted channel ids.
pub struct MsgFilter {
    pub time_start: Option<u64>,
    pub time_end: Option<u64>,
    /// Accepted channel ids; `None` accepts every channel.
    pub channels: Option<Vec<u16>>,
}

/// Ghost view of [`MsgFilter`].
pub struct MsgFilterV {
    pub time_start: Option<u64>,
    pub time_end: Option<u64>,
    pub channels: Option<Seq<u16>>,
}

impl View for MsgFilter {
    type V = MsgFilterV;

    open spec fn view(&self) -> MsgFilterV {
        MsgFilterV {
            time_start: self.time_start,
            time_end: self.time_end,
            channels: match self.channels {
                Some(ref v) => Some(v@),
                None => None,
            },
        }
    }
}

/// Whether a timestamp lies within the filter's inclusive time bounds.
pub open spec fn spec_matches_time(f: MsgFilterV, t: u64) -> bool {
    &&& (f.time_start matches Some(s) ==> t >= s)
    &&& (f.time_end matches Some(e) ==> t <= e)
}

/// Whether a channel id passes the filter's channel set.
pub open spec fn spec_matches_ch(f: MsgFilterV, id: u16) -> bool {
    match f.channels {
        Some(cs) => cs.contains(id),
        None => true,
    }
}

/// Whether a message passes the filter.
pub open spec fn spec_matches(f: MsgFilterV, m: MessageV) -> bool {
    spec_matches_time(f, m.log_time) && spec_matches_ch(f, m.channel_id)
}

/// Whether a chunk's time range intersects the filter's time bounds.
pub open spec fn spec_chunk_might_match(f: MsgFilterV, c: ChunkInfoV) -> bool {
    &&& (f.time_start matches Some(s) ==> c.message_end_time >= s)
    &&& (f.time_end matches Some(e) ==> c.message_start_time <= e)
}

impl MsgFilter {
    /// A filter that accepts every message.
    pub fn accept_all() -> (r: MsgFilter)
        ensures
            r@ == (MsgFilterV { time_start: None, time_end: None, channels: None }),
    {
        MsgFilter { time_start: None, time_end: None, channels: None }
    }

    /// Whether a timestamp lies within the inclusive time bounds.
    pub fn matches_time(&self, t: u64) -> (r: bool)
        ensures
            r == spec_matches_time(self@, t),
    {
        if let Some(s) = self.time_start {
            if t < s {
                return false;
            }
        }
        if let Some(e) = self.time_end {
            if t > e {
                return false;
            }
        }
        true
    }

    /// Whether a channel id passes the channel set.
    pub fn matches_ch(&self, id: u16) -> (r: bool)
        ensures
            r == spec_matches_ch(self@, id),
    {
        match &self.channels {
            Some(cs) => contains_id(cs, id),
            None => true,
        }
    }

    /// Whether a message passes the filter.
    pub fn matches(&self, m: &Message) -> (r: bool)
        ensures
            r == spec_matches(self@, m@),
    {
        self.matches_time(m.log_time) && self.matches_ch(m.channel_id)
    }

    /// Whether a chunk's time range intersects the time bounds.
    pub fn chunk_might_match(&self, c: &ChunkInfo) -> (r: bool)
        ensures
            r == spec_chunk_might_match(self@, c@),
    {
        if let Some(s) = self.time_start {
            if c.message_end_time < s {
                return false;
            }
        }
        if let Some(e) = self.time_end {
            if c.message_start_time > e {
                return false;
            }
        }
        true
    }
}

/// Whether a sequence of channel ids contains `id`.
pub fn contains_id(cs: &Vec<u16>, id: u16) -> (r: bool)
    ensures
        r == cs@.contains(id),
{
    let n = cs.len();
    for i in 0..n
        invariant
            n == cs@.len(),
            forall|j: int| 0 <= j < i ==> cs@[j] != id,
    {
        if cs[i] == id {
            return true;
        }
    }
    false
}

/// The channel ids of a channel table, in table order.
pub open spec fn ids_of(cs: Seq<ChannelInfoV>) -> Seq<u16> {
    cs.map_values(|c: ChannelInfoV| c.id)
}

/// The channel ids of a channel table, in table order.
pub fn channel_ids_of(cs: &Vec<ChannelInfo>) -> (r: Vec<u16>)
    ensures
        r@ == ids_of(views_of(cs@)),
{
    let mut out: Vec<u16> = Vec::new();
    let n = cs.len();
    for i in 0..n
        invariant
            n == cs@.len(),
            out@.len() == i,
            forall|j: int| 0 <= j < i ==> out@[j] == cs@[j].id,
    {
        out.push(cs[i].id);
    }
    proof {
        assert(out@ =~= ids_of(views_of(cs@)));
    }
    out
}

/// What decoding a chunk described by index row `c` yields, guarding both
/// the offsets the decoder would reject by construction - the chunk record
/// must lie within the log and be at least the nine bytes of opcode and
/// length - and the record framing the decoder cannot survive.
pub open spec fn spec_chunk_messages(bytes: Seq<u8>, ids: Seq<u16>, c: ChunkInfoV) -> Result<
    Seq<MessageV>,
    (),
> {
    if c.chunk_start_offset + c.chunk_length <= bytes.len() && 9 <= c.chunk_length
        && chunk_record_ok(bytes, c.chunk_start_offset as int, c.chunk_length as int) {
        chunk_decode(bytes, ids, c.chunk_start_offset, c.chunk_length)
    } else {
        Err(())
    }
}

/// Decode the chunk described by index row `c`, rejecting malformed index
/// rows and malformed record framing instead of reading out of bounds.
pub fn chunk_messages(bytes: &Vec<u8>, ids: &Vec<u16>, c: &ChunkInfo) -> (r: Result<
    Vec<Message>,
    LogError,
>)
    ensures
        match r {
            Ok(v) => spec_chunk_messages(bytes@, ids@, c@) == Ok::<Seq<MessageV>, ()>(
                views_of(v@),
            ),
            Err(e) => spec_chunk_messages(bytes@, ids@, c@) is Err && e == LogError::DecodeFailure,
        },
{
    let n: u64 = bytes.len() as u64;
    if 9 <= c.chunk_length && c.chunk_start_offset <= n && c.chunk_length <= n
        - c.chunk_start_offset && check_chunk_record(bytes, c.chunk_start_offset, c.chunk_length) {
        crate::codec::decode_chunk_at(bytes, ids, c.chunk_start_offset, c.chunk_length)
    } else {
        Err(LogError::DecodeFailure)
    }
}

/// What decoding the single message at intra-chunk offset `offset` of the
/// chunk described by index row `c` yields, with the same guards as
/// [`spec_chunk_messages`].
pub open spec fn spec_seek_message(bytes: Seq<u8>, ids: Seq<u16>, c: ChunkInfoV, offset: u64) -> Result<
    MessageV,
    (),
> {
    if c.chunk_start_offset + c.chunk_length <= bytes.len() && 9 <= c.chunk_length
        && chunk_record_ok(bytes, c.chunk_start_offset as int, c.chunk_length as int) {
        crate::codec::seek_decode(bytes, ids, c.chunk_start_offset, c.chunk_length, offset)
    } else {
        Err(())
    }
}

/// Decode the single message at intra-chunk offset `offset` of the chunk
/// described by index row `c`, rejecting malformed index rows and malformed
/// record framing instead of reading out of bounds.
pub fn seek_in_chunk(bytes: &Vec<u8>, ids: &Vec<u16>, c: &ChunkInfo, offset: u64) -> (r: Result<
    Message,
    LogError,
>)
    ensures
        match r {
            Ok(m) => spec_seek_message(bytes@, ids@, c@, offset) == Ok::<MessageV, ()>(m@),
            Err(e) => spec_seek_message(bytes@, ids@, c@, offset) is Err && e
                == LogError::DecodeFailure,
        },
{
    let n: u64 = bytes.len() as u64;
    if 9 <= c.chunk_length && c.chunk_start_offset <= n && c.chunk_length <= n
        - c.chunk_start_offset && check_chunk_record(bytes, c.chunk_start_offset, c.chunk_length) {
        crate::codec::seek_message_at(bytes, ids, c.chunk_start_offset, c.chunk_length, offset)
    } else {
        Err(LogError::DecodeFailure)
    }
}

/// Whether a message sequence is non-decreasing in log time.
pub open spec fn time_sorted(s: Seq<MessageV>) -> bool {
    forall|i: int, j: int| 0 <= i <= j < s.len() ==> s[i].log_time <= s[j].log_time
}

/// Insert a message into a time-sorted sequence, after any message with the
/// same log time.
pub open spec fn insert_by_time(s: Seq<MessageV>, m: MessageV) -> Seq<MessageV>
    decreases s.len(),
{
    if s.len() == 0 {
        seq![m]
    } else if s.last().log_time <= m.log_time {
        s.push(m)
    } else {
        insert_by_time(s.drop_last(), m).push(s.last())
    }
}

/// Stable insertion sort of a message sequence by log time.
pub open spec fn sort_by_time(s: Seq<MessageV>) -> Seq<MessageV>
    decreases s.len(),
{
    if s.len() == 0 {
        Seq::empty()
    } else {
        insert_by_time(sort_by_time(s.drop_last()), s.last())
    }
}

/// Keep only the messages on channel `fc`, or all of them when `fc` is
/// `None`.
pub open spec fn spec_channel_passes(fc: Option<u16>, id: u16) -> bool {
    match fc {
        Some(c) => id == c,
        None => true,
    }
}

/// The messages of `msgs` on channel `fc` (all of them when `fc` is `None`),
/// in their original order.
pub open spec fn filter_channel(msgs: Seq<MessageV>, fc: Option<u16>) -> Seq<MessageV> {
    msgs.filter(|m: MessageV| spec_channel_passes(fc, m.channel_id))
}

/// The time-sorted, channel-filtered batch a chunk contributes to the merge
/// iterator; a chunk that fails to decode contributes nothing.
pub open spec fn chunk_batch(bytes: Seq<u8>, ids: Seq<u16>, c: ChunkInfoV, fc: Option<u16>) -> Seq<
    MessageV,
> {
    match spec_chunk_messages(bytes, ids, c) {
        Ok(msgs) => sort_by_time(filter_channel(msgs, fc)),
        Err(_) => Seq::empty(),
    }
}

/// Everything the merge iterator yields from `chunks` onward: the
/// concatenation of the per-chunk sorted batches, in chunk order.
pub open spec fn stream_from(
    bytes: Seq<u8>,
    ids: Seq<u16>,
    chunks: Seq<ChunkInfoV>,
    fc: Option<u16>,
) -> Seq<MessageV>
    decreases chunks.len(),
{
    if chunks.len() == 0 {
        Seq::empty()
    } else {
        chunk_batch(bytes, ids, chunks[0], fc) + stream_from(bytes, ids, chunks.skip(1), fc)
    }
}

/// The messages of `msgs` passing filter `f`, in their original order.
pub open spec fn spec_filter(msgs: Seq<MessageV>, f: MsgFilterV) -> Seq<MessageV> {
    msgs.filter(|m: MessageV| spec_matches(f, m))
}

/// What a bulk query over `chunks` yields: for each chunk whose time range
/// intersects the filter, the matching messages in storage order,
/// concatenated in chunk order.  The second component reports whether a
/// chunk failed to decode; the messages gathered before the failure are
/// kept and the walk stops there.
pub open spec fn query_from(
    bytes: Seq<u8>,
    ids: Seq<u16>,
    chunks: Seq<ChunkInfoV>,
    f: MsgFilterV,
) -> (Seq<MessageV>, bool)
    decreases chunks.len(),
{
    if chunks.len() == 0 {
        (Seq::empty(), false)
    } else if !spec_chunk_might_match(f, chunks[0]) {
        query_from(bytes, ids, chunks.skip(1), f)
    } else {
        match spec_chunk_messages(bytes, ids, chunks[0]) {
            Err(_) => (Seq::empty(), true),
            Ok(msgs) => {
                let rest = query_from(bytes, ids, chunks.skip(1), f);
                (spec_filter(msgs, f) + rest.0, rest.1)
            },
        }
    }
}

/// Whether a channel table contains a row with id `id`.
pub open spec fn spec_has_channel(cs: Seq<ChannelInfoV>, id: u16) -> bool {
    exists|i: int| 0 <= i < cs.len() && cs[i].id == id
}

/// What reading the message-index records at `offsets` yields: one
/// `(channel id, entries)` pair per offset, in offset-list order.  The read
/// fails if an offset lies outside the log, a record fails to decode, a
/// record's channel id differs from the offset list's, or the channel is
/// not in the channel table.
pub open spec fn index_table_from(
    bytes: Seq<u8>,
    offsets: Seq<(u16, u64)>,
    cs: Seq<ChannelInfoV>,
) -> Result<Seq<(u16, Seq<IndexEntry>)>, ()>
    decreases offsets.len(),
{
    if offsets.len() == 0 {
        Ok(Seq::empty())
    } else if !(offsets[0].1 <= bytes.len()) || !emit_chain_ok(
        bytes,
        offsets[0].1 as int,
        bytes.len() as int,
    ) {
        Err(())
    } else {
        match message_index_decode(bytes, offsets[0].1) {
            Err(_) => Err(()),
            Ok((id, es)) => {
                if id != offsets[0].0 || !spec_has_channel(cs, id) {
                    Err(())
                } else {
                    match index_table_from(bytes, offsets.skip(1), cs) {
                        Err(_) => Err(()),
                        Ok(rest) => Ok(seq![(id, es)] + rest),
                    }
                }
            },
        }
    }
}

/// What reading all message indexes of chunk `c` yields.  A chunk without
/// message-index offsets reports a failure, as message indexing is required
/// for indexed lookups.
pub open spec fn spec_chunk_index_table(
    bytes: Seq<u8>,
    c: ChunkInfoV,
    cs: Seq<ChannelInfoV>,
) -> Result<Seq<(u16, Seq<IndexEntry>)>, ()> {
    if c.message_index_offsets.len() == 0 {
        Err(())
    } else {
        index_table_from(bytes, c.message_index_offsets, cs)
    }
}

/// How many index entries of `es` have a log time within `[s, e]`.
pub open spec fn count_in_entries(es: Seq<IndexEntry>, s: u64, e: u64) -> int {
    es.filter(|x: IndexEntry| s <= x.log_time <= e).len() as int
}

/// How many entries of an index table lie within `[s, e]` on the channels
/// accepted by `ch` (`None` accepts all).
pub open spec fn count_in_table(
    tab: Seq<(u16, Seq<IndexEntry>)>,
    ch: Option<u16>,
    s: u64,
    e: u64,
) -> int
    decreases tab.len(),
{
    if tab.len() == 0 {
        0
    } else {
        (if spec_channel_passes(ch, tab[0].0) {
            count_in_entries(tab[0].1, s, e)
        } else {
            0
        }) + count_in_table(tab.skip(1), ch, s, e)
    }
}

/// What counting over `chunks` yields: for each chunk whose time range
/// intersects `[s, e]`, the number of index entries within the range on the
/// accepted channels, summed in chunk order.  The second component reports
/// whether an index read failed; the count gathered before the failure is
/// kept and the walk stops there.
pub open spec fn count_from(
    bytes: Seq<u8>,
    chunks: Seq<ChunkInfoV>,
    cs: Seq<ChannelInfoV>,
    ch: Option<u16>,
    s: u64,
    e: u64,
) -> (int, bool)
    decreases chunks.len(),
{
    if chunks.len() == 0 {
        (0, false)
    } else if chunks[0].message_start_time > e || chunks[0].message_end_time < s {
        count_from(bytes, chunks.skip(1), cs, ch, s, e)
    } else {
        match spec_chunk_index_table(bytes, chunks[0], cs) {
            Err(_) => (0, true),
            Ok(tab) => {
                let rest = count_from(bytes, chunks.skip(1), cs, ch, s, e);
                (count_in_table(tab, ch, s, e) + rest.0, rest.1)
            },
        }
    }
}

/// Entry counts are non-negative.
pub proof fn lemma_count_in_table_nonneg(
    tab: Seq<(u16, Seq<IndexEntry>)>,
    ch: Option<u16>,
    s: u64,
    e: u64,
)
    ensures
        count_in_table(tab, ch, s, e) >= 0,
    decreases tab.len(),
{
    if tab.len() > 0 {
        lemma_count_in_table_nonneg(tab.skip(1), ch, s, e);
    }
}

/// Chunk-walk counts are non-negative.
pub proof fn lemma_count_from_nonneg(
    bytes: Seq<u8>,
    chunks: Seq<ChunkInfoV>,
    cs: Seq<ChannelInfoV>,
    ch: Option<u16>,
    s: u64,
    e: u64,
)
    ensures
        count_from(bytes, chunks, cs, ch, s, e).0 >= 0,
    decreases chunks.len(),
{
    if chunks.len() > 0 {
        lemma_count_from_nonneg(bytes, chunks.skip(1), cs, ch, s, e);
        if !(chunks[0].message_start_time > e || chunks[0].message_end_time < s) {
            match spec_chunk_index_table(bytes, chunks[0], cs) {
                Err(_) => {},
                Ok(tab) => {
                    lemma_count_in_table_nonneg(tab, ch, s, e);
                },
            }
        }
    }
}

/// The lowest channel id whose topic is `t`, if any channel carries it.
pub open spec fn min_topic_id(cs: Seq<ChannelInfoV>, t: Seq<char>) -> Option<u16>
    decreases cs.len(),
{
    if cs.len() == 0 {
        None
    } else {
        let rest = min_topic_id(cs.skip(1), t);
        if cs[0].topic == t {
            match rest {
                None => Some(cs[0].id),
                Some(m) => Some(if cs[0].id < m {
                    cs[0].id
                } else {
                    m
                }),
            }
        } else {
            rest
        }
    }
}

/// [`min_topic_id`] is the least id among the channels carrying topic `t`,
/// and absent exactly when no channel carries it.
pub proof fn lemma_min_topic_id(cs: Seq<ChannelInfoV>, t: Seq<char>)
    ensures
        match min_topic_id(cs, t) {
            None => forall|i: int| 0 <= i < cs.len() ==> (#[trigger] cs[i]).topic != t,
            Some(m) => (exists|i: int|
                0 <= i < cs.len() && (#[trigger] cs[i]).topic == t && cs[i].id == m) && forall|
                i: int,
            |
                0 <= i < cs.len() && (#[trigger] cs[i]).topic == t ==> cs[i].id >= m,
        },
    decreases cs.len(),
{
    if cs.len() > 0 {
        lemma_min_topic_id(cs.skip(1), t);
        assert forall|i: int| 0 < i < cs.len() implies cs.skip(1)[i - 1] == cs[i] by {}
        match min_topic_id(cs, t) {
            None => {},
            Some(m) => {
                if cs[0].topic == t {
                    match min_topic_id(cs.skip(1), t) {
                        None => {
                            assert(cs[0].topic == t && cs[0].id == m);
                        },
                        Some(r) => {
                            if cs[0].id < r {
                                assert(cs[0].topic == t && cs[0].id == m);
                            } else {
                                let j = choose|j: int|
                                    0 <= j < cs.skip(1).len() && (#[trigger] cs.skip(1)[j]).topic
                                        == t && cs.skip(1)[j].id == r;
                                assert(cs[j + 1].topic == t && cs[j + 1].id == m);
                            }
                        },
                    }
                } else {
                    let j = choose|j: int|
                        0 <= j < cs.skip(1).len() && (#[trigger] cs.skip(1)[j]).topic == t
                            && cs.skip(1)[j].id == m;
                    assert(cs[j + 1].topic == t && cs[j + 1].id == m);
                }
            },
        }
    }
}

} // verus!
