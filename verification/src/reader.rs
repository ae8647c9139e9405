//! The indexed log reader: lifecycle, summary access, bulk queries and
//! fast counts.
//!
//! A reader owns the log bytes and the summary parsed from them once at
//! construction.  Methods that need the summary fail softly - they return
//! an empty or sentinel value and record a retrievable error - as the
//! error-handling design asks.

use vstd::prelude::*;

use crate::codec;
use crate::framing::{
    check_linear_scan, check_scan, check_summary_scan, linear_scan_ok, scan_ok, summary_scan_ok,
};
use crate::codec::{
    all_decode, attachment_decode, channel_map, chunks_offsets_sorted, distinct_channel_ids,
    distinct_schema_ids, footer_decode, metadata_decode, raw_decode, raw_views_of, schema_map,
    summary_decode, SummaryModel,
};
use crate::types::views_of;
use crate::indexes::{chunk_index_table, count_entries_in_range, table_views};
use crate::model::{
    channel_ids_of, count_from, count_in_table, ids_of, query_from, spec_chunk_index_table,
    MsgFilter,
};
use crate::sort::keep_matching;
use crate::types::{
    clone_bytes, error_text, Attachment, AttachmentIndexInfoV, AttachmentV, ChannelInfoV,
    ChunkInfo, FooterInfo, IndexEntry, LogError, LogSummary, LogSummaryV, Message,
    MessageHeaderInfo, MessageV, MetadataIndexInfoV, MetadataInfo, MetadataInfoV, SchemaInfo,
    Stats,
};

verus! {

/// The canonical content a well-formed summary value abstracts to.
pub open spec fn summary_abstracted(s: LogSummaryV) -> SummaryModel {
    SummaryModel {
        channels: channel_map(s.channels),
        schemas: schema_map(s.schemas),
        chunk_indexes: s.chunk_indexes,
        stats: s.stats,
        attachment_indexes: s.attachment_indexes,
        metadata_indexes: s.metadata_indexes,
    }
}

/// Well-formedness of a stored summary: distinct table ids and strictly
/// sorted per-chunk message-index offset lists.
pub open spec fn summary_wf(s: LogSummaryV) -> bool {
    &&& distinct_channel_ids(s.channels)
    &&& distinct_schema_ids(s.schemas)
    &&& chunks_offsets_sorted(s.chunk_indexes)
}

/// The chunk index rows of an optional summary.
pub open spec fn chunks_of(o: Option<LogSummary>) -> Seq<crate::types::ChunkInfoV> {
    match o {
        Some(s) => s@.chunk_indexes,
        None => Seq::empty(),
    }
}

/// The channel rows of an optional summary.
pub open spec fn channels_of(o: Option<LogSummary>) -> Seq<ChannelInfoV> {
    match o {
        Some(s) => s@.channels,
        None => Seq::empty(),
    }
}

/// The byte source and summary are unchanged between two reader states.
pub open spec fn same_source(a: MCAPReader, b: MCAPReader) -> bool {
    &&& a.bytes == b.bytes
    &&& a.summary == b.summary
    &&& a.ignore_end_magic == b.ignore_end_magic
}

/// Saturate an unbounded count to `i64`.
pub open spec fn clamp_count(n: int) -> int {
    if n > i64::MAX {
        i64::MAX as int
    } else {
        n
    }
}

/// Saturate a `u64` timestamp to `i64`.
pub open spec fn clamp_time(t: u64) -> int {
    if t > i64::MAX {
        i64::MAX as int
    } else {
        t as int
    }
}

/// Clamp a boundary timestamp to a `u64` instant: negative values mean
/// zero here.
pub open spec fn clamp_neg(t: i64) -> u64 {
    if t < 0 {
        0u64
    } else {
        t as u64
    }
}

/// Saturating addition of two non-negative `i64` counts.
pub(crate) fn sat_add_i64(a: i64, b: i64) -> (r: i64)
    requires
        a >= 0,
        b >= 0,
    ensures
        r == clamp_count(a + b),
{
    if a > i64::MAX - b {
        i64::MAX
    } else {
        a + b
    }
}

/// A `usize` count as a saturated `i64`.
pub(crate) fn count_to_i64(n: usize) -> (r: i64)
    ensures
        r == clamp_count(n as int),
{
    if (n as u64) > (i64::MAX as u64) {
        i64::MAX
    } else {
        n as i64
    }
}

/// An indexed MCAP log reader over an in-memory byte source.
pub struct MCAPReader {
    /// The log's bytes.
    pub bytes: Vec<u8>,
    /// The summary parsed once at construction; `None` for summary-less
    /// logs.
    pub summary: Option<LogSummary>,
    /// Tolerate a missing end-of-file magic in linear scans.
    pub ignore_end_magic: bool,
    /// The last recorded error, if any.
    pub last_error: Option<LogError>,
}

impl MCAPReader {
    /// Create a reader from in-memory bytes, parsing the summary section
    /// once.  A missing summary is not an error; a summary that fails to
    /// parse - or whose record framing the decoder cannot survive - is
    /// recorded and leaves the reader without one.
    pub fn from_bytes(data: Vec<u8>, ignore_end_magic: bool) -> (r: Self)
        ensures
            r.bytes == data,
            r.ignore_end_magic == ignore_end_magic,
            if !summary_scan_ok(data@) {
                r.summary is None && r.last_error == Some(LogError::DecodeFailure)
            } else {
                match summary_decode(data@) {
                    Ok(Some(m)) => r.summary matches Some(s) && summary_abstracted(s@) == m
                        && summary_wf(s@) && r.last_error is None,
                    Ok(None) => r.summary is None && r.last_error is None,
                    Err(_) => r.summary is None && r.last_error == Some(LogError::DecodeFailure),
                }
            },
    {
        if !check_summary_scan(&data) {
            return MCAPReader {
                bytes: data,
                summary: None,
                ignore_end_magic,
                last_error: Some(LogError::DecodeFailure),
            };
        }
        let (summary, last_error) = match codec::load_summary_channels(&data) {
            Err(_) => (None, Some(LogError::DecodeFailure)),
            Ok(None) => (None, None),
            Ok(Some(channels)) => {
                let schemas = match codec::load_summary_schemas(&data) {
                    Ok(Some(s)) => s,
                    _ => vstd::pervasive::unreached(),
                };
                let chunk_indexes = match codec::load_summary_chunks(&data) {
                    Ok(Some(c)) => c,
                    _ => vstd::pervasive::unreached(),
                };
                let stats = match codec::load_summary_stats(&data) {
                    Ok(Some(t)) => t,
                    _ => vstd::pervasive::unreached(),
                };
                let attachment_indexes = match codec::load_summary_attachment_indexes(&data) {
                    Ok(Some(a)) => a,
                    _ => vstd::pervasive::unreached(),
                };
                let metadata_indexes = match codec::load_summary_metadata_indexes(&data) {
                    Ok(Some(m)) => m,
                    _ => vstd::pervasive::unreached(),
                };
                let ls = LogSummary {
                    channels,
                    schemas,
                    chunk_indexes,
                    stats,
                    attachment_indexes,
                    metadata_indexes,
                };
                proof {
                    assert(ls@.channels =~= views_of(ls.channels@));
                    assert(ls@.schemas =~= views_of(ls.schemas@));
                    assert(ls@.chunk_indexes =~= views_of(ls.chunk_indexes@));
                    assert(ls@.attachment_indexes =~= views_of(ls.attachment_indexes@));
                    assert(ls@.metadata_indexes =~= views_of(ls.metadata_indexes@));
                }
                (Some(ls), None)
            },
        };
        MCAPReader { bytes: data, summary, ignore_end_magic, last_error }
    }

    /// Close the reader: release the byte source, the summary and any
    /// recorded error.
    pub fn close(&mut self)
        ensures
            final(self).bytes@ == Seq::<u8>::empty(),
            final(self).summary is None,
            final(self).last_error is None,
            final(self).ignore_end_magic == old(self).ignore_end_magic,
    {
        self.bytes = Vec::new();
        self.summary = None;
        self.last_error = None;
    }

    /// Whether the log had a summary section.
    pub fn has_summary(&self) -> (r: bool)
        ensures
            r == (self.summary is Some),
    {
        self.summary.is_some()
    }

    /// The description of the last recorded error, or the empty string.
    pub fn get_last_error(&self) -> (r: String)
        ensures
            r@ == error_text(self.last_error),
    {
        match &self.last_error {
            Some(e) => e.text(),
            None => String::new(),
        }
    }

    /// A copy of the parsed summary, if the log has one.
    pub fn read_summary(&self) -> (r: Option<LogSummary>)
        ensures
            match self.summary {
                Some(ref s) => r matches Some(c) && c@ == s@,
                None => r is None,
            },
    {
        match &self.summary {
            Some(s) => Some(s.clone()),
            None => None,
        }
    }

    /// Read the log's footer record.
    pub fn footer(&mut self) -> (r: Option<FooterInfo>)
        ensures
            same_source(*old(self), *final(self)),
            match footer_decode(old(self).bytes@) {
                Ok(f) => r == Some(f) && final(self).last_error == old(self).last_error,
                Err(_) => r is None && final(self).last_error == Some(LogError::DecodeFailure),
            },
    {
        match codec::read_footer(&self.bytes) {
            Ok(f) => Some(f),
            Err(e) => {
                self.last_error = Some(e);
                None
            },
        }
    }

    /// Decode every message of the data section in storage order, without
    /// needing a summary.  Stops at the first malformed record, keeping the
    /// messages already decoded and recording the failure; a log whose
    /// record framing the decoder cannot survive yields nothing.
    pub fn messages(&mut self) -> (r: Vec<Message>)
        ensures
            same_source(*old(self), *final(self)),
            if !linear_scan_ok(old(self).bytes@) {
                r@.len() == 0 && final(self).last_error == Some(LogError::DecodeFailure)
            } else {
                views_of(r@) == all_decode(old(self).bytes@, old(self).ignore_end_magic).0
                    && final(self).last_error == if all_decode(
                    old(self).bytes@,
                    old(self).ignore_end_magic,
                ).1 {
                    Some(LogError::DecodeFailure)
                } else {
                    None::<LogError>
                }
            },
    {
        self.last_error = None;
        if !check_linear_scan(&self.bytes) {
            self.last_error = Some(LogError::DecodeFailure);
            return Vec::new();
        }
        let (out, failed) = codec::decode_all_messages(&self.bytes, self.ignore_end_magic);
        if failed {
            self.last_error = Some(LogError::DecodeFailure);
        }
        out
    }

    /// Decode every raw message (header and payload) of the data section in
    /// storage order.  Stops at the first malformed record, keeping the
    /// pairs already decoded and recording the failure; a log whose record
    /// framing the decoder cannot survive yields nothing.
    pub fn raw_messages(&mut self) -> (r: Vec<(MessageHeaderInfo, Vec<u8>)>)
        ensures
            same_source(*old(self), *final(self)),
            if !linear_scan_ok(old(self).bytes@) {
                r@.len() == 0 && final(self).last_error == Some(LogError::DecodeFailure)
            } else {
                raw_views_of(r@) == raw_decode(old(self).bytes@, old(self).ignore_end_magic).0
                    && final(self).last_error == if raw_decode(
                    old(self).bytes@,
                    old(self).ignore_end_magic,
                ).1 {
                    Some(LogError::DecodeFailure)
                } else {
                    None::<LogError>
                }
            },
    {
        self.last_error = None;
        if !check_linear_scan(&self.bytes) {
            self.last_error = Some(LogError::DecodeFailure);
            return Vec::new();
        }
        let (out, failed) = codec::decode_all_raw(&self.bytes, self.ignore_end_magic);
        if failed {
            self.last_error = Some(LogError::DecodeFailure);
        }
        out
    }

    /// The number of chunk index rows, saturated to `i32`; zero without a
    /// summary.
    pub fn chunk_count(&self) -> (r: i32)
        ensures
            r as int == {
                let n = chunks_of(self.summary).len() as int;
                if n > i32::MAX {
                    i32::MAX as int
                } else {
                    n
                }
            },
    {
        match &self.summary {
            Some(s) => {
                let n = s.chunk_indexes.len();
                if n > i32::MAX as usize {
                    i32::MAX
                } else {
                    n as i32
                }
            },
            None => 0,
        }
    }

    /// A copy of the chunk index rows; empty (with the failure recorded)
    /// without a summary.
    pub fn chunk_indexes(&mut self) -> (r: Vec<ChunkInfo>)
        ensures
            same_source(*old(self), *final(self)),
            match old(self).summary {
                Some(ref s) => views_of(r@) == s@.chunk_indexes && final(self).last_error == old(
                    self,
                ).last_error,
                None => r@.len() == 0 && final(self).last_error == Some(
                    LogError::SummaryUnavailable,
                ),
            },
    {
        match &self.summary {
            Some(s) => {
                let mut out: Vec<ChunkInfo> = Vec::new();
                let n = s.chunk_indexes.len();
                for i in 0..n
                    invariant
                        n == s.chunk_indexes@.len(),
                        out@.len() == i,
                        forall|j: int| 0 <= j < i ==> #[trigger] out@[j]@ == s.chunk_indexes@[j]@,
                {
                    out.push(s.chunk_indexes[i].clone());
                }
                proof {
                    assert(views_of(out@) =~= s@.chunk_indexes);
                }
                out
            },
            None => {
                self.last_error = Some(LogError::SummaryUnavailable);
                Vec::new()
            },
        }
    }

    /// First message log time in microseconds from the summary statistics,
    /// saturated to `i64`; `-1` when unavailable.
    pub fn first_message_time_usec(&self) -> (r: i64)
        ensures
            r as int == match self.summary {
                Some(ref s) => match s@.stats {
                    Some(st) => clamp_time(st.message_start_time),
                    None => -1,
                },
                None => -1,
            },
    {
        match &self.summary {
            Some(s) => match &s.stats {
                Some(st) => time_to_i64(st.message_start_time),
                None => -1,
            },
            None => -1,
        }
    }

    /// Last message log time in microseconds from the summary statistics,
    /// saturated to `i64`; `-1` when unavailable.
    pub fn last_message_time_usec(&self) -> (r: i64)
        ensures
            r as int == match self.summary {
                Some(ref s) => match s@.stats {
                    Some(st) => clamp_time(st.message_end_time),
                    None => -1,
                },
                None => -1,
            },
    {
        match &self.summary {
            Some(s) => match &s.stats {
                Some(st) => time_to_i64(st.message_end_time),
                None => -1,
            },
            None => -1,
        }
    }

    /// Duration (last minus first message time) in microseconds; `-1` when
    /// unavailable.
    pub fn duration_usec(&self) -> (r: i64)
        ensures
            r as int == match self.summary {
                Some(ref s) => match s@.stats {
                    Some(st) => clamp_time(st.message_end_time) - clamp_time(
                        st.message_start_time,
                    ),
                    None => -1,
                },
                None => -1,
            },
    {
        match &self.summary {
            Some(s) => match &s.stats {
                Some(st) => time_to_i64(st.message_end_time) - time_to_i64(st.message_start_time),
                None => -1,
            },
            None => -1,
        }
    }

    /// All channel ids, in channel-table order.
    pub fn channel_ids(&self) -> (r: Vec<i32>)
        ensures
            r@ == channels_of(self.summary).map_values(|c: ChannelInfoV| c.id as i32),
    {
        let ghost goal = channels_of(self.summary).map_values(|c: ChannelInfoV| c.id as i32);
        match &self.summary {
            Some(s) => {
                let mut out: Vec<i32> = Vec::new();
                let n = s.channels.len();
                for i in 0..n
                    invariant
                        n == s.channels@.len(),
                        out@.len() == i,
                        forall|j: int| 0 <= j < i ==> out@[j] == s.channels@[j].id as i32,
                        channels_of(self.summary) == s@.channels,
                {
                    out.push(s.channels[i].id as i32);
                }
                proof {
                    assert(out@ =~= goal);
                }
                out
            },
            None => {
                proof {
                    assert(Seq::<i32>::empty() =~= goal);
                }
                Vec::new()
            },
        }
    }

    /// All topic names, in channel-table order.
    pub fn topic_names(&self) -> (r: Vec<String>)
        ensures
            views_of(r@) == channels_of(self.summary).map_values(|c: ChannelInfoV| c.topic),
    {
        let ghost goal = channels_of(self.summary).map_values(|c: ChannelInfoV| c.topic);
        match &self.summary {
            Some(s) => {
                let mut out: Vec<String> = Vec::new();
                let n = s.channels.len();
                for i in 0..n
                    invariant
                        n == s.channels@.len(),
                        out@.len() == i,
                        forall|j: int| 0 <= j < i ==> #[trigger] out@[j]@ == s.channels@[j].topic@,
                        channels_of(self.summary) == s@.channels,
                {
                    out.push(s.channels[i].topic.clone());
                }
                proof {
                    assert(views_of(out@) =~= goal);
                }
                out
            },
            None => {
                proof {
                    assert(views_of(Seq::<String>::empty()) =~= goal);
                }
                Vec::new()
            },
        }
    }

    /// The lowest channel id whose topic equals `topic`, or `-1` if none
    /// matches (or there is no summary).
    pub fn topic_to_channel_id(&self, topic: &String) -> (r: i32)
        ensures
            r as int == match crate::model::min_topic_id(channels_of(self.summary), topic@) {
                None => -1,
                Some(m) => m as int,
            },
    {
        match &self.summary {
            Some(s) => {
                let mut best: i32 = -1;
                let ghost mut wit: int = 0;
                let n = s.channels.len();
                for i in 0..n
                    invariant
                        n == s.channels@.len(),
                        channels_of(self.summary) == s@.channels,
                        best == -1 ==> forall|j: int|
                            0 <= j < i ==> (#[trigger] s@.channels[j]).topic != topic@,
                        best != -1 ==> 0 <= wit < i && s@.channels[wit].topic == topic@
                            && s@.channels[wit].id == best,
                        best != -1 ==> forall|j: int|
                            0 <= j < i && (#[trigger] s@.channels[j]).topic == topic@
                                ==> s@.channels[j].id >= best,
                        0 <= best <= u16::MAX || best == -1,
                {
                    if s.channels[i].topic.eq(topic) {
                        let id = s.channels[i].id as i32;
                        if best == -1 || id < best {
                            best = id;
                            proof {
                                wit = i as int;
                            }
                        }
                    }
                }
                proof {
                    crate::model::lemma_min_topic_id(s@.channels, topic@);
                    match crate::model::min_topic_id(s@.channels, topic@) {
                        None => {
                            if best != -1 {
                                assert(s@.channels[wit].topic == topic@);
                                assert(false);
                            }
                        },
                        Some(m) => {
                            let w = choose|i: int|
                                0 <= i < s@.channels.len() && (#[trigger] s@.channels[i]).topic
                                    == topic@ && s@.channels[i].id == m;
                            assert(s@.channels[w].topic == topic@);
                            if best == -1 {
                                assert(false);
                            } else {
                                assert(s@.channels[wit].id >= m);
                                assert(s@.channels[w].id >= best);
                            }
                        },
                    }
                }
                best
            },
            None => -1,
        }
    }

    /// All channel ids referencing schema `schema_id`, in channel-table
    /// order; empty for a negative id or without a summary.
    pub fn channels_for_schema(&self, schema_id: i32) -> (r: Vec<i32>)
        ensures
            r@ == if schema_id < 0 {
                Seq::<i32>::empty()
            } else {
                channels_of(self.summary).filter(
                    |c: ChannelInfoV| c.schema_id == Some(schema_id as u16),
                ).map_values(|c: ChannelInfoV| c.id as i32)
            },
    {
        if schema_id < 0 {
            return Vec::new();
        }
        let sid = schema_id as u16;
        let ghost pred = |c: ChannelInfoV| c.schema_id == Some(schema_id as u16);
        match &self.summary {
            Some(s) => {
                let mut out: Vec<i32> = Vec::new();
                let n = s.channels.len();
                proof {
                    reveal(Seq::filter);
                    assert(s@.channels.take(0) =~= Seq::<ChannelInfoV>::empty());
                    assert(out@ =~= s@.channels.take(0).filter(pred).map_values(
                        |c: ChannelInfoV| c.id as i32,
                    ));
                }
                for i in 0..n
                    invariant
                        n == s.channels@.len(),
                        channels_of(self.summary) == s@.channels,
                        pred == (|c: ChannelInfoV| c.schema_id == Some(schema_id as u16)),
                        sid == schema_id as u16,
                        out@ == s@.channels.take(i as int).filter(pred).map_values(
                            |c: ChannelInfoV| c.id as i32,
                        ),
                {
                    let keep = match s.channels[i].schema_id {
                        Some(x) => x == sid,
                        None => false,
                    };
                    let ghost prev = s@.channels.take(i as int).filter(pred);
                    if keep {
                        out.push(s.channels[i].id as i32);
                    }
                    proof {
                        reveal(Seq::filter);
                        assert(s@.channels.take(i + 1).drop_last() =~= s@.channels.take(i as int));
                        assert(s@.channels.take(i + 1).last() == s@.channels[i as int]);
                        if keep {
                            assert(s@.channels.take(i + 1).filter(pred) =~= prev.push(
                                s@.channels[i as int],
                            ));
                            assert(out@ =~= s@.channels.take(i + 1).filter(pred).map_values(
                                |c: ChannelInfoV| c.id as i32,
                            ));
                        } else {
                            assert(s@.channels.take(i + 1).filter(pred) =~= prev);
                        }
                    }
                }
                proof {
                    assert(s@.channels.take(n as int) =~= s@.channels);
                }
                out
            },
            None => Vec::new(),
        }
    }

    /// The schema used by channel `channel_id`: the first schema row whose
    /// id the first channel row with id `channel_id` references.
    pub fn schema_for_channel(&self, channel_id: i32) -> (r: Option<SchemaInfo>)
        ensures
            ({
                let expected = if 0 <= channel_id <= u16::MAX && self.summary is Some {
                    spec_schema_for_channel(
                        channels_of(self.summary),
                        schemas_of(self.summary),
                        channel_id as u16,
                    )
                } else {
                    None
                };
                match r {
                    Some(sc) => expected == Some(sc@),
                    None => expected is None,
                }
            }),
    {
        if channel_id < 0 || channel_id > u16::MAX as i32 {
            return None;
        }
        let cid = channel_id as u16;
        let s = match &self.summary {
            Some(s) => s,
            None => {
                return None;
            },
        };
        let ci = match find_channel_index(&s.channels, cid) {
            Some(i) => i,
            None => {
                return None;
            },
        };
        let sid = match s.channels[ci].schema_id {
            Some(sid) => sid,
            None => {
                return None;
            },
        };
        match find_schema_index(&s.schemas, sid) {
            Some(j) => Some(s.schemas[j].clone()),
            None => None,
        }
    }
}

/// What decoding the attachments listed by `idxs` yields: the attachments
/// decoded before the first failure, and whether a failure occurred.  An
/// index row whose extent leaves the log, or whose region holds record
/// framing the decoder cannot survive, is a failure.
pub open spec fn attachments_from(bytes: Seq<u8>, idxs: Seq<AttachmentIndexInfoV>) -> (
    Seq<AttachmentV>,
    bool,
)
    decreases idxs.len(),
{
    if idxs.len() == 0 {
        (Seq::empty(), false)
    } else if !(idxs[0].offset + idxs[0].length <= bytes.len() && scan_ok(
        bytes,
        idxs[0].offset as int,
        idxs[0].offset + idxs[0].length,
    )) {
        (Seq::empty(), true)
    } else {
        match attachment_decode(bytes, idxs[0].offset, idxs[0].length) {
            Err(_) => (Seq::empty(), true),
            Ok(a) => {
                let rest = attachments_from(bytes, idxs.skip(1));
                (seq![a] + rest.0, rest.1)
            },
        }
    }
}

/// What decoding the metadata records listed by `idxs` yields, as
/// [`attachments_from`].
pub open spec fn metadata_from(bytes: Seq<u8>, idxs: Seq<MetadataIndexInfoV>) -> (
    Seq<MetadataInfoV>,
    bool,
)
    decreases idxs.len(),
{
    if idxs.len() == 0 {
        (Seq::empty(), false)
    } else if !(idxs[0].offset + idxs[0].length <= bytes.len() && scan_ok(
        bytes,
        idxs[0].offset as int,
        idxs[0].offset + idxs[0].length,
    )) {
        (Seq::empty(), true)
    } else {
        match metadata_decode(bytes, idxs[0].offset, idxs[0].length) {
            Err(_) => (Seq::empty(), true),
            Ok(m) => {
                let rest = metadata_from(bytes, idxs.skip(1));
                (seq![m] + rest.0, rest.1)
            },
        }
    }
}

/// The end bound of an inclusive time range: negative means unbounded.
pub open spec fn clamp_end(t: i64) -> u64 {
    if t < 0 {
        u64::MAX
    } else {
        t as u64
    }
}

/// Channel ids accepted by a caller-supplied id list: in-range ids kept in
/// order, negative or oversized ones dropped.
pub open spec fn valid_ids(ids: Seq<i32>) -> Seq<u16> {
    ids.filter(|x: i32| 0 <= x <= u16::MAX).map_values(|x: i32| x as u16)
}

impl MCAPReader {
    /// Decode all attachments listed by the summary's attachment indexes.
    /// Stops at the first failure, keeping the attachments already decoded
    /// and recording the failure.
    pub fn attachments(&mut self) -> (r: Vec<Attachment>)
        ensures
            same_source(*old(self), *final(self)),
            match old(self).summary {
                None => r@.len() == 0 && final(self).last_error == Some(
                    LogError::SummaryUnavailable,
                ),
                Some(ref s) => {
                    let d = attachments_from(old(self).bytes@, s@.attachment_indexes);
                    views_of(r@) == d.0 && final(self).last_error == if d.1 {
                        Some(LogError::DecodeFailure)
                    } else {
                        None::<LogError>
                    }
                },
            },
    {
        self.last_error = None;
        let s = match &self.summary {
            Some(s) => s,
            None => {
                self.last_error = Some(LogError::SummaryUnavailable);
                return Vec::new();
            },
        };
        let (out, failed) = collect_attachments(&self.bytes, &s.attachment_indexes);
        if failed {
            self.last_error = Some(LogError::DecodeFailure);
        }
        out
    }

    /// Decode all metadata records listed by the summary's metadata indexes.
    /// Stops at the first failure, keeping the records already decoded and
    /// recording the failure.
    pub fn metadata_entries(&mut self) -> (r: Vec<MetadataInfo>)
        ensures
            same_source(*old(self), *final(self)),
            match old(self).summary {
                None => r@.len() == 0 && final(self).last_error == Some(
                    LogError::SummaryUnavailable,
                ),
                Some(ref s) => {
                    let d = metadata_from(old(self).bytes@, s@.metadata_indexes);
                    views_of(r@) == d.0 && final(self).last_error == if d.1 {
                        Some(LogError::DecodeFailure)
                    } else {
                        None::<LogError>
                    }
                },
            },
    {
        self.last_error = None;
        let s = match &self.summary {
            Some(s) => s,
            None => {
                self.last_error = Some(LogError::SummaryUnavailable);
                return Vec::new();
            },
        };
        let (out, failed) = collect_metadata(&self.bytes, &s.metadata_indexes);
        if failed {
            self.last_error = Some(LogError::DecodeFailure);
        }
        out
    }

    /// Read the per-channel message indexes of one chunk: `(channel id,
    /// entries)` pairs in the chunk row's offset order.  Requires a summary;
    /// failures are recorded and yield an empty table.
    pub fn message_indexes_for_chunk(&mut self, c: &ChunkInfo) -> (r: Vec<(u16, Vec<IndexEntry>)>)
        ensures
            same_source(*old(self), *final(self)),
            match old(self).summary {
                None => r@.len() == 0 && final(self).last_error == Some(
                    LogError::SummaryUnavailable,
                ),
                Some(ref s) => match spec_chunk_index_table(old(self).bytes@, c@, s@.channels) {
                    Ok(t) => table_views(r@) == t && final(self).last_error == None::<LogError>,
                    Err(_) => r@.len() == 0 && final(self).last_error == Some(
                        LogError::DecodeFailure,
                    ),
                },
            },
    {
        self.last_error = None;
        let s = match &self.summary {
            Some(s) => s,
            None => {
                self.last_error = Some(LogError::SummaryUnavailable);
                return Vec::new();
            },
        };
        match chunk_index_table(&self.bytes, c, &s.channels) {
            Ok(t) => t,
            Err(_) => {
                self.last_error = Some(LogError::DecodeFailure);
                Vec::new()
            },
        }
    }

    /// Decode the single message a chunk row and message-index entry point
    /// at.  Requires a summary; failures are recorded.
    pub fn seek_message(&mut self, c: &ChunkInfo, entry: &IndexEntry) -> (r: Option<Message>)
        ensures
            same_source(*old(self), *final(self)),
            match old(self).summary {
                None => r is None && final(self).last_error == Some(LogError::SummaryUnavailable),
                Some(ref s) => match crate::model::spec_seek_message(
                    old(self).bytes@,
                    ids_of(s@.channels),
                    c@,
                    entry.offset,
                ) {
                    Ok(m) => r matches Some(x) && x@ == m && final(self).last_error == None::<
                        LogError,
                    >,
                    Err(_) => r is None && final(self).last_error == Some(LogError::DecodeFailure),
                },
            },
    {
        self.last_error = None;
        let ids = match &self.summary {
            Some(s) => channel_ids_of(&s.channels),
            None => {
                self.last_error = Some(LogError::SummaryUnavailable);
                return None;
            },
        };
        match crate::model::seek_in_chunk(&self.bytes, &ids, c, entry.offset) {
            Ok(m) => Some(m),
            Err(_) => {
                self.last_error = Some(LogError::DecodeFailure);
                None
            },
        }
    }

    /// Messages with log time within the inclusive range, gathered from the
    /// chunks whose index rows intersect it, in chunk order and storage
    /// order within each chunk.  A negative bound means unbounded; an
    /// inverted range is rejected.  Stops at the first chunk that fails to
    /// decode, keeping earlier messages and recording the failure.
    pub fn messages_in_time_range(&mut self, start_usec: i64, end_usec: i64) -> (r: Vec<Message>)
        ensures
            same_source(*old(self), *final(self)),
            ({
                let s = clamp_neg(start_usec);
                let e = clamp_end(end_usec);
                match old(self).summary {
                    None => r@.len() == 0 && final(self).last_error == Some(
                        LogError::SummaryUnavailable,
                    ),
                    Some(ref sm) => {
                        if s > e {
                            r@.len() == 0 && final(self).last_error == Some(
                                LogError::InvalidArgument,
                            )
                        } else {
                            let f = crate::model::MsgFilterV {
                                time_start: Some(s),
                                time_end: Some(e),
                                channels: None,
                            };
                            let q = query_from(
                                old(self).bytes@,
                                ids_of(sm@.channels),
                                sm@.chunk_indexes,
                                f,
                            );
                            views_of(r@) == q.0 && final(self).last_error == if q.1 {
                                Some(LogError::DecodeFailure)
                            } else {
                                None::<LogError>
                            }
                        }
                    },
                }
            }),
    {
        self.last_error = None;
        let s = match &self.summary {
            Some(s) => s,
            None => {
                self.last_error = Some(LogError::SummaryUnavailable);
                return Vec::new();
            },
        };
        let lo: u64 = if start_usec < 0 {
            0
        } else {
            start_usec as u64
        };
        let hi: u64 = if end_usec < 0 {
            u64::MAX
        } else {
            end_usec as u64
        };
        if lo > hi {
            self.last_error = Some(LogError::InvalidArgument);
            return Vec::new();
        }
        let ids = channel_ids_of(&s.channels);
        let filter = MsgFilter { time_start: Some(lo), time_end: Some(hi), channels: None };
        let (out, failed) = collect_query(&self.bytes, &ids, &s.chunk_indexes, &filter);
        if failed {
            self.last_error = Some(LogError::DecodeFailure);
        }
        out
    }

    /// All messages on one channel, gathered in chunk order and storage
    /// order within each chunk.  A negative or oversized id is rejected.
    pub fn messages_for_channel(&mut self, channel_id: i32) -> (r: Vec<Message>)
        ensures
            same_source(*old(self), *final(self)),
            match old(self).summary {
                None => r@.len() == 0 && final(self).last_error == Some(
                    LogError::SummaryUnavailable,
                ),
                Some(ref sm) => {
                    if channel_id < 0 || channel_id > u16::MAX {
                        r@.len() == 0 && final(self).last_error == Some(LogError::InvalidArgument)
                    } else {
                        let f = crate::model::MsgFilterV {
                            time_start: None,
                            time_end: None,
                            channels: Some(seq![channel_id as u16]),
                        };
                        let q = query_from(
                            old(self).bytes@,
                            ids_of(sm@.channels),
                            sm@.chunk_indexes,
                            f,
                        );
                        views_of(r@) == q.0 && final(self).last_error == if q.1 {
                            Some(LogError::DecodeFailure)
                        } else {
                            None::<LogError>
                        }
                    }
                },
            },
    {
        self.last_error = None;
        let s = match &self.summary {
            Some(s) => s,
            None => {
                self.last_error = Some(LogError::SummaryUnavailable);
                return Vec::new();
            },
        };
        if channel_id < 0 || channel_id > u16::MAX as i32 {
            self.last_error = Some(LogError::InvalidArgument);
            return Vec::new();
        }
        let mut wanted: Vec<u16> = Vec::new();
        wanted.push(channel_id as u16);
        proof {
            assert(wanted@ =~= seq![channel_id as u16]);
        }
        let all_ids = channel_ids_of(&s.channels);
        let filter = MsgFilter { time_start: None, time_end: None, channels: Some(wanted) };
        let (out, failed) = collect_query(&self.bytes, &all_ids, &s.chunk_indexes, &filter);
        if failed {
            self.last_error = Some(LogError::DecodeFailure);
        }
        out
    }

    /// All messages on a set of channels, gathered in chunk order and
    /// storage order within each chunk.  Ids outside the valid channel
    /// range are dropped; an empty remaining set yields no messages.
    pub fn messages_for_channels(&mut self, channel_ids: &Vec<i32>) -> (r: Vec<Message>)
        ensures
            same_source(*old(self), *final(self)),
            match old(self).summary {
                None => r@.len() == 0 && final(self).last_error == Some(
                    LogError::SummaryUnavailable,
                ),
                Some(ref sm) => {
                    let ids = valid_ids(channel_ids@);
                    if ids.len() == 0 {
                        r@.len() == 0 && final(self).last_error == None::<LogError>
                    } else {
                        let f = crate::model::MsgFilterV {
                            time_start: None,
                            time_end: None,
                            channels: Some(ids),
                        };
                        let q = query_from(
                            old(self).bytes@,
                            ids_of(sm@.channels),
                            sm@.chunk_indexes,
                            f,
                        );
                        views_of(r@) == q.0 && final(self).last_error == if q.1 {
                            Some(LogError::DecodeFailure)
                        } else {
                            None::<LogError>
                        }
                    }
                },
            },
    {
        self.last_error = None;
        let s = match &self.summary {
            Some(s) => s,
            None => {
                self.last_error = Some(LogError::SummaryUnavailable);
                return Vec::new();
            },
        };
        let wanted = keep_valid_ids(channel_ids);
        if wanted.len() == 0 {
            return Vec::new();
        }
        let all_ids = channel_ids_of(&s.channels);
        let filter = MsgFilter { time_start: None, time_end: None, channels: Some(wanted) };
        let (out, failed) = collect_query(&self.bytes, &all_ids, &s.chunk_indexes, &filter);
        if failed {
            self.last_error = Some(LogError::DecodeFailure);
        }
        out
    }

    /// All messages on the lowest-id channel carrying `topic`; empty when no
    /// channel carries it.
    pub fn messages_for_topic(&mut self, topic: &String) -> (r: Vec<Message>)
        ensures
            same_source(*old(self), *final(self)),
            match old(self).summary {
                None => r@.len() == 0 && final(self).last_error == Some(
                    LogError::SummaryUnavailable,
                ),
                Some(ref sm) => match crate::model::min_topic_id(sm@.channels, topic@) {
                    None => r@.len() == 0 && final(self).last_error == None::<LogError>,
                    Some(id) => {
                        let f = crate::model::MsgFilterV {
                            time_start: None,
                            time_end: None,
                            channels: Some(seq![id]),
                        };
                        let q = query_from(
                            old(self).bytes@,
                            ids_of(sm@.channels),
                            sm@.chunk_indexes,
                            f,
                        );
                        views_of(r@) == q.0 && final(self).last_error == if q.1 {
                            Some(LogError::DecodeFailure)
                        } else {
                            None::<LogError>
                        }
                    },
                },
            },
    {
        self.last_error = None;
        if self.summary.is_none() {
            self.last_error = Some(LogError::SummaryUnavailable);
            return Vec::new();
        }
        let id = self.topic_to_channel_id(topic);
        if id == -1 {
            return Vec::new();
        }
        self.messages_for_channel(id)
    }

    /// Total message count: the summary statistics when present, else the
    /// sum of all message-index entry counts, saturated to `i64`.  Index
    /// read failures stop the walk, keeping the partial count and recording
    /// the failure.
    pub fn message_count_total(&mut self) -> (r: i64)
        ensures
            same_source(*old(self), *final(self)),
            match old(self).summary {
                None => r == 0 && final(self).last_error == Some(LogError::SummaryUnavailable),
                Some(ref sm) => match sm@.stats {
                    Some(st) => r == clamp_count(st.message_count as int) && final(self).last_error
                        == None::<LogError>,
                    None => {
                        let c = count_from(
                            old(self).bytes@,
                            sm@.chunk_indexes,
                            sm@.channels,
                            None,
                            0,
                            u64::MAX,
                        );
                        r == clamp_count(c.0) && final(self).last_error == if c.1 {
                            Some(LogError::DecodeFailure)
                        } else {
                            None::<LogError>
                        }
                    },
                },
            },
    {
        self.last_error = None;
        let s = match &self.summary {
            Some(s) => s,
            None => {
                self.last_error = Some(LogError::SummaryUnavailable);
                return 0;
            },
        };
        if let Some(st) = &s.stats {
            let c = st.message_count;
            return if c > i64::MAX as u64 {
                i64::MAX
            } else {
                c as i64
            };
        }
        let (total, failed) = count_query(&self.bytes, &s.chunk_indexes, &s.channels, None, 0, u64::MAX);
        if failed {
            self.last_error = Some(LogError::DecodeFailure);
        }
        total
    }

    /// Message count on one channel, from message-index entries alone,
    /// saturated to `i64`.
    pub fn message_count_for_channel(&mut self, channel_id: i32) -> (r: i64)
        ensures
            same_source(*old(self), *final(self)),
            match old(self).summary {
                None => r == 0 && final(self).last_error == Some(LogError::SummaryUnavailable),
                Some(ref sm) => {
                    if channel_id < 0 || channel_id > u16::MAX {
                        r == 0 && final(self).last_error == Some(LogError::InvalidArgument)
                    } else {
                        let c = count_from(
                            old(self).bytes@,
                            sm@.chunk_indexes,
                            sm@.channels,
                            Some(channel_id as u16),
                            0,
                            u64::MAX,
                        );
                        r == clamp_count(c.0) && final(self).last_error == if c.1 {
                            Some(LogError::DecodeFailure)
                        } else {
                            None::<LogError>
                        }
                    }
                },
            },
    {
        self.last_error = None;
        let s = match &self.summary {
            Some(s) => s,
            None => {
                self.last_error = Some(LogError::SummaryUnavailable);
                return 0;
            },
        };
        if channel_id < 0 || channel_id > u16::MAX as i32 {
            self.last_error = Some(LogError::InvalidArgument);
            return 0;
        }
        let (total, failed) = count_query(
            &self.bytes,
            &s.chunk_indexes,
            &s.channels,
            Some(channel_id as u16),
            0,
            u64::MAX,
        );
        if failed {
            self.last_error = Some(LogError::DecodeFailure);
        }
        total
    }

    /// Message count within an inclusive time range, from message-index
    /// entries alone, saturated to `i64`.  A negative bound means
    /// unbounded; an inverted range is rejected.
    pub fn message_count_in_range(&mut self, start_usec: i64, end_usec: i64) -> (r: i64)
        ensures
            same_source(*old(self), *final(self)),
            ({
                let s = clamp_neg(start_usec);
                let e = clamp_end(end_usec);
                match old(self).summary {
                    None => r == 0 && final(self).last_error == Some(LogError::SummaryUnavailable),
                    Some(ref sm) => {
                        if s > e {
                            r == 0 && final(self).last_error == Some(LogError::InvalidArgument)
                        } else {
                            let c = count_from(
                                old(self).bytes@,
                                sm@.chunk_indexes,
                                sm@.channels,
                                None,
                                s,
                                e,
                            );
                            r == clamp_count(c.0) && final(self).last_error == if c.1 {
                                Some(LogError::DecodeFailure)
                            } else {
                                None::<LogError>
                            }
                        }
                    },
                }
            }),
    {
        self.last_error = None;
        let s = match &self.summary {
            Some(s) => s,
            None => {
                self.last_error = Some(LogError::SummaryUnavailable);
                return 0;
            },
        };
        let lo: u64 = if start_usec < 0 {
            0
        } else {
            start_usec as u64
        };
        let hi: u64 = if end_usec < 0 {
            u64::MAX
        } else {
            end_usec as u64
        };
        if lo > hi {
            self.last_error = Some(LogError::InvalidArgument);
            return 0;
        }
        let (total, failed) = count_query(&self.bytes, &s.chunk_indexes, &s.channels, None, lo, hi);
        if failed {
            self.last_error = Some(LogError::DecodeFailure);
        }
        total
    }

    /// Message count on one channel within an inclusive time range, from
    /// message-index entries alone, saturated to `i64`.
    pub fn message_count_for_channel_in_range(
        &mut self,
        channel_id: i32,
        start_usec: i64,
        end_usec: i64,
    ) -> (r: i64)
        ensures
            same_source(*old(self), *final(self)),
            ({
                let s = clamp_neg(start_usec);
                let e = clamp_end(end_usec);
                match old(self).summary {
                    None => r == 0 && final(self).last_error == Some(LogError::SummaryUnavailable),
                    Some(ref sm) => {
                        if channel_id < 0 || channel_id > u16::MAX {
                            r == 0 && final(self).last_error == Some(LogError::InvalidArgument)
                        } else if s > e {
                            r == 0 && final(self).last_error == Some(LogError::InvalidArgument)
                        } else {
                            let c = count_from(
                                old(self).bytes@,
                                sm@.chunk_indexes,
                                sm@.channels,
                                Some(channel_id as u16),
                                s,
                                e,
                            );
                            r == clamp_count(c.0) && final(self).last_error == if c.1 {
                                Some(LogError::DecodeFailure)
                            } else {
                                None::<LogError>
                            }
                        }
                    },
                }
            }),
    {
        self.last_error = None;
        let s = match &self.summary {
            Some(s) => s,
            None => {
                self.last_error = Some(LogError::SummaryUnavailable);
                return 0;
            },
        };
        if channel_id < 0 || channel_id > u16::MAX as i32 {
            self.last_error = Some(LogError::InvalidArgument);
            return 0;
        }
        let lo: u64 = if start_usec < 0 {
            0
        } else {
            start_usec as u64
        };
        let hi: u64 = if end_usec < 0 {
            u64::MAX
        } else {
            end_usec as u64
        };
        if lo > hi {
            self.last_error = Some(LogError::InvalidArgument);
            return 0;
        }
        let (total, failed) = count_query(
            &self.bytes,
            &s.chunk_indexes,
            &s.channels,
            Some(channel_id as u16),
            lo,
            hi,
        );
        if failed {
            self.last_error = Some(LogError::DecodeFailure);
        }
        total
    }
}

/// Keep the ids within the valid channel range, in order, as `u16`.
pub(crate) fn keep_valid_ids(ids: &Vec<i32>) -> (r: Vec<u16>)
    ensures
        r@ == valid_ids(ids@),
{
    let ghost pred = |x: i32| 0 <= x <= u16::MAX;
    let mut out: Vec<u16> = Vec::new();
    let n = ids.len();
    proof {
        reveal(Seq::filter);
        assert(ids@.take(0) =~= Seq::<i32>::empty());
        assert(out@ =~= ids@.take(0).filter(pred).map_values(|x: i32| x as u16));
    }
    for i in 0..n
        invariant
            n == ids@.len(),
            pred == (|x: i32| 0 <= x <= u16::MAX),
            out@ == ids@.take(i as int).filter(pred).map_values(|x: i32| x as u16),
    {
        let keep = 0 <= ids[i] && ids[i] <= u16::MAX as i32;
        let ghost prev = ids@.take(i as int).filter(pred);
        if keep {
            out.push(ids[i] as u16);
        }
        proof {
            reveal(Seq::filter);
            assert(ids@.take(i + 1).drop_last() =~= ids@.take(i as int));
            assert(ids@.take(i + 1).last() == ids@[i as int]);
            if keep {
                assert(ids@.take(i + 1).filter(pred) =~= prev.push(ids@[i as int]));
                assert(out@ =~= ids@.take(i + 1).filter(pred).map_values(|x: i32| x as u16));
            } else {
                assert(ids@.take(i + 1).filter(pred) =~= prev);
            }
        }
    }
    proof {
        assert(ids@.take(n as int) =~= ids@);
    }
    out
}

/// Decode the attachments listed by `idxs` until the first failure, exactly
/// as [`attachments_from`] describes.
pub(crate) fn collect_attachments(
    bytes: &Vec<u8>,
    idxs: &Vec<crate::types::AttachmentIndexInfo>,
) -> (r: (Vec<Attachment>, bool))
    ensures
        views_of(r.0@) == attachments_from(bytes@, views_of(idxs@)).0,
        r.1 == attachments_from(bytes@, views_of(idxs@)).1,
{
    let ghost all = views_of(idxs@);
    let n = idxs.len();
    let mut out: Vec<Attachment> = Vec::new();
    proof {
        assert(all.skip(0) =~= all);
        assert(views_of(out@) + attachments_from(bytes@, all).0 =~= attachments_from(
            bytes@,
            all,
        ).0);
    }
    for i in 0..n
        invariant
            n == idxs@.len(),
            all == views_of(idxs@),
            attachments_from(bytes@, all).0 == views_of(out@) + attachments_from(
                bytes@,
                all.skip(i as int),
            ).0,
            attachments_from(bytes@, all).1 == attachments_from(bytes@, all.skip(i as int)).1,
    {
        proof {
            assert(all.skip(i as int)[0] == all[i as int]);
            assert(all.skip(i as int).skip(1) =~= all.skip(i + 1));
        }
        let idx = &idxs[i];
        let blen: u64 = bytes.len() as u64;
        let ok = match idx.offset.checked_add(idx.length) {
            Some(end) => end <= blen && check_scan(bytes, idx.offset, end),
            None => false,
        };
        if !ok {
            return (out, true);
        }
        match codec::read_attachment_at(bytes, idx.offset, idx.length) {
            Err(_) => {
                return (out, true);
            },
            Ok(a) => {
                let ghost prev = views_of(out@);
                let ghost av = a@;
                out.push(a);
                proof {
                    assert(views_of(out@) =~= prev.push(av));
                    assert(views_of(out@) + attachments_from(bytes@, all.skip(i + 1)).0 =~= prev + (
                    seq![av] + attachments_from(bytes@, all.skip(i + 1)).0));
                }
            },
        }
    }
    proof {
        assert(all.skip(n as int) =~= Seq::<AttachmentIndexInfoV>::empty());
        assert(views_of(out@) + Seq::<AttachmentV>::empty() =~= views_of(out@));
    }
    (out, false)
}

/// Decode the metadata records listed by `idxs` until the first failure,
/// exactly as [`metadata_from`] describes.
pub(crate) fn collect_metadata(
    bytes: &Vec<u8>,
    idxs: &Vec<crate::types::MetadataIndexInfo>,
) -> (r: (Vec<MetadataInfo>, bool))
    ensures
        views_of(r.0@) == metadata_from(bytes@, views_of(idxs@)).0,
        r.1 == metadata_from(bytes@, views_of(idxs@)).1,
{
    let ghost all = views_of(idxs@);
    let n = idxs.len();
    let mut out: Vec<MetadataInfo> = Vec::new();
    proof {
        assert(all.skip(0) =~= all);
        assert(views_of(out@) + metadata_from(bytes@, all).0 =~= metadata_from(bytes@, all).0);
    }
    for i in 0..n
        invariant
            n == idxs@.len(),
            all == views_of(idxs@),
            metadata_from(bytes@, all).0 == views_of(out@) + metadata_from(
                bytes@,
                all.skip(i as int),
            ).0,
            metadata_from(bytes@, all).1 == metadata_from(bytes@, all.skip(i as int)).1,
    {
        proof {
            assert(all.skip(i as int)[0] == all[i as int]);
            assert(all.skip(i as int).skip(1) =~= all.skip(i + 1));
        }
        let idx = &idxs[i];
        let blen: u64 = bytes.len() as u64;
        let ok = match idx.offset.checked_add(idx.length) {
            Some(end) => end <= blen && check_scan(bytes, idx.offset, end),
            None => false,
        };
        if !ok {
            return (out, true);
        }
        match codec::read_metadata_at(bytes, idx.offset, idx.length) {
            Err(_) => {
                return (out, true);
            },
            Ok(m) => {
                let ghost prev = views_of(out@);
                let ghost mv = m@;
                out.push(m);
                proof {
                    assert(views_of(out@) =~= prev.push(mv));
                    assert(views_of(out@) + metadata_from(bytes@, all.skip(i + 1)).0 =~= prev + (
                    seq![mv] + metadata_from(bytes@, all.skip(i + 1)).0));
                }
            },
        }
    }
    proof {
        assert(all.skip(n as int) =~= Seq::<MetadataIndexInfoV>::empty());
        assert(views_of(out@) + Seq::<MetadataInfoV>::empty() =~= views_of(out@));
    }
    (out, false)
}

/// Walk the chunk index rows intersecting the filter's time bounds,
/// decoding each matching chunk and keeping the messages that pass the
/// filter, exactly as [`query_from`] describes.
pub(crate) fn collect_query(
    bytes: &Vec<u8>,
    ids: &Vec<u16>,
    chunks: &Vec<ChunkInfo>,
    f: &MsgFilter,
) -> (r: (Vec<Message>, bool))
    ensures
        views_of(r.0@) == query_from(bytes@, ids@, views_of(chunks@), f@).0,
        r.1 == query_from(bytes@, ids@, views_of(chunks@), f@).1,
{
    let ghost all = views_of(chunks@);
    let n = chunks.len();
    let mut out: Vec<Message> = Vec::new();
    proof {
        assert(all.skip(0) =~= all);
        assert(views_of(out@) + query_from(bytes@, ids@, all, f@).0 =~= query_from(
            bytes@,
            ids@,
            all,
            f@,
        ).0);
    }
    for i in 0..n
        invariant
            n == chunks@.len(),
            all == views_of(chunks@),
            f@ == f@,
            query_from(bytes@, ids@, all, f@).0 == views_of(out@) + query_from(
                bytes@,
                ids@,
                all.skip(i as int),
                f@,
            ).0,
            query_from(bytes@, ids@, all, f@).1 == query_from(
                bytes@,
                ids@,
                all.skip(i as int),
                f@,
            ).1,
    {
        proof {
            assert(all.skip(i as int)[0] == all[i as int]);
            assert(all.skip(i as int).skip(1) =~= all.skip(i + 1));
        }
        let c = &chunks[i];
        if f.chunk_might_match(c) {
            match crate::model::chunk_messages(bytes, ids, c) {
                Err(_) => {
                    return (out, true);
                },
                Ok(msgs) => {
                    let mut matched = keep_matching(&msgs, f);
                    let ghost prev = views_of(out@);
                    let ghost matched_v = views_of(matched@);
                    out.append(&mut matched);
                    proof {
                        assert(views_of(out@) =~= prev + matched_v);
                        assert(views_of(out@) + query_from(bytes@, ids@, all.skip(i + 1), f@).0
                            =~= prev + (matched_v + query_from(
                            bytes@,
                            ids@,
                            all.skip(i + 1),
                            f@,
                        ).0));
                    }
                },
            }
        }
    }
    proof {
        assert(all.skip(n as int) =~= Seq::<crate::types::ChunkInfoV>::empty());
        assert(views_of(out@) + Seq::<MessageV>::empty() =~= views_of(out@));
    }
    (out, false)
}

/// Sum the in-range entry counts of one index table on the accepted
/// channels, saturated to `i64`.
pub(crate) fn count_table_entries(
    tab: &Vec<(u16, Vec<IndexEntry>)>,
    ch: Option<u16>,
    s: u64,
    e: u64,
) -> (n: i64)
    ensures
        n == clamp_count(count_in_table(table_views(tab@), ch, s, e)),
        n >= 0,
{
    let ghost all = table_views(tab@);
    let len = tab.len();
    let mut total: i64 = 0;
    proof {
        assert(all.skip(0) =~= all);
        crate::model::lemma_count_in_table_nonneg(all, ch, s, e);
    }
    for i in 0..len
        invariant
            len == tab@.len(),
            all == table_views(tab@),
            total >= 0,
            clamp_count(count_in_table(all, ch, s, e)) == clamp_count(
                total + count_in_table(all.skip(i as int), ch, s, e),
            ),
    {
        proof {
            assert(all.skip(i as int)[0] == all[i as int]);
            assert(all.skip(i as int).skip(1) =~= all.skip(i + 1));
            crate::model::lemma_count_in_table_nonneg(all.skip(i as int), ch, s, e);
            crate::model::lemma_count_in_table_nonneg(all.skip(i + 1), ch, s, e);
        }
        let passes = match ch {
            Some(c) => tab[i].0 == c,
            None => true,
        };
        if passes {
            let cnt = count_entries_in_range(&tab[i].1, s, e);
            let cnt64 = count_to_i64(cnt);
            total = sat_add_i64(total, cnt64);
        }
    }
    proof {
        assert(all.skip(len as int) =~= Seq::<(u16, Seq<IndexEntry>)>::empty());
    }
    total
}

/// Walk the chunk index rows intersecting `[s, e]`, summing in-range
/// message-index entry counts on the accepted channels, exactly as
/// [`count_from`] describes, saturated to `i64`.
pub(crate) fn count_query(
    bytes: &Vec<u8>,
    chunks: &Vec<ChunkInfo>,
    cs: &Vec<crate::types::ChannelInfo>,
    ch: Option<u16>,
    s: u64,
    e: u64,
) -> (r: (i64, bool))
    ensures
        r.0 == clamp_count(count_from(bytes@, views_of(chunks@), views_of(cs@), ch, s, e).0),
        r.1 == count_from(bytes@, views_of(chunks@), views_of(cs@), ch, s, e).1,
        r.0 >= 0,
{
    let ghost all = views_of(chunks@);
    let ghost table = views_of(cs@);
    let n = chunks.len();
    let mut total: i64 = 0;
    proof {
        assert(all.skip(0) =~= all);
    }
    for i in 0..n
        invariant
            n == chunks@.len(),
            all == views_of(chunks@),
            table == views_of(cs@),
            total >= 0,
            clamp_count(count_from(bytes@, all, table, ch, s, e).0) == clamp_count(
                total + count_from(bytes@, all.skip(i as int), table, ch, s, e).0,
            ),
            count_from(bytes@, all, table, ch, s, e).1 == count_from(
                bytes@,
                all.skip(i as int),
                table,
                ch,
                s,
                e,
            ).1,
    {
        proof {
            assert(all.skip(i as int)[0] == all[i as int]);
            assert(all.skip(i as int).skip(1) =~= all.skip(i + 1));
            crate::model::lemma_count_from_nonneg(bytes@, all.skip(i as int), table, ch, s, e);
            crate::model::lemma_count_from_nonneg(bytes@, all.skip(i + 1), table, ch, s, e);
        }
        let c = &chunks[i];
        if !(c.message_start_time > e || c.message_end_time < s) {
            match chunk_index_table(bytes, c, cs) {
                Err(_) => {
                    return (total, true);
                },
                Ok(tab) => {
                    proof {
                        crate::model::lemma_count_in_table_nonneg(table_views(tab@), ch, s, e);
                    }
                    let cnt = count_table_entries(&tab, ch, s, e);
                    total = sat_add_i64(total, cnt);
                },
            }
        }
    }
    proof {
        assert(all.skip(n as int) =~= Seq::<crate::types::ChunkInfoV>::empty());
    }
    (total, false)
}

/// The schema rows of an optional summary.
pub open spec fn schemas_of(o: Option<LogSummary>) -> Seq<crate::types::SchemaInfoV> {
    match o {
        Some(s) => s@.schemas,
        None => Seq::empty(),
    }
}

/// The first channel row with the given id.
pub open spec fn find_channel(cs: Seq<ChannelInfoV>, id: u16) -> Option<ChannelInfoV>
    decreases cs.len(),
{
    if cs.len() == 0 {
        None
    } else if cs[0].id == id {
        Some(cs[0])
    } else {
        find_channel(cs.skip(1), id)
    }
}

/// The first schema row with the given id.
pub open spec fn find_schema(ss: Seq<crate::types::SchemaInfoV>, id: u16) -> Option<
    crate::types::SchemaInfoV,
>
    decreases ss.len(),
{
    if ss.len() == 0 {
        None
    } else if ss[0].id == id {
        Some(ss[0])
    } else {
        find_schema(ss.skip(1), id)
    }
}

/// The schema referenced by the first channel row with id `cid`, if any.
pub open spec fn spec_schema_for_channel(
    cs: Seq<ChannelInfoV>,
    ss: Seq<crate::types::SchemaInfoV>,
    cid: u16,
) -> Option<crate::types::SchemaInfoV> {
    match find_channel(cs, cid) {
        None => None,
        Some(c) => match c.schema_id {
            None => None,
            Some(sid) => find_schema(ss, sid),
        },
    }
}

/// A first-match characterization pins down [`find_channel`].
proof fn lemma_find_channel(cs: Seq<ChannelInfoV>, id: u16, r: Option<int>)
    requires
        match r {
            Some(i) => 0 <= i < cs.len() && cs[i].id == id && forall|j: int|
                0 <= j < i ==> (#[trigger] cs[j]).id != id,
            None => forall|j: int| 0 <= j < cs.len() ==> (#[trigger] cs[j]).id != id,
        },
    ensures
        find_channel(cs, id) == match r {
            Some(i) => Some(cs[i]),
            None => None::<ChannelInfoV>,
        },
    decreases cs.len(),
{
    if cs.len() > 0 && !(r matches Some(i) && i == 0) {
        match r {
            Some(i) => lemma_find_channel(cs.skip(1), id, Some(i - 1)),
            None => lemma_find_channel(cs.skip(1), id, None),
        }
    }
}

/// A first-match characterization pins down [`find_schema`].
proof fn lemma_find_schema(ss: Seq<crate::types::SchemaInfoV>, id: u16, r: Option<int>)
    requires
        match r {
            Some(i) => 0 <= i < ss.len() && ss[i].id == id && forall|j: int|
                0 <= j < i ==> (#[trigger] ss[j]).id != id,
            None => forall|j: int| 0 <= j < ss.len() ==> (#[trigger] ss[j]).id != id,
        },
    ensures
        find_schema(ss, id) == match r {
            Some(i) => Some(ss[i]),
            None => None::<crate::types::SchemaInfoV>,
        },
    decreases ss.len(),
{
    if ss.len() > 0 && !(r matches Some(i) && i == 0) {
        match r {
            Some(i) => lemma_find_schema(ss.skip(1), id, Some(i - 1)),
            None => lemma_find_schema(ss.skip(1), id, None),
        }
    }
}

/// Index of the first channel row with the given id.
pub(crate) fn find_channel_index(channels: &Vec<crate::types::ChannelInfo>, id: u16) -> (r: Option<
    usize,
>)
    ensures
        match r {
            Some(i) => i < channels@.len() && find_channel(views_of(channels@), id) == Some(
                views_of(channels@)[i as int],
            ) && views_of(channels@)[i as int].id == id,
            None => find_channel(views_of(channels@), id) is None,
        },
{
    let n = channels.len();
    for i in 0..n
        invariant
            n == channels@.len(),
            forall|j: int| 0 <= j < i ==> (#[trigger] views_of(channels@)[j]).id != id,
    {
        if channels[i].id == id {
            proof {
                assert(views_of(channels@)[i as int].id == id);
                lemma_find_channel(views_of(channels@), id, Some(i as int));
            }
            return Some(i);
        }
        proof {
            assert(views_of(channels@)[i as int].id != id);
        }
    }
    proof {
        lemma_find_channel(views_of(channels@), id, None);
    }
    None
}

/// Index of the first schema row with the given id.
pub(crate) fn find_schema_index(schemas: &Vec<SchemaInfo>, id: u16) -> (r: Option<usize>)
    ensures
        match r {
            Some(i) => i < schemas@.len() && find_schema(views_of(schemas@), id) == Some(
                views_of(schemas@)[i as int],
            ) && views_of(schemas@)[i as int].id == id,
            None => find_schema(views_of(schemas@), id) is None,
        },
{
    let n = schemas.len();
    for i in 0..n
        invariant
            n == schemas@.len(),
            forall|j: int| 0 <= j < i ==> (#[trigger] views_of(schemas@)[j]).id != id,
    {
        if schemas[i].id == id {
            proof {
                assert(views_of(schemas@)[i as int].id == id);
                lemma_find_schema(views_of(schemas@), id, Some(i as int));
            }
            return Some(i);
        }
        proof {
            assert(views_of(schemas@)[i as int].id != id);
        }
    }
    proof {
        lemma_find_schema(views_of(schemas@), id, None);
    }
    None
}

/// A `u64` timestamp as a saturated `i64`.
pub(crate) fn time_to_i64(t: u64) -> (r: i64)
    ensures
        r as int == clamp_time(t),
{
    if t > i64::MAX as u64 {
        i64::MAX
    } else {
        t as i64
    }
}

} // verus!
