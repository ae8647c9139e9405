//! Trusted boundary to the `mcap` codec crate.
//!
//! Every byte-level decode (summary section, chunk payloads, message-index
//! blocks, attachments, metadata, footer) is delegated to `mcap` through the
//! wrappers below.  Each decode is a pure function of the log bytes, the
//! offsets handed to it and - for chunk decoding - the channel-id table, so
//! its result is given a name (an uninterpreted spec function) and the
//! wrapper's contract equates the returned value with that name.
//! Everything above this module is verified against those names.
//!
//! The decoder panics on certain crafted byte patterns (an attachment body
//! whose fields outrun its trailer; a chunk-contained record that overruns
//! the chunk's declared size), so each wrapper whose call can reach them
//! `requires` the framing predicates of [`crate::framing`]; the verified
//! callers check them at run time and fail closed.  This build carries no
//! decompressors, so chunks with a non-empty compression string are decode
//! failures, never decompressed.

use vstd::prelude::*;

use crate::framing::{chunk_record_ok, emit_chain_ok, linear_scan_ok, scan_ok, summary_scan_ok};
use crate::types::views_of;
use crate::types::{
    Attachment, AttachmentIndexInfo, AttachmentIndexInfoV, AttachmentV, ChannelInfo, ChannelInfoV,
    ChunkInfo, ChunkInfoV, FooterInfo, IndexEntry, LogError, Message, MessageHeaderInfo, MessageV,
    MetadataIndexInfo, MetadataIndexInfoV, MetadataInfo, MetadataInfoV, SchemaInfo, SchemaInfoV,
    Stats,
};

verus! {

/// Sequence of pairs `(header, payload bytes)` viewed.
pub open spec fn raw_views_of(s: Seq<(MessageHeaderInfo, Vec<u8>)>) -> Seq<
    (MessageHeaderInfo, Seq<u8>),
> {
    s.map_values(|p: (MessageHeaderInfo, Vec<u8>)| (p.0, p.1@))
}

/// The canonical, order-independent content of a parsed summary section.
/// Channel and schema tables are keyed maps because the decoder hands their
/// rows back in no particular order.
pub struct SummaryModel {
    pub channels: Map<u16, ChannelInfoV>,
    pub schemas: Map<u16, SchemaInfoV>,
    pub chunk_indexes: Seq<ChunkInfoV>,
    pub stats: Option<Stats>,
    pub attachment_indexes: Seq<AttachmentIndexInfoV>,
    pub metadata_indexes: Seq<MetadataIndexInfoV>,
}

/// The map from channel id to channel row described by a channel table.
pub open spec fn channel_map(cs: Seq<ChannelInfoV>) -> Map<u16, ChannelInfoV> {
    Map::new(
        |id: u16| exists|i: int| 0 <= i < cs.len() && cs[i].id == id,
        |id: u16| cs[choose|i: int| 0 <= i < cs.len() && cs[i].id == id],
    )
}

/// The map from schema id to schema row described by a schema table.
pub open spec fn schema_map(ss: Seq<SchemaInfoV>) -> Map<u16, SchemaInfoV> {
    Map::new(
        |id: u16| exists|i: int| 0 <= i < ss.len() && ss[i].id == id,
        |id: u16| ss[choose|i: int| 0 <= i < ss.len() && ss[i].id == id],
    )
}

/// No two channel rows share an id.
pub open spec fn distinct_channel_ids(cs: Seq<ChannelInfoV>) -> bool {
    forall|i: int, j: int| 0 <= i < j < cs.len() ==> cs[i].id != cs[j].id
}

/// No two schema rows share an id.
pub open spec fn distinct_schema_ids(ss: Seq<SchemaInfoV>) -> bool {
    forall|i: int, j: int| 0 <= i < j < ss.len() ==> ss[i].id != ss[j].id
}

/// Message-index offsets are strictly ascending by channel id.
pub open spec fn offsets_sorted(os: Seq<(u16, u64)>) -> bool {
    forall|i: int, j: int| 0 <= i < j < os.len() ==> os[i].0 < os[j].0
}

/// All message-index offset lists of all chunk rows are strictly sorted.
pub open spec fn chunks_offsets_sorted(cs: Seq<ChunkInfoV>) -> bool {
    forall|i: int| 0 <= i < cs.len() ==> offsets_sorted(#[trigger] cs[i].message_index_offsets)
}

/// What parsing the summary section of `bytes` yields: a decode error, no
/// summary section, or the summary's content.
pub uninterp spec fn summary_decode(bytes: Seq<u8>) -> Result<Option<SummaryModel>, ()>;

/// What decoding the chunk record at `bytes[start .. start + len]` yields
/// when channels are resolved against the id set `ids`: its messages in
/// storage order, or a decode error.
pub uninterp spec fn chunk_decode(bytes: Seq<u8>, ids: Seq<u16>, start: u64, len: u64) -> Result<
    Seq<MessageV>,
    (),
>;

/// What decoding the message-index record at `bytes[offset..]` yields: the
/// channel id and its `(log_time, offset)` entries, or a decode error.
pub uninterp spec fn message_index_decode(bytes: Seq<u8>, offset: u64) -> Result<
    (u16, Seq<IndexEntry>),
    (),
>;

/// What decoding the single message at intra-chunk offset `offset` of the
/// chunk record at `bytes[start .. start + len]` yields, resolving channels
/// against the id set `ids`.
pub uninterp spec fn seek_decode(
    bytes: Seq<u8>,
    ids: Seq<u16>,
    start: u64,
    len: u64,
    offset: u64,
) -> Result<MessageV, ()>;

/// What a linear scan of the whole data section yields: the messages up to
/// the first decode failure, and whether such a failure occurred.
pub uninterp spec fn all_decode(bytes: Seq<u8>, ignore_end_magic: bool) -> (
    Seq<MessageV>,
    bool,
);

/// As [`all_decode`], but header/payload pairs without channel resolution.
pub uninterp spec fn raw_decode(bytes: Seq<u8>, ignore_end_magic: bool) -> (
    Seq<(MessageHeaderInfo, Seq<u8>)>,
    bool,
);

/// What decoding the attachment record at `bytes[offset .. offset + length]`
/// yields.
pub uninterp spec fn attachment_decode(bytes: Seq<u8>, offset: u64, length: u64) -> Result<
    AttachmentV,
    (),
>;

/// What decoding the metadata record at `bytes[offset .. offset + length]`
/// yields.
pub uninterp spec fn metadata_decode(bytes: Seq<u8>, offset: u64, length: u64) -> Result<
    MetadataInfoV,
    (),
>;

/// What decoding the footer record of `bytes` yields.
pub uninterp spec fn footer_decode(bytes: Seq<u8>) -> Result<FooterInfo, ()>;

#[verifier::external_type_specification]
#[verifier::external_body]
pub struct ExChunkIndex(mcap::records::ChunkIndex);

#[verifier::external_type_specification]
#[verifier::external_body]
pub struct ExSummary(mcap::read::Summary);

/// Builds a summary carrying one channel per id in `ids`, with empty
/// details.  `Summary::stream_chunk` and `Summary::seek_message` read only
/// the id keys of the channel table; every other summary field is left at
/// its empty default.
#[verifier::external_body]
fn summary_for(ids: &Vec<u16>) -> mcap::read::Summary {
    let mut channels = std::collections::HashMap::new();
    for id in ids.iter() {
        channels.insert(*id, std::sync::Arc::new(mcap::Channel {
            id: *id, topic: String::new(), schema: None,
            message_encoding: String::new(), metadata: std::collections::BTreeMap::new(),
        }));
    }
    mcap::read::Summary { channels, ..Default::default() }
}

/// Builds a chunk index record carrying only the chunk's byte offset and
/// length.  `Summary::stream_chunk` and `Summary::seek_message` read no
/// other field of the index they are given, so the rest is zero or empty.
#[verifier::external_body]
fn chunk_index_for(start: u64, len: u64) -> mcap::records::ChunkIndex {
    mcap::records::ChunkIndex {
        message_start_time: 0, message_end_time: 0, chunk_start_offset: start,
        chunk_length: len, message_index_offsets: std::collections::BTreeMap::new(),
        message_index_length: 0, compression: String::new(), compressed_size: 0,
        uncompressed_size: 0,
    }
}

/// Relies on `mcap::read::Summary::read` for the channel table of the
/// summary section.  Rows come back in no particular order; their keyed
/// content is pinned by [`summary_decode`].
#[verifier::external_body]
pub(crate) fn load_summary_channels(bytes: &Vec<u8>) -> (r: Result<
    Option<Vec<ChannelInfo>>,
    LogError,
>)
    requires
        summary_scan_ok(bytes@),
    ensures
        match r {
            Ok(Some(cs)) => summary_decode(bytes@) matches Ok(Some(m)) && channel_map(
                views_of(cs@),
            ) == m.channels && distinct_channel_ids(views_of(cs@)),
            Ok(None) => summary_decode(bytes@) == Ok::<Option<SummaryModel>, ()>(None),
            Err(e) => summary_decode(bytes@) == Err::<Option<SummaryModel>, ()>(()) && e
                == LogError::DecodeFailure,
        },
{
    let s = match mcap::read::Summary::read(bytes) {
        Ok(Some(s)) => s,
        Ok(None) => return Ok(None),
        Err(_) => return Err(LogError::DecodeFailure),
    };
    Ok(Some(s.channels.values().map(|c| ChannelInfo {
        id: c.id, topic: c.topic.clone(), schema_id: c.schema.as_ref().map(|x| x.id),
        message_encoding: c.message_encoding.clone(),
        metadata: c.metadata.iter().map(|(k, v)| (k.clone(), v.clone())).collect(),
    }).collect()))
}

/// Relies on `mcap::read::Summary::read` for the schema table of the
/// summary section.  Rows come back in no particular order; their keyed
/// content is pinned by [`summary_decode`].
#[verifier::external_body]
pub(crate) fn load_summary_schemas(bytes: &Vec<u8>) -> (r: Result<Option<Vec<SchemaInfo>>, LogError>)
    requires
        summary_scan_ok(bytes@),
    ensures
        match r {
            Ok(Some(ss)) => summary_decode(bytes@) matches Ok(Some(m)) && schema_map(
                views_of(ss@),
            ) == m.schemas && distinct_schema_ids(views_of(ss@)),
            Ok(None) => summary_decode(bytes@) == Ok::<Option<SummaryModel>, ()>(None),
            Err(e) => summary_decode(bytes@) == Err::<Option<SummaryModel>, ()>(()) && e
                == LogError::DecodeFailure,
        },
{
    let s = match mcap::read::Summary::read(bytes) {
        Ok(Some(s)) => s,
        Ok(None) => return Ok(None),
        Err(_) => return Err(LogError::DecodeFailure),
    };
    Ok(Some(s.schemas.values().map(|x| SchemaInfo {
        id: x.id, name: x.name.clone(), encoding: x.encoding.clone(), data: x.data.to_vec(),
    }).collect()))
}

/// Relies on `mcap::read::Summary::read` for the chunk index list of the
/// summary section, kept in its on-disk order.
#[verifier::external_body]
pub(crate) fn load_summary_chunks(bytes: &Vec<u8>) -> (r: Result<Option<Vec<ChunkInfo>>, LogError>)
    requires
        summary_scan_ok(bytes@),
    ensures
        match r {
            Ok(Some(cs)) => summary_decode(bytes@) matches Ok(Some(m)) && views_of(cs@)
                == m.chunk_indexes && chunks_offsets_sorted(views_of(cs@)),
            Ok(None) => summary_decode(bytes@) == Ok::<Option<SummaryModel>, ()>(None),
            Err(e) => summary_decode(bytes@) == Err::<Option<SummaryModel>, ()>(()) && e
                == LogError::DecodeFailure,
        },
{
    let s = match mcap::read::Summary::read(bytes) {
        Ok(Some(s)) => s,
        Ok(None) => return Ok(None),
        Err(_) => return Err(LogError::DecodeFailure),
    };
    Ok(Some(s.chunk_indexes.iter().map(|c| ChunkInfo {
        message_start_time: c.message_start_time, message_end_time: c.message_end_time,
        chunk_start_offset: c.chunk_start_offset, chunk_length: c.chunk_length,
        message_index_offsets: c.message_index_offsets.iter().map(|(k, v)| (*k, *v)).collect(),
        message_index_length: c.message_index_length, compression: c.compression.clone(),
        compressed_size: c.compressed_size, uncompressed_size: c.uncompressed_size,
    }).collect()))
}

/// Relies on `mcap::read::Summary::read` for the statistics record of the
/// summary section.
#[verifier::external_body]
pub(crate) fn load_summary_stats(bytes: &Vec<u8>) -> (r: Result<Option<Option<Stats>>, LogError>)
    requires
        summary_scan_ok(bytes@),
    ensures
        match r {
            Ok(Some(st)) => summary_decode(bytes@) matches Ok(Some(m)) && st == m.stats,
            Ok(None) => summary_decode(bytes@) == Ok::<Option<SummaryModel>, ()>(None),
            Err(e) => summary_decode(bytes@) == Err::<Option<SummaryModel>, ()>(()) && e
                == LogError::DecodeFailure,
        },
{
    let s = match mcap::read::Summary::read(bytes) {
        Ok(Some(s)) => s,
        Ok(None) => return Ok(None),
        Err(_) => return Err(LogError::DecodeFailure),
    };
    Ok(Some(s.stats.map(|t| Stats {
        message_count: t.message_count, schema_count: t.schema_count,
        channel_count: t.channel_count, attachment_count: t.attachment_count,
        metadata_count: t.metadata_count, chunk_count: t.chunk_count,
        message_start_time: t.message_start_time, message_end_time: t.message_end_time,
    })))
}

/// Relies on `mcap::read::Summary::read` for the attachment index list of
/// the summary section, kept in its on-disk order.
#[verifier::external_body]
pub(crate) fn load_summary_attachment_indexes(bytes: &Vec<u8>) -> (r: Result<
    Option<Vec<AttachmentIndexInfo>>,
    LogError,
>)
    requires
        summary_scan_ok(bytes@),
    ensures
        match r {
            Ok(Some(ai)) => summary_decode(bytes@) matches Ok(Some(m)) && views_of(ai@)
                == m.attachment_indexes,
            Ok(None) => summary_decode(bytes@) == Ok::<Option<SummaryModel>, ()>(None),
            Err(e) => summary_decode(bytes@) == Err::<Option<SummaryModel>, ()>(()) && e
                == LogError::DecodeFailure,
        },
{
    let s = match mcap::read::Summary::read(bytes) {
        Ok(Some(s)) => s,
        Ok(None) => return Ok(None),
        Err(_) => return Err(LogError::DecodeFailure),
    };
    Ok(Some(s.attachment_indexes.iter().map(|a| AttachmentIndexInfo {
        offset: a.offset, length: a.length, log_time: a.log_time, create_time: a.create_time,
        data_size: a.data_size, name: a.name.clone(), media_type: a.media_type.clone(),
    }).collect()))
}

/// Relies on `mcap::read::Summary::read` for the metadata index list of the
/// summary section, kept in its on-disk order.
#[verifier::external_body]
pub(crate) fn load_summary_metadata_indexes(bytes: &Vec<u8>) -> (r: Result<
    Option<Vec<MetadataIndexInfo>>,
    LogError,
>)
    requires
        summary_scan_ok(bytes@),
    ensures
        match r {
            Ok(Some(mi)) => summary_decode(bytes@) matches Ok(Some(m)) && views_of(mi@)
                == m.metadata_indexes,
            Ok(None) => summary_decode(bytes@) == Ok::<Option<SummaryModel>, ()>(None),
            Err(e) => summary_decode(bytes@) == Err::<Option<SummaryModel>, ()>(()) && e
                == LogError::DecodeFailure,
        },
{
    let s = match mcap::read::Summary::read(bytes) {
        Ok(Some(s)) => s,
        Ok(None) => return Ok(None),
        Err(_) => return Err(LogError::DecodeFailure),
    };
    Ok(Some(s.metadata_indexes.iter().map(|m| MetadataIndexInfo {
        offset: m.offset, length: m.length, name: m.name.clone(),
    }).collect()))
}

/// Relies on `mcap::read::Summary::stream_chunk`: decodes the chunk record
/// at `bytes[start .. start + len]` and yields its messages in storage
/// order.  The summary handed to the call carries one channel per id in
/// `ids` with empty details: `stream_chunk` reads only the id key of a
/// channel, and the returned plain messages carry nothing else of it.
#[verifier::external_body]
pub(crate) fn decode_chunk_at(bytes: &Vec<u8>, ids: &Vec<u16>, start: u64, len: u64) -> (r: Result<
    Vec<Message>,
    LogError,
>)
    requires
        start + len <= bytes@.len(),
        9 <= len,
        chunk_record_ok(bytes@, start as int, len as int),
    ensures
        match r {
            Ok(v) => chunk_decode(bytes@, ids@, start, len) == Ok::<Seq<MessageV>, ()>(
                views_of(v@),
            ),
            Err(e) => chunk_decode(bytes@, ids@, start, len) == Err::<Seq<MessageV>, ()>(()) && e
                == LogError::DecodeFailure,
        },
{
    let s = summary_for(ids);
    let it = match s.stream_chunk(bytes, &chunk_index_for(start, len)) {
        Ok(it) => it,
        Err(_) => return Err(LogError::DecodeFailure),
    };
    it.map(|item| match item {
        Ok(m) => Ok(Message {
            channel_id: m.channel.id, sequence: m.sequence, log_time: m.log_time,
            publish_time: m.publish_time, data: m.data.into_owned(),
        }),
        Err(_) => Err(LogError::DecodeFailure),
    }).collect()
}

/// Relies on `mcap::read::LinearReader::sans_magic`: decodes the single
/// record at `bytes[offset..]` as a message-index record.
#[verifier::external_body]
pub(crate) fn read_message_index_at(bytes: &Vec<u8>, offset: u64) -> (r: Result<
    (u16, Vec<IndexEntry>),
    LogError,
>)
    requires
        offset <= bytes@.len(),
        emit_chain_ok(bytes@, offset as int, bytes@.len() as int),
    ensures
        match r {
            Ok((id, es)) => message_index_decode(bytes@, offset) == Ok::<(u16, Seq<IndexEntry>), ()>(
                (id, es@),
            ),
            Err(e) => message_index_decode(bytes@, offset) == Err::<(u16, Seq<IndexEntry>), ()>(())
                && e == LogError::DecodeFailure,
        },
{
    let mut reader = mcap::read::LinearReader::sans_magic(&bytes[offset as usize..]);
    match reader.next() {
        Some(Ok(mcap::records::Record::MessageIndex(mi))) => Ok((
            mi.channel_id,
            mi.records.iter().map(|e| IndexEntry { log_time: e.log_time, offset: e.offset }).collect(),
        )),
        _ => Err(LogError::DecodeFailure),
    }
}

/// Relies on `mcap::read::Summary::seek_message`: decodes the one message
/// at intra-chunk offset `offset` of the chunk record at
/// `bytes[start .. start + len]`.  The summary handed to the call carries
/// one channel per id in `ids` with empty details, as in
/// [`decode_chunk_at`].
#[verifier::external_body]
pub(crate) fn seek_message_at(
    bytes: &Vec<u8>,
    ids: &Vec<u16>,
    start: u64,
    len: u64,
    offset: u64,
) -> (r: Result<Message, LogError>)
    requires
        start + len <= bytes@.len(),
        9 <= len,
        chunk_record_ok(bytes@, start as int, len as int),
    ensures
        match r {
            Ok(m) => seek_decode(bytes@, ids@, start, len, offset) == Ok::<MessageV, ()>(m@),
            Err(e) => seek_decode(bytes@, ids@, start, len, offset) == Err::<MessageV, ()>(()) && e
                == LogError::DecodeFailure,
        },
{
    let s = summary_for(ids);
    let entry = mcap::records::MessageIndexEntry { log_time: 0, offset };
    match s.seek_message(bytes, &chunk_index_for(start, len), &entry) {
        Ok(m) => Ok(Message {
            channel_id: m.channel.id, sequence: m.sequence, log_time: m.log_time,
            publish_time: m.publish_time, data: m.data.into_owned(),
        }),
        Err(_) => Err(LogError::DecodeFailure),
    }
}

/// Relies on `mcap::read::MessageStream`: scans the whole data section and
/// returns the messages read before the first failure, plus a failure flag.
#[verifier::external_body]
pub(crate) fn decode_all_messages(bytes: &Vec<u8>, ignore_end_magic: bool) -> (r: (
    Vec<Message>,
    bool,
))
    requires
        linear_scan_ok(bytes@),
    ensures
        (views_of(r.0@), r.1) == all_decode(bytes@, ignore_end_magic),
{
    let options = if ignore_end_magic { enumset::EnumSet::only(mcap::read::Options::IgnoreEndMagic) } else { enumset::EnumSet::empty() };
    let stream = match mcap::read::MessageStream::new_with_options(bytes, options) { Ok(s) => s, Err(_) => return (Vec::new(), true) };
    let mut out = Vec::new();
    for item in stream {
        match item {
            Ok(m) => out.push(Message {
                channel_id: m.channel.id, sequence: m.sequence, log_time: m.log_time,
                publish_time: m.publish_time, data: m.data.into_owned(),
            }),
            Err(_) => return (out, true),
        }
    }
    (out, false)
}

/// Relies on `mcap::read::RawMessageStream`: scans the whole data section
/// and returns raw header/payload pairs read before the first failure, plus
/// a failure flag.
#[verifier::external_body]
pub(crate) fn decode_all_raw(bytes: &Vec<u8>, ignore_end_magic: bool) -> (r: (
    Vec<(MessageHeaderInfo, Vec<u8>)>,
    bool,
))
    requires
        linear_scan_ok(bytes@),
    ensures
        (raw_views_of(r.0@), r.1) == raw_decode(bytes@, ignore_end_magic),
{
    let options = if ignore_end_magic { enumset::EnumSet::only(mcap::read::Options::IgnoreEndMagic) } else { enumset::EnumSet::empty() };
    let stream = match mcap::read::RawMessageStream::new_with_options(bytes, options) { Ok(s) => s, Err(_) => return (Vec::new(), true) };
    let mut out = Vec::new();
    for item in stream {
        match item {
            Ok(m) => out.push((MessageHeaderInfo {
                channel_id: m.header.channel_id, sequence: m.header.sequence,
                log_time: m.header.log_time, publish_time: m.header.publish_time,
            }, m.data.into_owned())),
            Err(_) => return (out, true),
        }
    }
    (out, false)
}

/// Relies on `mcap::read::attachment`: decodes the attachment record at
/// `bytes[offset .. offset + length]`.  The reader uses only the offset and
/// length fields of the index it is given; the rest is zero or empty.
#[verifier::external_body]
pub(crate) fn read_attachment_at(bytes: &Vec<u8>, offset: u64, length: u64) -> (r: Result<
    Attachment,
    LogError,
>)
    requires
        offset + length <= bytes@.len(),
        scan_ok(bytes@, offset as int, offset as int + length as int),
    ensures
        match r {
            Ok(a) => attachment_decode(bytes@, offset, length) == Ok::<AttachmentV, ()>(a@),
            Err(e) => attachment_decode(bytes@, offset, length) == Err::<AttachmentV, ()>(()) && e
                == LogError::DecodeFailure,
        },
{
    let index = mcap::records::AttachmentIndex {
        offset, length, log_time: 0, create_time: 0, data_size: 0,
        name: String::new(), media_type: String::new(),
    };
    match mcap::read::attachment(bytes, &index) {
        Ok(a) => Ok(Attachment {
            log_time: a.log_time, create_time: a.create_time, name: a.name,
            media_type: a.media_type, data: a.data.into_owned(),
        }),
        Err(_) => Err(LogError::DecodeFailure),
    }
}

/// Relies on `mcap::read::metadata`: decodes the metadata record at
/// `bytes[offset .. offset + length]`.  The reader uses only the offset and
/// length fields of the index it is given.
#[verifier::external_body]
pub(crate) fn read_metadata_at(bytes: &Vec<u8>, offset: u64, length: u64) -> (r: Result<
    MetadataInfo,
    LogError,
>)
    requires
        offset + length <= bytes@.len(),
        scan_ok(bytes@, offset as int, offset as int + length as int),
    ensures
        match r {
            Ok(m) => metadata_decode(bytes@, offset, length) == Ok::<MetadataInfoV, ()>(m@),
            Err(e) => metadata_decode(bytes@, offset, length) == Err::<MetadataInfoV, ()>(()) && e
                == LogError::DecodeFailure,
        },
{
    let index = mcap::records::MetadataIndex { offset, length, name: String::new() };
    match mcap::read::metadata(bytes, &index) {
        Ok(m) => Ok(MetadataInfo { name: m.name, entries: m.metadata.into_iter().collect() }),
        Err(_) => Err(LogError::DecodeFailure),
    }
}

/// Relies on `mcap::read::footer`: decodes the footer record of the log.
#[verifier::external_body]
pub(crate) fn read_footer(bytes: &Vec<u8>) -> (r: Result<FooterInfo, LogError>)
    ensures
        match r {
            Ok(f) => footer_decode(bytes@) == Ok::<FooterInfo, ()>(f),
            Err(e) => footer_decode(bytes@) == Err::<FooterInfo, ()>(()) && e
                == LogError::DecodeFailure,
        },
{
    match mcap::read::footer(bytes) {
        Ok(f) => Ok(FooterInfo {
            summary_start: f.summary_start,
            summary_offset_start: f.summary_offset_start,
            summary_crc: f.summary_crc,
        }),
        Err(_) => Err(LogError::DecodeFailure),
    }
}

} // verus!
