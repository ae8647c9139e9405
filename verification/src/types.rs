//! Data model of an indexed MCAP log: messages, channels, schemas,
//! chunk indexes, message-index entries, and the parsed summary.
//!
//! Each executable type with heap-backed fields has a ghost view used by
//! the contracts; types made of plain integers are used in specifications
//! directly.

use vstd::prelude::*;

verus! {

/// Sequence of the views of a sequence of viewable values.
pub open spec fn views_of<T: View>(s: Seq<T>) -> Seq<T::V> {
    s.map_values(|x: T| x@)
}

/// Errors surfaced by the reader, the iterator and the replay scheduler.
#[derive(Clone, Copy, PartialEq, Eq, Structural, Debug)]
pub enum LogError {
    /// The log has no summary section, so indexed queries are unavailable.
    SummaryUnavailable,
    /// A chunk, record or index block could not be decoded.
    DecodeFailure,
    /// An operation was attempted before a byte source was attached.
    NotOpen,
    /// A caller-supplied argument was rejected (inverted range, bad id).
    InvalidArgument,
}

impl LogError {
    /// The description of this error.
    pub open spec fn spec_text(self) -> Seq<char> {
        match self {
            LogError::SummaryUnavailable => "no summary available (indexed access requires a summary)"@,
            LogError::DecodeFailure => "decoding a chunk, record or index failed"@,
            LogError::NotOpen => "no byte source is attached"@,
            LogError::InvalidArgument => "invalid argument"@,
        }
    }

    /// The description of this error.
    pub fn text(&self) -> (r: String)
        ensures
            r@ == self.spec_text(),
    {
        match self {
            LogError::SummaryUnavailable => "no summary available (indexed access requires a summary)".to_owned(),
            LogError::DecodeFailure => "decoding a chunk, record or index failed".to_owned(),
            LogError::NotOpen => "no byte source is attached".to_owned(),
            LogError::InvalidArgument => "invalid argument".to_owned(),
        }
    }
}

/// The description of a recorded error; the empty string when none is
/// recorded.
pub open spec fn error_text(o: Option<LogError>) -> Seq<char> {
    match o {
        None => Seq::empty(),
        Some(e) => e.spec_text(),
    }
}

/// A decoded message: channel id, sequence number, both timestamps in
/// microseconds, and the payload bytes.
pub struct Message {
    pub channel_id: u16,
    pub sequence: u32,
    pub log_time: u64,
    pub publish_time: u64,
    pub data: Vec<u8>,
}

/// Ghost view of [`Message`].
pub struct MessageV {
    pub channel_id: u16,
    pub sequence: u32,
    pub log_time: u64,
    pub publish_time: u64,
    pub data: Seq<u8>,
}

impl View for Message {
    type V = MessageV;

    open spec fn view(&self) -> MessageV {
        MessageV {
            channel_id: self.channel_id,
            sequence: self.sequence,
            log_time: self.log_time,
            publish_time: self.publish_time,
            data: self.data@,
        }
    }
}

impl Clone for Message {
    fn clone(&self) -> (r: Self)
        ensures
            r@ == self@,
    {
        let r = Message {
            channel_id: self.channel_id,
            sequence: self.sequence,
            log_time: self.log_time,
            publish_time: self.publish_time,
            data: clone_bytes(&self.data),
        };
        r
    }
}

/// Clone a byte vector, keeping its contents.
pub fn clone_bytes(v: &Vec<u8>) -> (r: Vec<u8>)
    ensures
        r@ == v@,
{
    let r = v.clone();
    proof {
        assert(r@ =~= v@);
    }
    r
}

/// Clone a vector of copyable pairs, keeping its contents.
pub fn clone_pairs(v: &Vec<(u16, u64)>) -> (r: Vec<(u16, u64)>)
    ensures
        r@ == v@,
{
    let mut r: Vec<(u16, u64)> = Vec::new();
    let n = v.len();
    for i in 0..n
        invariant
            n == v@.len(),
            r@ == v@.take(i as int),
    {
        r.push(v[i]);
        proof {
            assert(r@ =~= v@.take(i + 1));
        }
    }
    proof {
        assert(v@.take(n as int) =~= v@);
    }
    r
}

/// Clone a vector of string pairs, keeping its contents.
pub fn clone_string_pairs(v: &Vec<(String, String)>) -> (r: Vec<(String, String)>)
    ensures
        r@ == v@,
{
    let mut r: Vec<(String, String)> = Vec::new();
    let n = v.len();
    for i in 0..n
        invariant
            n == v@.len(),
            r@ == v@.take(i as int),
    {
        let p = &v[i];
        r.push((p.0.clone(), p.1.clone()));
        proof {
            assert(r@ =~= v@.take(i + 1));
        }
    }
    proof {
        assert(v@.take(n as int) =~= v@);
    }
    r
}

/// A message record header without its payload.
#[derive(Clone, Copy, PartialEq, Eq, Structural)]
pub struct MessageHeaderInfo {
    pub channel_id: u16,
    pub sequence: u32,
    pub log_time: u64,
    pub publish_time: u64,
}

/// A channel of the log's channel table.
pub struct ChannelInfo {
    pub id: u16,
    pub topic: String,
    /// Schema id the channel references, or `None` for schema-less channels.
    pub schema_id: Option<u16>,
    pub message_encoding: String,
    pub metadata: Vec<(String, String)>,
}

/// Ghost view of [`ChannelInfo`].
pub struct ChannelInfoV {
    pub id: u16,
    pub topic: Seq<char>,
    pub schema_id: Option<u16>,
    pub message_encoding: Seq<char>,
    pub metadata: Seq<(Seq<char>, Seq<char>)>,
}

impl View for ChannelInfo {
    type V = ChannelInfoV;

    open spec fn view(&self) -> ChannelInfoV {
        ChannelInfoV {
            id: self.id,
            topic: self.topic@,
            schema_id: self.schema_id,
            message_encoding: self.message_encoding@,
            metadata: Seq::new(
                self.metadata@.len(),
                |i: int| (self.metadata@[i].0@, self.metadata@[i].1@),
            ),
        }
    }
}

impl Clone for ChannelInfo {
    fn clone(&self) -> (r: Self)
        ensures
            r@ == self@,
    {
        let r = ChannelInfo {
            id: self.id,
            topic: self.topic.clone(),
            schema_id: self.schema_id,
            message_encoding: self.message_encoding.clone(),
            metadata: clone_string_pairs(&self.metadata),
        };
        proof {
            assert(r@.metadata =~= self@.metadata);
        }
        r
    }
}

/// A schema of the log's schema table.
pub struct SchemaInfo {
    pub id: u16,
    pub name: String,
    pub encoding: String,
    pub data: Vec<u8>,
}

/// Ghost view of [`SchemaInfo`].
pub struct SchemaInfoV {
    pub id: u16,
    pub name: Seq<char>,
    pub encoding: Seq<char>,
    pub data: Seq<u8>,
}

impl View for SchemaInfo {
    type V = SchemaInfoV;

    open spec fn view(&self) -> SchemaInfoV {
        SchemaInfoV {
            id: self.id,
            name: self.name@,
            encoding: self.encoding@,
            data: self.data@,
        }
    }
}

impl Clone for SchemaInfo {
    fn clone(&self) -> (r: Self)
        ensures
            r@ == self@,
    {
        SchemaInfo {
            id: self.id,
            name: self.name.clone(),
            encoding: self.encoding.clone(),
            data: clone_bytes(&self.data),
        }
    }
}

/// One chunk index entry of the summary section.
pub struct ChunkInfo {
    pub message_start_time: u64,
    pub message_end_time: u64,
    pub chunk_start_offset: u64,
    pub chunk_length: u64,
    /// Per-channel offsets of the chunk's message-index records,
    /// ascending by channel id.
    pub message_index_offsets: Vec<(u16, u64)>,
    pub message_index_length: u64,
    pub compression: String,
    pub compressed_size: u64,
    pub uncompressed_size: u64,
}

/// Ghost view of [`ChunkInfo`].
pub struct ChunkInfoV {
    pub message_start_time: u64,
    pub message_end_time: u64,
    pub chunk_start_offset: u64,
    pub chunk_length: u64,
    pub message_index_offsets: Seq<(u16, u64)>,
    pub message_index_length: u64,
    pub compression: Seq<char>,
    pub compressed_size: u64,
    pub uncompressed_size: u64,
}

impl View for ChunkInfo {
    type V = ChunkInfoV;

    open spec fn view(&self) -> ChunkInfoV {
        ChunkInfoV {
            message_start_time: self.message_start_time,
            message_end_time: self.message_end_time,
            chunk_start_offset: self.chunk_start_offset,
            chunk_length: self.chunk_length,
            message_index_offsets: self.message_index_offsets@,
            message_index_length: self.message_index_length,
            compression: self.compression@,
            compressed_size: self.compressed_size,
            uncompressed_size: self.uncompressed_size,
        }
    }
}

impl Clone for ChunkInfo {
    fn clone(&self) -> (r: Self)
        ensures
            r@ == self@,
    {
        ChunkInfo {
            message_start_time: self.message_start_time,
            message_end_time: self.message_end_time,
            chunk_start_offset: self.chunk_start_offset,
            chunk_length: self.chunk_length,
            message_index_offsets: clone_pairs(&self.message_index_offsets),
            message_index_length: self.message_index_length,
            compression: self.compression.clone(),
            compressed_size: self.compressed_size,
            uncompressed_size: self.uncompressed_size,
        }
    }
}

/// One `(log_time, intra-chunk offset)` entry of a message index.
#[derive(Clone, Copy, PartialEq, Eq, Structural)]
pub struct IndexEntry {
    pub log_time: u64,
    pub offset: u64,
}

/// Global statistics of the summary section.
#[derive(Clone, Copy, PartialEq, Eq, Structural)]
pub struct Stats {
    pub message_count: u64,
    pub schema_count: u16,
    pub channel_count: u32,
    pub attachment_count: u32,
    pub metadata_count: u32,
    pub chunk_count: u32,
    pub message_start_time: u64,
    pub message_end_time: u64,
}

/// The footer record of the log.
#[derive(Clone, Copy, PartialEq, Eq, Structural)]
pub struct FooterInfo {
    pub summary_start: u64,
    pub summary_offset_start: u64,
    pub summary_crc: u32,
}

/// One attachment index entry of the summary section.
pub struct AttachmentIndexInfo {
    pub offset: u64,
    pub length: u64,
    pub log_time: u64,
    pub create_time: u64,
    pub data_size: u64,
    pub name: String,
    pub media_type: String,
}

/// Ghost view of [`AttachmentIndexInfo`].
pub struct AttachmentIndexInfoV {
    pub offset: u64,
    pub length: u64,
    pub log_time: u64,
    pub create_time: u64,
    pub data_size: u64,
    pub name: Seq<char>,
    pub media_type: Seq<char>,
}

impl View for AttachmentIndexInfo {
    type V = AttachmentIndexInfoV;

    open spec fn view(&self) -> AttachmentIndexInfoV {
        AttachmentIndexInfoV {
            offset: self.offset,
            length: self.length,
            log_time: self.log_time,
            create_time: self.create_time,
            data_size: self.data_size,
            name: self.name@,
            media_type: self.media_type@,
        }
    }
}

impl Clone for AttachmentIndexInfo {
    fn clone(&self) -> (r: Self)
        ensures
            r@ == self@,
    {
        AttachmentIndexInfo {
            offset: self.offset,
            length: self.length,
            log_time: self.log_time,
            create_time: self.create_time,
            data_size: self.data_size,
            name: self.name.clone(),
            media_type: self.media_type.clone(),
        }
    }
}

/// A decoded attachment.
pub struct Attachment {
    pub log_time: u64,
    pub create_time: u64,
    pub name: String,
    pub media_type: String,
    pub data: Vec<u8>,
}

/// Ghost view of [`Attachment`].
pub struct AttachmentV {
    pub log_time: u64,
    pub create_time: u64,
    pub name: Seq<char>,
    pub media_type: Seq<char>,
    pub data: Seq<u8>,
}

impl View for Attachment {
    type V = AttachmentV;

    open spec fn view(&self) -> AttachmentV {
        AttachmentV {
            log_time: self.log_time,
            create_time: self.create_time,
            name: self.name@,
            media_type: self.media_type@,
            data: self.data@,
        }
    }
}

/// One metadata index entry of the summary section.
pub struct MetadataIndexInfo {
    pub offset: u64,
    pub length: u64,
    pub name: String,
}

/// Ghost view of [`MetadataIndexInfo`].
pub struct MetadataIndexInfoV {
    pub offset: u64,
    pub length: u64,
    pub name: Seq<char>,
}

impl View for MetadataIndexInfo {
    type V = MetadataIndexInfoV;

    open spec fn view(&self) -> MetadataIndexInfoV {
        MetadataIndexInfoV { offset: self.offset, length: self.length, name: self.name@ }
    }
}

impl Clone for MetadataIndexInfo {
    fn clone(&self) -> (r: Self)
        ensures
            r@ == self@,
    {
        MetadataIndexInfo { offset: self.offset, length: self.length, name: self.name.clone() }
    }
}

/// A decoded metadata record: a name and string key/value pairs.
pub struct MetadataInfo {
    pub name: String,
    pub entries: Vec<(String, String)>,
}

/// Ghost view of [`MetadataInfo`].
pub struct MetadataInfoV {
    pub name: Seq<char>,
    pub entries: Seq<(Seq<char>, Seq<char>)>,
}

impl View for MetadataInfo {
    type V = MetadataInfoV;

    open spec fn view(&self) -> MetadataInfoV {
        MetadataInfoV {
            name: self.name@,
            entries: Seq::new(
                self.entries@.len(),
                |i: int| (self.entries@[i].0@, self.entries@[i].1@),
            ),
        }
    }
}

/// The parsed summary section: channel and schema tables, the ordered
/// chunk index list, optional global statistics, and the attachment and
/// metadata indexes.
pub struct LogSummary {
    pub channels: Vec<ChannelInfo>,
    pub schemas: Vec<SchemaInfo>,
    pub chunk_indexes: Vec<ChunkInfo>,
    pub stats: Option<Stats>,
    pub attachment_indexes: Vec<AttachmentIndexInfo>,
    pub metadata_indexes: Vec<MetadataIndexInfo>,
}

/// Ghost view of [`LogSummary`].
pub struct LogSummaryV {
    pub channels: Seq<ChannelInfoV>,
    pub schemas: Seq<SchemaInfoV>,
    pub chunk_indexes: Seq<ChunkInfoV>,
    pub stats: Option<Stats>,
    pub attachment_indexes: Seq<AttachmentIndexInfoV>,
    pub metadata_indexes: Seq<MetadataIndexInfoV>,
}

impl Clone for LogSummary {
    fn clone(&self) -> (r: Self)
        ensures
            r@ == self@,
    {
        let mut channels: Vec<ChannelInfo> = Vec::new();
        let n1 = self.channels.len();
        for i in 0..n1
            invariant
                n1 == self.channels@.len(),
                channels@.len() == i,
                forall|j: int| 0 <= j < i ==> #[trigger] channels@[j]@ == self.channels@[j]@,
        {
            channels.push(self.channels[i].clone());
        }
        let mut schemas: Vec<SchemaInfo> = Vec::new();
        let n2 = self.schemas.len();
        for i in 0..n2
            invariant
                n2 == self.schemas@.len(),
                schemas@.len() == i,
                forall|j: int| 0 <= j < i ==> #[trigger] schemas@[j]@ == self.schemas@[j]@,
        {
            schemas.push(self.schemas[i].clone());
        }
        let mut chunk_indexes: Vec<ChunkInfo> = Vec::new();
        let n3 = self.chunk_indexes.len();
        for i in 0..n3
            invariant
                n3 == self.chunk_indexes@.len(),
                chunk_indexes@.len() == i,
                forall|j: int|
                    0 <= j < i ==> #[trigger] chunk_indexes@[j]@ == self.chunk_indexes@[j]@,
        {
            chunk_indexes.push(self.chunk_indexes[i].clone());
        }
        let mut attachment_indexes: Vec<AttachmentIndexInfo> = Vec::new();
        let n4 = self.attachment_indexes.len();
        for i in 0..n4
            invariant
                n4 == self.attachment_indexes@.len(),
                attachment_indexes@.len() == i,
                forall|j: int|
                    0 <= j < i ==> #[trigger] attachment_indexes@[j]@
                        == self.attachment_indexes@[j]@,
        {
            attachment_indexes.push(self.attachment_indexes[i].clone());
        }
        let mut metadata_indexes: Vec<MetadataIndexInfo> = Vec::new();
        let n5 = self.metadata_indexes.len();
        for i in 0..n5
            invariant
                n5 == self.metadata_indexes@.len(),
                metadata_indexes@.len() == i,
                forall|j: int|
                    0 <= j < i ==> #[trigger] metadata_indexes@[j]@ == self.metadata_indexes@[j]@,
        {
            metadata_indexes.push(self.metadata_indexes[i].clone());
        }
        let r = LogSummary {
            channels,
            schemas,
            chunk_indexes,
            stats: self.stats,
            attachment_indexes,
            metadata_indexes,
        };
        proof {
            assert(r@.channels =~= self@.channels);
            assert(r@.schemas =~= self@.schemas);
            assert(r@.chunk_indexes =~= self@.chunk_indexes);
            assert(r@.attachment_indexes =~= self@.attachment_indexes);
            assert(r@.metadata_indexes =~= self@.metadata_indexes);
        }
        r
    }
}

impl View for LogSummary {
    type V = LogSummaryV;

    open spec fn view(&self) -> LogSummaryV {
        LogSummaryV {
            channels: views_of(self.channels@),
            schemas: views_of(self.schemas@),
            chunk_indexes: views_of(self.chunk_indexes@),
            stats: self.stats,
            attachment_indexes: views_of(self.attachment_indexes@),
            metadata_indexes: views_of(self.metadata_indexes@),
        }
    }
}

} // verus!
