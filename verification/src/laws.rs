//! The library's laws: what the merge iterator, the query engine and the
//! replay scheduler guarantee on well-formed logs.
//!
//! The chunk-index format leaves well-formedness - chunks that decode, stay
//! within their declared time ranges and do not overlap - to the writer, so
//! each law states its assumptions explicitly and the reader tolerates
//! their violation at run time.  On logs satisfying them, the laws below
//! pin the behaviour down exactly.

use vstd::prelude::*;

use crate::iterator::{first_end_geq, from_time, seek_remaining};
use crate::model::{chunk_batch, filter_channel, spec_chunk_messages, stream_from, time_sorted};
use crate::replay::{spec_scaled, spec_target, spec_tick};
use crate::sort::lemma_sort_by_time_ensures;
use crate::types::{ChunkInfoV, MessageV};

verus! {

/// Every chunk of the log decodes.
pub open spec fn chunks_decode_ok(bytes: Seq<u8>, ids: Seq<u16>, chunks: Seq<ChunkInfoV>) -> bool {
    forall|i: int|
        0 <= i < chunks.len() ==> spec_chunk_messages(bytes, ids, #[trigger] chunks[i]) is Ok
}

/// Every chunk's messages lie within the time range its index row declares.
pub open spec fn chunks_contained(bytes: Seq<u8>, ids: Seq<u16>, chunks: Seq<ChunkInfoV>) -> bool {
    forall|i: int, k: int|
        #![trigger spec_chunk_messages(bytes, ids, chunks[i]).unwrap()[k]]
        0 <= i < chunks.len() && spec_chunk_messages(bytes, ids, chunks[i]) is Ok && 0 <= k
            < spec_chunk_messages(bytes, ids, chunks[i]).unwrap().len()
            ==> chunks[i].message_start_time <= spec_chunk_messages(bytes, ids, chunks[i]).unwrap()[k].log_time
            <= chunks[i].message_end_time
}

/// Chunk time ranges are mutually non-overlapping and in log order.
pub open spec fn chunks_ordered(chunks: Seq<ChunkInfoV>) -> bool {
    forall|i: int, j: int|
        0 <= i < j < chunks.len() ==> (#[trigger] chunks[i]).message_end_time <= (
        #[trigger] chunks[j]).message_start_time
}

/// Every chunk index row declares a forward time range.
pub open spec fn chunks_ranges_valid(chunks: Seq<ChunkInfoV>) -> bool {
    forall|i: int|
        0 <= i < chunks.len() ==> (#[trigger] chunks[i]).message_start_time <= chunks[i].message_end_time
}

/// All four well-formedness conditions together.
pub open spec fn log_wf(bytes: Seq<u8>, ids: Seq<u16>, chunks: Seq<ChunkInfoV>) -> bool {
    chunks_decode_ok(bytes, ids, chunks) && chunks_contained(bytes, ids, chunks) && chunks_ordered(chunks)
        && chunks_ranges_valid(chunks)
}

/// Every message of the log, in chunk order and storage order: the
/// concatenation of the chunks' decoded messages.
pub open spec fn all_decoded(bytes: Seq<u8>, ids: Seq<u16>, chunks: Seq<ChunkInfoV>) -> Seq<MessageV>
    decreases chunks.len(),
{
    if chunks.len() == 0 {
        Seq::empty()
    } else {
        (match spec_chunk_messages(bytes, ids, chunks[0]) {
            Ok(m) => m,
            Err(_) => Seq::empty(),
        }) + all_decoded(bytes, ids, chunks.skip(1))
    }
}

/// An element of a filtered sequence is an element of the sequence.
pub proof fn lemma_filter_elem<A>(s: Seq<A>, pred: spec_fn(A) -> bool, x: A)
    requires
        s.filter(pred).contains(x),
    ensures
        s.contains(x),
        pred(x),
    decreases s.len(),
{
    reveal(Seq::filter);
    if s.len() > 0 {
        if pred(s.last()) && s.filter(pred).last() == x {
            assert(s[s.len() - 1] == x);
        } else {
            lemma_filter_elem(s.drop_last(), pred, x);
            let j = choose|j: int| 0 <= j < s.drop_last().len() && s.drop_last()[j] == x;
            assert(s[j] == x);
        }
    }
}

/// An element of a chunk's sorted, filtered batch is one of its decoded
/// messages.
pub proof fn lemma_batch_elem(bytes: Seq<u8>, ids: Seq<u16>, c: ChunkInfoV, fc: Option<u16>, k: int)
    requires
        0 <= k < chunk_batch(bytes, ids, c, fc).len(),
        spec_chunk_messages(bytes, ids, c) is Ok,
    ensures
        spec_chunk_messages(bytes, ids, c).unwrap().contains(chunk_batch(bytes, ids, c, fc)[k]),
    decreases c,
{
    broadcast use vstd::seq_lib::group_to_multiset_ensures;

    let msgs = spec_chunk_messages(bytes, ids, c).unwrap();
    let f = filter_channel(msgs, fc);
    lemma_sort_by_time_ensures(f);
    let b = chunk_batch(bytes, ids, c, fc);
    assert(b.to_multiset().count(b[k]) > 0);
    assert(f.contains(b[k]));
    lemma_filter_elem(msgs, |m: MessageV| crate::model::spec_channel_passes(fc, m.channel_id), b[k]);
}

/// On a well-formed suffix whose chunks all start at or after `lo`, every
/// streamed message has log time at least `lo`.
pub proof fn lemma_stream_lower(
    bytes: Seq<u8>,
    ids: Seq<u16>,
    chunks: Seq<ChunkInfoV>,
    fc: Option<u16>,
    lo: u64,
    k: int,
)
    requires
        chunks_decode_ok(bytes, ids, chunks),
        chunks_contained(bytes, ids, chunks),
        forall|i: int| 0 <= i < chunks.len() ==> (#[trigger] chunks[i]).message_start_time >= lo,
        0 <= k < stream_from(bytes, ids, chunks, fc).len(),
    ensures
        stream_from(bytes, ids, chunks, fc)[k].log_time >= lo,
    decreases chunks.len(),
{
    if chunks.len() > 0 {
        let b = chunk_batch(bytes, ids, chunks[0], fc);
        if k < b.len() {
            lemma_batch_elem(bytes, ids, chunks[0], fc, k);
            let msgs = spec_chunk_messages(bytes, ids, chunks[0]).unwrap();
            let j = choose|j: int| 0 <= j < msgs.len() && msgs[j] == b[k];
            assert(chunks[0].message_start_time <= msgs[j].log_time);
        } else {
            assert forall|i: int| 0 <= i < chunks.skip(1).len() implies chunks.skip(1)[i]
                == chunks[i + 1] by {}
            lemma_stream_lower(bytes, ids, chunks.skip(1), fc, lo, k - b.len());
        }
    }
}

/// On a well-formed suffix, every streamed message has log time at most the
/// end of any range bounding all the chunks.
pub proof fn lemma_stream_upper(
    bytes: Seq<u8>,
    ids: Seq<u16>,
    chunks: Seq<ChunkInfoV>,
    fc: Option<u16>,
    hi: u64,
    k: int,
)
    requires
        chunks_decode_ok(bytes, ids, chunks),
        chunks_contained(bytes, ids, chunks),
        forall|i: int| 0 <= i < chunks.len() ==> (#[trigger] chunks[i]).message_end_time <= hi,
        0 <= k < stream_from(bytes, ids, chunks, fc).len(),
    ensures
        stream_from(bytes, ids, chunks, fc)[k].log_time <= hi,
    decreases chunks.len(),
{
    if chunks.len() > 0 {
        let b = chunk_batch(bytes, ids, chunks[0], fc);
        if k < b.len() {
            lemma_batch_elem(bytes, ids, chunks[0], fc, k);
            let msgs = spec_chunk_messages(bytes, ids, chunks[0]).unwrap();
            let j = choose|j: int| 0 <= j < msgs.len() && msgs[j] == b[k];
            assert(msgs[j].log_time <= chunks[0].message_end_time);
        } else {
            assert forall|i: int| 0 <= i < chunks.skip(1).len() implies chunks.skip(1)[i]
                == chunks[i + 1] by {}
            lemma_stream_upper(bytes, ids, chunks.skip(1), fc, hi, k - b.len());
        }
    }
}

/// The merge iterator's law: on a log whose chunks decode, stay within
/// their declared ranges and do not overlap, the full stream yields every
/// message of the log exactly once - its multiset equals the log's - in
/// non-decreasing log-time order.
pub proof fn lemma_merge_iterator_order(bytes: Seq<u8>, ids: Seq<u16>, chunks: Seq<ChunkInfoV>)
    requires
        log_wf(bytes, ids, chunks),
    ensures
        time_sorted(stream_from(bytes, ids, chunks, None)),
        stream_from(bytes, ids, chunks, None).to_multiset() == all_decoded(bytes, ids, chunks).to_multiset(),
    decreases chunks.len(),
{
    broadcast use vstd::seq_lib::group_to_multiset_ensures;

    if chunks.len() == 0 {
    } else {
        let b = chunk_batch(bytes, ids, chunks[0], None);
        let rest = stream_from(bytes, ids, chunks.skip(1), None);
        let msgs = spec_chunk_messages(bytes, ids, chunks[0]).unwrap();
        let f = filter_channel(msgs, None);
        crate::indexes::lemma_filter_all(
            msgs,
            |m: MessageV| crate::model::spec_channel_passes(None, m.channel_id),
        );
        lemma_sort_by_time_ensures(f);
        assert forall|i: int| 0 <= i < chunks.skip(1).len() implies chunks.skip(1)[i] == chunks[i
            + 1] by {}
        lemma_merge_iterator_order(bytes, ids, chunks.skip(1));
        // multiset: concat distributes
        vstd::seq_lib::lemma_multiset_commutative(b, rest);
        vstd::seq_lib::lemma_multiset_commutative(msgs, all_decoded(bytes, ids, chunks.skip(1)));
        assert(stream_from(bytes, ids, chunks, None).to_multiset() =~= all_decoded(
            bytes, ids,
            chunks).to_multiset());
        // order: batch is sorted, rest is sorted, and the batch ends at or
        // before the next chunks begin
        let s = stream_from(bytes, ids, chunks, None);
        assert forall|i: int, j: int| 0 <= i <= j < s.len() implies s[i].log_time
            <= s[j].log_time by {
            if j < b.len() {
            } else if i >= b.len() {
                assert(rest[i - b.len()].log_time <= rest[j - b.len()].log_time);
            } else {
                lemma_batch_elem(bytes, ids, chunks[0], None, i);
                let bi = choose|bi: int| 0 <= bi < msgs.len() && msgs[bi] == b[i];
                assert(b[i].log_time <= chunks[0].message_end_time);
                assert forall|q: int|
                    0 <= q < chunks.skip(1).len() implies (#[trigger] chunks.skip(
                    1,
                )[q]).message_start_time >= chunks[0].message_end_time by {
                    assert(chunks.skip(1)[q] == chunks[q + 1]);
                }
                lemma_stream_lower(
                    bytes,
                    ids,
                    chunks.skip(1),
                    None,
                    chunks[0].message_end_time,
                    j - b.len(),
                );
            }
        }
    }
}

/// Chunks that end before `t` contribute nothing at or after `t`.
pub proof fn lemma_stream_all_before(
    bytes: Seq<u8>,
    ids: Seq<u16>,
    chunks: Seq<ChunkInfoV>,
    fc: Option<u16>,
    t: u64,
)
    requires
        chunks_decode_ok(bytes, ids, chunks),
        chunks_contained(bytes, ids, chunks),
        forall|i: int| 0 <= i < chunks.len() ==> (#[trigger] chunks[i]).message_end_time < t,
    ensures
        from_time(stream_from(bytes, ids, chunks, fc), t) == Seq::<MessageV>::empty(),
{
    let s = stream_from(bytes, ids, chunks, fc);
    assert forall|k: int| 0 <= k < s.len() implies !(s[k].log_time >= t) by {
        if t > 0 {
            lemma_stream_upper(bytes, ids, chunks, fc, (t - 1) as u64, k);
        }
    }
    crate::indexes::lemma_filter_none(s, |m: MessageV| m.log_time >= t);
}

/// `from_time` distributes over concatenation.
pub proof fn lemma_from_time_add(a: Seq<MessageV>, b: Seq<MessageV>, t: u64)
    ensures
        from_time(a + b, t) == from_time(a, t) + from_time(b, t),
{
    Seq::filter_distributes_over_add(a, b, |m: MessageV| m.log_time >= t);
}

/// The seek law: on a well-formed log, seeking to `t` and draining yields
/// exactly the subsequence of the stream with log time at least `t`.
pub proof fn lemma_seek_drains_suffix(
    bytes: Seq<u8>,
    ids: Seq<u16>,
    chunks: Seq<ChunkInfoV>,
    fc: Option<u16>,
    t: u64,
)
    requires
        chunks_decode_ok(bytes, ids, chunks),
        chunks_contained(bytes, ids, chunks),
        chunks_ordered(chunks),
        chunks_ranges_valid(chunks),
    ensures
        match first_end_geq(chunks, t, 0) {
            Some(ci) => seek_remaining(bytes, ids, chunks.skip(ci), fc, t) == from_time(
                stream_from(bytes, ids, chunks, fc),
                t,
            ),
            None => from_time(stream_from(bytes, ids, chunks, fc), t) == Seq::<MessageV>::empty(),
        },
{
    match first_end_geq(chunks, t, 0) {
        None => {
            lemma_first_end_geq_none(chunks, t, 0);
            lemma_stream_all_before(bytes, ids, chunks, fc, t);
        },
        Some(ci) => {
            lemma_first_end_geq_some(chunks, t, 0, ci);
            // the prefix before ci contributes nothing at or after t
            lemma_seek_prefix_empty(bytes, ids, chunks, fc, t, ci);
            lemma_seek_tail(bytes, ids, chunks, fc, t, ci);
            lemma_from_time_split(bytes, ids, chunks, fc, t, ci);
        },
    }
}

/// When `first_end_geq` finds nothing, every chunk ends before `t`.
pub proof fn lemma_first_end_geq_none(chunks: Seq<ChunkInfoV>, t: u64, i: int)
    requires
        0 <= i <= chunks.len(),
        first_end_geq(chunks, t, i) is None,
    ensures
        forall|k: int| i <= k < chunks.len() ==> (#[trigger] chunks[k]).message_end_time < t,
    decreases chunks.len() - i,
{
    if i < chunks.len() {
        lemma_first_end_geq_none(chunks, t, i + 1);
    }
}

/// `first_end_geq` finds the first chunk whose end reaches `t`.
pub proof fn lemma_first_end_geq_some(chunks: Seq<ChunkInfoV>, t: u64, i: int, ci: int)
    requires
        0 <= i <= chunks.len(),
        first_end_geq(chunks, t, i) == Some(ci),
    ensures
        i <= ci < chunks.len(),
        chunks[ci].message_end_time >= t,
        forall|k: int| i <= k < ci ==> (#[trigger] chunks[k]).message_end_time < t,
    decreases chunks.len() - i,
{
    if i < chunks.len() && chunks[i].message_end_time < t {
        lemma_first_end_geq_some(chunks, t, i + 1, ci);
    }
}

/// The stream of the chunks before the first chunk reaching `t` holds
/// nothing at or after `t`.
proof fn lemma_seek_prefix_empty(
    bytes: Seq<u8>,
    ids: Seq<u16>,
    chunks: Seq<ChunkInfoV>,
    fc: Option<u16>,
    t: u64,
    ci: int,
)
    requires
        chunks_decode_ok(bytes, ids, chunks),
        chunks_contained(bytes, ids, chunks),
        0 <= ci <= chunks.len(),
        forall|k: int| 0 <= k < ci ==> (#[trigger] chunks[k]).message_end_time < t,
    ensures
        from_time(stream_from(bytes, ids, chunks.take(ci), fc), t) == Seq::<MessageV>::empty(),
{
    assert forall|k: int|
        0 <= k < chunks.take(ci).len() implies (#[trigger] chunks.take(
        ci,
    )[k]).message_end_time < t by {
        assert(chunks.take(ci)[k] == chunks[k]);
    }
    assert forall|i: int|
        0 <= i < chunks.take(ci).len() implies spec_chunk_messages(
        bytes, ids,
        #[trigger] chunks.take(ci)[i]) is Ok by {
        assert(chunks.take(ci)[i] == chunks[i]);
    }
    assert forall|i: int, k: int|
        #![trigger spec_chunk_messages(bytes, ids, chunks.take(ci)[i]).unwrap()[k]]
        0 <= i < chunks.take(ci).len() && spec_chunk_messages(bytes, ids, chunks.take(ci)[i]) is Ok && 0
            <= k < spec_chunk_messages(bytes, ids, chunks.take(ci)[i]).unwrap().len() implies chunks.take(
        ci,
    )[i].message_start_time <= spec_chunk_messages(bytes, ids, chunks.take(ci)[i]).unwrap()[k].log_time
        <= chunks.take(ci)[i].message_end_time by {
        assert(chunks.take(ci)[i] == chunks[i]);
    }
    lemma_stream_all_before(bytes, ids, chunks.take(ci), fc, t);
}

/// The stream splits at any chunk position.
pub proof fn lemma_stream_split(bytes: Seq<u8>, ids: Seq<u16>, chunks: Seq<ChunkInfoV>, fc: Option<u16>, ci: int)
    requires
        0 <= ci <= chunks.len(),
    ensures
        stream_from(bytes, ids, chunks, fc) == stream_from(bytes, ids, chunks.take(ci), fc) + stream_from(
            bytes,
            ids,
            chunks.skip(ci),
            fc,
        ),
    decreases ci,
{
    if ci == 0 {
        assert(chunks.take(0) =~= Seq::<ChunkInfoV>::empty());
        assert(chunks.skip(0) =~= chunks);
        assert(stream_from(bytes, ids, chunks.take(0), fc) + stream_from(bytes, ids, chunks, fc)
            =~= stream_from(bytes, ids, chunks, fc));
    } else {
        assert(chunks.len() > 0);
        lemma_stream_split(bytes, ids, chunks.skip(1), fc, ci - 1);
        assert(chunks.take(ci)[0] == chunks[0]);
        assert(chunks.take(ci).skip(1) =~= chunks.skip(1).take(ci - 1));
        assert(chunks.skip(1).skip(ci - 1) =~= chunks.skip(ci));
        assert(stream_from(bytes, ids, chunks, fc) == chunk_batch(bytes, ids, chunks[0], fc) + stream_from(
            bytes,
            ids,
            chunks.skip(1),
            fc,
        ));
        assert(stream_from(bytes, ids, chunks.take(ci), fc) == chunk_batch(bytes, ids, chunks[0], fc)
            + stream_from(bytes, ids, chunks.take(ci).skip(1), fc));
        assert(chunk_batch(bytes, ids, chunks[0], fc) + (stream_from(
            bytes,
            ids,
            chunks.skip(1).take(ci - 1),
            fc,
        ) + stream_from(bytes, ids, chunks.skip(ci), fc)) =~= (chunk_batch(bytes, ids, chunks[0], fc)
            + stream_from(bytes, ids, chunks.skip(1).take(ci - 1), fc)) + stream_from(
            bytes,
            ids,
            chunks.skip(ci),
            fc,
        ));
    }
}

/// Splitting the filtered stream at the first chunk reaching `t`.
proof fn lemma_from_time_split(
    bytes: Seq<u8>,
    ids: Seq<u16>,
    chunks: Seq<ChunkInfoV>,
    fc: Option<u16>,
    t: u64,
    ci: int,
)
    requires
        chunks_decode_ok(bytes, ids, chunks),
        chunks_contained(bytes, ids, chunks),
        0 <= ci <= chunks.len(),
        forall|k: int| 0 <= k < ci ==> (#[trigger] chunks[k]).message_end_time < t,
        seek_remaining(bytes, ids, chunks.skip(ci), fc, t) == from_time(
            stream_from(bytes, ids, chunks.skip(ci), fc),
            t,
        ),
    ensures
        seek_remaining(bytes, ids, chunks.skip(ci), fc, t) == from_time(
            stream_from(bytes, ids, chunks, fc),
            t,
        ),
{
    lemma_stream_split(bytes, ids, chunks, fc, ci);
    lemma_from_time_add(
        stream_from(bytes, ids, chunks.take(ci), fc),
        stream_from(bytes, ids, chunks.skip(ci), fc),
        t,
    );
    lemma_seek_prefix_empty(bytes, ids, chunks, fc, t, ci);
    assert(from_time(stream_from(bytes, ids, chunks, fc), t) =~= from_time(
        stream_from(bytes, ids, chunks.skip(ci), fc),
        t,
    ));
}

/// On a well-formed suffix, the post-seek stream from the suffix's start is
/// the suffix's stream filtered to log times at or after `t`.
proof fn lemma_seek_tail(bytes: Seq<u8>, ids: Seq<u16>, chunks: Seq<ChunkInfoV>, fc: Option<u16>, t: u64, ci: int)
    requires
        chunks_decode_ok(bytes, ids, chunks),
        chunks_contained(bytes, ids, chunks),
        chunks_ordered(chunks),
        chunks_ranges_valid(chunks),
        0 <= ci < chunks.len(),
        chunks[ci].message_end_time >= t,
    ensures
        seek_remaining(bytes, ids, chunks.skip(ci), fc, t) == from_time(
            stream_from(bytes, ids, chunks.skip(ci), fc),
            t,
        ),
    decreases chunks.len() - ci,
{
    let tail = chunks.skip(ci);
    let b = chunk_batch(bytes, ids, chunks[ci], fc);
    assert(tail[0] == chunks[ci]);
    assert(tail.skip(1) =~= chunks.skip(ci + 1));
    if b.len() == 0 {
        // the first batch is empty: both sides reduce to the next chunk
        assert(stream_from(bytes, ids, tail, fc) == b + stream_from(bytes, ids, chunks.skip(ci + 1), fc));
        assert(stream_from(bytes, ids, tail, fc) =~= stream_from(bytes, ids, chunks.skip(ci + 1), fc));
        if ci + 1 < chunks.len() {
            assert(chunks[ci].message_end_time <= chunks[ci + 1].message_start_time <= chunks[ci
                + 1].message_end_time);
            lemma_seek_tail(bytes, ids, chunks, fc, t, ci + 1);
            assert(seek_remaining(bytes, ids, tail, fc, t) == seek_remaining(
                bytes,
                ids,
                chunks.skip(ci + 1),
                fc,
                t,
            ));
            assert(from_time(stream_from(bytes, ids, tail, fc), t) == from_time(
                stream_from(bytes, ids, chunks.skip(ci + 1), fc),
                t,
            ));
        } else {
            assert(chunks.skip(ci + 1) =~= Seq::<ChunkInfoV>::empty());
            assert(tail.skip(1) =~= Seq::<ChunkInfoV>::empty());
            assert(seek_remaining(bytes, ids, Seq::<ChunkInfoV>::empty(), fc, t) == Seq::<
                MessageV,
            >::empty());
            assert(seek_remaining(bytes, ids, tail, fc, t) == Seq::<MessageV>::empty());
            assert(stream_from(bytes, ids, tail, fc) == Seq::<MessageV>::empty());
            crate::indexes::lemma_filter_none(
                stream_from(bytes, ids, tail, fc),
                |m: MessageV| m.log_time >= t,
            );
        }
    } else {
        let rest = stream_from(bytes, ids, chunks.skip(ci + 1), fc);
        lemma_from_time_add(b, rest, t);
        // everything after chunk ci is at or after t or the whole tail is
        assert forall|q: int|
            0 <= q < chunks.skip(ci + 1).len() implies (#[trigger] chunks.skip(
            ci + 1,
        )[q]).message_start_time >= t by {
            assert(chunks.skip(ci + 1)[q] == chunks[ci + 1 + q]);
            assert(chunks[ci].message_end_time <= chunks[ci + 1 + q].message_start_time);
        }
        assert forall|q: int|
            0 <= q < chunks.skip(ci + 1).len() implies spec_chunk_messages(
            bytes, ids,
            #[trigger] chunks.skip(ci + 1)[q]) is Ok by {
            assert(chunks.skip(ci + 1)[q] == chunks[ci + 1 + q]);
        }
        assert forall|q: int, k: int|
            #![trigger spec_chunk_messages(bytes, ids, chunks.skip(ci + 1)[q]).unwrap()[k]]
            0 <= q < chunks.skip(ci + 1).len() && spec_chunk_messages(
                bytes,
                ids,
                chunks.skip(ci + 1)[q],
            ) is Ok && 0 <= k < spec_chunk_messages(
                bytes,
                ids,
                chunks.skip(ci + 1)[q],
            ).unwrap().len() implies chunks.skip(ci + 1)[q].message_start_time
            <= spec_chunk_messages(bytes, ids, chunks.skip(ci + 1)[q]).unwrap()[k].log_time
            <= chunks.skip(ci + 1)[q].message_end_time by {
            assert(chunks.skip(ci + 1)[q] == chunks[ci + 1 + q]);
        }
        assert forall|k: int| 0 <= k < rest.len() implies (#[trigger] rest[k]).log_time >= t by {
            if t > 0 {
                lemma_stream_lower(bytes, ids, chunks.skip(ci + 1), fc, t, k);
            }
        }
        crate::indexes::lemma_filter_all(rest, |m: MessageV| m.log_time >= t);
        let d = from_time(b, t);
        if d.len() > 0 {
            assert(seek_remaining(bytes, ids, tail, fc, t) == d + rest);
            assert(from_time(stream_from(bytes, ids, tail, fc), t) =~= d + rest);
        } else {
            assert(seek_remaining(bytes, ids, tail, fc, t) == rest);
            assert(from_time(stream_from(bytes, ids, tail, fc), t) =~= rest);
        }
    }
}

/// The `(channel id, log time)` pairs of an index table, flattened in table
/// order.
pub open spec fn entry_pairs(tab: Seq<(u16, Seq<crate::types::IndexEntry>)>) -> Seq<(u16, u64)>
    decreases tab.len(),
{
    if tab.len() == 0 {
        Seq::empty()
    } else {
        tab[0].1.map_values(|e: crate::types::IndexEntry| (tab[0].0, e.log_time)) + entry_pairs(
            tab.skip(1),
        )
    }
}

/// The `(channel id, log time)` pairs of a message sequence.
pub open spec fn msg_pairs(msgs: Seq<MessageV>) -> Seq<(u16, u64)> {
    msgs.map_values(|m: MessageV| (m.channel_id, m.log_time))
}

/// Mapping commutes with filtering through any pointwise-composed
/// predicate.
proof fn lemma_map_filter_len<A, B>(
    s: Seq<A>,
    f: spec_fn(A) -> B,
    q: spec_fn(B) -> bool,
    qc: spec_fn(A) -> bool,
)
    requires
        forall|x: A| #[trigger] qc(x) == q(f(x)),
    ensures
        s.map_values(f).filter(q).len() == s.filter(qc).len(),
    decreases s.len(),
{
    reveal(Seq::filter);
    if s.len() > 0 {
        lemma_map_filter_len(s.drop_last(), f, q, qc);
        assert(s.map_values(f).drop_last() =~= s.drop_last().map_values(f));
        assert(s.map_values(f).last() == f(s.last()));
        assert(qc(s.last()) == q(f(s.last())));
    }
}

/// A filter's length splits around any removed position.
proof fn lemma_filter_len_remove<A>(s: Seq<A>, q: spec_fn(A) -> bool, k: int)
    requires
        0 <= k < s.len(),
    ensures
        s.filter(q).len() == s.remove(k).filter(q).len() + (if q(s[k]) {
            1int
        } else {
            0int
        }),
{
    let one = seq![s[k]];
    assert(s =~= s.take(k) + one + s.skip(k + 1));
    assert(s.remove(k) =~= s.take(k) + s.skip(k + 1));
    Seq::filter_distributes_over_add(s.take(k) + one, s.skip(k + 1), q);
    Seq::filter_distributes_over_add(s.take(k), one, q);
    Seq::filter_distributes_over_add(s.take(k), s.skip(k + 1), q);
    if q(s[k]) {
        assert(one[0] == s[k]);
        crate::indexes::lemma_filter_all(one, q);
    } else {
        assert(one[0] == s[k]);
        crate::indexes::lemma_filter_none(one, q);
    }
}

/// Sequences with equal multisets have equally long filters.
proof fn lemma_filter_len_multiset<A>(a: Seq<A>, b: Seq<A>, q: spec_fn(A) -> bool)
    requires
        a.to_multiset() == b.to_multiset(),
    ensures
        a.filter(q).len() == b.filter(q).len(),
    decreases a.len(),
{
    broadcast use vstd::seq_lib::group_to_multiset_ensures;

    reveal(Seq::filter);
    if a.len() == 0 {
        assert(a.to_multiset().len() == 0);
        assert(b.to_multiset().len() == b.len());
        assert(b.len() == 0);
    } else {
        let x = a.last();
        assert(a.to_multiset().count(x) > 0) by {
            assert(a.contains(x));
        }
        assert(b.contains(x));
        let k = choose|k: int| 0 <= k < b.len() && b[k] == x;
        assert(a.drop_last() =~= a.remove(a.len() - 1));
        assert(a.remove(a.len() - 1).to_multiset() =~= a.to_multiset().remove(x));
        assert(b.remove(k).to_multiset() =~= b.to_multiset().remove(x));
        lemma_filter_len_multiset(a.drop_last(), b.remove(k), q);
        lemma_filter_len_remove(b, q, k);
    }
}

/// Whether a `(channel id, log time)` pair lies in the inclusive range.
pub open spec fn pair_in_range(s: u64, e: u64) -> spec_fn((u16, u64)) -> bool {
    |p: (u16, u64)| s <= p.1 <= e
}

/// An unfiltered table count is the in-range length of its flattened pairs.
proof fn lemma_count_table_pairs(
    tab: Seq<(u16, Seq<crate::types::IndexEntry>)>,
    s: u64,
    e: u64,
)
    ensures
        crate::model::count_in_table(tab, None, s, e) == entry_pairs(tab).filter(
            pair_in_range(s, e),
        ).len(),
    decreases tab.len(),
{
    reveal(Seq::filter);
    let pir = pair_in_range(s, e);
    if tab.len() == 0 {
        assert(entry_pairs(tab).filter(pir) =~= Seq::<(u16, u64)>::empty());
    } else {
        lemma_count_table_pairs(tab.skip(1), s, e);
        let head = tab[0].1.map_values(|x: crate::types::IndexEntry| (tab[0].0, x.log_time));
        Seq::filter_distributes_over_add(head, entry_pairs(tab.skip(1)), pir);
        assert(entry_pairs(tab).filter(pir).len() == head.filter(pir).len() + entry_pairs(
            tab.skip(1),
        ).filter(pir).len());
        lemma_map_filter_len(
            tab[0].1,
            |x: crate::types::IndexEntry| (tab[0].0, x.log_time),
            pir,
            |x: crate::types::IndexEntry| s <= x.log_time <= e,
        );
        assert(head.filter(pir).len() == crate::model::count_in_entries(tab[0].1, s, e));
        assert(crate::model::count_in_table(tab, None, s, e) == crate::model::count_in_entries(
            tab[0].1,
            s,
            e,
        ) + crate::model::count_in_table(tab.skip(1), None, s, e));
    }
}

/// A time-range query's length is the in-range length of the messages'
/// pairs.
proof fn lemma_query_pairs(msgs: Seq<MessageV>, s: u64, e: u64)
    ensures
        crate::model::spec_filter(
            msgs,
            crate::model::MsgFilterV { time_start: Some(s), time_end: Some(e), channels: None },
        ).len() == msg_pairs(msgs).filter(pair_in_range(s, e)).len(),
{
    let f = crate::model::MsgFilterV { time_start: Some(s), time_end: Some(e), channels: None };
    let pir = pair_in_range(s, e);
    lemma_map_filter_len(
        msgs,
        |m: MessageV| (m.channel_id, m.log_time),
        pir,
        |m: MessageV| crate::model::spec_matches(f, m),
    );
}

/// Predicates that agree pointwise filter identically.
proof fn lemma_filter_same_pred<A>(s: Seq<A>, p: spec_fn(A) -> bool, q: spec_fn(A) -> bool)
    requires
        forall|x: A| #[trigger] p(x) == #[trigger] q(x),
    ensures
        s.filter(p) == s.filter(q),
    decreases s.len(),
{
    reveal(Seq::filter);
    if s.len() > 0 {
        lemma_filter_same_pred(s.drop_last(), p, q);
    }
}

/// The index of a chunk agrees with its content: the multiset of
/// `(channel id, log time)` pairs in the chunk's message indexes equals the
/// multiset of pairs of its decoded messages.
pub open spec fn index_consistent(
    bytes: Seq<u8>,
    ids: Seq<u16>,
    chunks: Seq<ChunkInfoV>,
    cs: Seq<crate::types::ChannelInfoV>,
) -> bool {
    forall|i: int|
        0 <= i < chunks.len() ==> {
            &&& spec_chunk_messages(bytes, ids, #[trigger] chunks[i]) is Ok
            &&& crate::model::spec_chunk_index_table(bytes, chunks[i], cs) is Ok
            &&& entry_pairs(
                crate::model::spec_chunk_index_table(bytes, chunks[i], cs).unwrap(),
            ).to_multiset() == msg_pairs(
                spec_chunk_messages(bytes, ids, chunks[i]).unwrap(),
            ).to_multiset()
        }
}

/// The counting law: on a log whose message indexes agree with its chunk
/// contents, the fast count over a valid time range equals the length of
/// the range query's result, and neither walk fails.
pub proof fn lemma_count_matches_query(
    bytes: Seq<u8>,
    ids: Seq<u16>,
    chunks: Seq<ChunkInfoV>,
    cs: Seq<crate::types::ChannelInfoV>,
    s: u64,
    e: u64,
)
    requires
        index_consistent(bytes, ids, chunks, cs),
    ensures
        ({
            let f = crate::model::MsgFilterV {
                time_start: Some(s),
                time_end: Some(e),
                channels: None,
            };
            let c = crate::model::count_from(bytes, chunks, cs, None, s, e);
            let q = crate::model::query_from(bytes, ids, chunks, f);
            c.0 == q.0.len() && !c.1 && !q.1
        }),
    decreases chunks.len(),
{
    let f = crate::model::MsgFilterV { time_start: Some(s), time_end: Some(e), channels: None };
    if chunks.len() > 0 {
        assert forall|i: int| 0 <= i < chunks.skip(1).len() implies chunks.skip(1)[i] == chunks[i
            + 1] by {}
        lemma_count_matches_query(bytes, ids, chunks.skip(1), cs, s, e);
        let skip_chunk = chunks[0].message_start_time > e || chunks[0].message_end_time < s;
        assert(skip_chunk == !crate::model::spec_chunk_might_match(f, chunks[0]));
        if !skip_chunk {
            let tab = crate::model::spec_chunk_index_table(bytes, chunks[0], cs).unwrap();
            let msgs = spec_chunk_messages(bytes, ids, chunks[0]).unwrap();
            lemma_count_table_pairs(tab, s, e);
            lemma_filter_len_multiset(entry_pairs(tab), msg_pairs(msgs), pair_in_range(s, e));
            lemma_query_pairs(msgs, s, e);
        }
    }
}

/// Every chunk's index table reads successfully and keys each channel at
/// most once.
pub open spec fn tables_keyed(
    bytes: Seq<u8>,
    chunks: Seq<ChunkInfoV>,
    cs: Seq<crate::types::ChannelInfoV>,
) -> bool {
    &&& forall|i: int|
        0 <= i < chunks.len() ==> crate::model::spec_chunk_index_table(
            bytes,
            #[trigger] chunks[i],
            cs,
        ) is Ok
    &&& forall|i: int, p: int, q: int|
        #![trigger chunks[i], spec_table(bytes, chunks, cs, i)[p], spec_table(bytes, chunks, cs, i)[q]]
        0 <= i < chunks.len() && 0 <= p < q < spec_table(bytes, chunks, cs, i).len() ==> spec_table(
            bytes,
            chunks,
            cs,
            i,
        )[p].0 != spec_table(bytes, chunks, cs, i)[q].0
}

/// The index table of chunk `i` (meaningful when the read succeeds).
pub open spec fn spec_table(
    bytes: Seq<u8>,
    chunks: Seq<ChunkInfoV>,
    cs: Seq<crate::types::ChannelInfoV>,
    i: int,
) -> Seq<(u16, Seq<crate::types::IndexEntry>)> {
    crate::model::spec_chunk_index_table(bytes, chunks[i], cs).unwrap()
}

/// Every index entry's offset decodes to the message it describes: a
/// message on the entry's channel with the entry's log time.
pub open spec fn entries_decode(
    bytes: Seq<u8>,
    chunks: Seq<ChunkInfoV>,
    cs: Seq<crate::types::ChannelInfoV>,
) -> bool {
    forall|i: int, p: int, k: int|
        #![trigger spec_table(bytes, chunks, cs, i)[p].1[k]]
        0 <= i < chunks.len() && 0 <= p < spec_table(bytes, chunks, cs, i).len() && 0 <= k
            < spec_table(bytes, chunks, cs, i)[p].1.len() ==> (crate::model::spec_seek_message(
            bytes, crate::model::ids_of(cs),
            chunks[i],
            spec_table(bytes, chunks, cs, i)[p].1[k].offset) matches Ok(m) && m.channel_id == spec_table(bytes, chunks, cs, i)[p].0 && m.log_time
            == spec_table(bytes, chunks, cs, i)[p].1[k].log_time)
}

/// Whether some chunk at or after `i` contains `t` in its declared range
/// and indexes a message on channel `ch` at exactly `t`.
pub open spec fn indexed_at(
    bytes: Seq<u8>,
    chunks: Seq<ChunkInfoV>,
    cs: Seq<crate::types::ChannelInfoV>,
    ch: u16,
    t: u64,
    i: int,
) -> bool {
    exists|j: int, p: int, k: int|
        #![trigger spec_table(bytes, chunks, cs, j)[p].1[k]]
        i <= j < chunks.len() && chunks[j].message_start_time <= t <= chunks[j].message_end_time
            && 0 <= p < spec_table(bytes, chunks, cs, j).len() && spec_table(
            bytes,
            chunks,
            cs,
            j,
        )[p].0 == ch && 0 <= k < spec_table(bytes, chunks, cs, j)[p].1.len() && spec_table(
            bytes,
            chunks,
            cs,
            j,
        )[p].1[k].log_time == t
}

/// A found pair is a pair of the table on the sought channel, and a missing
/// one means no pair carries it.
proof fn lemma_find_pair_char(tab: Seq<(u16, Seq<crate::types::IndexEntry>)>, ch: u16)
    ensures
        match crate::iterator::find_pair(tab, ch) {
            Some(es) => exists|p: int|
                0 <= p < tab.len() && (#[trigger] tab[p]).0 == ch && tab[p].1 == es,
            None => forall|p: int| 0 <= p < tab.len() ==> (#[trigger] tab[p]).0 != ch,
        },
    decreases tab.len(),
{
    if tab.len() > 0 && tab[0].0 != ch {
        lemma_find_pair_char(tab.skip(1), ch);
        match crate::iterator::find_pair(tab, ch) {
            Some(es) => {
                let p = choose|p: int|
                    0 <= p < tab.skip(1).len() && (#[trigger] tab.skip(1)[p]).0 == ch && tab.skip(
                        1,
                    )[p].1 == es;
                assert(tab[p + 1].0 == ch && tab[p + 1].1 == es);
            },
            None => {
                assert forall|p: int| 0 <= p < tab.len() implies (#[trigger] tab[p]).0 != ch by {
                    if p > 0 {
                        assert(tab.skip(1)[p - 1] == tab[p]);
                    }
                }
            },
        }
    } else if tab.len() > 0 {
        assert(tab[0].0 == ch && tab[0].1 == crate::iterator::find_pair(tab, ch).unwrap());
    }
}

/// A found entry carries the sought log time, and a missing one means no
/// entry does.
proof fn lemma_first_entry_char(es: Seq<crate::types::IndexEntry>, t: u64)
    ensures
        match crate::iterator::first_entry_at(es, t) {
            Some(x) => x.log_time == t && exists|k: int| 0 <= k < es.len() && (#[trigger] es[k])
                == x,
            None => forall|k: int| 0 <= k < es.len() ==> (#[trigger] es[k]).log_time != t,
        },
    decreases es.len(),
{
    if es.len() > 0 && es[0].log_time != t {
        lemma_first_entry_char(es.skip(1), t);
        match crate::iterator::first_entry_at(es, t) {
            Some(x) => {
                let k = choose|k: int| 0 <= k < es.skip(1).len() && (#[trigger] es.skip(1)[k]) == x;
                assert(es[k + 1] == x);
            },
            None => {
                assert forall|k: int|
                    0 <= k < es.len() implies (#[trigger] es[k]).log_time != t by {
                    if k > 0 {
                        assert(es.skip(1)[k - 1] == es[k]);
                    }
                }
            },
        }
    }
}

/// The exact-lookup law: on a log whose index tables read, key each channel
/// once and describe their messages truthfully, the indexed lookup returns
/// a message exactly when the index records one on that channel at that
/// time - and the returned message carries that channel and time.
pub proof fn lemma_exact_lookup(
    bytes: Seq<u8>,
    chunks: Seq<ChunkInfoV>,
    cs: Seq<crate::types::ChannelInfoV>,
    ch: u16,
    t: u64,
    i: int,
)
    requires
        tables_keyed(bytes, chunks, cs),
        entries_decode(bytes, chunks, cs),
        0 <= i <= chunks.len(),
    ensures
        match crate::iterator::get_at_loop(bytes, chunks, cs, ch, t, i) {
            Some(m) => m.channel_id == ch && m.log_time == t && indexed_at(
                bytes,
                chunks,
                cs,
                ch,
                t,
                i,
            ),
            None => !indexed_at(bytes, chunks, cs, ch, t, i),
        },
    decreases chunks.len() - i,
{
    if i >= chunks.len() {
    } else if t < chunks[i].message_start_time || t > chunks[i].message_end_time {
        lemma_exact_lookup(bytes, chunks, cs, ch, t, i + 1);
        lemma_indexed_at_step(bytes, chunks, cs, ch, t, i);
    } else {
        let tab = spec_table(bytes, chunks, cs, i);
        lemma_find_pair_char(tab, ch);
        match crate::iterator::find_pair(tab, ch) {
            None => {
                lemma_exact_lookup(bytes, chunks, cs, ch, t, i + 1);
                lemma_indexed_at_step(bytes, chunks, cs, ch, t, i);
            },
            Some(es) => {
                let p0 = choose|p: int|
                    0 <= p < tab.len() && (#[trigger] tab[p]).0 == ch && tab[p].1 == es;
                lemma_first_entry_char(es, t);
                match crate::iterator::first_entry_at(es, t) {
                    None => {
                        lemma_exact_lookup(bytes, chunks, cs, ch, t, i + 1);
                        lemma_indexed_at_step(bytes, chunks, cs, ch, t, i);
                    },
                    Some(en) => {
                        let k0 = choose|k: int| 0 <= k < es.len() && (#[trigger] es[k]) == en;
                        assert(spec_table(bytes, chunks, cs, i)[p0].1[k0] == en);
                        assert(crate::model::spec_seek_message(bytes, crate::model::ids_of(cs), chunks[i], en.offset)
                            matches Ok(m) && m.channel_id == ch && m.log_time == t);
                        assert(indexed_at(bytes, chunks, cs, ch, t, i));
                    },
                }
            },
        }
    }
}

/// When chunk `i` cannot witness the lookup, the search space shrinks by
/// one chunk.
proof fn lemma_indexed_at_step(
    bytes: Seq<u8>,
    chunks: Seq<ChunkInfoV>,
    cs: Seq<crate::types::ChannelInfoV>,
    ch: u16,
    t: u64,
    i: int,
)
    requires
        tables_keyed(bytes, chunks, cs),
        0 <= i < chunks.len(),
        (t < chunks[i].message_start_time || t > chunks[i].message_end_time) || (
        match crate::iterator::find_pair(spec_table(bytes, chunks, cs, i), ch) {
            None => forall|p: int|
                0 <= p < spec_table(bytes, chunks, cs, i).len() ==> (#[trigger] spec_table(
                    bytes,
                    chunks,
                    cs,
                    i,
                )[p]).0 != ch,
            Some(es) => (exists|p: int|
                0 <= p < spec_table(bytes, chunks, cs, i).len() && (#[trigger] spec_table(
                    bytes,
                    chunks,
                    cs,
                    i,
                )[p]).0 == ch && spec_table(bytes, chunks, cs, i)[p].1 == es) && forall|k: int|
                0 <= k < es.len() ==> (#[trigger] es[k]).log_time != t,
        }),
    ensures
        indexed_at(bytes, chunks, cs, ch, t, i) == indexed_at(bytes, chunks, cs, ch, t, i + 1),
{
    if indexed_at(bytes, chunks, cs, ch, t, i + 1) {
        assert(indexed_at(bytes, chunks, cs, ch, t, i));
    }
    if indexed_at(bytes, chunks, cs, ch, t, i) {
        let (j, p, k) = choose|j: int, p: int, k: int|
            #![trigger spec_table(bytes, chunks, cs, j)[p].1[k]]
            i <= j < chunks.len() && chunks[j].message_start_time <= t
                <= chunks[j].message_end_time && 0 <= p < spec_table(bytes, chunks, cs, j).len()
                && spec_table(bytes, chunks, cs, j)[p].0 == ch && 0 <= k < spec_table(
                bytes,
                chunks,
                cs,
                j,
            )[p].1.len() && spec_table(bytes, chunks, cs, j)[p].1[k].log_time == t;
        if j == i {
            // chunk i cannot be the witness
            let tab = spec_table(bytes, chunks, cs, i);
            match crate::iterator::find_pair(tab, ch) {
                None => {
                    assert(tab[p].0 != ch);
                    assert(false);
                },
                Some(es) => {
                    let p0 = choose|q: int|
                        0 <= q < tab.len() && (#[trigger] tab[q]).0 == ch && tab[q].1 == es;
                    // distinct keys force the witness pair to be the found one
                    if p != p0 {
                        if p < p0 {
                            assert(tab[p].0 != tab[p0].0);
                        } else {
                            assert(tab[p0].0 != tab[p].0);
                        }
                        assert(false);
                    }
                    assert(es[k].log_time == t);
                    assert(false);
                },
            }
        } else {
            assert(indexed_at(bytes, chunks, cs, ch, t, i + 1));
        }
    }
}

/// The replay clock law: at real-time speed and with no end bound, the
/// logical replay time is exactly the anchor log time plus the elapsed wall
/// time.
pub proof fn lemma_real_time_clock(anchor_log: u64, elapsed: u64)
    requires
        anchor_log + elapsed <= u64::MAX,
    ensures
        spec_target(anchor_log, elapsed, 1000, None) == anchor_log + elapsed,
{
    assert(elapsed * 1000 / 1000 == elapsed) by (nonlinear_arith);
    assert(spec_scaled(elapsed, 1000) == elapsed);
}

/// The emission-window law: one tick of the scheduler, on a sorted stream
/// whose messages all lie strictly after the previous target, emits exactly
/// the messages in `(previous target, target]` that pass the channel set,
/// in order, and consumes exactly the messages at or before the target -
/// leaving exactly the later ones.  The end bound never cuts the window
/// because the tick's target is already clamped to it.
pub proof fn lemma_tick_window(
    rem: Seq<MessageV>,
    prev_target: u64,
    target: u64,
    end: Option<u64>,
    filt: Option<Seq<u16>>,
)
    requires
        time_sorted(rem),
        forall|k: int| 0 <= k < rem.len() ==> (#[trigger] rem[k]).log_time > prev_target,
        end matches Some(e) ==> target <= e,
    ensures
        ({
            let tick = spec_tick(rem, target, end, filt);
            &&& tick.0 == rem.filter(
                |m: MessageV| prev_target < m.log_time && m.log_time <= target
                    && crate::replay::passes_filter(filt, m.channel_id),
            )
            &&& time_sorted(tick.0)
            &&& rem.skip(tick.1) == rem.filter(|m: MessageV| m.log_time > target)
            &&& 0 <= tick.1 <= rem.len()
            &&& forall|k: int|
                0 <= k < rem.skip(tick.1).len() ==> (#[trigger] rem.skip(tick.1)[k]).log_time
                    > target
        }),
    decreases rem.len(),
{
    reveal(Seq::filter);
    let tick = spec_tick(rem, target, end, filt);
    let inwin = |m: MessageV| prev_target < m.log_time && m.log_time <= target
        && crate::replay::passes_filter(filt, m.channel_id);
    let later = |m: MessageV| m.log_time > target;
    if rem.len() == 0 {
        assert(rem.filter(inwin) =~= Seq::<MessageV>::empty());
        assert(rem.filter(later) =~= Seq::<MessageV>::empty());
        assert(rem.skip(0) =~= rem);
    } else {
        let m = rem[0];
        if m.log_time > target {
            // nothing is due: whether the head merely waits or lies past the
            // end bound, the tick consumes and emits nothing
            assert forall|k: int| 0 <= k < rem.len() implies later(#[trigger] rem[k]) by {
                assert(rem[0].log_time <= rem[k].log_time);
            }
            crate::indexes::lemma_filter_all(rem, later);
            crate::indexes::lemma_filter_none(rem, inwin);
            assert(rem.skip(0) =~= rem);
        } else {
            // the head is due: its log time is at most the target, which the
            // scheduler has clamped to the end bound
            assert(!(end matches Some(e) && m.log_time > e));
            assert(time_sorted(rem.skip(1))) by {
                assert forall|i: int, j: int|
                    0 <= i <= j < rem.skip(1).len() implies rem.skip(1)[i].log_time <= rem.skip(
                    1,
                )[j].log_time by {
                    assert(rem.skip(1)[i] == rem[i + 1] && rem.skip(1)[j] == rem[j + 1]);
                }
            }
            assert forall|k: int|
                0 <= k < rem.skip(1).len() implies (#[trigger] rem.skip(1)[k]).log_time
                > prev_target by {
                assert(rem.skip(1)[k] == rem[k + 1]);
            }
            lemma_tick_window(rem.skip(1), prev_target, target, end, filt);
            let rest = spec_tick(rem.skip(1), target, end, filt);
            // align the filters with the one-step unfolding
            assert(rem =~= seq![m] + rem.skip(1));
            Seq::filter_distributes_over_add(seq![m], rem.skip(1), inwin);
            Seq::filter_distributes_over_add(seq![m], rem.skip(1), later);
            assert(!later(seq![m][0]));
            crate::indexes::lemma_filter_none(seq![m], later);
            if crate::replay::passes_filter(filt, m.channel_id) {
                assert(inwin(seq![m][0]));
                crate::indexes::lemma_filter_all(seq![m], inwin);
                assert(tick.0 == seq![m] + rest.0);
            } else {
                assert(!inwin(seq![m][0]));
                crate::indexes::lemma_filter_none(seq![m], inwin);
                assert(tick.0 == rest.0);
            }
            assert(tick.0 =~= rem.filter(inwin));
            assert(rem.skip(tick.1) =~= rem.skip(1).skip(rest.1));
            // the emitted window is ordered: its tail comes from the sorted
            // suffix, and the head precedes everything in it
            assert(time_sorted(tick.0)) by {
                if crate::replay::passes_filter(filt, m.channel_id) {
                    assert forall|i: int, j: int|
                        0 <= i <= j < tick.0.len() implies tick.0[i].log_time
                        <= tick.0[j].log_time by {
                        if i == 0 && j > 0 {
                            assert(tick.0[j] == rest.0[j - 1]);
                            assert(rem.skip(1).filter(inwin).contains(rest.0[j - 1]));
                            lemma_filter_elem(rem.skip(1), inwin, rest.0[j - 1]);
                            let w = choose|w: int|
                                0 <= w < rem.skip(1).len() && rem.skip(1)[w] == rest.0[j - 1];
                            assert(rem.skip(1)[w] == rem[w + 1]);
                            assert(rem[0].log_time <= rem[w + 1].log_time);
                        } else if i > 0 {
                            assert(tick.0[i] == rest.0[i - 1] && tick.0[j] == rest.0[j - 1]);
                        }
                    }
                }
            }
        }
    }
}

/// The loop-restart law: when replay loops, the fresh stream it restarts
/// with is exactly the well-formed log's stream from the configured start
/// time on - the boundary message at the start time is neither dropped nor
/// duplicated.
pub proof fn lemma_loop_restart_boundary(
    bytes: Seq<u8>,
    ids: Seq<u16>,
    chunks: Seq<ChunkInfoV>,
    fc: Option<u16>,
    st: u64,
)
    requires
        log_wf(bytes, ids, chunks),
        first_end_geq(chunks, st, 0) is Some,
    ensures
        ({
            let ci = first_end_geq(chunks, st, 0).unwrap();
            seek_remaining(bytes, ids, chunks.skip(ci), fc, st) == from_time(
                stream_from(bytes, ids, chunks, fc),
                st,
            )
        }),
{
    lemma_seek_drains_suffix(bytes, ids, chunks, fc, st);
}

} // verus!
