//! Verified access to per-chunk message indexes.
//!
//! A chunk index row lists, per channel, the offset of that channel's
//! message-index record.  This module walks those offsets, decodes each
//! record through the trusted codec, validates it against the channel
//! table, and counts entries in a time range - by binary search when the
//! entries are sorted, by a linear scan otherwise.

use vstd::prelude::*;

use crate::codec::message_index_decode;
use crate::framing::check_emit_chain;
use crate::types::views_of;
use crate::model::{count_in_entries, index_table_from, spec_chunk_index_table, spec_has_channel};
use crate::types::{ChannelInfo, ChannelInfoV, ChunkInfo, IndexEntry, LogError};

verus! {

/// The ghost view of an index table: channel ids with their entry lists.
pub open spec fn table_views(t: Seq<(u16, Vec<IndexEntry>)>) -> Seq<(u16, Seq<IndexEntry>)> {
    t.map_values(|p: (u16, Vec<IndexEntry>)| (p.0, p.1@))
}

/// Whether the channel table holds a row with the given id.
pub fn has_channel(cs: &Vec<ChannelInfo>, id: u16) -> (r: bool)
    ensures
        r == spec_has_channel(views_of(cs@), id),
{
    let n = cs.len();
    for i in 0..n
        invariant
            n == cs@.len(),
            forall|j: int| 0 <= j < i ==> views_of(cs@)[j].id != id,
    {
        if cs[i].id == id {
            assert(views_of(cs@)[i as int].id == id);
            return true;
        }
    }
    false
}

/// Read all message-index records of chunk `c`, validating each against the
/// channel table, exactly as [`spec_chunk_index_table`] describes.
pub fn chunk_index_table(bytes: &Vec<u8>, c: &ChunkInfo, cs: &Vec<ChannelInfo>) -> (r: Result<
    Vec<(u16, Vec<IndexEntry>)>,
    LogError,
>)
    ensures
        match r {
            Ok(t) => spec_chunk_index_table(bytes@, c@, views_of(cs@)) == Ok::<
                Seq<(u16, Seq<IndexEntry>)>,
                (),
            >(table_views(t@)),
            Err(e) => spec_chunk_index_table(bytes@, c@, views_of(cs@)) is Err && e
                == LogError::DecodeFailure,
        },
{
    let offsets = &c.message_index_offsets;
    let n = offsets.len();
    if n == 0 {
        return Err(LogError::DecodeFailure);
    }
    let byte_len: u64 = bytes.len() as u64;
    let mut acc: Vec<(u16, Vec<IndexEntry>)> = Vec::new();
    let ghost all = c@.message_index_offsets;
    proof {
        assert(all.skip(0) =~= all);
        assert(table_views(acc@) + match index_table_from(bytes@, all, views_of(cs@)) {
            Ok(rest) => rest,
            Err(_) => Seq::empty(),
        } =~= match index_table_from(bytes@, all, views_of(cs@)) {
            Ok(rest) => rest,
            Err(_) => Seq::empty(),
        });
    }
    for i in 0..n
        invariant
            n == all.len(),
            all == c@.message_index_offsets,
            byte_len == bytes@.len(),
            index_table_from(bytes@, all, views_of(cs@)) == match index_table_from(
                bytes@,
                all.skip(i as int),
                views_of(cs@),
            ) {
                Ok(rest) => Ok::<Seq<(u16, Seq<IndexEntry>)>, ()>(table_views(acc@) + rest),
                Err(_) => Err::<Seq<(u16, Seq<IndexEntry>)>, ()>(()),
            },
    {
        let (chid, off) = c.message_index_offsets[i];
        proof {
            assert(all.skip(i as int)[0] == all[i as int]);
        }
        if off > byte_len {
            return Err(LogError::DecodeFailure);
        }
        if !check_emit_chain(bytes, off, byte_len) {
            return Err(LogError::DecodeFailure);
        }
        let entry = crate::codec::read_message_index_at(bytes, off);
        match entry {
            Err(_) => {
                return Err(LogError::DecodeFailure);
            },
            Ok((id, es)) => {
                if id != chid {
                    return Err(LogError::DecodeFailure);
                }
                if !has_channel(cs, id) {
                    return Err(LogError::DecodeFailure);
                }
                let ghost prev = table_views(acc@);
                acc.push((id, es));
                proof {
                    assert(table_views(acc@) =~= prev.push((id, es@)));
                    assert(all.skip(i as int).skip(1) =~= all.skip(i + 1));
                    match index_table_from(bytes@, all.skip(i + 1), views_of(cs@)) {
                        Ok(rest) => {
                            assert(table_views(acc@) + rest =~= prev + (seq![(id, es@)] + rest));
                        },
                        Err(_) => {},
                    }
                }
            },
        }
    }
    proof {
        assert(all.skip(n as int) =~= Seq::<(u16, u64)>::empty());
        assert(table_views(acc@) + Seq::<(u16, Seq<IndexEntry>)>::empty() =~= table_views(acc@));
    }
    Ok(acc)
}

/// Whether the entries are non-decreasing in log time.
pub open spec fn entries_sorted(es: Seq<IndexEntry>) -> bool {
    forall|i: int, j: int| 0 <= i <= j < es.len() ==> es[i].log_time <= es[j].log_time
}

/// Check whether the entries are non-decreasing in log time.
pub fn check_entries_sorted(es: &Vec<IndexEntry>) -> (r: bool)
    ensures
        r == entries_sorted(es@),
{
    let n = es.len();
    if n == 0 {
        return true;
    }
    for i in 0..n - 1
        invariant
            n == es@.len(),
            n >= 1,
            forall|p: int, q: int| 0 <= p <= q <= i ==> es@[p].log_time <= es@[q].log_time,
    {
        if es[i].log_time > es[i + 1].log_time {
            return false;
        }
        proof {
            assert forall|p: int, q: int|
                0 <= p <= q <= i + 1 implies es@[p].log_time <= es@[q].log_time by {
                if q == i + 1 && p <= i {
                    assert(es@[p].log_time <= es@[i as int].log_time);
                }
            }
        }
    }
    true
}

/// First index whose log time is at least `t` in a sorted entry list.
pub fn lower_bound(es: &Vec<IndexEntry>, t: u64) -> (r: usize)
    requires
        entries_sorted(es@),
    ensures
        0 <= r <= es@.len(),
        forall|k: int| 0 <= k < r ==> es@[k].log_time < t,
        forall|k: int| r <= k < es@.len() ==> es@[k].log_time >= t,
{
    let mut lo: usize = 0;
    let mut hi: usize = es.len();
    while lo < hi
        invariant
            0 <= lo <= hi <= es@.len(),
            entries_sorted(es@),
            forall|k: int| 0 <= k < lo ==> es@[k].log_time < t,
            forall|k: int| hi <= k < es@.len() ==> es@[k].log_time >= t,
        decreases hi - lo,
    {
        let mid = lo + (hi - lo) / 2;
        if es[mid].log_time < t {
            lo = mid + 1;
        } else {
            hi = mid;
        }
    }
    lo
}

/// First index whose log time exceeds `t` in a sorted entry list.
pub fn upper_bound(es: &Vec<IndexEntry>, t: u64) -> (r: usize)
    requires
        entries_sorted(es@),
    ensures
        0 <= r <= es@.len(),
        forall|k: int| 0 <= k < r ==> es@[k].log_time <= t,
        forall|k: int| r <= k < es@.len() ==> es@[k].log_time > t,
{
    let mut lo: usize = 0;
    let mut hi: usize = es.len();
    while lo < hi
        invariant
            0 <= lo <= hi <= es@.len(),
            entries_sorted(es@),
            forall|k: int| 0 <= k < lo ==> es@[k].log_time <= t,
            forall|k: int| hi <= k < es@.len() ==> es@[k].log_time > t,
        decreases hi - lo,
    {
        let mid = lo + (hi - lo) / 2;
        if es[mid].log_time <= t {
            lo = mid + 1;
        } else {
            hi = mid;
        }
    }
    lo
}

/// A filter that holds of no element yields the empty sequence.
pub proof fn lemma_filter_none<A>(s: Seq<A>, pred: spec_fn(A) -> bool)
    requires
        forall|i: int| 0 <= i < s.len() ==> !pred(s[i]),
    ensures
        s.filter(pred) =~= Seq::<A>::empty(),
    decreases s.len(),
{
    reveal(Seq::filter);
    if s.len() > 0 {
        lemma_filter_none(s.drop_last(), pred);
    }
}

/// A filter that holds of every element yields the sequence itself.
pub proof fn lemma_filter_all<A>(s: Seq<A>, pred: spec_fn(A) -> bool)
    requires
        forall|i: int| 0 <= i < s.len() ==> pred(s[i]),
    ensures
        s.filter(pred) =~= s,
    decreases s.len(),
{
    reveal(Seq::filter);
    if s.len() > 0 {
        lemma_filter_all(s.drop_last(), pred);
        assert(s.drop_last().filter(pred).push(s.last()) =~= s);
    }
}

/// In a sorted entry list, the entries within `[s, e]` are exactly those
/// between the lower bound of `s` and the upper bound of `e`.
proof fn lemma_count_sorted(es: Seq<IndexEntry>, s: u64, e: u64, lo: int, hi: int)
    requires
        entries_sorted(es),
        s <= e,
        0 <= lo <= es.len(),
        0 <= hi <= es.len(),
        forall|k: int| 0 <= k < lo ==> es[k].log_time < s,
        forall|k: int| lo <= k < es.len() ==> es[k].log_time >= s,
        forall|k: int| 0 <= k < hi ==> es[k].log_time <= e,
        forall|k: int| hi <= k < es.len() ==> es[k].log_time > e,
    ensures
        lo <= hi,
        count_in_entries(es, s, e) == hi - lo,
{
    broadcast use vstd::seq_lib::group_filter_ensures;

    if lo > hi {
        assert(es[hi].log_time > e);
        assert(es[hi].log_time < s);
        assert(false);
    }
    let pred = |x: IndexEntry| s <= x.log_time <= e;
    let front = es.take(lo);
    let middle = es.subrange(lo, hi);
    let back = es.skip(hi);
    assert(es =~= front + middle + back);
    Seq::filter_distributes_over_add(front + middle, back, pred);
    Seq::filter_distributes_over_add(front, middle, pred);
    lemma_filter_none(front, pred);
    lemma_filter_none(back, pred);
    lemma_filter_all(middle, pred);
    assert(es.filter(pred) =~= middle);
}

/// How many entries lie within `[s, e]`: by binary search when the entries
/// are sorted, by a linear scan otherwise.
pub fn count_entries_in_range(es: &Vec<IndexEntry>, s: u64, e: u64) -> (n: usize)
    ensures
        n as int == count_in_entries(es@, s, e),
{
    if s > e {
        proof {
            lemma_filter_none(es@, |x: IndexEntry| s <= x.log_time <= e);
        }
        return 0;
    }
    if check_entries_sorted(es) {
        let lo = lower_bound(es, s);
        let hi = upper_bound(es, e);
        proof {
            lemma_count_sorted(es@, s, e, lo as int, hi as int);
        }
        hi - lo
    } else {
        let mut n: usize = 0;
        let len = es.len();
        proof {
            reveal(Seq::filter);
            assert(es@.take(0) =~= Seq::<IndexEntry>::empty());
        }
        for i in 0..len
            invariant
                len == es@.len(),
                n as int == count_in_entries(es@.take(i as int), s, e),
                n <= i,
        {
            let keep = s <= es[i].log_time && es[i].log_time <= e;
            proof {
                reveal(Seq::filter);
                assert(es@.take(i + 1).drop_last() =~= es@.take(i as int));
                assert(es@.take(i + 1).last() == es@[i as int]);
            }
            if keep {
                n = n + 1;
            }
        }
        proof {
            assert(es@.take(len as int) =~= es@);
        }
        n
    }
}

/// First entry with log time exactly `t`, if any: the matching index and
/// entry.  Binary search when sorted, linear scan otherwise.
pub fn find_first_at(es: &Vec<IndexEntry>, t: u64) -> (r: Option<usize>)
    ensures
        match r {
            Some(i) => i < es@.len() && es@[i as int].log_time == t && forall|k: int|
                0 <= k < i ==> es@[k].log_time != t,
            None => forall|k: int| 0 <= k < es@.len() ==> es@[k].log_time != t,
        },
{
    if check_entries_sorted(es) {
        let lo = lower_bound(es, t);
        if lo < es.len() {
            if es[lo].log_time == t {
                return Some(lo);
            }
        }
        proof {
            assert forall|k: int| 0 <= k < es@.len() implies es@[k].log_time != t by {
                if k >= lo {
                    assert(es@[lo as int].log_time <= es@[k].log_time);
                }
            }
        }
        None
    } else {
        let len = es.len();
        for i in 0..len
            invariant
                len == es@.len(),
                forall|k: int| 0 <= k < i ==> es@[k].log_time != t,
        {
            if es[i].log_time == t {
                return Some(i);
            }
        }
        None
    }
}

} // verus!
