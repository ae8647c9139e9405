//! Verified batch sorting and filtering.
//!
//! The merge iterator buffers one chunk's messages, keeps the matching ones
//! and sorts them by log time; the query engine keeps matching messages in
//! storage order.  The executable functions here return exactly the
//! sequences that [`crate::model`]'s `sort_by_time`, `filter_channel` and
//! `spec_filter` describe.

use vstd::multiset::Multiset;
use vstd::prelude::*;

use crate::types::views_of;
use crate::model::{
    filter_channel, insert_by_time, sort_by_time, spec_channel_passes, spec_filter, spec_matches,
    time_sorted, MsgFilter,
};
use crate::types::{Message, MessageV};

verus! {

/// Inserting into a time-sorted sequence at the position found by an upper
/// bound (after all equal log times) is exactly [`insert_by_time`].
pub proof fn lemma_insert_by_time_at(s: Seq<MessageV>, m: MessageV, p: int)
    requires
        time_sorted(s),
        0 <= p <= s.len(),
        forall|i: int| 0 <= i < p ==> s[i].log_time <= m.log_time,
        forall|i: int| p <= i < s.len() ==> s[i].log_time > m.log_time,
    ensures
        insert_by_time(s, m) =~= s.insert(p, m),
    decreases s.len(),
{
    if s.len() == 0 {
        assert(insert_by_time(s, m) =~= s.insert(0, m));
    } else if s.last().log_time <= m.log_time {
        assert(p == s.len());
        assert(insert_by_time(s, m) =~= s.insert(p, m));
    } else {
        lemma_insert_by_time_at(s.drop_last(), m, p);
        assert(insert_by_time(s, m) =~= s.insert(p, m));
    }
}

/// [`insert_by_time`] keeps sortedness, grows the length by one and adds
/// exactly the inserted message to the multiset of messages.
pub proof fn lemma_insert_by_time_ensures(s: Seq<MessageV>, m: MessageV)
    requires
        time_sorted(s),
    ensures
        time_sorted(insert_by_time(s, m)),
        insert_by_time(s, m).len() == s.len() + 1,
        insert_by_time(s, m).to_multiset() == s.to_multiset().insert(m),
    decreases s.len(),
{
    broadcast use vstd::seq_lib::group_to_multiset_ensures;

    if s.len() == 0 {
        assert(insert_by_time(s, m) =~= Seq::empty().push(m));
        assert(Seq::<MessageV>::empty().to_multiset() =~= Multiset::empty());
        assert(insert_by_time(s, m).to_multiset() =~= s.to_multiset().insert(m));
    } else if s.last().log_time <= m.log_time {
        assert(insert_by_time(s, m) == s.push(m));
        assert(s.push(m).to_multiset() =~= s.to_multiset().insert(m));
    } else {
        lemma_insert_by_time_ensures(s.drop_last(), m);
        let t = insert_by_time(s.drop_last(), m);
        assert(insert_by_time(s, m) == t.push(s.last()));
        assert forall|i: int, j: int|
            0 <= i <= j < t.push(s.last()).len() implies t.push(s.last())[i].log_time <= t.push(
            s.last(),
        )[j].log_time by {
            if j < t.len() {
            } else {
                // the pushed element is the old maximum and exceeds m
                if i < t.len() {
                    assert(t.to_multiset().count(t[i]) > 0);
                    assert(s.drop_last().to_multiset().insert(m).count(t[i]) > 0);
                    if t[i] == m {
                    } else {
                        assert(s.drop_last().to_multiset().count(t[i]) > 0);
                        assert(s.drop_last().contains(t[i]));
                        let k = choose|k: int|
                            0 <= k < s.drop_last().len() && s.drop_last()[k] == t[i];
                        assert(s[k].log_time <= s.last().log_time);
                    }
                }
            }
        }
        assert(t.push(s.last()).to_multiset() =~= t.to_multiset().insert(s.last()));
        assert(s.drop_last().push(s.last()) =~= s);
        assert(s.drop_last().push(s.last()).to_multiset() =~= s.drop_last().to_multiset().insert(
            s.last(),
        ));
        assert(t.push(s.last()).to_multiset() =~= s.to_multiset().insert(m));
    }
}

/// [`sort_by_time`] returns a time-sorted permutation of its input.
pub proof fn lemma_sort_by_time_ensures(s: Seq<MessageV>)
    ensures
        time_sorted(sort_by_time(s)),
        sort_by_time(s).len() == s.len(),
        sort_by_time(s).to_multiset() == s.to_multiset(),
    decreases s.len(),
{
    broadcast use vstd::seq_lib::group_to_multiset_ensures;

    if s.len() == 0 {
    } else {
        lemma_sort_by_time_ensures(s.drop_last());
        lemma_insert_by_time_ensures(sort_by_time(s.drop_last()), s.last());
        assert(s.drop_last().push(s.last()) =~= s);
        assert(s.drop_last().push(s.last()).to_multiset() =~= s.drop_last().to_multiset().insert(
            s.last(),
        ));
    }
}

/// Sort a batch of messages by log time, placing messages with equal log
/// times in their original relative order.
pub fn sort_messages_by_time(v: &Vec<Message>) -> (r: Vec<Message>)
    ensures
        views_of(r@) == sort_by_time(views_of(v@)),
        time_sorted(views_of(r@)),
{
    let mut out: Vec<Message> = Vec::new();
    let n = v.len();
    assert(views_of(v@).take(0) =~= Seq::empty());
    for i in 0..n
        invariant
            n == v@.len(),
            views_of(out@) == sort_by_time(views_of(v@).take(i as int)),
            time_sorted(views_of(out@)),
    {
        let m = v[i].clone();
        // upper bound: first position whose log time exceeds the new one
        let mut p: usize = 0;
        while p < out.len() && out[p].log_time <= m.log_time
            invariant
                0 <= p <= out@.len(),
                forall|k: int| 0 <= k < p ==> views_of(out@)[k].log_time <= m@.log_time,
            decreases out@.len() - p,
        {
            p = p + 1;
        }
        proof {
            assert forall|k: int| p <= k < out@.len() implies views_of(out@)[k].log_time
                > m@.log_time by {
                assert(views_of(out@)[p as int].log_time <= views_of(out@)[k].log_time);
            }
            lemma_insert_by_time_at(views_of(out@), m@, p as int);
        }
        let ghost prev = views_of(out@);
        out.insert(p, m);
        proof {
            assert(views_of(out@) =~= prev.insert(p as int, m@));
            assert(views_of(v@).take(i + 1).drop_last() =~= views_of(v@).take(i as int));
            assert(views_of(v@).take(i + 1).last() == m@);
            lemma_insert_by_time_ensures(sort_by_time(views_of(v@).take(i as int)), m@);
        }
    }
    proof {
        assert(views_of(v@).take(n as int) =~= views_of(v@));
    }
    out
}

/// Keep the messages on channel `fc` (all of them when `fc` is `None`), in
/// their original order.
pub fn keep_channel(v: &Vec<Message>, fc: Option<u16>) -> (r: Vec<Message>)
    ensures
        views_of(r@) == filter_channel(views_of(v@), fc),
{
    let mut out: Vec<Message> = Vec::new();
    let n = v.len();
    proof {
        reveal(Seq::filter);
        assert(views_of(v@).take(0) =~= Seq::empty());
        assert(views_of(out@) =~= filter_channel(views_of(v@).take(0), fc));
    }
    for i in 0..n
        invariant
            n == v@.len(),
            views_of(out@) == filter_channel(views_of(v@).take(i as int), fc),
    {
        let keep = match fc {
            Some(c) => v[i].channel_id == c,
            None => true,
        };
        let ghost prev = views_of(out@);
        if keep {
            out.push(v[i].clone());
        }
        proof {
            reveal(Seq::filter);
            assert(views_of(v@).take(i + 1).drop_last() =~= views_of(v@).take(i as int));
            assert(views_of(v@).take(i + 1).last() == views_of(v@)[i as int]);
            if keep {
                assert(views_of(out@) =~= prev.push(views_of(v@)[i as int]));
            }
        }
    }
    proof {
        assert(views_of(v@).take(n as int) =~= views_of(v@));
    }
    out
}

/// Keep the messages passing `f`, in their original order.
pub fn keep_matching(v: &Vec<Message>, f: &MsgFilter) -> (r: Vec<Message>)
    ensures
        views_of(r@) == spec_filter(views_of(v@), f@),
{
    let mut out: Vec<Message> = Vec::new();
    let n = v.len();
    proof {
        reveal(Seq::filter);
        assert(views_of(v@).take(0) =~= Seq::empty());
        assert(views_of(out@) =~= spec_filter(views_of(v@).take(0), f@));
    }
    for i in 0..n
        invariant
            n == v@.len(),
            views_of(out@) == spec_filter(views_of(v@).take(i as int), f@),
    {
        let keep = f.matches(&v[i]);
        let ghost prev = views_of(out@);
        if keep {
            out.push(v[i].clone());
        }
        proof {
            reveal(Seq::filter);
            assert(views_of(v@).take(i + 1).drop_last() =~= views_of(v@).take(i as int));
            assert(views_of(v@).take(i + 1).last() == views_of(v@)[i as int]);
            if keep {
                assert(views_of(out@) =~= prev.push(views_of(v@)[i as int]));
            }
        }
    }
    proof {
        assert(views_of(v@).take(n as int) =~= views_of(v@));
    }
    out
}

} // verus!
