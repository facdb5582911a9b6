//! Proved laws of the segmentation fold.
//!
//! The fold itself only returns segments; to speak about which items a
//! segment absorbed, this module re-runs the same fold while keeping each
//! segment's member items (its "group").  The laws are then stated over
//! groups: speaker purity, the silence-gap bound inside a segment, the
//! span cap, and the ordering of the finished segments.

use vstd::prelude::*;

use crate::transcribe::items::{is_timed_word, word_of, words_of, ItemView};
use crate::transcribe::segmentation::{
    append_acc, can_close, close_acc, fresh_acc, init_acc, run, segments_of, should_split,
    time_gap, SegAccView, TIME_GAP_MS,
};
use crate::transcribe::SegView;

verus! {

/// A closed segment together with the pronunciation items it absorbed.
pub struct GroupView {
    pub seg: SegView,
    pub members: Seq<ItemView>,
}

/// The last known end time among `mem`, in order: a later known end
/// supersedes an earlier one, and an item without one changes nothing.
/// This is exactly how the accumulator's end time evolves.
pub open spec fn latest_end(mem: Seq<ItemView>) -> Option<u64>
    decreases mem.len(),
{
    if mem.len() == 0 {
        None
    } else {
        match mem.last().end_ms() {
            Some(e) => Some(e),
            None => latest_end(mem.drop_last()),
        }
    }
}

/// One step of the fold, also tracking the open segment's members.
pub open spec fn gstep(groups: Seq<GroupView>, acc: SegAccView, mem: Seq<ItemView>,
    it: ItemView, max_ms: u64) -> (Seq<GroupView>, SegAccView, Seq<ItemView>) {
    if it.is_pronunciation() {
        if should_split(acc, it, max_ms) {
            (
                if can_close(acc) {
                    groups.push(GroupView { seg: close_acc(acc), members: mem })
                } else {
                    groups
                },
                fresh_acc(it),
                seq![it],
            )
        } else {
            (groups, append_acc(acc, it), mem.push(it))
        }
    } else if it.is_punctuation() {
        (
            groups,
            SegAccView {
                text: acc.text + it.content,
                start: acc.start,
                end: acc.end,
                speaker: acc.speaker,
                confidences: acc.confidences,
            },
            mem,
        )
    } else {
        (groups, acc, mem)
    }
}

/// The member-tracking fold over a whole item sequence.
pub open spec fn grun(items: Seq<ItemView>, max_ms: u64) -> (Seq<GroupView>, SegAccView,
    Seq<ItemView>)
    decreases items.len(),
{
    if items.len() == 0 {
        (Seq::empty(), init_acc(), Seq::empty())
    } else {
        let p = grun(items.drop_last(), max_ms);
        gstep(p.0, p.1, p.2, items.last(), max_ms)
    }
}

/// The closed groups at end of stream, final open segment included.
pub open spec fn groups_of(items: Seq<ItemView>, max_ms: u64) -> Seq<GroupView> {
    let p = grun(items, max_ms);
    if can_close(p.1) {
        p.0.push(GroupView { seg: close_acc(p.1), members: p.2 })
    } else {
        p.0
    }
}

/// The grouped fold carries exactly the segments of the plain fold.
pub proof fn lemma_groups_project(items: Seq<ItemView>, max_ms: u64)
    ensures
        grun(items, max_ms).0.map_values(|g: GroupView| g.seg) == run(items, max_ms).0,
        grun(items, max_ms).1 == run(items, max_ms).1,
    decreases items.len(),
{
    if items.len() == 0 {
        assert(grun(items, max_ms).0.map_values(|g: GroupView| g.seg) =~= run(items,
            max_ms).0);
    } else {
        lemma_groups_project(items.drop_last(), max_ms);
        let p = grun(items.drop_last(), max_ms);
        let it = items.last();
        if it.is_pronunciation() && should_split(p.1, it, max_ms) && can_close(p.1) {
            assert(p.0.push(GroupView { seg: close_acc(p.1), members: p.2 }).map_values(
                |g: GroupView| g.seg) =~= p.0.map_values(|g: GroupView| g.seg).push(
                close_acc(p.1)));
        }
    }
}

/// Every segment in the finished list is its group's segment.
pub proof fn lemma_segments_are_groups(items: Seq<ItemView>, max_ms: u64)
    ensures
        groups_of(items, max_ms).map_values(|g: GroupView| g.seg) == segments_of(items,
            max_ms),
{
    lemma_groups_project(items, max_ms);
    let p = grun(items, max_ms);
    if can_close(p.1) {
        assert(p.0.push(GroupView { seg: close_acc(p.1), members: p.2 }).map_values(
            |g: GroupView| g.seg) =~= p.0.map_values(|g: GroupView| g.seg).push(
            close_acc(p.1)));
    }
}

pub open spec fn opt_le(a: Option<u64>, b: Option<u64>) -> bool {
    match (a, b) {
        (Some(x), Some(y)) => x <= y,
        _ => true,
    }
}

/// The ordering invariant of the input stream: items are ordered by time, and
/// each item's own start does not pass its end.  Items with no or
/// unreadable times constrain nothing.
pub open spec fn pair_ordered(a: ItemView, b: ItemView) -> bool {
    &&& opt_le(a.start_ms(), b.start_ms())
    &&& opt_le(a.start_ms(), b.end_ms())
    &&& opt_le(a.end_ms(), b.start_ms())
    &&& opt_le(a.end_ms(), b.end_ms())
}

pub open spec fn time_ordered(items: Seq<ItemView>) -> bool {
    &&& (forall|i: int| 0 <= i < items.len() ==> opt_le((#[trigger] items[i]).start_ms(),
        items[i].end_ms()))
    &&& (forall|i: int, j: int| 0 <= i < j < items.len() ==> #[trigger] pair_ordered(
        items[i], items[j]))
}

/// Every item carries either both times or neither.
pub open spec fn times_paired(items: Seq<ItemView>) -> bool {
    forall|i: int| 0 <= i < items.len() ==> ((#[trigger] items[i]).start_ms() is Some
        <==> items[i].end_ms() is Some)
}

pub open spec fn members_pron(speaker: Option<Seq<char>>, mem: Seq<ItemView>) -> bool {
    &&& (forall|k: int| 0 <= k < mem.len() ==> (#[trigger] mem[k]).is_pronunciation())
    &&& (forall|k: int| 0 <= k < mem.len() ==> (#[trigger] mem[k]).speaker_label
        == speaker)
}

/// No item of a segment starts more than a second after the last end time
/// known when it was absorbed.
pub open spec fn no_big_gap_at(mem: Seq<ItemView>, k: int) -> bool {
    match (mem[k].start_ms(), latest_end(mem.take(k))) {
        (Some(s), Some(e)) => s <= e + TIME_GAP_MS,
        _ => true,
    }
}

pub open spec fn gaps_ok(mem: Seq<ItemView>) -> bool {
    forall|k: int| 0 < k < mem.len() ==> #[trigger] no_big_gap_at(mem, k)
}

/// Every member with a known start starts within `max_ms` of the
/// segment's start.
pub open spec fn caps_ok(mem: Seq<ItemView>, ss: u64, max_ms: u64) -> bool {
    forall|k: int| 0 <= k < mem.len() ==> (match (#[trigger] mem[k]).start_ms() {
        Some(s) => s <= ss + max_ms,
        None => true,
    })
}

/// What holds of every closed group, whatever the input.
pub open spec fn group_laws(g: GroupView, max_ms: u64) -> bool {
    &&& g.members.len() > 0
    &&& members_pron(g.seg.speaker_id, g.members)
    &&& g.members[0].start_ms() == Some(g.seg.start_time)
    &&& latest_end(g.members) == Some(g.seg.end_time)
    &&& gaps_ok(g.members)
    &&& caps_ok(g.members, g.seg.start_time, max_ms)
}

/// What holds of the open accumulator and its members, whatever the input.
pub open spec fn acc_basic(acc: SegAccView, mem: Seq<ItemView>, max_ms: u64) -> bool {
    &&& members_pron(acc.speaker, mem)
    &&& acc.end == latest_end(mem)
    &&& (acc.start is Some ==> mem.len() > 0 && acc.start == mem[0].start_ms())
    &&& gaps_ok(mem)
    &&& (match acc.start {
        Some(ss) => caps_ok(mem, ss, max_ms),
        None => true,
    })
}

pub open spec fn basic_inv(groups: Seq<GroupView>, acc: SegAccView, mem: Seq<ItemView>,
    max_ms: u64) -> bool {
    &&& (forall|gi: int| 0 <= gi < groups.len() ==> group_laws(#[trigger] groups[gi],
        max_ms))
    &&& acc_basic(acc, mem, max_ms)
}

/// The unconditional induction: the grouped fold maintains `basic_inv`
/// on every input.
pub proof fn lemma_basic_inv(items: Seq<ItemView>, max_ms: u64)
    ensures
        ({
            let p = grun(items, max_ms);
            basic_inv(p.0, p.1, p.2, max_ms)
        }),
    decreases items.len(),
{
    if items.len() == 0 {
    } else {
        lemma_basic_inv(items.drop_last(), max_ms);
        let p = grun(items.drop_last(), max_ms);
        let it = items.last();
        let q = grun(items, max_ms);
        if it.is_pronunciation() {
            if should_split(p.1, it, max_ms) {
                if can_close(p.1) {
                    let g = GroupView { seg: close_acc(p.1), members: p.2 };
                    assert(group_laws(g, max_ms));
                }
                assert(q.2 =~= seq![it]);
                assert(q.2.len() == 1 && q.2.last() == it);
                assert(q.2.drop_last() =~= Seq::<ItemView>::empty());
                assert(latest_end(Seq::<ItemView>::empty()) is None);
                assert(latest_end(q.2) == it.end_ms());
                assert(acc_basic(q.1, q.2, max_ms));
            } else {
                let mem = p.2;
                let mem2 = q.2;
                assert(mem2 == mem.push(it));
                assert(mem2.drop_last() =~= mem);
                assert(latest_end(mem2) == (match it.end_ms() {
                    Some(e) => Some(e),
                    None => latest_end(mem),
                }));
                assert forall|k: int| 0 < k < mem2.len() implies #[trigger] no_big_gap_at(
                    mem2, k) by {
                    if k < mem.len() {
                        assert(mem2.take(k) =~= mem.take(k));
                        assert(mem2[k] == mem[k]);
                        assert(no_big_gap_at(mem, k));
                    } else {
                        assert(mem2.take(k) =~= mem);
                        assert(!time_gap(p.1, it));
                    }
                }
                if p.1.start is Some {
                    assert forall|k: int| 0 <= k < mem2.len() implies (match (
                        #[trigger] mem2[k]).start_ms() {
                        Some(s) => s <= p.1.start.unwrap() + max_ms,
                        None => true,
                    }) by {
                        if k < mem.len() {
                            assert(mem2[k] == mem[k]);
                        }
                    }
                    assert(mem2.len() > 0 && q.1.start == mem2[0].start_ms());
                }
                assert(acc_basic(q.1, mem2, max_ms));
            }
        } else {
            assert(q.1.end == p.1.end && q.1.start == p.1.start && q.1.speaker
                == p.1.speaker);
            assert(q.2 == p.2);
            assert(acc_basic(q.1, q.2, max_ms));
        }
    }
}

pub open spec fn le_opt(t: u64, o: Option<u64>) -> bool {
    match o {
        Some(v) => t <= v,
        None => true,
    }
}

/// `t` does not pass any known time of `x`.
pub open spec fn le_item(t: u64, x: ItemView) -> bool {
    le_opt(t, x.start_ms()) && le_opt(t, x.end_ms())
}

/// `x` comes, in time, no earlier than every item of `items`.
pub open spec fn after_all(items: Seq<ItemView>, x: ItemView) -> bool {
    forall|l: int| 0 <= l < items.len() ==> pair_ordered(#[trigger] items[l], x)
}

/// The times the fold has recorded stay below any item still to come.
pub open spec fn future_bounds(groups: Seq<GroupView>, acc: SegAccView, x: ItemView)
    -> bool {
    &&& (forall|gi: int| 0 <= gi < groups.len() ==> le_item((#[trigger] groups[
        gi]).seg.end_time, x))
    &&& (match acc.end {
        Some(e) => le_item(e, x),
        None => true,
    })
    &&& (match acc.start {
        Some(s) => le_item(s, x),
        None => true,
    })
}

/// What holds of the fold state on a time-ordered input: closed segments
/// are well-formed and pairwise ordered, the open segment comes after
/// them, and everything stays below whatever items could still follow.
pub open spec fn ordered_state(items: Seq<ItemView>, groups: Seq<GroupView>,
    acc: SegAccView) -> bool {
    &&& (forall|gi: int| 0 <= gi < groups.len() ==> (#[trigger] groups[
        gi]).seg.start_time <= groups[gi].seg.end_time)
    &&& (forall|a: int, b: int|
        #![trigger groups[a], groups[b]]
        0 <= a < b < groups.len() ==> groups[a].seg.end_time <= groups[b].seg.start_time)
    &&& (acc.start is Some && acc.end is Some ==> acc.start.unwrap() <= acc.end.unwrap())
    &&& (groups.len() > 0 && acc.start is Some ==> groups.last().seg.end_time
        <= acc.start.unwrap())
    &&& (forall|x: ItemView| #[trigger] after_all(items, x) ==> future_bounds(groups,
        acc, x))
}

proof fn lemma_time_ordered_drop_last(items: Seq<ItemView>)
    requires
        time_ordered(items),
        items.len() > 0,
    ensures
        time_ordered(items.drop_last()),
{
    let d = items.drop_last();
    assert forall|i: int| 0 <= i < d.len() implies opt_le((#[trigger] d[i]).start_ms(),
        d[i].end_ms()) by {
        assert(d[i] == items[i]);
    }
    assert forall|i: int, j: int| 0 <= i < j < d.len() implies #[trigger] pair_ordered(
        d[i], d[j]) by {
        assert(d[i] == items[i] && d[j] == items[j]);
    }
}

/// The ordered induction: on a time-ordered input the grouped fold
/// maintains `ordered_state`.
pub proof fn lemma_ordered_state(items: Seq<ItemView>, max_ms: u64)
    requires
        time_ordered(items),
    ensures
        ({
            let p = grun(items, max_ms);
            ordered_state(items, p.0, p.1)
        }),
    decreases items.len(),
{
    let q = grun(items, max_ms);
    if items.len() == 0 {
        assert forall|x: ItemView| #[trigger] after_all(items, x) implies future_bounds(
            q.0, q.1, x) by {}
    } else {
        lemma_time_ordered_drop_last(items);
        lemma_ordered_state(items.drop_last(), max_ms);
        let p = grun(items.drop_last(), max_ms);
        let it = items.last();
        assert(opt_le(it.start_ms(), it.end_ms()));  // time_ordered, own item
        assert(after_all(items.drop_last(), it)) by {
            assert forall|l: int| 0 <= l < items.drop_last().len() implies pair_ordered(
                #[trigger] items.drop_last()[l], it) by {
                assert(items.drop_last()[l] == items[l]);
                assert(pair_ordered(items[l], items[items.len() - 1]));
            }
        }
        assert(future_bounds(p.0, p.1, it));
        // Case facts used below, before quantifying over future items.
        if it.is_pronunciation() {
            if should_split(p.1, it, max_ms) {
                if can_close(p.1) {
                    let g = GroupView { seg: close_acc(p.1), members: p.2 };
                    assert(q.0 == p.0.push(g));
                    assert(g.seg.start_time <= g.seg.end_time);
                    assert forall|a: int, b: int|
                        #![trigger q.0[a], q.0[b]]
                        0 <= a < b < q.0.len() implies q.0[a].seg.end_time
                        <= q.0[b].seg.start_time by {
                        if b == q.0.len() - 1 {
                            assert(q.0[a] == p.0[a]);
                            if a < p.0.len() - 1 {
                                assert(p.0[a].seg.end_time <= p.0[p.0.len()
                                    - 1].seg.start_time);
                            }
                            assert(p.0.last().seg.end_time <= p.1.start.unwrap());
                        } else {
                            assert(q.0[a] == p.0[a] && q.0[b] == p.0[b]);
                        }
                    }
                    if q.1.start is Some {
                        assert(q.0.last().seg.end_time <= q.1.start.unwrap());
                    }
                } else {
                    if q.0.len() > 0 && q.1.start is Some {
                        assert(q.0.last().seg.end_time <= q.1.start.unwrap());
                    }
                }
            } else {
                if q.1.start is Some && q.1.end is Some {
                    if it.end_ms() is Some {
                        assert(le_item(p.1.start.unwrap(), it));
                    }
                }
            }
        }
        assert forall|x: ItemView| #[trigger] after_all(items, x) implies future_bounds(
            q.0, q.1, x) by {
            assert(after_all(items.drop_last(), x)) by {
                assert forall|l: int| 0 <= l < items.drop_last().len() implies
                    pair_ordered(#[trigger] items.drop_last()[l], x) by {
                    assert(items.drop_last()[l] == items[l]);
                    assert(pair_ordered(items[l], x));
                }
            }
            assert(future_bounds(p.0, p.1, x));
            assert(pair_ordered(items[items.len() - 1], x));
            assert forall|gi: int| 0 <= gi < q.0.len() implies le_item((#[trigger] q.0[
                gi]).seg.end_time, x) by {
                if gi < p.0.len() {
                    assert(q.0[gi] == p.0[gi]);
                }
            }
        }
    }
}

/// Every member of every group, closed or open, is an item of the input.
pub open spec fn from_items(items: Seq<ItemView>, mem: Seq<ItemView>) -> bool {
    forall|k: int| 0 <= k < mem.len() ==> items.contains(#[trigger] mem[k])
}

pub proof fn lemma_members_from(items: Seq<ItemView>, max_ms: u64)
    ensures
        ({
            let p = grun(items, max_ms);
            &&& (forall|gi: int| 0 <= gi < p.0.len() ==> from_items(items, (#[trigger]
                p.0[gi]).members))
            &&& from_items(items, p.2)
        }),
    decreases items.len(),
{
    let q = grun(items, max_ms);
    if items.len() == 0 {
    } else {
        lemma_members_from(items.drop_last(), max_ms);
        let p = grun(items.drop_last(), max_ms);
        let it = items.last();
        assert forall|m: ItemView| items.drop_last().contains(m) implies items.contains(
            m) by {
            let l = choose|l: int| 0 <= l < items.drop_last().len()
                && items.drop_last()[l] == m;
            assert(items[l] == m);
        }
        assert(items[items.len() - 1] == it);
        assert(items.contains(it));
        assert forall|gi: int| 0 <= gi < q.0.len() implies from_items(items, (#[trigger]
            q.0[gi]).members) by {
            if gi < p.0.len() {
                assert(q.0[gi] == p.0[gi]);
                assert(from_items(items.drop_last(), p.0[gi].members));
            } else {
                assert(q.0[gi].members == p.2);
                assert(from_items(items.drop_last(), p.2));
            }
        }
        if it.is_pronunciation() {
            if should_split(p.1, it, max_ms) {
                assert(q.2 =~= seq![it]);
            } else {
                assert(q.2 == p.2.push(it));
                assert(from_items(items.drop_last(), p.2));
                assert forall|k: int| 0 <= k < q.2.len() implies items.contains(
                    #[trigger] q.2[k]) by {
                    if k < p.2.len() {
                        assert(q.2[k] == p.2[k]);
                    } else {
                        assert(q.2[k] == it);
                    }
                }
            }
        }
    }
}

/// The unconditional group laws carried through the final close.
pub proof fn lemma_groups_of_laws(items: Seq<ItemView>, max_ms: u64)
    ensures
        forall|gi: int| 0 <= gi < groups_of(items, max_ms).len() ==> group_laws(
            #[trigger] groups_of(items, max_ms)[gi], max_ms),
        forall|gi: int| 0 <= gi < groups_of(items, max_ms).len() ==> from_items(items,
            groups_of(items, max_ms)[gi].members),
{
    lemma_basic_inv(items, max_ms);
    lemma_members_from(items, max_ms);
    let p = grun(items, max_ms);
    let gs = groups_of(items, max_ms);
    if can_close(p.1) {
        let g = GroupView { seg: close_acc(p.1), members: p.2 };
        assert(group_laws(g, max_ms));
        assert forall|gi: int| 0 <= gi < gs.len() implies group_laws(#[trigger] gs[gi],
            max_ms) && from_items(items, gs[gi].members) by {
            if gi < p.0.len() {
                assert(gs[gi] == p.0[gi]);
            } else {
                assert(gs[gi] == g);
            }
        }
    }
}

/// Speaker purity: a segment never mixes speaker labels — every item a
/// segment absorbed carries exactly the label the segment reports, on
/// every input.
pub proof fn lemma_speaker_purity(items: Seq<ItemView>, max_ms: u64)
    ensures
        forall|gi: int, k: int|
            #![trigger groups_of(items, max_ms)[gi].members[k]]
            0 <= gi < groups_of(items, max_ms).len() && 0 <= k < groups_of(items,
                max_ms)[gi].members.len() ==> groups_of(items, max_ms)[
                gi].members[k].speaker_label == groups_of(items, max_ms)[
                gi].seg.speaker_id,
{
    lemma_groups_of_laws(items, max_ms);
}

/// The gap law inside a segment: no absorbed item starts more than a
/// second after the last end time known when it arrived, on every input.
/// (Across a segment boundary nothing is claimed: a gap of a second or
/// less may or may not split, depending on the other rules.)
pub proof fn lemma_gap_within_segments(items: Seq<ItemView>, max_ms: u64)
    ensures
        forall|gi: int| 0 <= gi < groups_of(items, max_ms).len() ==> gaps_ok((#[trigger]
            groups_of(items, max_ms)[gi]).members),
{
    lemma_groups_of_laws(items, max_ms);
}

/// Segment ordering on a time-ordered input: within each segment the
/// start does not pass the end, and segments never overlap — each ends
/// no later than the next begins (so start times are non-decreasing).
pub proof fn lemma_segment_ordering(items: Seq<ItemView>, max_ms: u64)
    requires
        time_ordered(items),
    ensures
        forall|a: int| 0 <= a < segments_of(items, max_ms).len() ==> (#[trigger]
            segments_of(items, max_ms)[a]).start_time <= segments_of(items,
            max_ms)[a].end_time,
        forall|a: int, b: int|
            #![trigger segments_of(items, max_ms)[a], segments_of(items, max_ms)[b]]
            0 <= a < b < segments_of(items, max_ms).len() ==> segments_of(items,
                max_ms)[a].end_time <= segments_of(items, max_ms)[b].start_time,
{
    lemma_ordered_state(items, max_ms);
    lemma_segments_are_groups(items, max_ms);
    let p = grun(items, max_ms);
    let gs = groups_of(items, max_ms);
    let segs = segments_of(items, max_ms);
    assert(gs.map_values(|g: GroupView| g.seg) == segs);
    assert forall|a: int| 0 <= a < gs.len() implies (#[trigger] gs[a]).seg.start_time
        <= gs[a].seg.end_time by {
        if a >= p.0.len() {
            assert(gs[a].seg == close_acc(p.1));
        }
    }
    assert forall|a: int, b: int|
        #![trigger gs[a], gs[b]]
        0 <= a < b < gs.len() implies gs[a].seg.end_time <= gs[b].seg.start_time by {
        if b < p.0.len() {
            assert(gs[a] == p.0[a] && gs[b] == p.0[b]);
        } else if can_close(p.1) && b == p.0.len() {
            assert(gs[a] == p.0[a]);
            assert(gs[b].seg == close_acc(p.1));
            if a < p.0.len() - 1 {
                assert(p.0[a].seg.end_time <= p.0[p.0.len() - 1].seg.start_time);
            }
            assert(p.0.last().seg.end_time <= p.1.start.unwrap());
        }
    }
    assert forall|a: int| 0 <= a < segs.len() implies (#[trigger] segs[a]).start_time
        <= segs[a].end_time by {
        assert(segs[a] == gs[a].seg);
    }
    assert forall|a: int, b: int|
        #![trigger segs[a], segs[b]]
        0 <= a < b < segs.len() implies segs[a].end_time <= segs[b].start_time by {
        assert(segs[a] == gs[a].seg && segs[b] == gs[b].seg);
    }
}

proof fn lemma_latest_end_witness(mem: Seq<ItemView>)
    requires
        latest_end(mem) is Some,
    ensures
        exists|k: int| 0 <= k < mem.len() && (#[trigger] mem[k]).end_ms() == latest_end(
            mem),
    decreases mem.len(),
{
    if mem.last().end_ms() is Some {
        assert(mem[mem.len() - 1].end_ms() == latest_end(mem));
    } else {
        lemma_latest_end_witness(mem.drop_last());
        let k = choose|k: int| 0 <= k < mem.drop_last().len() && (#[trigger]
            mem.drop_last()[k]).end_ms() == latest_end(mem.drop_last());
        assert(mem[k].end_ms() == latest_end(mem));
    }
}

/// The span cap: on a time-ordered input whose items carry both times or
/// neither, every segment ends within `max_ms` of its start plus the
/// duration of the item that supplied its end time.  A segment cannot be
/// split inside one item, so a single long item alone may stretch a
/// segment past the bare cap.
pub proof fn lemma_length_cap(items: Seq<ItemView>, max_ms: u64)
    requires
        time_ordered(items),
        times_paired(items),
    ensures
        forall|gi: int| 0 <= gi < groups_of(items, max_ms).len() ==> {
            let g = #[trigger] groups_of(items, max_ms)[gi];
            exists|k: int|
                0 <= k < g.members.len() && (#[trigger] g.members[k]).start_ms() is Some
                    && g.members[k].end_ms() == Some(g.seg.end_time)
                    && g.seg.end_time <= g.seg.start_time + max_ms + (g.members[
                    k].end_ms().unwrap() - g.members[k].start_ms().unwrap())
        },
{
    lemma_groups_of_laws(items, max_ms);
    let gs = groups_of(items, max_ms);
    assert forall|gi: int| 0 <= gi < gs.len() implies {
        let g = #[trigger] gs[gi];
        exists|k: int|
            0 <= k < g.members.len() && (#[trigger] g.members[k]).start_ms() is Some
                && g.members[k].end_ms() == Some(g.seg.end_time)
                && g.seg.end_time <= g.seg.start_time + max_ms + (g.members[
                k].end_ms().unwrap() - g.members[k].start_ms().unwrap())
    } by {
        let g = gs[gi];
        assert(group_laws(g, max_ms));
        lemma_latest_end_witness(g.members);
        let k = choose|k: int| 0 <= k < g.members.len() && (#[trigger] g.members[
            k]).end_ms() == latest_end(g.members);
        assert(items.contains(g.members[k]));
        let l = choose|l: int| 0 <= l < items.len() && items[l] == g.members[k];
        assert(items[l].start_ms() is Some <==> items[l].end_ms() is Some);
        assert(opt_le(items[l].start_ms(), items[l].end_ms()));
        assert(g.members[k].start_ms() is Some);
        let s = g.members[k].start_ms().unwrap();
        let e = g.members[k].end_ms().unwrap();
        assert(s <= e);
        assert(s <= g.seg.start_time + max_ms);
        assert(e == g.seg.end_time);
        assert(g.seg.end_time <= g.seg.start_time + max_ms + (e - s));
    }
}

/// Word-list completeness: the word list is exactly the timed
/// pronunciation items, one word each, in source order.
pub proof fn lemma_word_list_completeness(items: Seq<ItemView>)
    ensures
        words_of(items) == items.filter(|it: ItemView| is_timed_word(it)).map_values(
            |it: ItemView| word_of(it)),
    decreases items.len(),
{
    reveal(Seq::filter);
    let f = |it: ItemView| is_timed_word(it);
    let m = |it: ItemView| word_of(it);
    if items.len() == 0 {
        assert(words_of(items) =~= items.filter(f).map_values(m));
    } else {
        lemma_word_list_completeness(items.drop_last());
        let d = items.drop_last();
        if is_timed_word(items.last()) {
            assert(items.filter(f) == d.filter(f).push(items.last()));
            assert(d.filter(f).push(items.last()).map_values(m) =~= d.filter(
                f).map_values(m).push(word_of(items.last())));
        } else {
            assert(items.filter(f) == d.filter(f));
        }
    }
}

} // verus!
