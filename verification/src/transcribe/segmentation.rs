//! Second pass over the annotation stream: fold the items into timed,
//! speaker-pure segments.
//!
//! A single accumulator gathers text, times, speaker and confidences.  A
//! pronunciation item opens a new segment when the speaker changes, when
//! more than a second of silence precedes it, when the running span passes
//! the caller's cap, when a sentence just ended past half the cap, or when
//! the accumulator is empty; otherwise it is appended.  Punctuation
//! attaches to the current text without a space and affects nothing else.

use vstd::prelude::*;

use crate::strutil::trim_spaces;
use crate::transcribe::items::{items_view, ItemView, RawTranscriptItem};
use crate::transcribe::{SegView, TranscriptSegment};

verus! {

/// Milliseconds of silence beyond which two words never share a segment.
pub const TIME_GAP_MS: u64 = 1000;

/// The running accumulator of the segmentation fold.
pub struct SegAccView {
    pub text: Seq<char>,
    pub start: Option<u64>,
    pub end: Option<u64>,
    pub speaker: Option<Seq<char>>,
    pub confidences: Seq<u64>,
}

pub open spec fn init_acc() -> SegAccView {
    SegAccView {
        text: Seq::empty(),
        start: None,
        end: None,
        speaker: None,
        confidences: Seq::empty(),
    }
}

/// Sum of a confidence list.
pub open spec fn sum_seq(s: Seq<u64>) -> int
    decreases s.len(),
{
    if s.len() == 0 {
        0
    } else {
        sum_seq(s.drop_last()) + s.last()
    }
}

/// Arithmetic mean of a confidence list; an empty list has no mean,
/// which is distinct from a mean of zero.
pub open spec fn mean_spec(s: Seq<u64>) -> Option<u64> {
    if s.len() == 0 {
        None
    } else {
        Some((sum_seq(s) / (s.len() as int)) as u64)
    }
}

/// The mean of an empty confidence list is "no value", not zero.
pub proof fn lemma_mean_of_empty_is_none()
    ensures
        mean_spec(Seq::<u64>::empty()) is None,
{
}

pub open spec fn speaker_changed(acc: SegAccView, it: ItemView) -> bool {
    acc.speaker != it.speaker_label
}

/// More than a second between the known end of the accumulator and the
/// known start of the item.  A gap of exactly one second does not split.
pub open spec fn time_gap(acc: SegAccView, it: ItemView) -> bool {
    match (it.start_ms(), acc.end) {
        (Some(s), Some(e)) => s > e + TIME_GAP_MS,
        _ => false,
    }
}

/// The item starts more than `max_ms` after the segment began.
pub open spec fn segment_too_long(acc: SegAccView, it: ItemView, max_ms: u64) -> bool {
    match (acc.start, it.start_ms()) {
        (Some(ss), Some(cs)) => cs > ss + max_ms,
        _ => false,
    }
}

pub open spec fn ends_sentence(text: Seq<char>) -> bool {
    text.len() > 0 && (text.last() == '.' || text.last() == '!' || text.last() == '?')
}

/// A sentence just ended and the segment already spans more than half the
/// cap, so this is a natural place to break.
pub open spec fn natural_break(acc: SegAccView, it: ItemView, max_ms: u64) -> bool {
    ends_sentence(it.content) && match (acc.start, it.start_ms()) {
        (Some(ss), Some(cs)) => cs > ss + max_ms / 2,
        _ => false,
    }
}

pub open spec fn should_split(acc: SegAccView, it: ItemView, max_ms: u64) -> bool {
    ||| speaker_changed(acc, it)
    ||| time_gap(acc, it)
    ||| segment_too_long(acc, it, max_ms)
    ||| natural_break(acc, it, max_ms)
    ||| acc.text.len() == 0
}

/// An accumulator becomes a segment only once it has text and both times.
pub open spec fn can_close(acc: SegAccView) -> bool {
    acc.text.len() > 0 && acc.start is Some && acc.end is Some
}

pub open spec fn close_acc(acc: SegAccView) -> SegView {
    SegView {
        start_time: acc.start.unwrap(),
        end_time: acc.end.unwrap(),
        text: trim_spaces(acc.text),
        confidence: mean_spec(acc.confidences),
        speaker_id: acc.speaker,
    }
}

/// The accumulator an item starts a fresh segment with.
pub open spec fn fresh_acc(it: ItemView) -> SegAccView {
    SegAccView {
        text: it.content,
        start: it.start_ms(),
        end: it.end_ms(),
        speaker: it.speaker_label,
        confidences: match it.conf_millionths() {
            Some(c) => seq![c],
            None => Seq::empty(),
        },
    }
}

/// Absorb an item into the open segment: join the text with a space,
/// advance the end time only when the item brings one (a known end is
/// never overwritten by an absent one), and record its confidence.
pub open spec fn append_acc(acc: SegAccView, it: ItemView) -> SegAccView {
    SegAccView {
        text: if acc.text.len() > 0 {
            acc.text.push(' ') + it.content
        } else {
            acc.text + it.content
        },
        start: acc.start,
        end: match it.end_ms() {
            Some(e) => Some(e),
            None => acc.end,
        },
        speaker: acc.speaker,
        confidences: match it.conf_millionths() {
            Some(c) => acc.confidences.push(c),
            None => acc.confidences,
        },
    }
}

/// One step of the fold.
pub open spec fn step(segs: Seq<SegView>, acc: SegAccView, it: ItemView, max_ms: u64) -> (
    Seq<SegView>, SegAccView) {
    if it.is_pronunciation() {
        if should_split(acc, it, max_ms) {
            (
                if can_close(acc) {
                    segs.push(close_acc(acc))
                } else {
                    segs
                },
                fresh_acc(it),
            )
        } else {
            (segs, append_acc(acc, it))
        }
    } else if it.is_punctuation() {
        (
            segs,
            SegAccView {
                text: acc.text + it.content,
                start: acc.start,
                end: acc.end,
                speaker: acc.speaker,
                confidences: acc.confidences,
            },
        )
    } else {
        (segs, acc)
    }
}

/// The fold over a whole item sequence.
pub open spec fn run(items: Seq<ItemView>, max_ms: u64) -> (Seq<SegView>, SegAccView)
    decreases items.len(),
{
    if items.len() == 0 {
        (Seq::empty(), init_acc())
    } else {
        let prior = run(items.drop_last(), max_ms);
        step(prior.0, prior.1, items.last(), max_ms)
    }
}

/// The finished segment list: the fold's output, with the still-open
/// accumulator closed at end of stream if it has text and both times.
pub open spec fn segments_of(items: Seq<ItemView>, max_ms: u64) -> Seq<SegView> {
    let folded = run(items, max_ms);
    if can_close(folded.1) {
        folded.0.push(close_acc(folded.1))
    } else {
        folded.0
    }
}

pub open spec fn segs_view(v: Seq<TranscriptSegment>) -> Seq<SegView> {
    v.map_values(|s: TranscriptSegment| s@)
}

pub broadcast proof fn lemma_run_unfold(items: Seq<ItemView>, i: int, max_ms: u64)
    requires
        0 <= i < items.len(),
    ensures
        #[trigger] run(items.take(i + 1), max_ms) == step(
            run(items.take(i), max_ms).0,
            run(items.take(i), max_ms).1,
            items[i],
            max_ms,
        ),
{
    assert(items.take(i + 1).drop_last() =~= items.take(i));
    assert(items.take(i + 1).last() == items[i]);
    assert(items.take(i + 1).len() == i + 1);
}

pub proof fn lemma_sum_bound(s: Seq<u64>)
    ensures
        0 <= sum_seq(s) <= s.len() * (u64::MAX as int),
    decreases s.len(),
{
    if s.len() > 0 {
        lemma_sum_bound(s.drop_last());
        assert((s.len() - 1) * (u64::MAX as int) + (u64::MAX as int) == s.len() * (
        u64::MAX as int)) by (nonlinear_arith);
    }
}

/// Mean of the values gathered so far.  The result of averaging a list is
/// a pure function of the list, so aggregating the same list a second
/// time yields the same value; an empty list yields nothing, not zero.
pub fn average_confidence(confidences: &Vec<u64>) -> (r: Option<u64>)
    ensures
        r == mean_spec(confidences@),
        confidences@.len() == 0 <==> r is None,
{
    if confidences.len() == 0 {
        return None;
    }
    let mut total: u128 = 0;
    let mut i: usize = 0;
    while i < confidences.len()
        invariant
            i <= confidences@.len(),
            total == sum_seq(confidences@.take(i as int)),
            total <= (i as int) * (u64::MAX as int),
        decreases confidences@.len() - i,
    {
        proof {
            assert(confidences@.take(i + 1).drop_last() =~= confidences@.take(i as int));
            lemma_sum_bound(confidences@.take(i + 1));
            assert((i as int) * (u64::MAX as int) + (u64::MAX as int) == (i + 1) * (
            u64::MAX as int)) by (nonlinear_arith);
            assert((i + 1) * (u64::MAX as int) < u128::MAX) by (nonlinear_arith)
                requires
                    i + 1 <= usize::MAX,
            ;
        }
        total = total + confidences[i] as u128;
        i += 1;
    }
    proof {
        assert(confidences@.take(confidences@.len() as int) =~= confidences@);
        let n = confidences@.len() as int;
        assert(sum_seq(confidences@) / n <= u64::MAX as int) by (nonlinear_arith)
            requires
                n >= 1,
                0 <= sum_seq(confidences@) <= n * (u64::MAX as int),
        ;
    }
    let n = confidences.len() as u128;
    Some((total / n) as u64)
}

/// The confidences of the segments that have one, in order.
pub open spec fn seg_confidences(segs: Seq<SegView>) -> Seq<u64>
    decreases segs.len(),
{
    if segs.len() == 0 {
        Seq::empty()
    } else {
        let prefix = seg_confidences(segs.drop_last());
        match segs.last().confidence {
            Some(c) => prefix.push(c),
            None => prefix,
        }
    }
}

/// The overall job confidence: the mean of the per-segment means.
pub open spec fn overall_confidence(segs: Seq<SegView>) -> Option<u64> {
    mean_spec(seg_confidences(segs))
}

fn ends_sentence_exec(text: &String) -> (r: bool)
    ensures
        r == ends_sentence(text@),
{
    let len = text.as_str().unicode_len();
    if len == 0 {
        return false;
    }
    let c = text.as_str().get_char(len - 1);
    c == '.' || c == '!' || c == '?'
}

fn clone_opt_string(s: &Option<String>) -> (r: Option<String>)
    ensures
        crate::strutil::opt_str_view(&r) == crate::strutil::opt_str_view(s),
{
    match s {
        Some(x) => Some(x.clone()),
        None => None,
    }
}

/// Fold the raw items into the finished segment list, exactly as
/// [`segments_of`] describes.
pub fn build_segments(items: &Vec<RawTranscriptItem>, max_ms: u64) -> (segs: Vec<
    TranscriptSegment>)
    ensures
        segs_view(segs@) == segments_of(items_view(items@), max_ms),
{
    let ghost iv = items_view(items@);
    let mut segs: Vec<TranscriptSegment> = Vec::new();
    let mut cur_text = String::new();
    let mut cur_start: Option<u64> = None;
    let mut cur_end: Option<u64> = None;
    let mut confidences: Vec<u64> = Vec::new();
    let mut cur_speaker: Option<String> = None;
    let mut i: usize = 0;
    while i < items.len()
        invariant
            iv == items_view(items@),
            iv.len() == items@.len(),
            i <= items@.len(),
            segs_view(segs@) == run(iv.take(i as int), max_ms).0,
            run(iv.take(i as int), max_ms).1 == (SegAccView {
                text: cur_text@,
                start: cur_start,
                end: cur_end,
                speaker: crate::strutil::opt_str_view(&cur_speaker),
                confidences: confidences@,
            }),
        decreases items@.len() - i,
    {
        proof {
            lemma_run_unfold(iv, i as int, max_ms);
            assert(iv[i as int] == items@[i as int]@);
        }
        let ghost prior_segs = run(iv.take(i as int), max_ms).0;
        let ghost prior_acc = run(iv.take(i as int), max_ms).1;
        let ghost it = iv[i as int];
        let item = &items[i];
        if crate::transcribe::items::is_pronunciation_exec(item) {
            let start_time = crate::transcribe::items::parse_opt_ms(&item.start_time);
            let end_time = crate::transcribe::items::parse_opt_ms(&item.end_time);
            let confidence = crate::transcribe::items::parse_opt_millionths(
                &item.confidence);
            let changed = !crate::strutil::opt_str_eq(&cur_speaker, &item.speaker_label);
            let gap = match (start_time, cur_end) {
                (Some(s), Some(e)) => (s as u128) > (e as u128) + (TIME_GAP_MS as u128),
                _ => false,
            };
            let too_long = match (cur_start, start_time) {
                (Some(ss), Some(cs)) => (cs as u128) > (ss as u128) + (max_ms as u128),
                _ => false,
            };
            let natural = ends_sentence_exec(&item.content) && match (cur_start,
                start_time) {
                (Some(ss), Some(cs)) => (cs as u128) > (ss as u128) + ((max_ms / 2)
                    as u128),
                _ => false,
            };
            let is_empty = cur_text.as_str().unicode_len() == 0;
            proof {
                assert(changed == speaker_changed(prior_acc, it));
                assert(gap == time_gap(prior_acc, it));
                assert(too_long == segment_too_long(prior_acc, it, max_ms));
                assert(natural == natural_break(prior_acc, it, max_ms));
            }
            if changed || gap || too_long || natural || is_empty {
                if !is_empty {
                    if let (Some(st), Some(en)) = (cur_start, cur_end) {
                        let seg = TranscriptSegment {
                            start_time: st,
                            end_time: en,
                            text: crate::strutil::trim_spaces_exec(cur_text.as_str()),
                            confidence: average_confidence(&confidences),
                            speaker_id: clone_opt_string(&cur_speaker),
                        };
                        proof {
                            assert(seg@ == close_acc(prior_acc));
                        }
                        segs.push(seg);
                        proof {
                            assert(segs_view(segs@) =~= prior_segs.push(close_acc(
                                prior_acc)));
                        }
                    }
                }
                cur_text = item.content.clone();
                cur_start = start_time;
                cur_end = end_time;
                confidences = match confidence {
                    Some(c) => {
                        let mut one: Vec<u64> = Vec::new();
                        one.push(c);
                        one
                    },
                    None => Vec::new(),
                };
                cur_speaker = clone_opt_string(&item.speaker_label);
                proof {
                    if confidence is Some {
                        assert(confidences@ =~= seq![confidence.unwrap()]);
                    } else {
                        assert(confidences@ =~= Seq::<u64>::empty());
                    }
                    assert(fresh_acc(it) == (SegAccView {
                        text: cur_text@,
                        start: cur_start,
                        end: cur_end,
                        speaker: crate::strutil::opt_str_view(&cur_speaker),
                        confidences: confidences@,
                    }));
                }
            } else {
                let ghost text_before = cur_text@;
                if !is_empty {
                    cur_text.append(" ");
                }
                cur_text.append(item.content.as_str());
                proof {
                    if text_before.len() > 0 {
                        assert(text_before.push(' ') =~= text_before + " "@) by {
                            reveal_strlit(" ");
                        }
                        assert(cur_text@ == text_before + " "@ + it.content);
                        assert(text_before.push(' ') + it.content =~= text_before + " "@
                            + it.content);
                    } else {
                        assert(text_before =~= Seq::<char>::empty());
                        assert(cur_text@ =~= text_before + it.content);
                    }
                }
                cur_end = match end_time {
                    Some(e) => Some(e),
                    None => cur_end,
                };
                if let Some(c) = confidence {
                    confidences.push(c);
                }
                proof {
                    assert(append_acc(prior_acc, it) == (SegAccView {
                        text: cur_text@,
                        start: cur_start,
                        end: cur_end,
                        speaker: crate::strutil::opt_str_view(&cur_speaker),
                        confidences: confidences@,
                    }));
                }
            }
        } else if crate::transcribe::items::is_punctuation_exec(item) {
            cur_text.append(item.content.as_str());
        }
        i += 1;
    }
    proof {
        assert(iv.take(items@.len() as int) =~= iv);
    }
    let final_empty = cur_text.as_str().unicode_len() == 0;
    if !final_empty {
        if let (Some(st), Some(en)) = (cur_start, cur_end) {
            let seg = TranscriptSegment {
                start_time: st,
                end_time: en,
                text: crate::strutil::trim_spaces_exec(cur_text.as_str()),
                confidence: average_confidence(&confidences),
                speaker_id: clone_opt_string(&cur_speaker),
            };
            proof {
                assert(seg@ == close_acc(run(iv, max_ms).1));
            }
            segs.push(seg);
            proof {
                assert(segs_view(segs@) =~= segments_of(iv, max_ms));
            }
        }
    }
    segs
}

} // verus!
