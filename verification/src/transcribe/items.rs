//! The raw annotation stream: one item per token the recognizer emitted,
//! and the word-level timestamp list derived from it.

use vstd::prelude::*;

use crate::numeric::{parse_millionths, parse_ms};
use crate::strutil::opt_str_view;
use crate::strutil::str_eq;

verus! {

/// One token of the raw annotation document, exactly as the service wrote
/// it: times and confidence are still decimal text, and any of them may be
/// absent.  Items arrive in temporal order.
#[derive(Debug, Clone)]
pub struct RawTranscriptItem {
    /// "pronunciation" for a recognized word, "punctuation" for inserted
    /// punctuation; anything else is ignored.
    pub item_type: String,
    pub start_time: Option<String>,
    pub end_time: Option<String>,
    /// The best alternative's literal content.
    pub content: String,
    /// The best alternative's confidence, decimal text in [0, 1].
    pub confidence: Option<String>,
    pub speaker_label: Option<String>,
}

/// Ghost image of a [`RawTranscriptItem`].
pub struct ItemView {
    pub item_type: Seq<char>,
    pub start_time: Option<Seq<char>>,
    pub end_time: Option<Seq<char>>,
    pub content: Seq<char>,
    pub confidence: Option<Seq<char>>,
    pub speaker_label: Option<Seq<char>>,
}

impl View for RawTranscriptItem {
    type V = ItemView;

    open spec fn view(&self) -> ItemView {
        ItemView {
            item_type: self.item_type@,
            start_time: opt_str_view(&self.start_time),
            end_time: opt_str_view(&self.end_time),
            content: self.content@,
            confidence: opt_str_view(&self.confidence),
            speaker_label: opt_str_view(&self.speaker_label),
        }
    }
}

impl ItemView {
    pub open spec fn is_pronunciation(self) -> bool {
        self.item_type == "pronunciation"@
    }

    pub open spec fn is_punctuation(self) -> bool {
        self.item_type == "punctuation"@
    }

    /// Start time in whole milliseconds, when present and readable.
    pub open spec fn start_ms(self) -> Option<u64> {
        match self.start_time {
            Some(t) => parse_ms(t),
            None => None,
        }
    }

    /// End time in whole milliseconds, when present and readable.
    pub open spec fn end_ms(self) -> Option<u64> {
        match self.end_time {
            Some(t) => parse_ms(t),
            None => None,
        }
    }

    /// Confidence in millionths, when present and readable.
    pub open spec fn conf_millionths(self) -> Option<u64> {
        match self.confidence {
            Some(c) => parse_millionths(c),
            None => None,
        }
    }
}

/// The views of a vector of raw items, in order.
pub open spec fn items_view(v: Seq<RawTranscriptItem>) -> Seq<ItemView> {
    v.map_values(|it: RawTranscriptItem| it@)
}

/// One word with its timing, derived from a pronunciation item whose
/// times both parsed.  Created once, never merged or dropped.
#[derive(Debug, Clone)]
pub struct WordTimestamp {
    pub word: String,
    pub start_time: u64,
    pub end_time: u64,
    pub confidence: Option<u64>,
    pub speaker_id: Option<String>,
}

/// Ghost image of a [`WordTimestamp`].
pub struct WordView {
    pub word: Seq<char>,
    pub start_time: u64,
    pub end_time: u64,
    pub confidence: Option<u64>,
    pub speaker_id: Option<Seq<char>>,
}

impl View for WordTimestamp {
    type V = WordView;

    open spec fn view(&self) -> WordView {
        WordView {
            word: self.word@,
            start_time: self.start_time,
            end_time: self.end_time,
            confidence: self.confidence,
            speaker_id: opt_str_view(&self.speaker_id),
        }
    }
}

pub open spec fn words_view(v: Seq<WordTimestamp>) -> Seq<WordView> {
    v.map_values(|w: WordTimestamp| w@)
}

/// A pronunciation item that yields a word: both times present and readable.
pub open spec fn is_timed_word(it: ItemView) -> bool {
    it.is_pronunciation() && it.start_ms() is Some && it.end_ms() is Some
}

pub open spec fn word_of(it: ItemView) -> WordView {
    WordView {
        word: it.content,
        start_time: it.start_ms().unwrap(),
        end_time: it.end_ms().unwrap(),
        confidence: it.conf_millionths(),
        speaker_id: it.speaker_label,
    }
}

/// The word list an item sequence yields: every timed pronunciation item,
/// once, in source order; nothing else.
pub open spec fn words_of(items: Seq<ItemView>) -> Seq<WordView>
    decreases items.len(),
{
    if items.len() == 0 {
        Seq::empty()
    } else {
        let prefix = words_of(items.drop_last());
        if is_timed_word(items.last()) {
            prefix.push(word_of(items.last()))
        } else {
            prefix
        }
    }
}

/// Exec test for "pronunciation".
pub fn is_pronunciation_exec(item: &RawTranscriptItem) -> (r: bool)
    ensures
        r == item@.is_pronunciation(),
{
    str_eq(item.item_type.as_str(), "pronunciation")
}

/// Exec test for "punctuation".
pub fn is_punctuation_exec(item: &RawTranscriptItem) -> (r: bool)
    ensures
        r == item@.is_punctuation(),
{
    str_eq(item.item_type.as_str(), "punctuation")
}

/// Read an optional decimal-text time as whole milliseconds.
pub fn parse_opt_ms(t: &Option<String>) -> (r: Option<u64>)
    ensures
        r == (match opt_str_view(t) {
            Some(s) => parse_ms(s),
            None => None::<u64>,
        }),
{
    match t {
        Some(s) => crate::numeric::parse_decimal_scaled(s.as_str(), 3),
        None => None,
    }
}

/// Read an optional decimal-text confidence as millionths.
pub fn parse_opt_millionths(t: &Option<String>) -> (r: Option<u64>)
    ensures
        r == (match opt_str_view(t) {
            Some(s) => parse_millionths(s),
            None => None::<u64>,
        }),
{
    match t {
        Some(s) => crate::numeric::parse_decimal_scaled(s.as_str(), 6),
        None => None,
    }
}

fn clone_opt_string(s: &Option<String>) -> (r: Option<String>)
    ensures
        opt_str_view(&r) == opt_str_view(s),
{
    match s {
        Some(x) => Some(x.clone()),
        None => None,
    }
}

/// First pass over the stream: extract one timestamped word from every
/// pronunciation item whose start and end times both read as numbers.
/// Items that fail to read contribute nothing and raise no error.
pub fn extract_words(items: &Vec<RawTranscriptItem>) -> (words: Vec<WordTimestamp>)
    ensures
        words_view(words@) == words_of(items_view(items@)),
{
    let ghost iv = items_view(items@);
    let mut words: Vec<WordTimestamp> = Vec::new();
    let mut i: usize = 0;
    while i < items.len()
        invariant
            iv == items_view(items@),
            iv.len() == items@.len(),
            i <= items@.len(),
            words_view(words@) == words_of(iv.take(i as int)),
        decreases items@.len() - i,
    {
        proof {
            assert(iv[i as int] == items@[i as int]@);
            assert(iv.take(i + 1).drop_last() =~= iv.take(i as int));
            assert(iv.take(i + 1).last() == iv[i as int]);
        }
        let item = &items[i];
        if is_pronunciation_exec(item) {
            let start = parse_opt_ms(&item.start_time);
            let end = parse_opt_ms(&item.end_time);
            if let (Some(start_time), Some(end_time)) = (start, end) {
                let w = WordTimestamp {
                    word: item.content.clone(),
                    start_time,
                    end_time,
                    confidence: parse_opt_millionths(&item.confidence),
                    speaker_id: clone_opt_string(&item.speaker_label),
                };
                proof {
                    assert(w@ == word_of(iv[i as int]));
                }
                words.push(w);
                proof {
                    assert(words_view(words@) =~= words_of(iv.take(i + 1)));
                }
            } else {
                proof {
                    assert(!is_timed_word(iv[i as int]));
                    assert(words_view(words@) =~= words_of(iv.take(i + 1)));
                }
            }
        } else {
            proof {
                assert(!is_timed_word(iv[i as int]));
                assert(words_view(words@) =~= words_of(iv.take(i + 1)));
            }
        }
        i += 1;
    }
    proof {
        assert(iv.take(items@.len() as int) =~= iv);
    }
    words
}

} // verus!
