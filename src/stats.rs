//! The aggregator: per-word and per-document occurrence counts over all
//! ingested documents.

use vstd::prelude::*;

use std::collections::HashMap;

use crate::chars::chars_of;
use crate::text::{lemma_tokens_len, lemma_tokens_normalized, tokens, word_views, Text, TextId, Word};

verus! {

broadcast use vstd::std_specs::hash::group_hash_axioms;

pub const FNV_OFFSET: u64 = 0xcbf29ce484222325;

pub const FNV_PRIME: u64 = 0x100000001b3;

/// The 64-bit FNV-1a hash of the code points of a word.
pub open spec fn word_hash(s: Seq<char>) -> u64
    decreases s.len(),
{
    if s.len() == 0 {
        FNV_OFFSET
    } else {
        (word_hash(s.drop_last()) ^ (s.last() as u32 as u64)).wrapping_mul(FNV_PRIME)
    }
}

fn hash_word(word: &Word) -> (r: u64)
    ensures
        r == word_hash(word@),
{
    let cs = chars_of(word.as_str());
    let mut h: u64 = FNV_OFFSET;
    let mut i: usize = 0;
    assert(cs@.subrange(0, 0) =~= Seq::<char>::empty());
    while i < cs.len()
        invariant
            i <= cs@.len(),
            h == word_hash(cs@.subrange(0, i as int)),
        decreases cs.len() - i,
    {
        assert(cs@.subrange(0, i + 1).drop_last() =~= cs@.subrange(0, i as int));
        h = (h ^ (cs[i] as u32 as u64)).wrapping_mul(FNV_PRIME);
        i = i + 1;
    }
    assert(cs@.subrange(0, cs@.len() as int) =~= cs@);
    h
}

/// How often a word occurs in one document.
#[derive(Debug, Clone, Copy, PartialEq, Eq)]
pub struct DocumentCount {
    pub text_id: TextId,
    pub count: usize,
}

/// The sum of all counts.
pub open spec fn sum_counts(cs: Seq<DocumentCount>) -> nat
    decreases cs.len(),
{
    if cs.len() == 0 {
        0
    } else {
        sum_counts(cs.drop_last()) + cs.last().count as nat
    }
}

/// The sum of the counts recorded for document `id`.
pub open spec fn count_in(cs: Seq<DocumentCount>, id: usize) -> nat
    decreases cs.len(),
{
    if cs.len() == 0 {
        0
    } else {
        count_in(cs.drop_last(), id) + if cs.last().text_id.0 == id {
            cs.last().count as nat
        } else {
            0nat
        }
    }
}

pub open spec fn ids_unique(cs: Seq<DocumentCount>) -> bool {
    forall|i: int, j: int| 0 <= i < j < cs.len() ==> cs[i].text_id.0 != cs[j].text_id.0
}

pub open spec fn counts_positive(cs: Seq<DocumentCount>) -> bool {
    forall|i: int| 0 <= i < cs.len() ==> #[trigger] cs[i].count >= 1
}

proof fn lemma_count_le_sum(cs: Seq<DocumentCount>, k: int)
    requires
        0 <= k < cs.len(),
    ensures
        cs[k].count <= sum_counts(cs),
    decreases cs.len(),
{
    if k < cs.len() - 1 {
        lemma_count_le_sum(cs.drop_last(), k);
    }
}

proof fn lemma_counts_update(cs: Seq<DocumentCount>, k: int, e: DocumentCount, id: usize)
    requires
        0 <= k < cs.len(),
    ensures
        sum_counts(cs.update(k, e)) + cs[k].count == sum_counts(cs) + e.count,
        count_in(cs.update(k, e), id) + (if cs[k].text_id.0 == id {
            cs[k].count as nat
        } else {
            0nat
        }) == count_in(cs, id) + (if e.text_id.0 == id {
            e.count as nat
        } else {
            0nat
        }),
    decreases cs.len(),
{
    if k == cs.len() - 1 {
        assert(cs.update(k, e).drop_last() =~= cs.drop_last());
    } else {
        assert(cs.update(k, e).drop_last() =~= cs.drop_last().update(k, e));
        lemma_counts_update(cs.drop_last(), k, e, id);
    }
}

proof fn lemma_count_in_absent(cs: Seq<DocumentCount>, id: usize)
    requires
        forall|i: int| 0 <= i < cs.len() ==> #[trigger] cs[i].text_id.0 != id,
    ensures
        count_in(cs, id) == 0,
    decreases cs.len(),
{
    if cs.len() > 0 {
        lemma_count_in_absent(cs.drop_last(), id);
    }
}

proof fn lemma_count_in_entry(cs: Seq<DocumentCount>, k: int)
    requires
        ids_unique(cs),
        0 <= k < cs.len(),
    ensures
        count_in(cs, cs[k].text_id.0) == cs[k].count,
    decreases cs.len(),
{
    let rest = cs.drop_last();
    if k == cs.len() - 1 {
        lemma_count_in_absent(rest, cs[k].text_id.0);
    } else {
        lemma_count_in_entry(rest, k);
    }
}

/// Aggregate occurrence data for one word across all documents.
#[derive(Debug, Clone)]
pub struct WordStats {
    word: Word,
    counts: Vec<DocumentCount>,
    total: usize,
}

impl WordStats {
    pub closed spec fn word_view(&self) -> Seq<char> {
        self.word@
    }

    /// One entry per document that holds the word, in order of first occurrence.
    pub closed spec fn entries(&self) -> Seq<DocumentCount> {
        self.counts@
    }

    /// The number of occurrences over all documents.
    pub open spec fn global(&self) -> nat {
        sum_counts(self.entries())
    }

    /// Whether document `id` is among the documents that hold the word.
    pub open spec fn has_text(&self, id: usize) -> bool {
        exists|k: int| 0 <= k < self.entries().len() && #[trigger] self.entries()[k].text_id.0 == id
    }

    /// The number of occurrences in document `id`.
    pub open spec fn count_spec(&self, id: usize) -> nat {
        count_in(self.entries(), id)
    }

    pub closed spec fn wf(&self) -> bool {
        &&& self.counts@.len() > 0
        &&& ids_unique(self.counts@)
        &&& counts_positive(self.counts@)
        &&& self.total == sum_counts(self.counts@)
    }

    /// The statistics of a word seen once, in document `text_id`.
    pub fn new(text_id: TextId, word: Word) -> (r: WordStats)
        ensures
            r.wf(),
            r.word_view() == word@,
            r.entries() == seq![DocumentCount { text_id, count: 1 }],
            r.global() == 1,
            forall|id: usize| #[trigger] r.count_spec(id) == if id == text_id.0 { 1nat } else { 0nat },
    {
        let mut counts: Vec<DocumentCount> = Vec::new();
        counts.push(DocumentCount { text_id, count: 1 });
        let r = WordStats { word, counts, total: 1 };
        assert(r.counts@.drop_last() =~= Seq::<DocumentCount>::empty());
        assert(sum_counts(Seq::<DocumentCount>::empty()) == 0);
        assert(sum_counts(r.counts@) == 1);
        assert forall|id: usize| #[trigger]
            r.count_spec(id) == if id == text_id.0 { 1nat } else { 0nat } by {
            assert(count_in(Seq::<DocumentCount>::empty(), id) == 0);
            assert(r.count_spec(id) == count_in(r.counts@, id));
        }
        r
    }

    pub fn word(&self) -> (r: &Word)
        ensures
            r@ == self.word_view(),
    {
        &self.word
    }

    /// Where document `text_id` stands among the entries, if it holds the word.
    fn find_text(&self, text_id: usize) -> (r: Option<usize>)
        ensures
            match r {
                Some(k) => k < self.counts@.len() && self.counts@[k as int].text_id.0 == text_id,
                None => forall|j: int|
                    0 <= j < self.counts@.len() ==> #[trigger] self.counts@[j].text_id.0 != text_id,
            },
    {
        // the latest document is the likeliest
        let mut i: usize = self.counts.len();
        while i > 0
            invariant
                i <= self.counts@.len(),
                forall|j: int|
                    i <= j < self.counts@.len() ==> #[trigger] self.counts@[j].text_id.0
                        != text_id,
            decreases i,
        {
            i = i - 1;
            if self.counts[i].text_id.0 == text_id {
                return Some(i);
            }
        }
        None
    }

    /// The number of occurrences in document `text_id`.
    pub fn count(&self, text_id: &TextId) -> (r: usize)
        requires
            self.wf(),
        ensures
            r == self.count_spec(text_id.0),
    {
        match self.find_text(text_id.0) {
            Some(k) => {
                proof {
                    lemma_count_in_entry(self.counts@, k as int);
                }
                self.counts[k].count
            },
            None => {
                proof {
                    lemma_count_in_absent(self.counts@, text_id.0);
                }
                0
            },
        }
    }

    /// The number of occurrences over all documents.
    pub fn global_count(&self) -> (r: usize)
        requires
            self.wf(),
        ensures
            r == self.global(),
    {
        self.total
    }

    /// The documents that hold the word, in order of first occurrence.
    pub fn text_ids(&self) -> (r: Vec<TextId>)
        ensures
            r@.len() == self.entries().len(),
            forall|k: int| 0 <= k < r@.len() ==> #[trigger] r@[k] == self.entries()[k].text_id,
    {
        let mut out: Vec<TextId> = Vec::new();
        let mut i: usize = 0;
        while i < self.counts.len()
            invariant
                i <= self.counts@.len(),
                out@.len() == i,
                forall|k: int| 0 <= k < i ==> #[trigger] out@[k] == self.counts@[k].text_id,
            decreases self.counts.len() - i,
        {
            out.push(self.counts[i].text_id);
            i = i + 1;
        }
        out
    }

    /// The per-document counts, in order of first occurrence.
    pub fn document_counts(&self) -> (r: &Vec<DocumentCount>)
        ensures
            r@ == self.entries(),
    {
        &self.counts
    }

    /// Records one more occurrence in document `text_id`.
    pub fn count_text(&mut self, text_id: TextId)
        requires
            old(self).wf(),
            old(self).global() < usize::MAX,
        ensures
            final(self).wf(),
            final(self).word_view() == old(self).word_view(),
            final(self).global() == old(self).global() + 1,
            forall|id: usize| #[trigger]
                final(self).count_spec(id) == old(self).count_spec(id) + if id == text_id.0 {
                    1nat
                } else {
                    0nat
                },
            forall|id: usize| #[trigger]
                final(self).has_text(id) == (old(self).has_text(id) || id == text_id.0),
            final(self).entries().len() == old(self).entries().len() + if old(self).has_text(
                text_id.0,
            ) {
                0int
            } else {
                1int
            },
    {
        self.incr_count(text_id);
    }

    /// Records one more occurrence in document `text_id`.
    pub fn incr_count(&mut self, text_id: TextId)
        requires
            old(self).wf(),
            old(self).global() < usize::MAX,
        ensures
            final(self).wf(),
            final(self).word_view() == old(self).word_view(),
            final(self).global() == old(self).global() + 1,
            forall|id: usize| #[trigger]
                final(self).count_spec(id) == old(self).count_spec(id) + if id == text_id.0 {
                    1nat
                } else {
                    0nat
                },
            forall|id: usize| #[trigger]
                final(self).has_text(id) == (old(self).has_text(id) || id == text_id.0),
            final(self).entries().len() == old(self).entries().len() + if old(self).has_text(
                text_id.0,
            ) {
                0int
            } else {
                1int
            },
    {
        let ghost before = self.counts@;
        self.total = self.total + 1;
        match self.find_text(text_id.0) {
            Some(k) => {
                proof {
                    lemma_count_le_sum(before, k as int);
                }
                let e = DocumentCount { text_id, count: self.counts[k].count + 1 };
                self.counts.set(k, e);
                proof {
                    assert forall|id: usize| #[trigger]
                        count_in(self.counts@, id) == count_in(before, id) + if id == text_id.0 {
                            1nat
                        } else {
                            0nat
                        } by {
                        lemma_counts_update(before, k as int, e, id);
                    }
                    lemma_counts_update(before, k as int, e, text_id.0);
                    assert(old(self).entries()[k as int].text_id.0 == text_id.0);
                    assert forall|id: usize| #[trigger]
                        self.has_text(id) == (old(self).has_text(id) || id == text_id.0) by {
                        if old(self).has_text(id) {
                            let j = choose|j: int| 0 <= j < old(self).entries().len() && #[trigger] old(self).entries()[j].text_id.0 == id;
                            assert(self.entries()[j].text_id.0 == id);
                        }
                        if self.has_text(id) {
                            let j = choose|j: int| 0 <= j < self.entries().len() && #[trigger] self.entries()[j].text_id.0 == id;
                            assert(old(self).entries()[j].text_id.0 == id);
                        }
                        if id == text_id.0 {
                            assert(self.entries()[k as int].text_id.0 == id);
                        }
                    }
                }
            },
            None => {
                let e = DocumentCount { text_id, count: 1 };
                self.counts.push(e);
                assert(self.counts@.drop_last() =~= before);
                assert(!old(self).has_text(text_id.0));
                assert forall|id: usize| #[trigger]
                    self.has_text(id) == (old(self).has_text(id) || id == text_id.0) by {
                    if old(self).has_text(id) {
                        let j = choose|j: int| 0 <= j < old(self).entries().len() && #[trigger] old(self).entries()[j].text_id.0 == id;
                        assert(self.entries()[j].text_id.0 == id);
                    }
                    if self.has_text(id) {
                        let j = choose|j: int| 0 <= j < self.entries().len() && #[trigger] self.entries()[j].text_id.0 == id;
                        if j < before.len() {
                            assert(old(self).entries()[j].text_id.0 == id);
                        }
                    }
                    if id == text_id.0 {
                        assert(self.entries()[before.len() as int].text_id.0 == id);
                    }
                }
            },
        }
    }
}

/// The sum of the global counts of all entries.
pub open spec fn sum_globals(ws: Seq<WordStats>) -> nat
    decreases ws.len(),
{
    if ws.len() == 0 {
        0
    } else {
        sum_globals(ws.drop_last()) + ws.last().global()
    }
}

/// The occurrences of word `w` in document `id` over all entries.
pub open spec fn count_table(ws: Seq<WordStats>, w: Seq<char>, id: usize) -> nat
    decreases ws.len(),
{
    if ws.len() == 0 {
        0
    } else {
        count_table(ws.drop_last(), w, id) + if ws.last().word_view() == w {
            ws.last().count_spec(id)
        } else {
            0nat
        }
    }
}

/// Each word with its global count.
pub open spec fn table_of(ws: Seq<WordStats>) -> Map<Seq<char>, nat>
    decreases ws.len(),
{
    if ws.len() == 0 {
        Map::empty()
    } else {
        table_of(ws.drop_last()).insert(ws.last().word_view(), ws.last().global())
    }
}

pub open spec fn words_unique(ws: Seq<WordStats>) -> bool {
    forall|i: int, j: int| 0 <= i < j < ws.len() ==> ws[i].word_view() != ws[j].word_view()
}

proof fn lemma_global_le_sum(ws: Seq<WordStats>, k: int)
    requires
        0 <= k < ws.len(),
    ensures
        ws[k].global() <= sum_globals(ws),
    decreases ws.len(),
{
    if k < ws.len() - 1 {
        lemma_global_le_sum(ws.drop_last(), k);
    }
}

proof fn lemma_table_update(ws: Seq<WordStats>, k: int, e: WordStats, w: Seq<char>, id: usize)
    requires
        0 <= k < ws.len(),
    ensures
        sum_globals(ws.update(k, e)) + ws[k].global() == sum_globals(ws) + e.global(),
        count_table(ws.update(k, e), w, id) + (if ws[k].word_view() == w {
            ws[k].count_spec(id)
        } else {
            0nat
        }) == count_table(ws, w, id) + (if e.word_view() == w {
            e.count_spec(id)
        } else {
            0nat
        }),
    decreases ws.len(),
{
    if k == ws.len() - 1 {
        assert(ws.update(k, e).drop_last() =~= ws.drop_last());
    } else {
        assert(ws.update(k, e).drop_last() =~= ws.drop_last().update(k, e));
        lemma_table_update(ws.drop_last(), k, e, w, id);
    }
}

/// With distinct words, the table has one key per entry, mapped to the
/// entry's global count.
proof fn lemma_table(ws: Seq<WordStats>)
    requires
        words_unique(ws),
    ensures
        table_of(ws).dom().finite(),
        table_of(ws).len() == ws.len(),
        forall|i: int|
            0 <= i < ws.len() ==> #[trigger] table_of(ws).contains_key(ws[i].word_view())
                && table_of(ws)[ws[i].word_view()] == ws[i].global(),
        forall|w: Seq<char>|
            #[trigger] table_of(ws).contains_key(w) ==> exists|i: int|
                0 <= i < ws.len() && #[trigger] ws[i].word_view() == w,
    decreases ws.len(),
{
    if ws.len() > 0 {
        let rest = ws.drop_last();
        lemma_table(rest);
        let last = ws.last();
        if table_of(rest).contains_key(last.word_view()) {
            let i = choose|i: int| 0 <= i < rest.len() && #[trigger] rest[i].word_view()
                == last.word_view();
            assert(ws[i].word_view() == ws[ws.len() - 1].word_view());
        }
        assert forall|w: Seq<char>| #[trigger] table_of(ws).contains_key(w) implies exists|i: int|
            0 <= i < ws.len() && #[trigger] ws[i].word_view() == w by {
            if w == last.word_view() {
                assert(ws[ws.len() - 1].word_view() == w);
            } else {
                let i = choose|i: int| 0 <= i < rest.len() && #[trigger] rest[i].word_view() == w;
                assert(ws[i].word_view() == w);
            }
        }
        assert forall|i: int| 0 <= i < ws.len() implies #[trigger] table_of(ws).contains_key(
            ws[i].word_view(),
        ) && table_of(ws)[ws[i].word_view()] == ws[i].global() by {
            if i < ws.len() - 1 {
                assert(rest[i] == ws[i]);
            }
        }
    }
}

/// How often `w` occurs in `ts`.
pub open spec fn occurrences(ts: Seq<Seq<char>>, w: Seq<char>) -> nat
    decreases ts.len(),
{
    if ts.len() == 0 {
        0
    } else {
        occurrences(ts.drop_last(), w) + if ts.last() == w {
            1nat
        } else {
            0nat
        }
    }
}

proof fn lemma_occurrences_concat(a: Seq<Seq<char>>, b: Seq<Seq<char>>, w: Seq<char>)
    ensures
        occurrences(a + b, w) == occurrences(a, w) + occurrences(b, w),
    decreases b.len(),
{
    if b.len() == 0 {
        assert(a + b =~= a);
    } else {
        assert((a + b).drop_last() =~= a + b.drop_last());
        lemma_occurrences_concat(a, b.drop_last(), w);
    }
}

/// The tokens of several documents, one document after the other.
pub open spec fn texts_tokens(ts: Seq<Text>) -> Seq<Seq<char>>
    decreases ts.len(),
{
    if ts.len() == 0 {
        Seq::empty()
    } else {
        texts_tokens(ts.drop_last()) + tokens(ts.last().text@)
    }
}

/// The total number of characters in the bodies of several documents.
pub open spec fn texts_len(ts: Seq<Text>) -> nat
    decreases ts.len(),
{
    if ts.len() == 0 {
        0
    } else {
        texts_len(ts.drop_last()) + ts.last().text@.len()
    }
}

proof fn lemma_texts_tokens_len(ts: Seq<Text>)
    ensures
        texts_tokens(ts).len() <= texts_len(ts),
    decreases ts.len(),
{
    if ts.len() > 0 {
        lemma_texts_tokens_len(ts.drop_last());
        lemma_tokens_len(ts.last().text@);
    }
}

/// `text` as the aggregate stores it under id `id`.
pub open spec fn stored_as(text: Text, id: usize) -> Text {
    Text { id: Some(TextId(id)), url: text.url, text: text.text, author_id: text.author_id }
}

/// `ts` as an aggregate with `n` documents stores them: under the ids
/// `n + 1`, `n + 2`, and so on.
pub open spec fn renumbered(ts: Seq<Text>, n: nat) -> Seq<Text> {
    Seq::new(ts.len(), |i: int| stored_as(ts[i], (n + i + 1) as usize))
}

/// The counts of `s` are those of its documents: what an aggregate built
/// by adding documents only holds.
pub open spec fn counts_texts(s: Stats) -> bool {
    &&& s.total_words() == texts_tokens(s.texts_view()).len()
    &&& forall|w: Seq<char>| #[trigger]
        s.global_of(w) == occurrences(texts_tokens(s.texts_view()), w)
}

/// `after` is `before` with document `text` added: stored under the next
/// id, and each of its tokens counted once more, globally and for that id.
pub open spec fn text_added(before: Stats, after: Stats, text: Text) -> bool {
    let id = before.texts_view().len() + 1;
    let ts = tokens(text.text@);
    &&& after.texts_view() == before.texts_view().push(stored_as(text, id as usize))
    &&& after.total_words() == before.total_words() + ts.len()
    &&& forall|w: Seq<char>| #[trigger]
        after.global_of(w) == before.global_of(w) + occurrences(ts, w)
    &&& forall|w: Seq<char>, i: usize| #[trigger]
        after.count_of(w, i) == before.count_of(w, i) + if i == id {
            occurrences(ts, w)
        } else {
            0nat
        }
}

/// A document as the store keeps it: keyed by (`text_id`, `author_id`).
#[derive(Debug, Clone, PartialEq, Eq)]
pub struct TextRow {
    pub text_id: usize,
    pub author_id: usize,
    pub url: String,
    pub text: String,
}

/// The occurrences of one word in one document, keyed by (`word`, `text_id`).
#[derive(Debug, Clone, PartialEq, Eq)]
pub struct WordRow {
    pub word: String,
    pub text_id: usize,
    pub count: usize,
}

/// Everything one ingestion run writes, in the order it is written.
#[derive(Debug, Clone, PartialEq, Eq)]
pub struct PersistPlan {
    pub texts: Vec<TextRow>,
    pub words: Vec<WordRow>,
}

/// Why an aggregate cannot be stored.
#[derive(Debug, Clone, Copy, PartialEq, Eq, Structural)]
pub enum PersistError {
    /// The document with this id has no author.
    MissingAuthor(TextId),
}

pub open spec fn text_row_matches(row: TextRow, text: Text, id: usize) -> bool {
    &&& row.text_id == id
    &&& text.author_id == Some(row.author_id)
    &&& row.url@ == text.url@
    &&& row.text@ == text.text@
}

pub open spec fn word_row_view(row: WordRow) -> (Seq<char>, usize, nat) {
    (row.word@, row.text_id, row.count as nat)
}

pub open spec fn word_row_views(rows: Seq<WordRow>) -> Seq<(Seq<char>, usize, nat)> {
    Seq::new(rows.len(), |i: int| word_row_view(rows[i]))
}

/// One row per document entry of word `w`.
pub open spec fn doc_rows(w: Seq<char>, cs: Seq<DocumentCount>) -> Seq<(Seq<char>, usize, nat)>
    decreases cs.len(),
{
    if cs.len() == 0 {
        Seq::empty()
    } else {
        doc_rows(w, cs.drop_last()).push((w, cs.last().text_id.0, cs.last().count as nat))
    }
}

/// The word rows of a word table, entry after entry.
pub open spec fn word_rows(ws: Seq<WordStats>) -> Seq<(Seq<char>, usize, nat)>
    decreases ws.len(),
{
    if ws.len() == 0 {
        Seq::empty()
    } else {
        word_rows(ws.drop_last()) + doc_rows(ws.last().word_view(), ws.last().entries())
    }
}

/// The sum of the counts of some rows.
pub open spec fn rows_total(rows: Seq<(Seq<char>, usize, nat)>) -> nat
    decreases rows.len(),
{
    if rows.len() == 0 {
        0
    } else {
        rows_total(rows.drop_last()) + rows.last().2
    }
}

/// The sum of the counts of the rows of word `w`.
pub open spec fn rows_total_of(rows: Seq<(Seq<char>, usize, nat)>, w: Seq<char>) -> nat
    decreases rows.len(),
{
    if rows.len() == 0 {
        0
    } else {
        rows_total_of(rows.drop_last(), w) + if rows.last().0 == w {
            rows.last().2
        } else {
            0nat
        }
    }
}

/// The number of rows with key (`w`, `id`).
pub open spec fn rows_with_key(rows: Seq<(Seq<char>, usize, nat)>, w: Seq<char>, id: usize) -> nat
    decreases rows.len(),
{
    if rows.len() == 0 {
        0
    } else {
        rows_with_key(rows.drop_last(), w, id) + if rows.last().0 == w && rows.last().1 == id {
            1nat
        } else {
            0nat
        }
    }
}

/// The aggregate of all ingested documents: the documents themselves, the
/// number of words read, and the word table.
#[derive(Debug, Clone)]
pub struct Stats {
    texts: Vec<Text>,
    word_count: usize,
    words: Vec<WordStats>,
    /// For each word hash, where the words with that hash stand in `words`.
    index: HashMap<u64, Vec<usize>>,
}

impl Stats {
    pub closed spec fn texts_view(&self) -> Seq<Text> {
        self.texts@
    }

    /// The number of words read over all documents.
    pub closed spec fn total_words(&self) -> nat {
        self.word_count as nat
    }

    /// The word table, in order of first occurrence.
    pub closed spec fn entries(&self) -> Seq<WordStats> {
        self.words@
    }

    /// Each word with its global count.
    pub open spec fn word_table(&self) -> Map<Seq<char>, nat> {
        table_of(self.entries())
    }

    /// The global count of `w`, zero for a word never seen.
    pub open spec fn global_of(&self, w: Seq<char>) -> nat {
        if self.word_table().contains_key(w) {
            self.word_table()[w]
        } else {
            0
        }
    }

    /// The occurrences of `w` in document `id`.
    pub open spec fn count_of(&self, w: Seq<char>, id: usize) -> nat {
        count_table(self.entries(), w, id)
    }

    pub closed spec fn wf(&self) -> bool {
        &&& forall|i: int| 0 <= i < self.words@.len() ==> #[trigger] self.words@[i].wf()
        &&& forall|i: int|
            0 <= i < self.words@.len() ==> #[trigger] self.words@[i].word_view().len() > 0
        &&& words_unique(self.words@)
        &&& self.word_count == sum_globals(self.words@)
        &&& forall|i: int, id: usize|
            0 <= i < self.words@.len() && #[trigger] self.words@[i].count_spec(id) > 0 ==> 1 <= id
                <= self.texts@.len()
        &&& forall|i: int|
            0 <= i < self.texts@.len() ==> #[trigger] self.texts@[i].id == Some(
                TextId((i + 1) as usize),
            )
        &&& forall|i: int|
            0 <= i < self.words@.len() ==> self.index@.contains_key(
                word_hash(#[trigger] self.words@[i].word_view()),
            ) && self.index@[word_hash(self.words@[i].word_view())]@.contains(i as usize)
        &&& forall|h: u64, j: int|
            #![trigger self.index@[h]@[j]]
            self.index@.contains_key(h) && 0 <= j < self.index@[h]@.len() ==> self.index@[h]@[j]
                < self.words@.len()
    }

    /// An empty aggregate.
    pub fn new() -> (r: Stats)
        ensures
            r.wf(),
            r.texts_view() == Seq::<Text>::empty(),
            r.total_words() == 0,
            r.word_table() == Map::<Seq<char>, nat>::empty(),
            forall|w: Seq<char>, id: usize| #[trigger] r.count_of(w, id) == 0,
            counts_texts(r),
    {
        Stats { texts: Vec::new(), word_count: 0, words: Vec::new(), index: HashMap::new() }
    }

    /// The number of distinct words.
    pub fn unique_word_count(&self) -> (r: usize)
        requires
            self.wf(),
        ensures
            r == self.word_table().len(),
            r == self.entries().len(),
    {
        proof {
            lemma_table(self.words@);
        }
        self.words.len()
    }

    /// The number of words read over all documents.
    pub fn word_count(&self) -> (r: usize)
        ensures
            r == self.total_words(),
    {
        self.word_count
    }

    /// The documents, in the order they were added.
    pub fn texts(&self) -> (r: &Vec<Text>)
        ensures
            r@ == self.texts_view(),
    {
        &self.texts
    }

    /// The word table, in order of first occurrence.
    pub fn word_stats(&self) -> (r: &Vec<WordStats>)
        ensures
            r@ == self.entries(),
    {
        &self.words
    }

    /// Where `word` stands in the word table, if it was seen.
    fn find_word(&self, word: &Word) -> (r: Option<usize>)
        requires
            self.wf(),
        ensures
            match r {
                Some(k) => k < self.words@.len() && self.words@[k as int].word_view() == word@,
                None => forall|j: int|
                    0 <= j < self.words@.len() ==> #[trigger] self.words@[j].word_view()
                        != word@,
            },
    {
        let h = hash_word(word);
        match self.index.get(&h) {
            None => {
                assert forall|j: int| 0 <= j < self.words@.len() implies #[trigger] self.words@[j].word_view()
                    != word@ by {
                    if self.words@[j].word_view() == word@ {
                        assert(self.index@.contains_key(word_hash(self.words@[j].word_view())));
                    }
                }
                None
            },
            Some(bucket) => {
                assert(self.index@.contains_key(h) && self.index@[h] == *bucket);
                let mut i: usize = 0;
                while i < bucket.len()
                    invariant
                        self.wf(),
                        self.index@.contains_key(h),
                        self.index@[h] == *bucket,
                        h == word_hash(word@),
                        i <= bucket@.len(),
                        forall|jj: int|
                            0 <= jj < i ==> self.words@[#[trigger] bucket@[jj] as int].word_view()
                                != word@,
                    decreases bucket.len() - i,
                {
                    let k = bucket[i];
                    assert(self.index@[h]@[i as int] < self.words@.len());
                    if self.words[k].word().same_as(word) {
                        return Some(k);
                    }
                    i = i + 1;
                }
                assert forall|j: int| 0 <= j < self.words@.len() implies #[trigger] self.words@[j].word_view()
                    != word@ by {
                    if self.words@[j].word_view() == word@ {
                        assert(self.words@.len() == self.words.len());
                        assert(j as usize as int == j);
                        assert(self.index@[h]@.contains(j as usize));
                        let jj = choose|jj: int| 0 <= jj < bucket@.len() && bucket@[jj] == j as usize;
                        assert(bucket@[jj] as int == j);
                        assert(self.words@[bucket@[jj] as int].word_view() != word@);
                    }
                }
                None
            },
        }
    }

    /// Folds one occurrence of `word` in document `text_id` into the table;
    /// an empty word is not recorded.
    pub fn add_word(&mut self, text_id: TextId, word: Word)
        requires
            old(self).wf(),
            1 <= text_id.0 <= old(self).texts_view().len(),
            old(self).total_words() < usize::MAX,
        ensures
            final(self).wf(),
            final(self).texts_view() == old(self).texts_view(),
            word@.len() == 0 ==> {
                &&& final(self).total_words() == old(self).total_words()
                &&& final(self).word_table() == old(self).word_table()
                &&& forall|w: Seq<char>, id: usize| #[trigger]
                    final(self).count_of(w, id) == old(self).count_of(w, id)
            },
            word@.len() > 0 ==> {
                &&& final(self).total_words() == old(self).total_words() + 1
                &&& final(self).word_table() == old(self).word_table().insert(
                    word@,
                    old(self).global_of(word@) + 1,
                )
                &&& forall|w: Seq<char>, id: usize| #[trigger]
                    final(self).count_of(w, id) == old(self).count_of(w, id) + if w == word@ && id
                        == text_id.0 {
                        1nat
                    } else {
                        0nat
                    }
            },
    {
        if word.is_empty() {
            return;
        }
        let ghost before = self.words@;
        proof {
            lemma_table(before);
        }
        match self.find_word(&word) {
            Some(k) => {
                proof {
                    lemma_global_le_sum(before, k as int);
                }
                self.words[k].count_text(text_id);
                proof {
                    let after = self.words@;
                    let e = after[k as int];
                    assert(after == before.update(k as int, e));
                    lemma_table_update(before, k as int, e, word@, text_id.0);
                    assert forall|w: Seq<char>, id: usize| #[trigger]
                        count_table(after, w, id) == count_table(before, w, id) + if w == word@
                            && id == text_id.0 {
                            1nat
                        } else {
                            0nat
                        } by {
                        lemma_table_update(before, k as int, e, w, id);
                    }
                    assert forall|i: int, id: usize|
                        0 <= i < after.len() && #[trigger] after[i].count_spec(id) > 0 implies 1
                        <= id <= self.texts@.len() by {
                        if i != k {
                            assert(after[i] == before[i]);
                        }
                    }
                    assert forall|i: int| 0 <= i < after.len() implies #[trigger] after[i].wf()
                        && after[i].word_view().len() > 0 by {
                        if i != k {
                            assert(after[i] == before[i]);
                        }
                    }
                    assert forall|i: int, j: int|
                        0 <= i < j < after.len() implies after[i].word_view()
                        != after[j].word_view() by {
                        assert(after[i].word_view() == before[i].word_view());
                        assert(after[j].word_view() == before[j].word_view());
                    }
                    lemma_table(after);
                    let m = table_of(before).insert(word@, table_of(before)[word@] + 1);
                    assert forall|x: Seq<char>| #[trigger]
                        table_of(after).contains_key(x) <==> m.contains_key(x) by {
                        if table_of(after).contains_key(x) {
                            let i = choose|i: int|
                                0 <= i < after.len() && #[trigger] after[i].word_view() == x;
                            assert(before[i].word_view() == x);
                        }
                        if table_of(before).contains_key(x) {
                            let i = choose|i: int|
                                0 <= i < before.len() && #[trigger] before[i].word_view() == x;
                            assert(after[i].word_view() == x);
                        }
                        if x == word@ {
                            assert(after[k as int].word_view() == x);
                        }
                    }
                    assert forall|x: Seq<char>| #[trigger]
                        table_of(after).contains_key(x) implies table_of(after)[x] == m[x] by {
                        let i = choose|i: int|
                            0 <= i < after.len() && #[trigger] after[i].word_view() == x;
                        assert(table_of(after).contains_key(after[i].word_view()));
                        assert(table_of(before).contains_key(before[i].word_view()));
                        assert(table_of(after)[after[i].word_view()] == after[i].global());
                        assert(table_of(before)[before[i].word_view()] == before[i].global());
                        if i != k {
                            assert(after[i] == before[i]);
                        }
                    }
                    assert(table_of(after) =~= m);
                }
            },
            None => {
                let n = self.words.len();
                let h = hash_word(&word);
                let ghost old_index = self.index@;
                let mut bucket = match self.index.remove(&h) {
                    Some(b) => b,
                    None => Vec::new(),
                };
                let ghost old_bucket = bucket@;
                assert(old_index.contains_key(h) ==> old_bucket == old_index[h]@);
                assert(!old_index.contains_key(h) ==> old_bucket == Seq::<usize>::empty());
                bucket.push(n);
                self.index.insert(h, bucket);
                assert(self.index@ == old_index.remove(h).insert(h, bucket));
                let e = WordStats::new(text_id, word);
                self.words.push(e);
                proof {
                    let after = self.words@;
                    assert(after.drop_last() =~= before);
                    assert forall|i: int| 0 <= i < after.len() implies self.index@.contains_key(
                        word_hash(#[trigger] after[i].word_view()),
                    ) && self.index@[word_hash(after[i].word_view())]@.contains(i as usize) by {
                        if i < before.len() {
                            assert(after[i] == before[i]);
                            let hi = word_hash(before[i].word_view());
                            if hi == h {
                                let jj = choose|jj: int| 0 <= jj < old_index[hi]@.len() && old_index[hi]@[jj] == i as usize;
                                assert(self.index@[h]@[jj] == i as usize);
                            }
                        } else {
                            assert(self.index@[h]@[old_bucket.len() as int] == n);
                        }
                    }
                    assert forall|g: u64, j: int|
                        self.index@.contains_key(g) && 0 <= j < self.index@[g]@.len() implies #[trigger] self.index@[g]@[j]
                            < after.len() by {
                        if g == h {
                            if j < old_bucket.len() {
                                assert(old_index[h]@[j] < before.len());
                            }
                        } else {
                            assert(old_index[g]@[j] < before.len());
                        }
                    }
                    assert(!table_of(before).contains_key(e.word_view()));
                    assert forall|w: Seq<char>, id: usize| #[trigger]
                        count_table(after, w, id) == count_table(before, w, id) + if w
                            == e.word_view() && id == text_id.0 {
                            1nat
                        } else {
                            0nat
                        } by {
                        assert(e.count_spec(id) == if id == text_id.0 {
                            1nat
                        } else {
                            0nat
                        });
                    }
                    assert forall|i: int, id: usize|
                        0 <= i < after.len() && #[trigger] after[i].count_spec(id) > 0 implies 1
                        <= id <= self.texts@.len() by {
                        if i < before.len() {
                            assert(after[i] == before[i]);
                        } else {
                            assert(e.count_spec(id) == if id == text_id.0 {
                                1nat
                            } else {
                                0nat
                            });
                        }
                    }
                    assert forall|i: int| 0 <= i < after.len() implies #[trigger] after[i].wf()
                        && after[i].word_view().len() > 0 by {
                        if i < before.len() {
                            assert(after[i] == before[i]);
                        }
                    }
                    assert forall|i: int, j: int|
                        0 <= i < j < after.len() implies after[i].word_view()
                        != after[j].word_view() by {
                        if j < before.len() {
                            assert(after[i] == before[i]);
                            assert(after[j] == before[j]);
                        } else {
                            assert(after[i] == before[i]);
                        }
                    }
                }
            },
        }
        self.word_count = self.word_count + 1;
    }

    /// Adds a document: stores it under the next id, which it returns, and
    /// folds each of its words into the table.
    pub fn add_text(&mut self, text: Text) -> (r: TextId)
        requires
            old(self).wf(),
            old(self).texts_view().len() + 1 < usize::MAX,
            old(self).total_words() + text.text@.len() <= usize::MAX,
        ensures
            final(self).wf(),
            r.0 == old(self).texts_view().len() + 1,
            text_added(*old(self), *final(self), text),
            counts_texts(*old(self)) ==> counts_texts(*final(self)),
    {
        let ghost start = *self;
        let ghost orig = text;
        let ghost body = text.text@;
        let ghost ts = tokens(text.text@);
        let id = TextId(self.texts.len() + 1);
        let words = text.words();
        proof {
            lemma_tokens_len(text.text@);
            lemma_tokens_normalized(text.text@);
        }
        let mut text = text;
        text.set_id(id);
        self.texts.push(text);
        let ghost stored = self.texts@;
        assert forall|i: int, d: usize|
            0 <= i < self.words@.len() && #[trigger] self.words@[i].count_spec(d) > 0 implies 1
            <= d <= self.texts@.len() by {}
        assert(ts.subrange(0, 0) =~= Seq::<Seq<char>>::empty());
        let mut i: usize = 0;
        while i < words.len()
            invariant
                self.wf(),
                i <= words@.len(),
                word_views(words@) == ts,
                forall|k: int| 0 <= k < ts.len() ==> #[trigger] ts[k].len() > 0,
                ts.len() <= body.len(),
                start.total_words() + body.len() <= usize::MAX,
                id.0 == stored.len(),
                id.0 >= 1,
                self.texts@ == stored,
                self.total_words() == start.total_words() + i,
                forall|w: Seq<char>| #[trigger]
                    self.global_of(w) == start.global_of(w) + occurrences(ts.subrange(0, i as int), w),
                forall|w: Seq<char>, d: usize| #[trigger]
                    self.count_of(w, d) == start.count_of(w, d) + if d == id.0 {
                        occurrences(ts.subrange(0, i as int), w)
                    } else {
                        0nat
                    },
            decreases words.len() - i,
        {
            let w = words[i].duplicate();
            let ghost before = *self;
            assert(ts[i as int] == w@);
            assert(ts[i as int].len() > 0);
            self.add_word(id, w);
            assert(ts.subrange(0, i + 1).drop_last() =~= ts.subrange(0, i as int));
            assert forall|x: Seq<char>| #[trigger]
                self.global_of(x) == before.global_of(x) + if x == ts[i as int] {
                    1nat
                } else {
                    0nat
                } by {}
            i = i + 1;
        }
        assert(ts.subrange(0, ts.len() as int) =~= ts);
        assert(self.texts@ == start.texts@.push(stored_as(orig, id.0)));
        proof {
            let all = self.texts@;
            assert(all.drop_last() =~= start.texts@);
            assert(texts_tokens(all) == texts_tokens(start.texts@) + ts);
            assert forall|w: Seq<char>| #[trigger]
                occurrences(texts_tokens(all), w) == occurrences(texts_tokens(start.texts@), w)
                    + occurrences(ts, w) by {
                lemma_occurrences_concat(texts_tokens(start.texts@), ts, w);
            }
        }
        id
    }

    /// Adds every document of `other`, in order, re-numbering them after the
    /// documents already here.
    pub fn merge(&mut self, other: &Self)
        requires
            old(self).wf(),
            old(self).texts_view().len() + other.texts_view().len() + 1 < usize::MAX,
            old(self).total_words() + texts_len(other.texts_view()) <= usize::MAX,
        ensures
            final(self).wf(),
            final(self).texts_view().len() == old(self).texts_view().len()
                + other.texts_view().len(),
            final(self).total_words() == old(self).total_words() + texts_tokens(
                other.texts_view(),
            ).len(),
            forall|w: Seq<char>| #[trigger]
                final(self).global_of(w) == old(self).global_of(w) + occurrences(
                    texts_tokens(other.texts_view()),
                    w,
                ),
            final(self).texts_view() == old(self).texts_view() + renumbered(
                other.texts_view(),
                old(self).texts_view().len(),
            ),
            counts_texts(*other) ==> {
                &&& final(self).total_words() == old(self).total_words() + other.total_words()
                &&& forall|w: Seq<char>| #[trigger]
                    final(self).global_of(w) == old(self).global_of(w) + other.global_of(w)
            },
            counts_texts(*old(self)) ==> counts_texts(*final(self)),
    {
        let ghost start = *self;
        let ghost others = other.texts@;
        let mut i: usize = 0;
        assert(others.subrange(0, 0) =~= Seq::<Text>::empty());
        while i < other.texts.len()
            invariant
                self.wf(),
                i <= others.len(),
                others == other.texts@,
                start.texts_view().len() + others.len() + 1 < usize::MAX,
                start.total_words() + texts_len(others) <= usize::MAX,
                self.texts_view() == start.texts_view() + renumbered(
                    others.subrange(0, i as int),
                    start.texts_view().len(),
                ),
                counts_texts(start) ==> counts_texts(*self),
                self.total_words() == start.total_words() + texts_tokens(
                    others.subrange(0, i as int),
                ).len(),
                forall|w: Seq<char>| #[trigger]
                    self.global_of(w) == start.global_of(w) + occurrences(
                        texts_tokens(others.subrange(0, i as int)),
                        w,
                    ),
            decreases other.texts.len() - i,
        {
            let ghost prefix = others.subrange(0, i as int);
            let ghost next = others.subrange(0, i + 1);
            assert(next.drop_last() =~= prefix);
            proof {
                lemma_texts_len_prefix(others, i as int);
                lemma_tokens_len(others[i as int].text@);
                lemma_texts_tokens_len(prefix);
            }
            let t = other.texts[i].duplicate();
            let ghost mid = self.texts_view();
            self.add_text(t);
            assert(renumbered(next, start.texts_view().len()) =~= renumbered(
                prefix,
                start.texts_view().len(),
            ).push(stored_as(others[i as int], (start.texts_view().len() + i + 1) as usize)));
            assert(self.texts_view() =~= start.texts_view() + renumbered(
                next,
                start.texts_view().len(),
            ));
            proof {
                assert forall|w: Seq<char>| #[trigger]
                    self.global_of(w) == start.global_of(w) + occurrences(texts_tokens(next), w) by {
                    lemma_occurrences_concat(texts_tokens(prefix), tokens(others[i as int].text@), w);
                }
            }
            i = i + 1;
        }
        assert(others.subrange(0, others.len() as int) =~= others);
    }

    /// The global count of `word`, zero for a word never seen.
    pub fn global_count_of(&self, word: &str) -> (r: usize)
        requires
            self.wf(),
        ensures
            r == self.global_of(word@),
    {
        let w = Word::new(word.to_owned());
        proof {
            lemma_table(self.words@);
        }
        match self.find_word(&w) {
            Some(k) => {
                assert(table_of(self.words@).contains_key(self.words@[k as int].word_view()));
                self.words[k].global_count()
            },
            None => {
                assert(!table_of(self.words@).contains_key(word@));
                0
            },
        }
    }

    /// The occurrences of `word` in document `text_id`.
    pub fn count_of_word(&self, word: &str, text_id: TextId) -> (r: usize)
        requires
            self.wf(),
        ensures
            r == self.count_of(word@, text_id.0),
    {
        let w = Word::new(word.to_owned());
        match self.find_word(&w) {
            Some(k) => {
                proof {
                    lemma_count_table_entry(self.words@, k as int, text_id.0);
                }
                self.words[k].count(&text_id)
            },
            None => {
                proof {
                    lemma_count_table_absent(self.words@, word@, text_id.0);
                }
                0
            },
        }
    }

    /// The rows that persisting this aggregate writes: one per document, and
    /// one per distinct (word, document) pair; a document without an author
    /// cannot be stored, and the first one is reported.
    pub fn persist_plan(&self) -> (r: Result<PersistPlan, PersistError>)
        requires
            self.wf(),
        ensures
            match r {
                Ok(plan) => {
                    &&& forall|i: int|
                        0 <= i < self.texts_view().len() ==> #[trigger] self.texts_view()[i].author_id
                            is Some
                    &&& plan.texts@.len() == self.texts_view().len()
                    &&& forall|i: int|
                        0 <= i < plan.texts@.len() ==> #[trigger] text_row_matches(
                            plan.texts@[i],
                            self.texts_view()[i],
                            (i + 1) as usize,
                        )
                    &&& word_row_views(plan.words@) == word_rows(self.entries())
                },
                Err(PersistError::MissingAuthor(id)) => {
                    &&& 1 <= id.0 <= self.texts_view().len()
                    &&& self.texts_view()[id.0 - 1].author_id is None
                    &&& forall|i: int|
                        0 <= i < id.0 - 1 ==> #[trigger] self.texts_view()[i].author_id is Some
                },
            },
    {
        let mut texts: Vec<TextRow> = Vec::new();
        let mut i: usize = 0;
        while i < self.texts.len()
            invariant
                self.wf(),
                i <= self.texts@.len(),
                texts@.len() == i,
                forall|k: int| 0 <= k < i ==> #[trigger] self.texts@[k].author_id is Some,
                forall|k: int|
                    0 <= k < i ==> #[trigger] text_row_matches(
                        texts@[k],
                        self.texts@[k],
                        (k + 1) as usize,
                    ),
            decreases self.texts.len() - i,
        {
            let t = &self.texts[i];
            match t.author_id {
                Some(author_id) => {
                    texts.push(
                        TextRow {
                            text_id: i + 1,
                            author_id,
                            url: t.url.clone(),
                            text: t.text.clone(),
                        },
                    );
                },
                None => {
                    return Err(PersistError::MissingAuthor(TextId(i + 1)));
                },
            }
            i = i + 1;
        }
        let mut words: Vec<WordRow> = Vec::new();
        let mut k: usize = 0;
        assert(self.words@.subrange(0, 0) =~= Seq::<WordStats>::empty());
        assert(word_row_views(words@) =~= Seq::empty());
        while k < self.words.len()
            invariant
                k <= self.words@.len(),
                word_row_views(words@) == word_rows(self.words@.subrange(0, k as int)),
            decreases self.words.len() - k,
        {
            let e = &self.words[k];
            let cs = e.document_counts();
            let ghost base = word_row_views(words@);
            let mut j: usize = 0;
            assert(cs@.subrange(0, 0) =~= Seq::<DocumentCount>::empty());
            assert(base + doc_rows(e.word_view(), Seq::<DocumentCount>::empty()) =~= base);
            while j < cs.len()
                invariant
                    j <= cs@.len(),
                    cs@ == e.entries(),
                    word_row_views(words@) == base + doc_rows(
                        e.word_view(),
                        cs@.subrange(0, j as int),
                    ),
                decreases cs.len() - j,
            {
                let row = WordRow {
                    word: e.word().to_string(),
                    text_id: cs[j].text_id.0,
                    count: cs[j].count,
                };
                let ghost prior = word_row_views(words@);
                assert(word_row_view(row) == (e.word_view(), cs@[j as int].text_id.0, cs@[j as int].count as nat));
                words.push(row);
                assert(word_row_views(words@) =~= prior.push(word_row_view(row)));
                assert(cs@.subrange(0, j + 1).drop_last() =~= cs@.subrange(0, j as int));
                assert(cs@.subrange(0, j + 1).last() == cs@[j as int]);
                assert(word_row_views(words@) =~= base + doc_rows(
                    e.word_view(),
                    cs@.subrange(0, j + 1),
                ));
                j = j + 1;
            }
            assert(cs@.subrange(0, cs@.len() as int) =~= cs@);
            assert(self.words@.subrange(0, k + 1).drop_last() =~= self.words@.subrange(0, k as int));
            k = k + 1;
        }
        assert(self.words@.subrange(0, self.words@.len() as int) =~= self.words@);
        Ok(PersistPlan { texts, words })
    }
}

proof fn lemma_texts_len_prefix(ts: Seq<Text>, i: int)
    requires
        0 <= i < ts.len(),
    ensures
        texts_len(ts.subrange(0, i + 1)) == texts_len(ts.subrange(0, i)) + ts[i].text@.len(),
        texts_len(ts.subrange(0, i + 1)) <= texts_len(ts),
    decreases ts.len(),
{
    assert(ts.subrange(0, i + 1).drop_last() =~= ts.subrange(0, i));
    if i + 1 < ts.len() {
        lemma_texts_len_prefix(ts.drop_last(), i);
        assert(ts.drop_last().subrange(0, i + 1) =~= ts.subrange(0, i + 1));
    } else {
        assert(ts.subrange(0, i + 1) =~= ts);
    }
}

proof fn lemma_count_table_absent(ws: Seq<WordStats>, w: Seq<char>, id: usize)
    requires
        forall|i: int| 0 <= i < ws.len() ==> #[trigger] ws[i].word_view() != w,
    ensures
        count_table(ws, w, id) == 0,
    decreases ws.len(),
{
    if ws.len() > 0 {
        lemma_count_table_absent(ws.drop_last(), w, id);
    }
}

proof fn lemma_count_table_entry(ws: Seq<WordStats>, k: int, id: usize)
    requires
        words_unique(ws),
        0 <= k < ws.len(),
    ensures
        count_table(ws, ws[k].word_view(), id) == ws[k].count_spec(id),
    decreases ws.len(),
{
    if k == ws.len() - 1 {
        lemma_count_table_absent(ws.drop_last(), ws[k].word_view(), id);
    } else {
        lemma_count_table_entry(ws.drop_last(), k, id);
    }
}

/// Adding a document stores its body unchanged, so tokenizing the stored
/// body again gives exactly the tokens that were counted.
pub proof fn lemma_added_text_retokenizes(before: Stats, after: Stats, text: Text)
    requires
        text_added(before, after, text),
    ensures
        after.texts_view().last().text == text.text,
        tokens(after.texts_view().last().text@) == tokens(text.text@),
        after.total_words() == before.total_words() + tokens(after.texts_view().last().text@).len(),
        forall|w: Seq<char>| #[trigger]
            after.global_of(w) == before.global_of(w) + occurrences(
                tokens(after.texts_view().last().text@),
                w,
            ),
{
}

/// The number of words read is the sum of the global counts of the word
/// table, each table entry holding the count of its own word.
pub proof fn lemma_word_count_is_sum(stats: Stats)
    requires
        stats.wf(),
    ensures
        stats.total_words() == sum_globals(stats.entries()),
        stats.word_table().len() == stats.entries().len(),
        forall|i: int|
            0 <= i < stats.entries().len() ==> #[trigger] stats.global_of(
                stats.entries()[i].word_view(),
            ) == stats.entries()[i].global(),
{
    lemma_table(stats.entries());
    assert forall|i: int| 0 <= i < stats.entries().len() implies #[trigger] stats.global_of(
        stats.entries()[i].word_view(),
    ) == stats.entries()[i].global() by {
        assert(table_of(stats.entries()).contains_key(stats.entries()[i].word_view()));
    }
}

/// The number of distinct words is the size of the word table.
pub proof fn lemma_unique_words_is_table_size(stats: Stats)
    requires
        stats.wf(),
    ensures
        stats.entries().len() == stats.word_table().len(),
        stats.word_table().dom().finite(),
{
    lemma_table(stats.entries());
}

proof fn lemma_rows_concat(a: Seq<(Seq<char>, usize, nat)>, b: Seq<(Seq<char>, usize, nat)>, w: Seq<char>, id: usize)
    ensures
        rows_total(a + b) == rows_total(a) + rows_total(b),
        rows_total_of(a + b, w) == rows_total_of(a, w) + rows_total_of(b, w),
        rows_with_key(a + b, w, id) == rows_with_key(a, w, id) + rows_with_key(b, w, id),
    decreases b.len(),
{
    if b.len() == 0 {
        assert(a + b =~= a);
    } else {
        assert((a + b).drop_last() =~= a + b.drop_last());
        lemma_rows_concat(a, b.drop_last(), w, id);
    }
}

/// The number of entries of `cs` for document `id`.
spec fn entries_for(cs: Seq<DocumentCount>, id: usize) -> nat
    decreases cs.len(),
{
    if cs.len() == 0 {
        0
    } else {
        entries_for(cs.drop_last(), id) + if cs.last().text_id.0 == id {
            1nat
        } else {
            0nat
        }
    }
}

proof fn lemma_entries_for_unique(cs: Seq<DocumentCount>, id: usize)
    requires
        ids_unique(cs),
    ensures
        entries_for(cs, id) <= 1,
        entries_for(cs, id) == 0 <==> forall|i: int|
            0 <= i < cs.len() ==> #[trigger] cs[i].text_id.0 != id,
    decreases cs.len(),
{
    if cs.len() > 0 {
        let rest = cs.drop_last();
        lemma_entries_for_unique(rest, id);
        if cs.last().text_id.0 == id {
            assert(forall|i: int| 0 <= i < rest.len() ==> #[trigger] rest[i].text_id.0 != id) by {
                assert forall|i: int| 0 <= i < rest.len() implies #[trigger] rest[i].text_id.0
                    != id by {
                    assert(cs[i] == rest[i]);
                }
            }
        }
        assert forall|i: int| 0 <= i < cs.len() && cs.last().text_id.0 != id && forall|j: int|
            0 <= j < rest.len() ==> #[trigger] rest[j].text_id.0 != id implies #[trigger]
            cs[i].text_id.0 != id by {
            if i < rest.len() {
                assert(cs[i] == rest[i]);
            }
        }
        if entries_for(cs, id) == 0 {
            assert forall|i: int| 0 <= i < cs.len() implies #[trigger] cs[i].text_id.0 != id by {
                if i < rest.len() {
                    assert(cs[i] == rest[i]);
                }
            }
        }
    }
}

proof fn lemma_doc_rows(w: Seq<char>, cs: Seq<DocumentCount>, x: Seq<char>, id: usize)
    ensures
        rows_total(doc_rows(w, cs)) == sum_counts(cs),
        rows_total_of(doc_rows(w, cs), x) == if x == w {
            sum_counts(cs)
        } else {
            0
        },
        rows_with_key(doc_rows(w, cs), x, id) == if x == w {
            entries_for(cs, id)
        } else {
            0
        },
    decreases cs.len(),
{
    if cs.len() > 0 {
        lemma_doc_rows(w, cs.drop_last(), x, id);
        assert(doc_rows(w, cs).drop_last() =~= doc_rows(w, cs.drop_last()));
    }
}

/// The rows of a table with distinct words: their counts add up to the sum
/// of the global counts, those of word `x` to its global count, and each
/// key occurs at most once.
proof fn lemma_word_rows(ws: Seq<WordStats>, x: Seq<char>, id: usize)
    requires
        words_unique(ws),
        forall|i: int| 0 <= i < ws.len() ==> #[trigger] ws[i].wf(),
    ensures
        rows_total(word_rows(ws)) == sum_globals(ws),
        rows_total_of(word_rows(ws), x) == if table_of(ws).contains_key(x) {
            table_of(ws)[x]
        } else {
            0
        },
        rows_with_key(word_rows(ws), x, id) <= 1,
        !table_of(ws).contains_key(x) ==> rows_with_key(word_rows(ws), x, id) == 0,
    decreases ws.len(),
{
    if ws.len() > 0 {
        let rest = ws.drop_last();
        let last = ws.last();
        assert(last == ws[ws.len() - 1]);
        assert forall|i: int| 0 <= i < rest.len() implies #[trigger] rest[i].wf() by {
            assert(rest[i] == ws[i]);
        }
        lemma_word_rows(rest, x, id);
        lemma_doc_rows(last.word_view(), last.entries(), x, id);
        lemma_rows_concat(word_rows(rest), doc_rows(last.word_view(), last.entries()), x, id);
        assert(ws[ws.len() - 1].wf());
        lemma_entries_for_unique(last.entries(), id);
        lemma_table(rest);
        if x == last.word_view() && table_of(rest).contains_key(x) {
            let i = choose|i: int| 0 <= i < rest.len() && #[trigger] rest[i].word_view() == x;
            assert(ws[i].word_view() == ws[ws.len() - 1].word_view());
        }
    }
}

/// Persisting writes one row per (word, document) pair, with the counts of
/// the aggregate: read back, the rows give the same total word count (the
/// `sum(count)` of `count-words`) and, for each word, the same global count.
pub proof fn lemma_persist_round_trip(stats: Stats, w: Seq<char>, id: usize)
    requires
        stats.wf(),
    ensures
        rows_total(word_rows(stats.entries())) == stats.total_words(),
        rows_total_of(word_rows(stats.entries()), w) == stats.global_of(w),
        rows_with_key(word_rows(stats.entries()), w, id) <= 1,
{
    lemma_word_rows(stats.entries(), w, id);
}

} // verus!
