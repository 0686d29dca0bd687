//! Documents, authors and words, and the tokenizer that turns a raw
//! document body into normalized words.

use vstd::prelude::*;

use crate::chars::{
    alphabetic, alphanumeric, ascii_punctuation, chars_of, fragment_text, fragment_text_of,
    is_alphabetic, is_alphanumeric, is_ascii_punctuation, is_whitespace, lower_of, lowercase,
    string_of, white_space,
};

verus! {

/// An author of the corpus, with the listing page of their works.
#[derive(Debug, Clone, PartialEq, Eq, Hash)]
pub struct Author {
    pub author_id: usize,
    pub name: String,
    pub url: String,
}

/// The sequence number of a document within one ingestion run.
#[derive(Debug, Clone, Copy, PartialEq, Eq, Hash, Structural)]
pub struct TextId(pub usize);

impl TextId {
    pub fn new(idx: usize) -> (r: TextId)
        ensures
            r.0 == idx,
    {
        TextId(idx)
    }

    pub fn value(&self) -> (r: usize)
        ensures
            r == self.0,
    {
        self.0
    }

    /// The decimal form of the id.
    pub fn to_string(&self) -> (r: String)
        ensures
            r@ == crate::db::decimal(self.0 as nat),
    {
        crate::db::usize_to_decimal(self.0)
    }
}

impl From<usize> for TextId {
    fn from(idx: usize) -> (r: TextId) {
        TextId(idx)
    }
}

impl vstd::std_specs::convert::FromSpecImpl<usize> for TextId {
    open spec fn obeys_from_spec() -> bool {
        true
    }

    open spec fn from_spec(idx: usize) -> TextId {
        TextId(idx)
    }
}

/// One document of the corpus: where it came from and its raw body.
#[derive(Debug, Clone, PartialEq, Eq)]
pub struct Text {
    pub id: Option<TextId>,
    pub url: String,
    pub text: String,
    pub author_id: Option<usize>,
}

impl Text {
    /// A document that has no id and no author yet.
    pub fn new(url: String, text: String) -> (r: Text)
        ensures
            r.id is None,
            r.author_id is None,
            r.url@ == url@,
            r.text@ == text@,
    {
        Text { id: None, url, text, author_id: None }
    }

    pub fn set_id(&mut self, id: TextId)
        ensures
            final(self).id == Some(id),
            final(self).url == old(self).url,
            final(self).text == old(self).text,
            final(self).author_id == old(self).author_id,
    {
        self.id = Some(id);
    }

    /// A second document with the same fields.
    pub fn duplicate(&self) -> (r: Text)
        ensures
            r == *self,
    {
        Text {
            id: self.id,
            url: self.url.clone(),
            text: self.text.clone(),
            author_id: self.author_id,
        }
    }

    /// The words of the body, in document order.
    pub fn words(&self) -> (r: Vec<Word>)
        ensures
            word_views(r@) == tokens(self.text@),
    {
        tokenize(self.text.as_str())
    }

    /// Whether `c` separates two fragments of a document.
    pub fn word_splitter(c: char) -> (r: bool)
        ensures
            r == is_separator(c),
    {
        is_whitespace(c) || is_ascii_punctuation(c) || !is_alphanumeric(c)
    }

    /// The normalized word that a fragment stands for, if any.
    pub fn trim_latin_word(word: &str) -> (r: Option<Word>)
        ensures
            word_option_view(r) == latin_word(word@),
    {
        let cs = chars_of(word);
        if cs.len() == 0 || cs[0] == '<' || cs[0] == '>' {
            return None;
        }
        let replaced = string_of(&replace_nbsp_chars(&cs));
        let content = fragment_text(replaced.as_str());
        let lowered = lowercase(content.as_str());
        let kept = keep_alphabetic_chars(&chars_of(lowered.as_str()));
        if kept.len() == 0 || is_html_artifact(&kept) {
            return None;
        }
        Some(Word(string_of(&kept)))
    }
}

/// A normalized word: lowercase, alphabetic characters only.
#[derive(Debug, Clone, PartialEq, Eq, Hash)]
pub struct Word(String);

impl View for Word {
    type V = Seq<char>;

    closed spec fn view(&self) -> Seq<char> {
        self.0@
    }
}

impl Word {
    pub fn new(s: String) -> (r: Word)
        ensures
            r@ == s@,
    {
        Word(s)
    }

    pub fn as_str(&self) -> (r: &str)
        ensures
            r@ == self@,
    {
        self.0.as_str()
    }

    pub fn is_empty(&self) -> (r: bool)
        ensures
            r == (self@.len() == 0),
    {
        self.0.as_str().is_empty()
    }

    pub fn to_lowercase(&self) -> (r: Word)
        ensures
            r@ == lower_of(self@),
    {
        Word(lowercase(self.0.as_str()))
    }

    /// Whether both words have the same characters.
    pub fn same_as(&self, other: &Word) -> (r: bool)
        ensures
            r == (self@ == other@),
    {
        self.0 == other.0
    }

    /// A second word with the same characters.
    pub fn duplicate(&self) -> (r: Word)
        ensures
            r@ == self@,
    {
        Word(self.0.clone())
    }

    /// The word as a string.
    pub fn to_string(&self) -> (r: String)
        ensures
            r@ == self@,
    {
        self.0.clone()
    }
}

impl<'a> From<&'a str> for Word {
    fn from(s: &'a str) -> (r: Word) {
        Word(s.to_owned())
    }
}

impl<'a> vstd::std_specs::convert::FromSpecImpl<&'a str> for Word {
    open spec fn obeys_from_spec() -> bool {
        false
    }

    open spec fn from_spec(s: &'a str) -> Word {
        arbitrary()
    }
}

impl From<String> for Word {
    fn from(s: String) -> (r: Word) {
        Word(s)
    }
}

impl vstd::std_specs::convert::FromSpecImpl<String> for Word {
    open spec fn obeys_from_spec() -> bool {
        false
    }

    open spec fn from_spec(s: String) -> Word {
        arbitrary()
    }
}

/// The character views of a sequence of words.
pub open spec fn word_views(ws: Seq<Word>) -> Seq<Seq<char>> {
    Seq::new(ws.len(), |i: int| ws[i]@)
}

pub open spec fn word_option_view(w: Option<Word>) -> Option<Seq<char>> {
    match w {
        Some(w) => Some(w@),
        None => None,
    }
}

/// A character that ends a fragment: white space, ASCII punctuation, or
/// anything that is neither a letter nor a digit.
pub open spec fn is_separator(c: char) -> bool {
    white_space(c) || ascii_punctuation(c) || !alphanumeric(c)
}

/// The fragments of `s` between separators, the first one prefixed by `cur`;
/// empty fragments are kept.
pub open spec fn split_from(s: Seq<char>, cur: Seq<char>) -> Seq<Seq<char>>
    decreases s.len(),
{
    if s.len() == 0 {
        seq![cur]
    } else if is_separator(s[0]) {
        seq![cur] + split_from(s.drop_first(), Seq::empty())
    } else {
        split_from(s.drop_first(), cur.push(s[0]))
    }
}

pub open spec fn fragments(s: Seq<char>) -> Seq<Seq<char>> {
    split_from(s, Seq::empty())
}

pub open spec fn nbsp() -> Seq<char> {
    seq!['&', 'n', 'b', 's', 'p', ';']
}

/// `s` with every `&nbsp;` entity, taken from left to right, replaced by a space.
pub open spec fn replace_nbsp(s: Seq<char>) -> Seq<char>
    decreases s.len(),
{
    if s.len() == 0 {
        s
    } else if s.len() >= 6 && s.subrange(0, 6) == nbsp() {
        seq![' '] + replace_nbsp(s.subrange(6, s.len() as int))
    } else {
        seq![s[0]] + replace_nbsp(s.drop_first())
    }
}

/// The alphabetic characters of `s`, in order.
pub open spec fn keep_alphabetic(s: Seq<char>) -> Seq<char>
    decreases s.len(),
{
    if s.len() == 0 {
        s
    } else if alphabetic(s.last()) {
        keep_alphabetic(s.drop_last()).push(s.last())
    } else {
        keep_alphabetic(s.drop_last())
    }
}

/// Remnants of markup that survive character stripping.
pub open spec fn html_artifact(w: Seq<char>) -> bool {
    ||| w == seq!['b', 'r']
    ||| w == seq!['p']
    ||| w == seq!['h', 'r', 'e', 'f', 'a']
    ||| w == seq!['n', 'b', 's', 'p']
}

/// The word a fragment stands for: none for stray markup, otherwise the
/// alphabetic characters of its lowercased text, unless nothing or only a
/// markup remnant is left.
pub open spec fn latin_word(frag: Seq<char>) -> Option<Seq<char>> {
    if frag.len() == 0 || frag[0] == '<' || frag[0] == '>' {
        None
    } else {
        let w = keep_alphabetic(lower_of(fragment_text_of(replace_nbsp(frag))));
        if w.len() == 0 || html_artifact(w) {
            None
        } else {
            Some(w)
        }
    }
}

/// The words of a sequence of fragments, in order.
pub open spec fn keep_words(frs: Seq<Seq<char>>) -> Seq<Seq<char>>
    decreases frs.len(),
{
    if frs.len() == 0 {
        Seq::empty()
    } else {
        match latin_word(frs.last()) {
            Some(w) => keep_words(frs.drop_last()).push(w),
            None => keep_words(frs.drop_last()),
        }
    }
}

/// The tokens of a raw document body.
pub open spec fn tokens(s: Seq<char>) -> Seq<Seq<char>> {
    keep_words(fragments(s))
}

/// A word the tokenizer may yield: non-empty and alphabetic throughout.
pub open spec fn normalized(w: Seq<char>) -> bool {
    &&& w.len() > 0
    &&& forall|j: int| 0 <= j < w.len() ==> #[trigger] alphabetic(w[j])
}

fn replace_nbsp_chars(cs: &Vec<char>) -> (r: Vec<char>)
    ensures
        r@ == replace_nbsp(cs@),
{
    let n = cs.len();
    let mut out: Vec<char> = Vec::new();
    let mut i: usize = 0;
    assert(cs@.subrange(0, n as int) =~= cs@);
    assert(out@ + replace_nbsp(cs@) =~= replace_nbsp(cs@));
    while i < n
        invariant
            n == cs@.len(),
            i <= n,
            replace_nbsp(cs@) == out@ + replace_nbsp(cs@.subrange(i as int, n as int)),
        decreases n - i,
    {
        let ghost rest = cs@.subrange(i as int, n as int);
        if n - i >= 6 && cs[i] == '&' && cs[i + 1] == 'n' && cs[i + 2] == 'b' && cs[i + 3] == 's'
            && cs[i + 4] == 'p' && cs[i + 5] == ';' {
            assert(rest.subrange(0, 6) =~= nbsp());
            assert(rest.subrange(6, rest.len() as int) =~= cs@.subrange(i + 6, n as int));
            assert(out@.push(' ') + replace_nbsp(cs@.subrange(i + 6, n as int)) =~= out@ + (
            seq![' '] + replace_nbsp(cs@.subrange(i + 6, n as int))));
            out.push(' ');
            i = i + 6;
        } else {
            assert(rest.len() >= 6 ==> rest.subrange(0, 6) != nbsp()) by {
                if rest.len() >= 6 && rest.subrange(0, 6) == nbsp() {
                    assert(rest.subrange(0, 6)[0] == cs[i as int]);
                    assert(rest.subrange(0, 6)[1] == cs[i + 1]);
                    assert(rest.subrange(0, 6)[2] == cs[i + 2]);
                    assert(rest.subrange(0, 6)[3] == cs[i + 3]);
                    assert(rest.subrange(0, 6)[4] == cs[i + 4]);
                    assert(rest.subrange(0, 6)[5] == cs[i + 5]);
                }
            }
            assert(rest.drop_first() =~= cs@.subrange(i + 1, n as int));
            assert(out@.push(cs[i as int]) + replace_nbsp(cs@.subrange(i + 1, n as int)) =~= out@
                + (seq![cs[i as int]] + replace_nbsp(cs@.subrange(i + 1, n as int))));
            out.push(cs[i]);
            i = i + 1;
        }
    }
    assert(cs@.subrange(n as int, n as int) =~= Seq::<char>::empty());
    assert(out@ + Seq::<char>::empty() =~= out@);
    out
}

fn keep_alphabetic_chars(cs: &Vec<char>) -> (r: Vec<char>)
    ensures
        r@ == keep_alphabetic(cs@),
{
    let mut out: Vec<char> = Vec::new();
    let mut i: usize = 0;
    while i < cs.len()
        invariant
            i <= cs@.len(),
            out@ == keep_alphabetic(cs@.subrange(0, i as int)),
        decreases cs.len() - i,
    {
        assert(cs@.subrange(0, i + 1).drop_last() =~= cs@.subrange(0, i as int));
        if is_alphabetic(cs[i]) {
            out.push(cs[i]);
        }
        i = i + 1;
    }
    assert(cs@.subrange(0, cs@.len() as int) =~= cs@);
    out
}

fn is_html_artifact(w: &Vec<char>) -> (r: bool)
    ensures
        r == html_artifact(w@),
{
    let two = w.len() == 2 && w[0] == 'b' && w[1] == 'r';
    let one = w.len() == 1 && w[0] == 'p';
    let five = w.len() == 5 && w[0] == 'h' && w[1] == 'r' && w[2] == 'e' && w[3] == 'f' && w[4]
        == 'a';
    let four = w.len() == 4 && w[0] == 'n' && w[1] == 'b' && w[2] == 's' && w[3] == 'p';
    if two {
        assert(w@ =~= seq!['b', 'r']);
    }
    if one {
        assert(w@ =~= seq!['p']);
    }
    if five {
        assert(w@ =~= seq!['h', 'r', 'e', 'f', 'a']);
    }
    if four {
        assert(w@ =~= seq!['n', 'b', 's', 'p']);
    }
    two || one || five || four
}

/// The words of a raw document body, in document order.
pub fn tokenize(s: &str) -> (r: Vec<Word>)
    ensures
        word_views(r@) == tokens(s@),
{
    let cs = chars_of(s);
    let n = cs.len();
    let mut out: Vec<Word> = Vec::new();
    let mut cur: Vec<char> = Vec::new();
    let ghost mut done: Seq<Seq<char>> = Seq::empty();
    let mut i: usize = 0;
    assert(cs@.subrange(0, n as int) =~= cs@);
    assert(done + fragments(s@) =~= fragments(s@));
    while i < n
        invariant
            n == cs@.len(),
            cs@ == s@,
            i <= n,
            fragments(s@) == done + split_from(cs@.subrange(i as int, n as int), cur@),
            word_views(out@) == keep_words(done),
        decreases n - i,
    {
        let ghost rest = cs@.subrange(i as int, n as int);
        assert(rest.drop_first() =~= cs@.subrange(i + 1, n as int));
        let c = cs[i];
        if Text::word_splitter(c) {
            let frag = string_of(&cur);
            let ghost finished = cur@;
            assert(done.push(finished).drop_last() =~= done);
            match Text::trim_latin_word(frag.as_str()) {
                Some(w) => {
                    out.push(w);
                    assert(word_views(out@) =~= keep_words(done.push(finished)));
                },
                None => {},
            }
            assert(done + split_from(rest, finished) =~= done.push(finished) + split_from(
                cs@.subrange(i + 1, n as int),
                Seq::empty(),
            ));
            proof {
                done = done.push(finished);
            }
            cur = Vec::new();
        } else {
            cur.push(c);
        }
        i = i + 1;
    }
    let frag = string_of(&cur);
    let ghost finished = cur@;
    assert(cs@.subrange(n as int, n as int) =~= Seq::<char>::empty());
    assert(fragments(s@) =~= done.push(finished));
    assert(done.push(finished).drop_last() =~= done);
    match Text::trim_latin_word(frag.as_str()) {
        Some(w) => {
            out.push(w);
            assert(word_views(out@) =~= keep_words(done.push(finished)));
        },
        None => {},
    }
    out
}

proof fn lemma_keep_alphabetic(s: Seq<char>)
    ensures
        forall|j: int|
            0 <= j < keep_alphabetic(s).len() ==> alphabetic(#[trigger] keep_alphabetic(s)[j]),
    decreases s.len(),
{
    if s.len() > 0 {
        let rest = keep_alphabetic(s.drop_last());
        lemma_keep_alphabetic(s.drop_last());
        assert forall|j: int| 0 <= j < keep_alphabetic(s).len() implies alphabetic(
            #[trigger] keep_alphabetic(s)[j],
        ) by {
            if j < rest.len() {
                assert(keep_alphabetic(s)[j] == rest[j]);
            }
        }
    }
}

proof fn lemma_keep_words_normalized(frs: Seq<Seq<char>>)
    ensures
        forall|i: int|
            0 <= i < keep_words(frs).len() ==> {
                &&& normalized(#[trigger] keep_words(frs)[i])
                &&& exists|t: Seq<char>| keep_words(frs)[i] == #[trigger] keep_alphabetic(lower_of(t))
            },
    decreases frs.len(),
{
    if frs.len() > 0 {
        let rest = keep_words(frs.drop_last());
        lemma_keep_words_normalized(frs.drop_last());
        let t = fragment_text_of(replace_nbsp(frs.last()));
        lemma_keep_alphabetic(lower_of(t));
        assert forall|i: int| 0 <= i < keep_words(frs).len() implies {
            &&& normalized(#[trigger] keep_words(frs)[i])
            &&& exists|t: Seq<char>| keep_words(frs)[i] == #[trigger] keep_alphabetic(lower_of(t))
        } by {
            if i < rest.len() {
                assert(keep_words(frs)[i] == rest[i]);
            } else {
                assert(keep_words(frs)[i] == keep_alphabetic(lower_of(t)));
            }
        }
    }
}

/// Every word of a tokenized document is non-empty, holds alphabetic
/// characters only, and is drawn from the lowercase form of a string.
pub proof fn lemma_tokens_normalized(s: Seq<char>)
    ensures
        forall|i: int|
            0 <= i < tokens(s).len() ==> {
                &&& normalized(#[trigger] tokens(s)[i])
                &&& exists|t: Seq<char>| tokens(s)[i] == #[trigger] keep_alphabetic(lower_of(t))
            },
{
    lemma_keep_words_normalized(fragments(s));
}

/// The number of non-empty fragments.
spec fn nonempty_count(frs: Seq<Seq<char>>) -> nat
    decreases frs.len(),
{
    if frs.len() == 0 {
        0
    } else {
        nonempty_count(frs.drop_last()) + if frs.last().len() > 0 {
            1nat
        } else {
            0nat
        }
    }
}

proof fn lemma_nonempty_count_concat(a: Seq<Seq<char>>, b: Seq<Seq<char>>)
    ensures
        nonempty_count(a + b) == nonempty_count(a) + nonempty_count(b),
    decreases b.len(),
{
    if b.len() == 0 {
        assert(a + b =~= a);
    } else {
        assert((a + b).drop_last() =~= a + b.drop_last());
        lemma_nonempty_count_concat(a, b.drop_last());
    }
}

proof fn lemma_split_count(s: Seq<char>, cur: Seq<char>)
    ensures
        nonempty_count(split_from(s, cur)) <= s.len() + cur.len(),
    decreases s.len(),
{
    assert(seq![cur].drop_last() =~= Seq::<Seq<char>>::empty());
    assert(nonempty_count(Seq::<Seq<char>>::empty()) == 0);
    assert(nonempty_count(seq![cur]) <= cur.len());
    if s.len() == 0 {
    } else if is_separator(s[0]) {
        lemma_split_count(s.drop_first(), Seq::empty());
        lemma_nonempty_count_concat(seq![cur], split_from(s.drop_first(), Seq::empty()));
    } else {
        lemma_split_count(s.drop_first(), cur.push(s[0]));
    }
}

proof fn lemma_keep_words_count(frs: Seq<Seq<char>>)
    ensures
        keep_words(frs).len() <= nonempty_count(frs),
    decreases frs.len(),
{
    if frs.len() > 0 {
        lemma_keep_words_count(frs.drop_last());
    }
}

/// A document never yields more words than it has characters.
pub proof fn lemma_tokens_len(s: Seq<char>)
    ensures
        tokens(s).len() <= s.len(),
{
    lemma_split_count(s, Seq::empty());
    lemma_keep_words_count(fragments(s));
}

} // verus!
