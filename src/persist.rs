//! Writing an aggregate to the storage engine: the schema, the keyed
//! writes of one ingestion run, and the session that commits them all or
//! none.

use vstd::prelude::*;

use crate::db::{int_param, str_param, DbQuery, Value};
use crate::stats::{TextRow, WordRow};

verus! {

pub const CREATE_AUTHOR: &'static str = ":create Author { author_id: Int, name: String => url: String }";

pub const CREATE_WORD: &'static str = ":create Word { word: String, text_id: Int => count: Int }";

pub const CREATE_TEXT: &'static str = ":create Text { text_id: Int, author_id: Int => url: String, text: String }";

pub const PUT_AUTHOR: &'static str = "?[author_id, name, url] <- [[$author_id, $name, $url]]; :put Author { author_id, name => url }";

pub const PUT_TEXT: &'static str = "?[text_id, url, author_id, text] <- [[$text_id, $url, $author_id, $text]]; :put Text { text_id, author_id => url, text }";

pub const PUT_WORD: &'static str = "?[word, count, text_id] <- [[$word, $count, $text_id]]; :put Word { word, text_id => count }";

fn str_value(name: &str, value: &String) -> (r: (String, Value))
    ensures
        str_param(r, name@, value@),
{
    (name.to_owned(), Value::Str(value.clone()))
}

fn int_value(name: &str, value: usize) -> (r: (String, Value))
    ensures
        int_param(r, name@, value as int),
{
    (name.to_owned(), Value::Int(value as i64))
}

/// The write that stores an author.
pub fn author_query(author_id: usize, name: &String, url: &String) -> (r: DbQuery)
    ensures
        r.script@ == PUT_AUTHOR@,
        r.params@.len() == 3,
        int_param(r.params@[0], "author_id"@, author_id as int),
        str_param(r.params@[1], "name"@, name@),
        str_param(r.params@[2], "url"@, url@),
{
    let mut params: Vec<(String, Value)> = Vec::new();
    params.push(int_value("author_id", author_id));
    params.push(str_value("name", name));
    params.push(str_value("url", url));
    DbQuery { script: PUT_AUTHOR.to_owned(), params }
}

impl TextRow {
    /// The write that stores this document.
    pub fn to_query(&self) -> (r: DbQuery)
        ensures
            r.script@ == PUT_TEXT@,
            r.params@.len() == 4,
            int_param(r.params@[0], "text_id"@, self.text_id as int),
            str_param(r.params@[1], "url"@, self.url@),
            int_param(r.params@[2], "author_id"@, self.author_id as int),
            str_param(r.params@[3], "text"@, self.text@),
    {
        let mut params: Vec<(String, Value)> = Vec::new();
        params.push(int_value("text_id", self.text_id));
        params.push(str_value("url", &self.url));
        params.push(int_value("author_id", self.author_id));
        params.push(str_value("text", &self.text));
        DbQuery { script: PUT_TEXT.to_owned(), params }
    }
}

impl WordRow {
    /// The write that stores the count of this word in this document.
    pub fn to_query(&self) -> (r: DbQuery)
        ensures
            r.script@ == PUT_WORD@,
            r.params@.len() == 3,
            str_param(r.params@[0], "word"@, self.word@),
            int_param(r.params@[1], "count"@, self.count as int),
            int_param(r.params@[2], "text_id"@, self.text_id as int),
    {
        let mut params: Vec<(String, Value)> = Vec::new();
        params.push(str_value("word", &self.word));
        params.push(int_value("count", self.count));
        params.push(int_value("text_id", self.text_id));
        DbQuery { script: PUT_WORD.to_owned(), params }
    }
}

/// What the persisting loop does next.
#[derive(Debug, Clone, Copy, PartialEq, Eq, Structural)]
pub enum PersistStep {
    /// Issue the write with this index inside the transaction.
    Write(usize),
    /// Every write succeeded: commit the transaction.
    Commit,
    /// A write failed: roll the transaction back.
    Abort,
    /// The transaction is closed.
    Done,
}

/// One transactional write session: the writes are issued in order, and
/// the transaction is committed only if every one of them succeeded.
#[derive(Debug, Clone, Copy, PartialEq, Eq, Structural)]
pub struct PersistSession {
    writes: usize,
    written: usize,
    failed: bool,
    closed: bool,
}

impl PersistSession {
    pub closed spec fn writes_spec(&self) -> nat {
        self.writes as nat
    }

    pub closed spec fn written_spec(&self) -> nat {
        self.written as nat
    }

    pub closed spec fn failed_spec(&self) -> bool {
        self.failed
    }

    pub closed spec fn closed_spec(&self) -> bool {
        self.closed
    }

    pub closed spec fn wf(&self) -> bool {
        self.written <= self.writes
    }

    /// The step the session is at.
    pub open spec fn step_spec(&self) -> PersistStep {
        if self.closed_spec() {
            PersistStep::Done
        } else if self.failed_spec() {
            PersistStep::Abort
        } else if self.written_spec() < self.writes_spec() {
            PersistStep::Write(self.written_spec() as usize)
        } else {
            PersistStep::Commit
        }
    }

    /// A session for `writes` writes, none issued yet.
    pub fn new(writes: usize) -> (r: PersistSession)
        ensures
            r.wf(),
            r.writes_spec() == writes,
            r.written_spec() == 0,
            !r.failed_spec(),
            !r.closed_spec(),
    {
        PersistSession { writes, written: 0, failed: false, closed: false }
    }

    pub fn next_step(&self) -> (r: PersistStep)
        requires
            self.wf(),
        ensures
            r == self.step_spec(),
    {
        if self.closed {
            PersistStep::Done
        } else if self.failed {
            PersistStep::Abort
        } else if self.written < self.writes {
            PersistStep::Write(self.written)
        } else {
            PersistStep::Commit
        }
    }

    /// Records the outcome of the write the session is at.
    pub fn record_write(&mut self, succeeded: bool)
        requires
            old(self).wf(),
            old(self).step_spec() is Write,
        ensures
            final(self).wf(),
            final(self).writes_spec() == old(self).writes_spec(),
            final(self).closed_spec() == old(self).closed_spec(),
            final(self).failed_spec() == !succeeded,
            final(self).written_spec() == old(self).written_spec() + if succeeded {
                1nat
            } else {
                0nat
            },
    {
        if succeeded {
            self.written = self.written + 1;
        } else {
            self.failed = true;
        }
    }

    /// Records that the transaction was committed or rolled back.
    pub fn record_close(&mut self)
        requires
            old(self).wf(),
            old(self).step_spec() is Commit || old(self).step_spec() is Abort,
        ensures
            final(self).wf(),
            final(self).writes_spec() == old(self).writes_spec(),
            final(self).written_spec() == old(self).written_spec(),
            final(self).failed_spec() == old(self).failed_spec(),
            final(self).closed_spec(),
    {
        self.closed = true;
    }

    /// Whether the writes of the session were committed.
    pub fn committed(&self) -> (r: bool)
        ensures
            r == (self.closed_spec() && !self.failed_spec()),
    {
        self.closed && !self.failed
    }
}

/// A session commits only after every write succeeded; once a write has
/// failed, the only steps left are rolling back and being done.
pub proof fn lemma_commit_only_when_all_written(s: PersistSession)
    requires
        s.wf(),
    ensures
        s.step_spec() is Commit ==> !s.failed_spec() && s.written_spec() == s.writes_spec(),
        s.failed_spec() ==> (s.step_spec() is Abort || s.step_spec() is Done),
{
}

} // verus!
