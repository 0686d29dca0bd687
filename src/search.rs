//! Searches over the stored index: match modes compiled to predicates,
//! the state of each kind of search, and decoding of result rows.

use vstd::prelude::*;

use crate::chars::{concat, lower_of, lowercase, same_text};
use crate::db::{is_str, str_param, DBError, DbQuery, Rows, Value};
use crate::text::{Author, Text, TextId, Word};

verus! {

/// What a search looks for.
#[derive(Debug, Clone, Copy, PartialEq, Eq, Structural)]
pub enum SearchKind {
    Author,
    Text,
    Word,
}

impl SearchKind {
    pub fn all_kinds() -> (r: Vec<SearchKind>)
        ensures
            r@ == seq![SearchKind::Word, SearchKind::Author, SearchKind::Text],
    {
        let r = vec![SearchKind::Word, SearchKind::Author, SearchKind::Text];
        assert(r@ =~= seq![SearchKind::Word, SearchKind::Author, SearchKind::Text]);
        r
    }

    pub fn default_kind() -> (r: SearchKind)
        ensures
            r == SearchKind::Word,
    {
        SearchKind::Word
    }

    /// The label of the kind.
    pub fn label(&self) -> (r: &'static str)
        ensures
            r@ == kind_label(*self),
    {
        match self {
            SearchKind::Author => "Author",
            SearchKind::Text => "Text",
            SearchKind::Word => "Word",
        }
    }
}

pub open spec fn kind_label(k: SearchKind) -> Seq<char> {
    match k {
        SearchKind::Author => "Author"@,
        SearchKind::Text => "Text"@,
        SearchKind::Word => "Word"@,
    }
}

/// How the stored text is compared with the search term.
#[derive(Debug, Clone, Copy, PartialEq, Eq, Structural)]
pub enum SearchMode {
    Contains,
    EndsWith,
    IsEqual,
    IsNotEqual,
    StartsWith,
}

/// The predicate of the storage engine that each mode compiles to.
pub open spec fn mode_predicate(m: SearchMode) -> Seq<char> {
    match m {
        SearchMode::Contains => "str_includes"@,
        SearchMode::EndsWith => "ends_with"@,
        SearchMode::IsEqual => "eq"@,
        SearchMode::IsNotEqual => "neq"@,
        SearchMode::StartsWith => "starts_with"@,
    }
}

pub open spec fn mode_label(m: SearchMode) -> Seq<char> {
    match m {
        SearchMode::Contains => "contains"@,
        SearchMode::EndsWith => "ends with"@,
        SearchMode::IsEqual => "is equal to"@,
        SearchMode::IsNotEqual => "is not equal to"@,
        SearchMode::StartsWith => "starts with"@,
    }
}

/// The predicate text `pred(var, $term)`.
pub open spec fn predicate_code(m: SearchMode, var: Seq<char>) -> Seq<char> {
    mode_predicate(m) + "("@ + var + ", $term)"@
}

impl SearchMode {
    pub fn all_modes() -> (r: Vec<SearchMode>)
        ensures
            r@ == seq![
                SearchMode::Contains,
                SearchMode::EndsWith,
                SearchMode::IsEqual,
                SearchMode::IsNotEqual,
                SearchMode::StartsWith,
            ],
    {
        let r = vec![
            SearchMode::Contains,
            SearchMode::EndsWith,
            SearchMode::IsEqual,
            SearchMode::IsNotEqual,
            SearchMode::StartsWith,
        ];
        assert(r@ =~= seq![
            SearchMode::Contains,
            SearchMode::EndsWith,
            SearchMode::IsEqual,
            SearchMode::IsNotEqual,
            SearchMode::StartsWith,
        ]);
        r
    }

    pub fn default_mode() -> (r: SearchMode)
        ensures
            r == SearchMode::StartsWith,
    {
        SearchMode::StartsWith
    }

    pub fn label(&self) -> (r: &'static str)
        ensures
            r@ == mode_label(*self),
    {
        match self {
            SearchMode::Contains => "contains",
            SearchMode::EndsWith => "ends with",
            SearchMode::IsEqual => "is equal to",
            SearchMode::IsNotEqual => "is not equal to",
            SearchMode::StartsWith => "starts with",
        }
    }

    fn predicate(&self) -> (r: &'static str)
        ensures
            r@ == mode_predicate(*self),
    {
        match self {
            SearchMode::Contains => "str_includes",
            SearchMode::EndsWith => "ends_with",
            SearchMode::IsEqual => "eq",
            SearchMode::IsNotEqual => "neq",
            SearchMode::StartsWith => "starts_with",
        }
    }

    /// The predicate comparing `var` with the parameter `term`, and that
    /// parameter.
    pub fn query(&self, var: &str, term: String) -> (r: (String, Vec<(String, Value)>))
        ensures
            r.0@ == predicate_code(*self, var@),
            r.1@.len() == 1,
            str_param(r.1@[0], "term"@, term@),
    {
        let open = concat(self.predicate(), "(");
        let with_var = concat(open.as_str(), var);
        let code = concat(with_var.as_str(), ", $term)");
        let mut params: Vec<(String, Value)> = Vec::new();
        params.push(("term".to_owned(), Value::Str(term)));
        (code, params)
    }
}

/// One search: what to look for, the term, the mode and whether case counts.
#[derive(Debug, Clone, PartialEq, Eq)]
pub struct Search {
    pub kind: SearchKind,
    pub term: String,
    pub mode: SearchMode,
    pub is_case_sensitive: bool,
}

/// A search compiled to a predicate with its parameters.
#[derive(Debug, Clone, PartialEq, Eq)]
pub struct SearchQuery {
    pub kind: SearchKind,
    pub code: String,
    pub params: Vec<(String, Value)>,
}

pub open spec fn same_search(a: Search, b: Search) -> bool {
    &&& a.kind == b.kind
    &&& a.term@ == b.term@
    &&& a.mode == b.mode
    &&& a.is_case_sensitive == b.is_case_sensitive
}

impl Search {
    pub fn new(kind: SearchKind, term: String, mode: SearchMode, is_case_sensitive: bool) -> (r: Search)
        ensures
            r.kind == kind,
            r.term@ == term@,
            r.mode == mode,
            r.is_case_sensitive == is_case_sensitive,
    {
        Search { kind, term, mode, is_case_sensitive }
    }

    pub fn same_as(&self, other: &Search) -> (r: bool)
        ensures
            r == same_search(*self, *other),
    {
        self.kind == other.kind && same_text(self.term.as_str(), other.term.as_str())
            && self.mode == other.mode && self.is_case_sensitive == other.is_case_sensitive
    }

    /// The compared expression and term: as they are when case counts,
    /// both lowercased otherwise.
    pub fn var_and_term(&self, var: &str) -> (r: (String, String))
        ensures
            self.is_case_sensitive ==> r.0@ == var@ && r.1@ == self.term@,
            !self.is_case_sensitive ==> r.0@ == "lowercase("@ + var@ + ")"@ && r.1@ == lower_of(
                self.term@,
            ),
    {
        if self.is_case_sensitive {
            (var.to_owned(), self.term.clone())
        } else {
            let open = concat("lowercase(", var);
            (concat(open.as_str(), ")"), lowercase(self.term.as_str()))
        }
    }

    /// The search compiled against the stored column `var`.
    pub fn query(&self, var: &str) -> (r: SearchQuery)
        ensures
            r.kind == self.kind,
            r.params@.len() == 1,
            self.is_case_sensitive ==> r.code@ == predicate_code(self.mode, var@) && str_param(
                r.params@[0],
                "term"@,
                self.term@,
            ),
            !self.is_case_sensitive ==> r.code@ == predicate_code(
                self.mode,
                "lowercase("@ + var@ + ")"@,
            ) && str_param(r.params@[0], "term"@, lower_of(self.term@)),
    {
        let (v, term) = self.var_and_term(var);
        let (code, params) = self.mode.query(v.as_str(), term);
        SearchQuery { kind: self.kind, code, params }
    }
}

/// The head of the script of an author search, before the predicate.
pub const SEARCH_AUTHORS: &'static str = "?[name, url] :=
            *Author { name, url },
            ";

/// The head of the script of a word search, before the predicate.
pub const SEARCH_WORDS: &'static str = "?[word] :=
            *Word { word },
            ";

/// The head of the script of a document search, before the predicate.
pub const SEARCH_TEXTS: &'static str = "?[text_id, url, text, author_id] :=
            *Text { text_id, url, text, author_id },
            *Word { word, text_id },
            ";

/// The head of the script and the column compared, for each kind.
pub open spec fn search_head(k: SearchKind) -> (Seq<char>, Seq<char>) {
    match k {
        SearchKind::Author => (SEARCH_AUTHORS@, "name"@),
        SearchKind::Word => (SEARCH_WORDS@, "word"@),
        SearchKind::Text => (SEARCH_TEXTS@, "word"@),
    }
}

impl Search {
    /// The read-only script that runs the search.
    pub fn script(&self) -> (r: DbQuery)
        ensures
            ({
                let (head, var) = search_head(self.kind);
                let q = if self.is_case_sensitive {
                    predicate_code(self.mode, var)
                } else {
                    predicate_code(self.mode, "lowercase("@ + var + ")"@)
                };
                &&& r.script@ == head + q
                &&& r.params@.len() == 1
                &&& str_param(
                    r.params@[0],
                    "term"@,
                    if self.is_case_sensitive { self.term@ } else { lower_of(self.term@) },
                )
            }),
    {
        let (head, var) = match self.kind {
            SearchKind::Author => (SEARCH_AUTHORS, "name"),
            SearchKind::Word => (SEARCH_WORDS, "word"),
            SearchKind::Text => (SEARCH_TEXTS, "word"),
        };
        let q = self.query(var);
        DbQuery { script: concat(head, q.code.as_str()), params: q.params }
    }
}

/// The value type a decoded column should have had.
#[derive(Debug, Clone, Copy, PartialEq, Eq, Structural)]
pub enum ExpectedType {
    Boolean,
    Float,
    Integer,
    String,
    Usize,
}

/// Why the results of a search could not be read.
#[derive(Debug, Clone, PartialEq, Eq)]
pub enum SearchError {
    Db(String),
    MissingColumn(String),
    Other(String),
    InvalidType(String, ExpectedType),
}

impl SearchError {
    pub fn db(err: &str) -> (r: SearchError)
        ensures
            r matches SearchError::Db(s) && s@ == err@,
    {
        SearchError::Db(err.to_owned())
    }

    pub fn missing_column(column: &str) -> (r: SearchError)
        ensures
            r matches SearchError::MissingColumn(s) && s@ == column@,
    {
        SearchError::MissingColumn(column.to_owned())
    }

    pub fn other(err: &str) -> (r: SearchError)
        ensures
            r matches SearchError::Other(s) && s@ == err@,
    {
        SearchError::Other(err.to_owned())
    }

    pub fn invalid_type(property: &str, expected_type: ExpectedType) -> (r: SearchError)
        ensures
            r matches SearchError::InvalidType(s, t) && s@ == property@ && t == expected_type,
    {
        SearchError::InvalidType(property.to_owned(), expected_type)
    }
}

impl From<DBError> for SearchError {
    fn from(err: DBError) -> (r: SearchError) {
        match err {
            DBError::Cozo(s) => SearchError::Db(s),
            DBError::JoinError(s) => SearchError::Db(s),
            DBError::Other(s) => SearchError::Db(s),
        }
    }
}

impl vstd::std_specs::convert::FromSpecImpl<DBError> for SearchError {
    open spec fn obeys_from_spec() -> bool {
        false
    }

    open spec fn from_spec(err: DBError) -> SearchError {
        arbitrary()
    }
}

/// `ss` without the searches equal to `s`.
pub open spec fn without(ss: Seq<Search>, s: Search) -> Seq<Search>
    decreases ss.len(),
{
    if ss.len() == 0 {
        Seq::empty()
    } else if same_search(ss.last(), s) {
        without(ss.drop_last(), s)
    } else {
        without(ss.drop_last(), s).push(ss.last())
    }
}

/// The state of one kind of search: the searches in progress, the case
/// flag, the term being typed, and the results of the last search.
#[derive(Debug, Clone)]
pub struct SearchState<R> {
    active_searches: Vec<Search>,
    is_case_sensitive: bool,
    search_term: String,
    search_results: Vec<R>,
}

impl<R> SearchState<R> {
    pub closed spec fn active(&self) -> Seq<Search> {
        self.active_searches@
    }

    pub closed spec fn case_spec(&self) -> bool {
        self.is_case_sensitive
    }

    pub closed spec fn term_spec(&self) -> Seq<char> {
        self.search_term@
    }

    pub closed spec fn results(&self) -> Seq<R> {
        self.search_results@
    }

    /// No search in progress, case-sensitive, an empty term and no results.
    pub fn new() -> (r: SearchState<R>)
        ensures
            r.active() == Seq::<Search>::empty(),
            r.case_spec(),
            r.term_spec() == Seq::<char>::empty(),
            r.results() == Seq::<R>::empty(),
    {
        SearchState {
            active_searches: Vec::new(),
            is_case_sensitive: true,
            search_term: String::new(),
            search_results: Vec::new(),
        }
    }

    pub fn search_term(&self) -> (r: String)
        ensures
            r@ == self.term_spec(),
    {
        self.search_term.clone()
    }

    pub fn started_search(&mut self, search: Search)
        ensures
            final(self).active() == old(self).active().push(search),
            final(self).case_spec() == old(self).case_spec(),
            final(self).term_spec() == old(self).term_spec(),
            final(self).results() == old(self).results(),
    {
        self.active_searches.push(search);
    }

    /// Forgets every search in progress equal to `search`.
    pub fn ended_search(&mut self, search: &Search)
        ensures
            final(self).active() == without(old(self).active(), *search),
            final(self).case_spec() == old(self).case_spec(),
            final(self).term_spec() == old(self).term_spec(),
            final(self).results() == old(self).results(),
    {
        let mut kept: Vec<Search> = Vec::new();
        let ghost all = self.active_searches@;
        let n = self.active_searches.len();
        let mut i: usize = 0;
        assert(all.subrange(0, 0) =~= Seq::<Search>::empty());
        while i < n
            invariant
                n == all.len(),
                all == self.active_searches@,
                i <= n,
                kept@ == without(all.subrange(0, i as int), *search),
            decreases n - i,
        {
            assert(all.subrange(0, i + 1).drop_last() =~= all.subrange(0, i as int));
            assert(all.subrange(0, i + 1).last() == all[i as int]);
            let s = &self.active_searches[i];
            if !s.same_as(search) {
                kept.push(s.clone_search());
            }
            i = i + 1;
        }
        assert(all.subrange(0, n as int) =~= all);
        self.active_searches = kept;
    }

    /// The results of the last search.
    pub fn search_results_iter(&self) -> (r: &Vec<R>)
        ensures
            r@ == self.results(),
    {
        &self.search_results
    }

    pub fn search_results_count(&self) -> (r: usize)
        ensures
            r == self.results().len(),
    {
        self.search_results.len()
    }

    pub fn is_case_sensitive(&self) -> (r: bool)
        ensures
            r == self.case_spec(),
    {
        self.is_case_sensitive
    }

    pub fn update_search(&mut self, term: &str)
        ensures
            final(self).term_spec() == term@,
            final(self).active() == old(self).active(),
            final(self).case_spec() == old(self).case_spec(),
            final(self).results() == old(self).results(),
    {
        self.search_term = term.to_owned();
    }

    pub fn update_search_results(&mut self, rows: Vec<R>)
        ensures
            final(self).results() == rows@,
            final(self).active() == old(self).active(),
            final(self).case_spec() == old(self).case_spec(),
            final(self).term_spec() == old(self).term_spec(),
    {
        self.search_results = rows;
    }

    pub fn update_case_sensitive(&mut self, is_case_sensitive: bool)
        ensures
            final(self).case_spec() == is_case_sensitive,
            final(self).active() == old(self).active(),
            final(self).term_spec() == old(self).term_spec(),
            final(self).results() == old(self).results(),
    {
        self.is_case_sensitive = is_case_sensitive;
    }

    pub fn is_searching(&self) -> (r: bool)
        ensures
            r == (self.active().len() > 0),
    {
        self.active_searches.len() > 0
    }
}

impl Search {
    /// A second search equal to this one.
    pub fn clone_search(&self) -> (r: Search)
        ensures
            r == *self,
    {
        Search {
            kind: self.kind,
            term: self.term.clone(),
            mode: self.mode,
            is_case_sensitive: self.is_case_sensitive,
        }
    }
}

/// The rows a search returned, with the search itself.
#[derive(Debug, Clone)]
pub struct SearchRows {
    search: Search,
    rows: Rows,
}

pub open spec fn headers_view(rows: Rows) -> Seq<Seq<char>> {
    Seq::new(rows.headers@.len(), |i: int| rows.headers@[i]@)
}

impl SearchRows {
    pub closed spec fn search_spec(&self) -> Search {
        self.search
    }

    pub closed spec fn rows_spec(&self) -> Rows {
        self.rows
    }

    pub fn new(search: Search, rows: Rows) -> (r: SearchRows)
        ensures
            r.search_spec() == search,
            r.rows_spec() == rows,
    {
        SearchRows { search, rows }
    }

    pub fn search(&self) -> (r: &Search)
        ensures
            *r == self.search_spec(),
    {
        &self.search
    }

    pub fn rows(&self) -> (r: &Rows)
        ensures
            *r == self.rows_spec(),
    {
        &self.rows
    }

    pub fn kind(&self) -> (r: &SearchKind)
        ensures
            *r == self.search_spec().kind,
    {
        &self.search.kind
    }

    /// The index of the first column called `column`.
    pub fn position(&self, column: &str) -> (r: Result<usize, SearchError>)
        ensures
            match r {
                Ok(i) => {
                    &&& i < headers_view(self.rows_spec()).len()
                    &&& headers_view(self.rows_spec())[i as int] == column@
                    &&& forall|j: int|
                        0 <= j < i ==> #[trigger] headers_view(self.rows_spec())[j] != column@
                },
                Err(e) => {
                    &&& e matches SearchError::MissingColumn(c) && c@ == column@
                    &&& forall|j: int|
                        0 <= j < headers_view(self.rows_spec()).len() ==> #[trigger] headers_view(
                            self.rows_spec(),
                        )[j] != column@
                },
            },
    {
        let headers = &self.rows.headers;
        let mut i: usize = 0;
        while i < headers.len()
            invariant
                headers@ == self.rows.headers@,
                i <= headers@.len(),
                forall|j: int| 0 <= j < i ==> #[trigger] headers_view(self.rows)[j] != column@,
            decreases headers.len() - i,
        {
            if same_text(headers[i].as_str(), column) {
                return Ok(i);
            }
            i = i + 1;
        }
        Err(SearchError::missing_column(column))
    }
}

/// The string in column `i` of a row, if there is one.
pub open spec fn str_at(row: Seq<Value>, i: usize) -> Option<Seq<char>> {
    if i < row.len() {
        match row[i as int] {
            Value::Str(s) => Some(s@),
            _ => None,
        }
    } else {
        None
    }
}

/// The non-negative integer in column `i` of a row, if there is one.
pub open spec fn count_at(row: Seq<Value>, i: usize) -> Option<usize> {
    if i < row.len() {
        match row[i as int] {
            Value::Int(n) => if n >= 0 {
                Some(n as usize)
            } else {
                None
            },
            _ => None,
        }
    } else {
        None
    }
}

/// The error for a column that holds no string: missing if the row is too
/// short, of the wrong type otherwise.
pub open spec fn string_error(row: Seq<Value>, i: usize, column: Seq<char>, e: SearchError) -> bool {
    if i >= row.len() {
        e matches SearchError::MissingColumn(c) && c@ == column
    } else {
        e matches SearchError::InvalidType(c, t) && c@ == column && t == ExpectedType::String
    }
}

/// The error for a column that holds no non-negative integer.
pub open spec fn count_error(row: Seq<Value>, i: usize, column: Seq<char>, e: SearchError) -> bool {
    if i >= row.len() {
        e matches SearchError::MissingColumn(c) && c@ == column
    } else {
        e matches SearchError::InvalidType(c, t) && c@ == column && t == ExpectedType::Usize
    }
}

fn decode_string(row: &Vec<Value>, i: usize, column: &str) -> (r: Result<String, SearchError>)
    ensures
        match r {
            Ok(s) => str_at(row@, i) == Some(s@),
            Err(e) => str_at(row@, i) is None && string_error(row@, i, column@, e),
        },
{
    if i >= row.len() {
        return Err(SearchError::missing_column(column));
    }
    match &row[i] {
        Value::Str(s) => Ok(s.clone()),
        _ => Err(SearchError::invalid_type(column, ExpectedType::String)),
    }
}

fn decode_count(row: &Vec<Value>, i: usize, column: &str) -> (r: Result<usize, SearchError>)
    ensures
        match r {
            Ok(n) => count_at(row@, i) == Some(n),
            Err(e) => count_at(row@, i) is None && count_error(row@, i, column@, e),
        },
{
    if i >= row.len() {
        return Err(SearchError::missing_column(column));
    }
    match &row[i] {
        Value::Int(n) => if *n >= 0 {
            Ok(*n as usize)
        } else {
            Err(SearchError::invalid_type(column, ExpectedType::Usize))
        },
        _ => Err(SearchError::invalid_type(column, ExpectedType::Usize)),
    }
}

/// Where the columns of an author row stand.
#[derive(Debug, Clone, Copy, PartialEq, Eq, Structural)]
pub struct AuthorRowPositions {
    pub name: usize,
    pub url: usize,
}

/// Where the columns of a document row stand.
#[derive(Debug, Clone, Copy, PartialEq, Eq, Structural)]
pub struct TextRowPositions {
    pub author_id: usize,
    pub text: usize,
    pub text_id: usize,
    pub url: usize,
}

/// Where the column of a word row stands.
#[derive(Debug, Clone, Copy, PartialEq, Eq, Structural)]
pub struct WordRowPositions {
    pub word: usize,
}

pub open spec fn author_decodes(row: Seq<Value>, pos: AuthorRowPositions) -> bool {
    str_at(row, pos.name) is Some && str_at(row, pos.url) is Some
}

pub open spec fn author_of(row: Seq<Value>, pos: AuthorRowPositions, author_id: usize, a: Author) -> bool {
    &&& a.author_id == author_id
    &&& str_at(row, pos.name) == Some(a.name@)
    &&& str_at(row, pos.url) == Some(a.url@)
}

pub open spec fn text_decodes(row: Seq<Value>, pos: TextRowPositions) -> bool {
    &&& str_at(row, pos.text) is Some
    &&& count_at(row, pos.author_id) is Some
    &&& str_at(row, pos.url) is Some
}

pub open spec fn text_of(row: Seq<Value>, pos: TextRowPositions, t: Text) -> bool {
    &&& t.id == match count_at(row, pos.text_id) {
        Some(n) => Some(TextId(n)),
        None => None,
    }
    &&& str_at(row, pos.text) == Some(t.text@)
    &&& count_at(row, pos.author_id) is Some
    &&& t.author_id == count_at(row, pos.author_id)
    &&& str_at(row, pos.url) == Some(t.url@)
}

/// Reads an author from a row.
pub fn decode_author(row: &Vec<Value>, pos: AuthorRowPositions, author_id: usize) -> (r: Result<Author, SearchError>)
    ensures
        match r {
            Ok(a) => author_of(row@, pos, author_id, a),
            Err(e) => {
                &&& !author_decodes(row@, pos)
                &&& if str_at(row@, pos.name) is None {
                    string_error(row@, pos.name, "name"@, e)
                } else {
                    string_error(row@, pos.url, "url"@, e)
                }
            },
        },
{
    let name = decode_string(row, pos.name, "name")?;
    let url = decode_string(row, pos.url, "url")?;
    Ok(Author { author_id, name, url })
}

/// Reads a document from a row; its id is absent if the row has none.
pub fn decode_text(row: &Vec<Value>, pos: TextRowPositions) -> (r: Result<Text, SearchError>)
    ensures
        match r {
            Ok(t) => text_of(row@, pos, t),
            Err(e) => {
                &&& !text_decodes(row@, pos)
                &&& if str_at(row@, pos.text) is None {
                    string_error(row@, pos.text, "text"@, e)
                } else if count_at(row@, pos.author_id) is None {
                    count_error(row@, pos.author_id, "author_id"@, e)
                } else {
                    string_error(row@, pos.url, "url"@, e)
                }
            },
        },
{
    let id = match decode_count(row, pos.text_id, "text_id") {
        Ok(n) => Some(TextId(n)),
        Err(_) => None,
    };
    let text = decode_string(row, pos.text, "text")?;
    let author_id = decode_count(row, pos.author_id, "author_id")?;
    let url = decode_string(row, pos.url, "url")?;
    Ok(Text { id, text, author_id: Some(author_id), url })
}

/// Reads a word from a row.
pub fn decode_word(row: &Vec<Value>, pos: WordRowPositions) -> (r: Result<Word, SearchError>)
    ensures
        match r {
            Ok(w) => str_at(row@, pos.word) == Some(w@),
            Err(e) => str_at(row@, pos.word) is None && string_error(row@, pos.word, "word"@, e),
        },
{
    let word = decode_string(row, pos.word, "word")?;
    Ok(Word::new(word))
}

/// Reads an author from each row, numbering them from zero.
pub fn add_authors(authors: &mut Vec<Author>, rows: &Vec<Vec<Value>>, pos: AuthorRowPositions) -> (r: Result<(), SearchError>)
    ensures
        r is Ok ==> {
            &&& final(authors)@.len() == old(authors)@.len() + rows@.len()
            &&& final(authors)@.subrange(0, old(authors)@.len() as int) == old(authors)@
            &&& forall|i: int| 0 <= i < rows@.len() ==> author_of(
                #[trigger] rows@[i]@,
                pos,
                i as usize,
                final(authors)@[old(authors)@.len() + i],
            )
        },
        r is Err ==> exists|i: int| 0 <= i < rows@.len() && !author_decodes(#[trigger] rows@[i]@, pos),
{
    let ghost start = authors@;
    let mut i: usize = 0;
    while i < rows.len()
        invariant
            i <= rows@.len(),
            authors@.len() == start.len() + i,
            authors@.subrange(0, start.len() as int) == start,
            forall|k: int| 0 <= k < i ==> author_of(#[trigger] rows@[k]@, pos, k as usize, authors@[start.len() + k]),
        decreases rows.len() - i,
    {
        let a = decode_author(&rows[i], pos, i);
        match a {
            Ok(a) => {
                authors.push(a);
                assert(authors@.subrange(0, start.len() as int) =~= start);
            },
            Err(e) => {
                return Err(e);
            },
        }
        i = i + 1;
    }
    Ok(())
}

/// Reads a document from each row.
pub fn add_texts(texts: &mut Vec<Text>, rows: &Vec<Vec<Value>>, pos: TextRowPositions) -> (r: Result<(), SearchError>)
    ensures
        r is Ok ==> {
            &&& final(texts)@.len() == old(texts)@.len() + rows@.len()
            &&& final(texts)@.subrange(0, old(texts)@.len() as int) == old(texts)@
            &&& forall|i: int| 0 <= i < rows@.len() ==> text_of(
                #[trigger] rows@[i]@,
                pos,
                final(texts)@[old(texts)@.len() + i],
            )
        },
        r is Err ==> exists|i: int| 0 <= i < rows@.len() && !text_decodes(#[trigger] rows@[i]@, pos),
{
    let ghost start = texts@;
    let mut i: usize = 0;
    while i < rows.len()
        invariant
            i <= rows@.len(),
            texts@.len() == start.len() + i,
            texts@.subrange(0, start.len() as int) == start,
            forall|k: int| 0 <= k < i ==> text_of(#[trigger] rows@[k]@, pos, texts@[start.len() + k]),
        decreases rows.len() - i,
    {
        match decode_text(&rows[i], pos) {
            Ok(t) => {
                texts.push(t);
                assert(texts@.subrange(0, start.len() as int) =~= start);
            },
            Err(e) => {
                return Err(e);
            },
        }
        i = i + 1;
    }
    Ok(())
}

/// Reads a word from each row.
pub fn add_words(words: &mut Vec<Word>, rows: &Vec<Vec<Value>>, pos: WordRowPositions) -> (r: Result<(), SearchError>)
    ensures
        r is Ok ==> {
            &&& final(words)@.len() == old(words)@.len() + rows@.len()
            &&& final(words)@.subrange(0, old(words)@.len() as int) == old(words)@
            &&& forall|i: int| 0 <= i < rows@.len() ==> str_at(#[trigger] rows@[i]@, pos.word) == Some(
                final(words)@[old(words)@.len() + i]@,
            )
        },
        r is Err ==> exists|i: int| 0 <= i < rows@.len() && str_at(#[trigger] rows@[i]@, pos.word) is None,
{
    let ghost start = words@;
    let mut i: usize = 0;
    while i < rows.len()
        invariant
            i <= rows@.len(),
            words@.len() == start.len() + i,
            words@.subrange(0, start.len() as int) == start,
            forall|k: int| 0 <= k < i ==> str_at(#[trigger] rows@[k]@, pos.word) == Some(words@[start.len() + k]@),
        decreases rows.len() - i,
    {
        match decode_word(&rows[i], pos) {
            Ok(w) => {
                words.push(w);
                assert(words@.subrange(0, start.len() as int) =~= start);
            },
            Err(e) => {
                return Err(e);
            },
        }
        i = i + 1;
    }
    Ok(())
}

/// `i` is the first column of `rows` called `c`.
pub open spec fn first_column(rows: Rows, c: Seq<char>, i: usize) -> bool {
    &&& i < headers_view(rows).len()
    &&& headers_view(rows)[i as int] == c
    &&& forall|j: int| 0 <= j < i ==> #[trigger] headers_view(rows)[j] != c
}

proof fn lemma_first_column_unique(rows: Rows, c: Seq<char>, a: usize, b: usize)
    requires
        first_column(rows, c, a),
        first_column(rows, c, b),
    ensures
        a == b,
{
    if a < b {
        assert(headers_view(rows)[a as int] != c);
    }
    if b < a {
        assert(headers_view(rows)[b as int] != c);
    }
}

proof fn lemma_no_column(rows: Rows, c: Seq<char>)
    requires
        forall|j: int| 0 <= j < headers_view(rows).len() ==> #[trigger] headers_view(rows)[j] != c,
    ensures
        forall|i: usize| !#[trigger] first_column(rows, c, i),
{
    assert forall|i: usize| !#[trigger] first_column(rows, c, i) by {
        if i < headers_view(rows).len() {
            assert(headers_view(rows)[i as int] != c);
        }
    }
}

/// Every row holds an author, under the first columns called `name` and `url`.
pub open spec fn authors_readable(rows: Rows) -> bool {
    exists|name: usize, url: usize|
        first_column(rows, "name"@, name) && first_column(rows, "url"@, url) && forall|i: int|
            0 <= i < rows.rows@.len() ==> author_decodes(
                #[trigger] rows.rows@[i]@,
                AuthorRowPositions { name, url },
            )
}

/// The authors of the rows, numbered from zero, read under the first
/// columns called `name` and `url`.
pub open spec fn authors_in(rows: Rows, v: Seq<Author>) -> bool {
    exists|name: usize, url: usize|
        first_column(rows, "name"@, name) && first_column(rows, "url"@, url) && v.len()
            == rows.rows@.len() && forall|i: int|
            0 <= i < rows.rows@.len() ==> author_of(
                #[trigger] rows.rows@[i]@,
                AuthorRowPositions { name, url },
                i as usize,
                v[i],
            )
}

/// Every row holds a word under the first column called `word`.
pub open spec fn words_readable(rows: Rows) -> bool {
    exists|word: usize|
        first_column(rows, "word"@, word) && forall|i: int|
            0 <= i < rows.rows@.len() ==> str_at(#[trigger] rows.rows@[i]@, word) is Some
}

/// The words of the rows, read under the first column called `word`.
pub open spec fn words_in(rows: Rows, v: Seq<Word>) -> bool {
    exists|word: usize|
        first_column(rows, "word"@, word) && v.len() == rows.rows@.len() && forall|i: int|
            0 <= i < rows.rows@.len() ==> str_at(#[trigger] rows.rows@[i]@, word) == Some(v[i]@)
}

/// The column positions of a document row in `rows`.
pub open spec fn text_columns(rows: Rows, pos: TextRowPositions) -> bool {
    &&& first_column(rows, "author_id"@, pos.author_id)
    &&& first_column(rows, "text"@, pos.text)
    &&& first_column(rows, "text_id"@, pos.text_id)
    &&& first_column(rows, "url"@, pos.url)
}

/// Every row holds a document.
pub open spec fn texts_readable(rows: Rows) -> bool {
    exists|pos: TextRowPositions|
        text_columns(rows, pos) && forall|i: int|
            0 <= i < rows.rows@.len() ==> text_decodes(#[trigger] rows.rows@[i]@, pos)
}

/// The documents of the rows.
pub open spec fn texts_in(rows: Rows, v: Seq<Text>) -> bool {
    exists|pos: TextRowPositions|
        text_columns(rows, pos) && v.len() == rows.rows@.len() && forall|i: int|
            0 <= i < rows.rows@.len() ==> text_of(#[trigger] rows.rows@[i]@, pos, v[i])
}

impl SearchRows {
    /// The authors in the rows, numbered from zero.
    pub fn authors(&self) -> (r: Result<Vec<Author>, SearchError>)
        ensures
            match r {
                Ok(v) => authors_in(self.rows_spec(), v@) && authors_readable(self.rows_spec()),
                Err(_) => !authors_readable(self.rows_spec()),
            },
    {
        let rows = &self.rows;
        let name = match self.position("name") {
            Ok(i) => i,
            Err(e) => {
                proof {
                    assert(*rows == self.rows_spec());
                    lemma_no_column(*rows, "name"@);
                }
                return Err(e);
            },
        };
        let url = match self.position("url") {
            Ok(i) => i,
            Err(e) => {
                proof {
                    lemma_no_column(*rows, "url"@);
                }
                return Err(e);
            },
        };
        let pos = AuthorRowPositions { name, url };
        let mut authors: Vec<Author> = Vec::new();
        match add_authors(&mut authors, &rows.rows, pos) {
            Ok(()) => {
                assert(first_column(*rows, "name"@, name));
                assert(first_column(*rows, "url"@, url));
                assert(forall|i: int| 0 <= i < rows.rows@.len() ==> author_of(
                    #[trigger] rows.rows@[i]@,
                    pos,
                    i as usize,
                    authors@[i],
                ));
                assert(forall|i: int| 0 <= i < rows.rows@.len() ==> author_decodes(
                    #[trigger] rows.rows@[i]@,
                    pos,
                )) by {
                    assert forall|i: int| 0 <= i < rows.rows@.len() implies author_decodes(
                        #[trigger] rows.rows@[i]@,
                        pos,
                    ) by {
                        assert(author_of(rows.rows@[i]@, pos, i as usize, authors@[i]));
                    }
                }
                Ok(authors)
            },
            Err(e) => {
                proof {
                    if authors_readable(*rows) {
                        let (n, u) = choose|n: usize, u: usize|
                            first_column(*rows, "name"@, n) && first_column(*rows, "url"@, u)
                                && forall|i: int|
                                0 <= i < rows.rows@.len() ==> author_decodes(
                                    #[trigger] rows.rows@[i]@,
                                    AuthorRowPositions { name: n, url: u },
                                );
                        lemma_first_column_unique(*rows, "name"@, n, name);
                        lemma_first_column_unique(*rows, "url"@, u, url);
                    }
                }
                Err(e)
            },
        }
    }

    /// The documents in the rows.
    pub fn texts(&self) -> (r: Result<Vec<Text>, SearchError>)
        ensures
            match r {
                Ok(v) => texts_in(self.rows_spec(), v@) && texts_readable(self.rows_spec()),
                Err(_) => !texts_readable(self.rows_spec()),
            },
    {
        let rows = &self.rows;
        let author_id = match self.position("author_id") {
            Ok(i) => i,
            Err(e) => {
                proof {
                    assert(*rows == self.rows_spec());
                    lemma_no_column(*rows, "author_id"@);
                }
                return Err(e);
            },
        };
        let text = match self.position("text") {
            Ok(i) => i,
            Err(e) => {
                proof {
                    lemma_no_column(*rows, "text"@);
                }
                return Err(e);
            },
        };
        let text_id = match self.position("text_id") {
            Ok(i) => i,
            Err(e) => {
                proof {
                    lemma_no_column(*rows, "text_id"@);
                }
                return Err(e);
            },
        };
        let url = match self.position("url") {
            Ok(i) => i,
            Err(e) => {
                proof {
                    lemma_no_column(*rows, "url"@);
                }
                return Err(e);
            },
        };
        let pos = TextRowPositions { author_id, text, text_id, url };
        let mut texts: Vec<Text> = Vec::new();
        match add_texts(&mut texts, &rows.rows, pos) {
            Ok(()) => {
                assert(text_columns(*rows, pos));
                assert(forall|i: int| 0 <= i < rows.rows@.len() ==> text_of(
                    #[trigger] rows.rows@[i]@,
                    pos,
                    texts@[i],
                ));
                assert(forall|i: int| 0 <= i < rows.rows@.len() ==> text_decodes(
                    #[trigger] rows.rows@[i]@,
                    pos,
                )) by {
                    assert forall|i: int| 0 <= i < rows.rows@.len() implies text_decodes(
                        #[trigger] rows.rows@[i]@,
                        pos,
                    ) by {
                        assert(text_of(rows.rows@[i]@, pos, texts@[i]));
                    }
                }
                Ok(texts)
            },
            Err(e) => {
                proof {
                    if texts_readable(*rows) {
                        let p = choose|p: TextRowPositions|
                            text_columns(*rows, p) && forall|i: int|
                                0 <= i < rows.rows@.len() ==> text_decodes(
                                    #[trigger] rows.rows@[i]@,
                                    p,
                                );
                        lemma_first_column_unique(*rows, "author_id"@, p.author_id, author_id);
                        lemma_first_column_unique(*rows, "text"@, p.text, text);
                        lemma_first_column_unique(*rows, "text_id"@, p.text_id, text_id);
                        lemma_first_column_unique(*rows, "url"@, p.url, url);
                        assert(p == pos);
                    }
                }
                Err(e)
            },
        }
    }

    /// The words in the rows.
    pub fn words(&self) -> (r: Result<Vec<Word>, SearchError>)
        ensures
            match r {
                Ok(v) => words_in(self.rows_spec(), v@) && words_readable(self.rows_spec()),
                Err(_) => !words_readable(self.rows_spec()),
            },
    {
        let rows = &self.rows;
        let word = match self.position("word") {
            Ok(i) => i,
            Err(e) => {
                proof {
                    assert(*rows == self.rows_spec());
                    lemma_no_column(*rows, "word"@);
                }
                return Err(e);
            },
        };
        let pos = WordRowPositions { word };
        let mut words: Vec<Word> = Vec::new();
        match add_words(&mut words, &rows.rows, pos) {
            Ok(()) => {
                assert(first_column(*rows, "word"@, word));
                assert(forall|i: int| 0 <= i < rows.rows@.len() ==> str_at(
                    #[trigger] rows.rows@[i]@,
                    word,
                ) == Some(words@[i]@));
                assert(forall|i: int| 0 <= i < rows.rows@.len() ==> str_at(
                    #[trigger] rows.rows@[i]@,
                    word,
                ) is Some);
                Ok(words)
            },
            Err(e) => {
                proof {
                    if words_readable(*rows) {
                        let w = choose|w: usize|
                            first_column(*rows, "word"@, w) && forall|i: int|
                                0 <= i < rows.rows@.len() ==> str_at(#[trigger] rows.rows@[i]@, w)
                                    is Some;
                        lemma_first_column_unique(*rows, "word"@, w, word);
                    }
                }
                Err(e)
            },
        }
    }
}

/// An event of the search window.
#[derive(Debug)]
pub enum Message {
    Closed,
    InputChanged(String),
    Search,
    SearchKindChanged(SearchKind),
    SearchModeChanged(SearchMode),
    SearchCompleted(Result<SearchRows, SearchError>),
    CaseSensitiveChanged(bool),
}

/// What the window has to do after an event.
#[derive(Debug)]
pub enum Outcome {
    Nothing,
    /// Run this search against the store and report back with its rows.
    RunSearch(Search),
    /// A search came back; its rows were taken in, or could not be read.
    Completed(Result<(), SearchError>),
}

/// The state of the search window: the kind and mode chosen, and one
/// search state per kind.
#[derive(Debug, Clone)]
pub struct App {
    current_search_kind: SearchKind,
    current_search_mode: SearchMode,
    author_search: SearchState<Author>,
    text_search: SearchState<Text>,
    word_search: SearchState<Word>,
}

impl App {
    pub closed spec fn kind_spec(&self) -> SearchKind {
        self.current_search_kind
    }

    pub closed spec fn mode_spec(&self) -> SearchMode {
        self.current_search_mode
    }

    /// The term of the search of the current kind.
    pub closed spec fn term_spec(&self) -> Seq<char> {
        match self.current_search_kind {
            SearchKind::Author => self.author_search.term_spec(),
            SearchKind::Text => self.text_search.term_spec(),
            SearchKind::Word => self.word_search.term_spec(),
        }
    }

    pub closed spec fn case_spec(&self) -> bool {
        match self.current_search_kind {
            SearchKind::Author => self.author_search.case_spec(),
            SearchKind::Text => self.text_search.case_spec(),
            SearchKind::Word => self.word_search.case_spec(),
        }
    }

    pub closed spec fn author_state(&self) -> SearchState<Author> {
        self.author_search
    }

    pub closed spec fn text_state(&self) -> SearchState<Text> {
        self.text_search
    }

    pub closed spec fn word_state(&self) -> SearchState<Word> {
        self.word_search
    }

    pub closed spec fn searching_spec(&self) -> bool {
        match self.current_search_kind {
            SearchKind::Author => self.author_search.active().len() > 0,
            SearchKind::Text => self.text_search.active().len() > 0,
            SearchKind::Word => self.word_search.active().len() > 0,
        }
    }

    /// Searching words from their start, case-sensitively, with nothing typed.
    pub fn new() -> (r: App)
        ensures
            r.kind_spec() == SearchKind::Word,
            r.mode_spec() == SearchMode::StartsWith,
            r.term_spec() == Seq::<char>::empty(),
            r.case_spec(),
            !r.searching_spec(),
    {
        App {
            current_search_kind: SearchKind::default_kind(),
            current_search_mode: SearchMode::default_mode(),
            author_search: SearchState::new(),
            text_search: SearchState::new(),
            word_search: SearchState::new(),
        }
    }

    pub fn search_term(&self) -> (r: String)
        ensures
            r@ == self.term_spec(),
    {
        match self.current_search_kind {
            SearchKind::Author => self.author_search.search_term(),
            SearchKind::Text => self.text_search.search_term(),
            SearchKind::Word => self.word_search.search_term(),
        }
    }

    pub fn is_searching(&self) -> (r: bool)
        ensures
            r == self.searching_spec(),
    {
        match self.current_search_kind {
            SearchKind::Author => self.author_search.is_searching(),
            SearchKind::Text => self.text_search.is_searching(),
            SearchKind::Word => self.word_search.is_searching(),
        }
    }

    pub fn search_kind(&self) -> (r: SearchKind)
        ensures
            r == self.kind_spec(),
    {
        self.current_search_kind
    }

    pub fn search_mode(&self) -> (r: SearchMode)
        ensures
            r == self.mode_spec(),
    {
        self.current_search_mode
    }

    pub fn update_search(&mut self, term: &str)
        ensures
            final(self).term_spec() == term@,
            final(self).kind_spec() == old(self).kind_spec(),
            final(self).mode_spec() == old(self).mode_spec(),
            final(self).case_spec() == old(self).case_spec(),
    {
        match self.current_search_kind {
            SearchKind::Author => self.author_search.update_search(term),
            SearchKind::Text => self.text_search.update_search(term),
            SearchKind::Word => self.word_search.update_search(term),
        }
    }

    pub fn update_case_sensitive(&mut self, is_case_sensitive: bool)
        ensures
            final(self).case_spec() == is_case_sensitive,
            final(self).term_spec() == old(self).term_spec(),
            final(self).kind_spec() == old(self).kind_spec(),
            final(self).mode_spec() == old(self).mode_spec(),
    {
        match self.current_search_kind {
            SearchKind::Author => self.author_search.update_case_sensitive(is_case_sensitive),
            SearchKind::Text => self.text_search.update_case_sensitive(is_case_sensitive),
            SearchKind::Word => self.word_search.update_case_sensitive(is_case_sensitive),
        }
    }

    pub fn is_case_sensitive(&self) -> (r: bool)
        ensures
            r == self.case_spec(),
    {
        match self.current_search_kind {
            SearchKind::Author => self.author_search.is_case_sensitive(),
            SearchKind::Text => self.text_search.is_case_sensitive(),
            SearchKind::Word => self.word_search.is_case_sensitive(),
        }
    }

    /// The number of results of the last search of the current kind.
    pub fn results_count(&self) -> (r: usize)
        ensures
            r == match self.kind_spec() {
                SearchKind::Author => self.author_state().results().len(),
                SearchKind::Text => self.text_state().results().len(),
                SearchKind::Word => self.word_state().results().len(),
            },
    {
        match self.current_search_kind {
            SearchKind::Author => self.author_search.search_results_count(),
            SearchKind::Text => self.text_search.search_results_count(),
            SearchKind::Word => self.word_search.search_results_count(),
        }
    }

    /// The search that the window's current settings describe.
    pub fn current_search(&self) -> (r: Search)
        ensures
            r.kind == self.kind_spec(),
            r.term@ == self.term_spec(),
            r.mode == self.mode_spec(),
            r.is_case_sensitive == self.case_spec(),
    {
        Search::new(self.current_search_kind, self.search_term(), self.search_mode(), self.is_case_sensitive())
    }

    /// Starts the current search: it is now in progress, and returned to be run.
    pub fn search_command(&mut self) -> (r: Search)
        ensures
            r.kind == old(self).kind_spec(),
            r.term@ == old(self).term_spec(),
            r.mode == old(self).mode_spec(),
            r.is_case_sensitive == old(self).case_spec(),
            final(self).searching_spec(),
            final(self).kind_spec() == old(self).kind_spec(),
            final(self).term_spec() == old(self).term_spec(),
    {
        let search = self.current_search();
        match search.kind {
            SearchKind::Author => self.author_search.started_search(search.clone_search()),
            SearchKind::Text => self.text_search.started_search(search.clone_search()),
            SearchKind::Word => self.word_search.started_search(search.clone_search()),
        }
        search
    }

    /// Takes in the rows of a finished search: the search is no longer in
    /// progress and its rows become the results of its kind.
    pub fn update_search_results(&mut self, result: Result<SearchRows, SearchError>) -> (r: Result<(), SearchError>)
        ensures
            result matches Err(e) ==> r == Err::<(), SearchError>(e),
            result is Err ==> {
                &&& final(self).author_state() == old(self).author_state()
                &&& final(self).text_state() == old(self).text_state()
                &&& final(self).word_state() == old(self).word_state()
            },
            final(self).kind_spec() == old(self).kind_spec(),
            final(self).mode_spec() == old(self).mode_spec(),
            result matches Ok(rows) ==> match rows.search_spec().kind {
                SearchKind::Author => {
                    &&& final(self).author_state().active() == without(
                        old(self).author_state().active(),
                        rows.search_spec(),
                    )
                    &&& (r is Ok <==> authors_readable(rows.rows_spec()))
                    &&& r is Ok ==> authors_in(rows.rows_spec(), final(self).author_state().results())
                    &&& final(self).text_state() == old(self).text_state()
                    &&& final(self).word_state() == old(self).word_state()
                },
                SearchKind::Text => {
                    &&& final(self).text_state().active() == without(
                        old(self).text_state().active(),
                        rows.search_spec(),
                    )
                    &&& (r is Ok <==> texts_readable(rows.rows_spec()))
                    &&& r is Ok ==> texts_in(rows.rows_spec(), final(self).text_state().results())
                    &&& final(self).author_state() == old(self).author_state()
                    &&& final(self).word_state() == old(self).word_state()
                },
                SearchKind::Word => {
                    &&& final(self).word_state().active() == without(
                        old(self).word_state().active(),
                        rows.search_spec(),
                    )
                    &&& (r is Ok <==> words_readable(rows.rows_spec()))
                    &&& r is Ok ==> words_in(rows.rows_spec(), final(self).word_state().results())
                    &&& final(self).author_state() == old(self).author_state()
                    &&& final(self).text_state() == old(self).text_state()
                },
            },
    {
        match result {
            Ok(rows) => match rows.kind() {
                SearchKind::Author => {
                    self.author_search.ended_search(rows.search());
                    match rows.authors() {
                        Ok(found) => {
                            self.author_search.update_search_results(found);
                            Ok(())
                        },
                        Err(e) => Err(e),
                    }
                },
                SearchKind::Text => {
                    self.text_search.ended_search(rows.search());
                    match rows.texts() {
                        Ok(found) => {
                            self.text_search.update_search_results(found);
                            Ok(())
                        },
                        Err(e) => Err(e),
                    }
                },
                SearchKind::Word => {
                    self.word_search.ended_search(rows.search());
                    match rows.words() {
                        Ok(found) => {
                            self.word_search.update_search_results(found);
                            Ok(())
                        },
                        Err(e) => Err(e),
                    }
                },
            },
            Err(err) => Err(err),
        }
    }

    /// Handles one event of the window.
    pub fn update(&mut self, message: Message) -> (r: Outcome)
        ensures
            message is Search <==> r is RunSearch,
            message is Search ==> final(self).searching_spec(),
            message matches Message::InputChanged(t) ==> final(self).term_spec() == t@,
            message matches Message::SearchKindChanged(k) ==> final(self).kind_spec() == k,
            message matches Message::SearchModeChanged(m) ==> final(self).mode_spec() == m,
            message matches Message::CaseSensitiveChanged(b) ==> final(self).case_spec() == b,
    {
        match message {
            Message::Closed => Outcome::Nothing,
            Message::InputChanged(term) => {
                self.update_search(term.as_str());
                Outcome::Nothing
            },
            Message::Search => Outcome::RunSearch(self.search_command()),
            Message::SearchKindChanged(kind) => {
                self.current_search_kind = kind;
                Outcome::Nothing
            },
            Message::SearchModeChanged(mode) => {
                self.current_search_mode = mode;
                Outcome::Nothing
            },
            Message::SearchCompleted(result) => Outcome::Completed(self.update_search_results(result)),
            Message::CaseSensitiveChanged(is_case_sensitive) => {
                self.update_case_sensitive(is_case_sensitive);
                Outcome::Nothing
            },
        }
    }
}

} // verus!
