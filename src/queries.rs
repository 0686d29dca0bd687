//! The query interpreter: a small command language, parsed into typed
//! commands and compiled into read-only scripts for the storage engine.

use vstd::prelude::*;

use crate::chars::{chars_of, concat, lower_of, lowercase, same_text, string_of, trim, trimmed};
use crate::db::{decimal, int_param, is_str, str_param, usize_to_decimal, DBError, DbQuery, Rows, Value};
use crate::text::TextId;

verus! {

/// Why a query could not be parsed or run.
#[derive(Debug, Clone, PartialEq, Eq)]
pub enum QueryError {
    DBError(DBError),
    UnknownQuery(String),
    /// The command, the number of arguments it needs, and the number given.
    MissingArgs(QueryCommand, usize, usize),
    /// An argument that should be a non-negative integer is not.
    InvalidArgument(String),
    EmptyQuery,
    MissingCommand,
    UnmatchedQuotes,
}

impl From<DBError> for QueryError {
    fn from(error: DBError) -> (r: QueryError) {
        QueryError::DBError(error)
    }
}

impl vstd::std_specs::convert::FromSpecImpl<DBError> for QueryError {
    open spec fn obeys_from_spec() -> bool {
        true
    }

    open spec fn from_spec(error: DBError) -> QueryError {
        QueryError::DBError(error)
    }
}

/// The commands of the query language.
#[derive(Debug, Clone, PartialEq, Eq)]
pub enum QueryCommand {
    Help,
    Top,
    TopEnds,
    Texts,
    Ends,
    EndsTexts,
    Contains,
    ContainsTexts,
    CountTexts,
    CountAuthors,
    CountWords,
    Word,
    Text,
    Author,
    Quit,
    Exit,
    Clear,
    Unknown(String),
}

/// The word that names a command.
pub open spec fn command_name(c: QueryCommand) -> Seq<char> {
    match c {
        QueryCommand::Help => "help"@,
        QueryCommand::Top => "top"@,
        QueryCommand::TopEnds => "top-ends"@,
        QueryCommand::Texts => "texts"@,
        QueryCommand::Ends => "ends"@,
        QueryCommand::EndsTexts => "ends-texts"@,
        QueryCommand::Contains => "contains"@,
        QueryCommand::ContainsTexts => "contains-texts"@,
        QueryCommand::CountTexts => "count-texts"@,
        QueryCommand::CountAuthors => "count-authors"@,
        QueryCommand::CountWords => "count-words"@,
        QueryCommand::Word => "word"@,
        QueryCommand::Text => "text"@,
        QueryCommand::Author => "author"@,
        QueryCommand::Quit => "quit"@,
        QueryCommand::Exit => "exit"@,
        QueryCommand::Clear => "clear"@,
        QueryCommand::Unknown(s) => s@,
    }
}

/// Whether `s` names one of the known commands.
pub open spec fn known_command(s: Seq<char>) -> bool {
    ||| s == "help"@
    ||| s == "top"@
    ||| s == "top-ends"@
    ||| s == "texts"@
    ||| s == "ends"@
    ||| s == "ends-texts"@
    ||| s == "contains"@
    ||| s == "contains-texts"@
    ||| s == "count-texts"@
    ||| s == "count-authors"@
    ||| s == "count-words"@
    ||| s == "word"@
    ||| s == "text"@
    ||| s == "author"@
    ||| s == "quit"@
    ||| s == "exit"@
    ||| s == "clear"@
}

impl QueryCommand {
    /// The command that `cmd` names; an unknown word is kept as it is.
    pub fn named(cmd: &str) -> (r: QueryCommand)
        ensures
            command_name(r) == cmd@,
            r is Unknown <==> !known_command(cmd@),
    {
        if same_text(cmd, "help") {
            QueryCommand::Help
        } else if same_text(cmd, "top") {
            QueryCommand::Top
        } else if same_text(cmd, "top-ends") {
            QueryCommand::TopEnds
        } else if same_text(cmd, "texts") {
            QueryCommand::Texts
        } else if same_text(cmd, "ends") {
            QueryCommand::Ends
        } else if same_text(cmd, "ends-texts") {
            QueryCommand::EndsTexts
        } else if same_text(cmd, "contains") {
            QueryCommand::Contains
        } else if same_text(cmd, "contains-texts") {
            QueryCommand::ContainsTexts
        } else if same_text(cmd, "count-texts") {
            QueryCommand::CountTexts
        } else if same_text(cmd, "count-authors") {
            QueryCommand::CountAuthors
        } else if same_text(cmd, "count-words") {
            QueryCommand::CountWords
        } else if same_text(cmd, "word") {
            QueryCommand::Word
        } else if same_text(cmd, "text") {
            QueryCommand::Text
        } else if same_text(cmd, "author") {
            QueryCommand::Author
        } else if same_text(cmd, "quit") {
            QueryCommand::Quit
        } else if same_text(cmd, "exit") {
            QueryCommand::Exit
        } else if same_text(cmd, "clear") {
            QueryCommand::Clear
        } else {
            QueryCommand::Unknown(cmd.to_owned())
        }
    }

    /// The word that names the command.
    pub fn name(&self) -> (r: String)
        ensures
            r@ == command_name(*self),
    {
        match self {
            QueryCommand::Help => "help".to_owned(),
            QueryCommand::Top => "top".to_owned(),
            QueryCommand::TopEnds => "top-ends".to_owned(),
            QueryCommand::Texts => "texts".to_owned(),
            QueryCommand::Ends => "ends".to_owned(),
            QueryCommand::EndsTexts => "ends-texts".to_owned(),
            QueryCommand::Contains => "contains".to_owned(),
            QueryCommand::ContainsTexts => "contains-texts".to_owned(),
            QueryCommand::CountTexts => "count-texts".to_owned(),
            QueryCommand::CountAuthors => "count-authors".to_owned(),
            QueryCommand::CountWords => "count-words".to_owned(),
            QueryCommand::Word => "word".to_owned(),
            QueryCommand::Text => "text".to_owned(),
            QueryCommand::Author => "author".to_owned(),
            QueryCommand::Quit => "quit".to_owned(),
            QueryCommand::Exit => "exit".to_owned(),
            QueryCommand::Clear => "clear".to_owned(),
            QueryCommand::Unknown(cmd) => cmd.clone(),
        }
    }
}

impl<'a> From<&'a str> for QueryCommand {
    fn from(cmd: &'a str) -> (r: QueryCommand) {
        QueryCommand::named(cmd)
    }
}

impl<'a> vstd::std_specs::convert::FromSpecImpl<&'a str> for QueryCommand {
    open spec fn obeys_from_spec() -> bool {
        false
    }

    open spec fn from_spec(cmd: &'a str) -> QueryCommand {
        arbitrary()
    }
}

/// The character views of some strings.
pub open spec fn strings_view(v: Seq<String>) -> Seq<Seq<char>> {
    Seq::new(v.len(), |i: int| v[i]@)
}

/// The arguments of a query.
#[derive(Debug, Clone, PartialEq, Eq)]
pub struct Args {
    args: Vec<String>,
}

impl View for Args {
    type V = Seq<Seq<char>>;

    closed spec fn view(&self) -> Seq<Seq<char>> {
        strings_view(self.args@)
    }
}

impl Args {
    pub fn new() -> (r: Args)
        ensures
            r@ == Seq::<Seq<char>>::empty(),
    {
        let r = Args { args: Vec::new() };
        assert(r@ =~= Seq::<Seq<char>>::empty());
        r
    }

    pub fn from_vec(args: Vec<String>) -> (r: Args)
        ensures
            r@ == strings_view(args@),
    {
        Args { args }
    }

    pub fn push(&mut self, arg: String)
        ensures
            final(self)@ == old(self)@.push(arg@),
    {
        self.args.push(arg);
        assert(final(self)@ =~= old(self)@.push(arg@));
    }

    pub fn get(&self, idx: usize) -> (r: Option<&String>)
        ensures
            match r {
                Some(a) => idx < self@.len() && a@ == self@[idx as int],
                None => idx >= self@.len(),
            },
    {
        if idx < self.args.len() {
            Some(&self.args[idx])
        } else {
            None
        }
    }

    /// The argument at `idx` read as a non-negative integer, if it is one.
    pub fn optional_at(&self, idx: usize) -> (r: Option<usize>)
        ensures
            r == optional_number(self@, idx as int),
    {
        if idx < self.args.len() {
            parse_usize(self.args[idx].as_str())
        } else {
            None
        }
    }

    pub fn len(&self) -> (r: usize)
        ensures
            r == self@.len(),
    {
        self.args.len()
    }

    pub fn is_empty(&self) -> (r: bool)
        ensures
            r == (self@.len() == 0),
    {
        self.args.len() == 0
    }
}

/// The argument at `idx` read as a number, if there is one and it is one.
pub open spec fn optional_number(args: Seq<Seq<char>>, idx: int) -> Option<usize> {
    if 0 <= idx < args.len() {
        number_of(args[idx])
    } else {
        None
    }
}

pub open spec fn is_digit(c: char) -> bool {
    '0' <= c <= '9'
}

/// The value of a string of decimal digits.
pub open spec fn digits_value(s: Seq<char>) -> int
    decreases s.len(),
{
    if s.len() == 0 {
        0
    } else {
        digits_value(s.drop_last()) * 10 + ((s.last() as u32) as int - 48)
    }
}

/// `s` without its leading `+`, if it has one.
pub open spec fn unsigned_part(s: Seq<char>) -> Seq<char> {
    if s.len() > 0 && s[0] == '+' {
        s.drop_first()
    } else {
        s
    }
}

/// The value of a non-empty string of decimal digits that fits in a `usize`.
pub open spec fn digits_number(d: Seq<char>) -> Option<usize> {
    if d.len() > 0 && (forall|i: int| 0 <= i < d.len() ==> #[trigger] is_digit(d[i]))
        && digits_value(d) <= usize::MAX {
        Some(digits_value(d) as usize)
    } else {
        None
    }
}

/// A non-negative integer in decimal, with an optional leading `+`, that
/// fits in a `usize`.
pub open spec fn number_of(s: Seq<char>) -> Option<usize> {
    digits_number(unsigned_part(s))
}

proof fn lemma_digits_value_nonneg(s: Seq<char>)
    requires
        forall|i: int| 0 <= i < s.len() ==> #[trigger] is_digit(s[i]),
    ensures
        digits_value(s) >= 0,
    decreases s.len(),
{
    if s.len() > 0 {
        let rest = s.drop_last();
        assert forall|i: int| 0 <= i < rest.len() implies #[trigger] is_digit(rest[i]) by {
            assert(rest[i] == s[i]);
        }
        lemma_digits_value_nonneg(rest);
        assert(is_digit(s[s.len() - 1]));
        assert((s.last() as u32) >= 48);
    }
}

/// Reads a non-negative integer written in decimal.
pub fn parse_usize(s: &str) -> (r: Option<usize>)
    ensures
        r == number_of(s@),
{
    let cs = chars_of(s);
    let start: usize = if cs.len() > 0 && cs[0] == '+' { 1 } else { 0 };
    let ghost d = cs@.subrange(start as int, cs@.len() as int);
    assert(start == 1 ==> d =~= s@.drop_first());
    assert(start == 0 ==> d =~= s@);
    if cs.len() == start {
        return None;
    }
    let mut value: usize = 0;
    let mut overflow = false;
    let mut i: usize = start;
    assert(d.subrange(0, 0) =~= Seq::<char>::empty());
    while i < cs.len()
        invariant
            start <= i <= cs@.len(),
            cs@ == s@,
            d == unsigned_part(s@),
            d.len() > 0,
            d == cs@.subrange(start as int, cs@.len() as int),
            forall|k: int| 0 <= k < i - start ==> #[trigger] is_digit(d[k]),
            !overflow ==> value == digits_value(d.subrange(0, i - start)),
            overflow ==> digits_value(d.subrange(0, i - start)) > usize::MAX,
        decreases cs.len() - i,
    {
        let c = cs[i];
        if c < '0' || c > '9' {
            assert(d[i - start] == cs@[i as int]);
            assert(!is_digit(d[i - start]));
            assert(!(forall|k: int| 0 <= k < d.len() ==> #[trigger] is_digit(d[k])));
            assert(digits_number(d) is None);
            return None;
        }
        let ghost prefix = d.subrange(0, i - start);
        assert(d.subrange(0, i - start + 1).drop_last() =~= prefix);
        proof {
            lemma_digits_value_nonneg(prefix);
        }
        let digit = (c as u32 - '0' as u32) as usize;
        if !overflow {
            match value.checked_mul(10) {
                Some(m) => match m.checked_add(digit) {
                    Some(v) => {
                        value = v;
                    },
                    None => {
                        overflow = true;
                    },
                },
                None => {
                    overflow = true;
                },
            }
        }
        i = i + 1;
    }
    assert(d.subrange(0, d.len() as int) =~= d);
    if overflow {
        None
    } else {
        Some(value)
    }
}

/// A parsed query: a command and its arguments.
#[derive(Debug, Clone, PartialEq, Eq)]
pub struct Query {
    pub cmd: QueryCommand,
    pub args: Args,
}

/// The state of the scanner: the command word, the arguments, the token
/// being read, whether a quote is open, and whether the input already
/// failed for want of a command.
pub type ScanState = (Seq<char>, Seq<Seq<char>>, Seq<char>, bool, bool);

pub open spec fn scan_start() -> ScanState {
    (Seq::empty(), Seq::empty(), Seq::empty(), false, false)
}

/// The scanner reading one more character.
pub open spec fn scan_step(st: ScanState, c: char) -> ScanState {
    let (cmd, args, cur, quoted, failed) = st;
    if failed {
        st
    } else if (c == ' ' || c == '\t') && !quoted {
        if cur.len() == 0 {
            st
        } else if cmd.len() == 0 {
            (cur, args, Seq::empty(), quoted, false)
        } else {
            (cmd, args.push(cur), Seq::empty(), quoted, false)
        }
    } else if c == '"' {
        if quoted && cur.len() > 0 {
            if cmd.len() == 0 {
                (cmd, args, cur, false, true)
            } else {
                (cmd, args.push(cur), Seq::empty(), false, false)
            }
        } else {
            (cmd, args, cur, !quoted, false)
        }
    } else {
        (cmd, args, cur.push(c), quoted, false)
    }
}

pub open spec fn scan(s: Seq<char>) -> ScanState
    decreases s.len(),
{
    if s.len() == 0 {
        scan_start()
    } else {
        scan_step(scan(s.drop_last()), s.last())
    }
}

/// The command word and arguments once the input is read, or the error.
pub open spec fn scan_finish(st: ScanState) -> Result<(Seq<char>, Seq<Seq<char>>), QueryError> {
    let (cmd, args, cur, quoted, failed) = st;
    if failed {
        Err(QueryError::MissingCommand)
    } else if quoted {
        Err(QueryError::UnmatchedQuotes)
    } else {
        let cmd2 = if cur.len() > 0 && cmd.len() == 0 {
            cur
        } else {
            cmd
        };
        let args2 = if cur.len() > 0 && cmd.len() > 0 {
            args.push(cur)
        } else {
            args
        };
        if cmd2.len() == 0 {
            Err(QueryError::MissingCommand)
        } else {
            Ok((cmd2, args2))
        }
    }
}

/// A query as the grammar reads it: a command word followed by arguments,
/// each a run of characters other than blanks and tabs or a quoted string.
pub open spec fn parse_spec(q: Seq<char>) -> Result<(Seq<char>, Seq<Seq<char>>), QueryError> {
    if trim(q).len() == 0 {
        Err(QueryError::EmptyQuery)
    } else {
        scan_finish(scan(trim(q)))
    }
}

/// `r` is the query that `parsed` describes.
pub open spec fn parsed_as(
    r: Result<Query, QueryError>,
    parsed: Result<(Seq<char>, Seq<Seq<char>>), QueryError>,
) -> bool {
    match (r, parsed) {
        (Ok(q), Ok((cmd, args))) => {
            &&& command_name(q.cmd) == cmd
            &&& (q.cmd is Unknown <==> !known_command(cmd))
            &&& q.args@ == args
        },
        (Err(e), Err(f)) => e == f,
        _ => false,
    }
}

impl Query {
    pub fn new(cmd: String, args: Vec<String>) -> (r: Query)
        ensures
            command_name(r.cmd) == cmd@,
            r.cmd is Unknown <==> !known_command(cmd@),
            r.args@ == strings_view(args@),
    {
        Query { cmd: QueryCommand::named(cmd.as_str()), args: Args::from_vec(args) }
    }

    /// Parses a command word followed by arguments; blanks and tabs
    /// separate them, double quotes enclose an argument that holds blanks.
    pub fn parse(query: &str) -> (r: Result<Query, QueryError>)
        ensures
            parsed_as(r, parse_spec(query@)),
    {
        let t = trimmed(&chars_of(query));
        if t.len() == 0 {
            return Err(QueryError::EmptyQuery);
        }
        let mut cmd: Vec<char> = Vec::new();
        let mut args: Vec<String> = Vec::new();
        let mut cur: Vec<char> = Vec::new();
        let mut quoted = false;
        let mut failed = false;
        let mut i: usize = 0;
        assert(t@.subrange(0, 0) =~= Seq::<char>::empty());
        assert(strings_view(args@) =~= Seq::<Seq<char>>::empty());
        while i < t.len()
            invariant
                i <= t@.len(),
                (cmd@, strings_view(args@), cur@, quoted, failed) == scan(t@.subrange(0, i as int)),
            decreases t.len() - i,
        {
            let c = t[i];
            assert(t@.subrange(0, i + 1).drop_last() =~= t@.subrange(0, i as int));
            assert(t@.subrange(0, i + 1).last() == c);
            if failed {
            } else if (c == ' ' || c == '\t') && !quoted {
                if cur.len() == 0 {
                } else if cmd.len() == 0 {
                    cmd = cur;
                    cur = Vec::new();
                } else {
                    let ghost before = args@;
                    args.push(string_of(&cur));
                    assert(strings_view(args@) =~= strings_view(before).push(cur@));
                    cur = Vec::new();
                }
            } else if c == '"' {
                if quoted && cur.len() > 0 {
                    quoted = false;
                    if cmd.len() == 0 {
                        failed = true;
                    } else {
                        let ghost before = args@;
                        args.push(string_of(&cur));
                        assert(strings_view(args@) =~= strings_view(before).push(cur@));
                        cur = Vec::new();
                    }
                } else {
                    quoted = !quoted;
                }
            } else {
                cur.push(c);
            }
            i = i + 1;
        }
        assert(t@.subrange(0, t@.len() as int) =~= t@);
        if failed {
            return Err(QueryError::MissingCommand);
        }
        if quoted {
            return Err(QueryError::UnmatchedQuotes);
        }
        if cur.len() > 0 {
            if cmd.len() == 0 {
                cmd = cur;
            } else {
                let ghost before = args@;
                args.push(string_of(&cur));
                assert(strings_view(args@) =~= strings_view(before).push(cur@));
            }
        }
        if cmd.len() == 0 {
            return Err(QueryError::MissingCommand);
        }
        Ok(Query::new(string_of(&cmd), args))
    }
}

pub const TOP_WORDS_STARTING_WITH: &'static str = r#"
        ?[word, sum(count), count(text_id)] := *Word{word,count,text_id},
          starts_with(word, $prefix),
          :sort -count(text_id), word
        "#;

pub const TOP_WORDS_ENDING_WITH: &'static str = r#"
        ?[word, sum(count), count(text_id)] := *Word{word,count,text_id},
          ends_with(word, $suffix),
          :sort -count(text_id), word
        "#;

pub const TEXTS_WITH_WORD_STARTING_WITH: &'static str = r#"
        ?[text_id, url] := *Text{text_id,url},
          *Word{word,count,text_id},
          starts_with(word, $prefix)
        "#;

pub const WORDS_ENDING_WITH: &'static str = r#"
        ?[word, sum(count), count(text_id)] := *Word{word,count,text_id},
          ends_with(word, $suffix),
          :sort -count(text_id), word
        "#;

pub const TEXTS_WITH_WORD_ENDING_WITH: &'static str = r#"
        ?[text_id, url, text] := *Text{text_id,url,text},
          *Word{word,count,text_id},
          ends_with(word, $suffix)
        "#;

pub const WORDS_CONTAINING: &'static str = r#"
        ?[word, sum(count), count(text_id)] := *Word{word,count,text_id},
          str_includes(word, $substring),
          :sort -count(text_id), word
        "#;

pub const TEXTS_CONTAINING: &'static str = r#"
        ?[text_id, url] := *Text{text_id,url,text},
          str_includes(text, $substring)
        "#;

pub const WORD_INFO: &'static str = r#"
        ?[word, count, text_id] :=
            *Word{word,count,text_id},
            word = $word
        "#;

pub const TEXT_INFO: &'static str = r#"
        ?[text_id, author_name, url, text_length, count(word)] :=
            text_id = $text_id,
            *Author{author_id, name: author_name},
            *Text{text_id, url, text, author_id},
            *Word{word, text_id},
            text_length = length(text)
        "#;

pub const TEXTS_INFO: &'static str = r#"
        ?[text_id, author_name, url, text_length] :=
            *Author{author_id, name: author_name},
            *Text{text_id, url, text, author_id},
            text_length = length(text)
        "#;

pub const AUTHOR_INFO: &'static str = r#"
        ?[name, author_id, unique(text_id)] :=
            *Author{name, author_id},
            *Text{text_id, author_id},
            name = $name
        "#;

pub const COUNT_TEXTS: &'static str = "?[count(text_id)] := *Text{text_id}";

pub const COUNT_AUTHORS: &'static str = "?[count(name)] := *Author{name}";

/// The number of (word, document) rows, of distinct words, and of words read.
pub const COUNT_WORDS: &'static str = "?[count(word), count_unique(word), sum(count)] := *Word{word, count}";

/// The clause that caps the number of result rows, if there is a cap.
pub open spec fn limit_clause(limit: Option<usize>) -> Seq<char> {
    match limit {
        Some(n) => ":limit "@ + decimal(n as nat),
        None => Seq::empty(),
    }
}

/// `q` runs `template` under `limit`, with the parameters `first` followed
/// by the limit, if any.
pub open spec fn query_with(q: DbQuery, template: Seq<char>, first: Seq<(String, Value)>, limit: Option<usize>) -> bool {
    &&& q.script@ == template + limit_clause(limit)
    &&& q.params@.len() == first.len() + if limit is Some { 1int } else { 0int }
    &&& q.params@.subrange(0, first.len() as int) == first
    &&& limit is Some ==> q.params@[first.len() as int].0@ == "limit"@
        && q.params@[first.len() as int].1 == Value::Int(limit->0 as i64)
}

/// `q` runs `template` under `limit` with the one string parameter `name`.
pub open spec fn search_query(q: DbQuery, template: Seq<char>, name: Seq<char>, value: Seq<char>, limit: Option<usize>) -> bool {
    &&& q.script@ == template + limit_clause(limit)
    &&& q.params@.len() == if limit is Some { 2int } else { 1int }
    &&& str_param(q.params@[0], name, value)
    &&& limit is Some ==> q.params@[1].0@ == "limit"@ && q.params@[1].1 == Value::Int(limit->0 as i64)
}

/// `q` runs `template` under `limit`, with no parameter but the limit.
pub open spec fn plain_query(q: DbQuery, template: Seq<char>, limit: Option<usize>) -> bool {
    &&& q.script@ == template + limit_clause(limit)
    &&& q.params@.len() == if limit is Some { 1int } else { 0int }
    &&& limit is Some ==> q.params@[0].0@ == "limit"@ && q.params@[0].1 == Value::Int(limit->0 as i64)
}

fn with_limit(template: &str, params: Vec<(String, Value)>, limit: Option<usize>) -> (r: DbQuery)
    ensures
        query_with(r, template@, params@, limit),
{
    let mut params = params;
    let ghost first = params@;
    match limit {
        Some(n) => {
            let script = concat(template, concat(":limit ", usize_to_decimal(n).as_str()).as_str());
            params.push(("limit".to_owned(), Value::Int(n as i64)));
            assert(params@.subrange(0, first.len() as int) =~= first);
            DbQuery { script, params }
        },
        None => {
            assert(template@ + Seq::<char>::empty() =~= template@);
            assert(params@.subrange(0, first.len() as int) =~= first);
            DbQuery { script: template.to_owned(), params }
        },
    }
}

fn string_param_query(template: &str, name: &str, value: String, limit: Option<usize>) -> (r: DbQuery)
    ensures
        search_query(r, template@, name@, value@, limit),
{
    let mut params: Vec<(String, Value)> = Vec::new();
    params.push((name.to_owned(), Value::Str(value)));
    let r = with_limit(template, params, limit);
    assert(r.params@[0] == r.params@.subrange(0, 1)[0]);
    r
}

/// The most frequent words starting with `prefix`.
pub fn top_words_starting_with(prefix: &str, limit: Option<usize>) -> (r: DbQuery)
    ensures
        search_query(r, TOP_WORDS_STARTING_WITH@, "prefix"@, lower_of(prefix@), limit),
{
    string_param_query(TOP_WORDS_STARTING_WITH, "prefix", lowercase(prefix), limit)
}

/// The most frequent words ending with `suffix`.
pub fn top_words_ending_with(suffix: &str, limit: Option<usize>) -> (r: DbQuery)
    ensures
        search_query(r, TOP_WORDS_ENDING_WITH@, "suffix"@, lower_of(suffix@), limit),
{
    string_param_query(TOP_WORDS_ENDING_WITH, "suffix", lowercase(suffix), limit)
}

/// The documents holding a word that starts with `prefix`.
pub fn texts_with_word_starting_with(prefix: &str, limit: Option<usize>) -> (r: DbQuery)
    ensures
        search_query(r, TEXTS_WITH_WORD_STARTING_WITH@, "prefix"@, lower_of(prefix@), limit),
{
    string_param_query(TEXTS_WITH_WORD_STARTING_WITH, "prefix", lowercase(prefix), limit)
}

/// The words ending with `suffix`.
pub fn words_ending_with(suffix: &str, limit: Option<usize>) -> (r: DbQuery)
    ensures
        search_query(r, WORDS_ENDING_WITH@, "suffix"@, lower_of(suffix@), limit),
{
    string_param_query(WORDS_ENDING_WITH, "suffix", lowercase(suffix), limit)
}

/// The documents holding a word that ends with `suffix`.
pub fn texts_with_word_ending_with(suffix: &str, limit: Option<usize>) -> (r: DbQuery)
    ensures
        search_query(r, TEXTS_WITH_WORD_ENDING_WITH@, "suffix"@, lower_of(suffix@), limit),
{
    string_param_query(TEXTS_WITH_WORD_ENDING_WITH, "suffix", lowercase(suffix), limit)
}

/// The words containing `substring`.
pub fn words_containing(substring: &str, limit: Option<usize>) -> (r: DbQuery)
    ensures
        search_query(r, WORDS_CONTAINING@, "substring"@, lower_of(substring@), limit),
{
    string_param_query(WORDS_CONTAINING, "substring", lowercase(substring), limit)
}

/// The documents whose body contains `substring`.
pub fn texts_containing(substring: &str, limit: Option<usize>) -> (r: DbQuery)
    ensures
        search_query(r, TEXTS_CONTAINING@, "substring"@, lower_of(substring@), limit),
{
    string_param_query(TEXTS_CONTAINING, "substring", lowercase(substring), limit)
}

/// The per-document counts of `word`.
pub fn word_info(word: &str, limit: Option<usize>) -> (r: DbQuery)
    ensures
        search_query(r, WORD_INFO@, "word"@, lower_of(word@), limit),
{
    string_param_query(WORD_INFO, "word", lowercase(word), limit)
}

/// The author, location, length and word count of one document.
pub fn text_info(text_id: TextId, limit: Option<usize>) -> (r: DbQuery)
    ensures
        r.params@.len() >= 1,
        int_param(r.params@[0], "text_id"@, text_id.0 as int),
        query_with(r, TEXT_INFO@, seq![r.params@[0]], limit),
{
    let mut params: Vec<(String, Value)> = Vec::new();
    params.push(("text_id".to_owned(), Value::Int(text_id.0 as i64)));
    let ghost first = params@;
    let r = with_limit(TEXT_INFO, params, limit);
    assert(r.params@[0] == r.params@.subrange(0, 1)[0]);
    assert(first =~= seq![r.params@[0]]);
    r
}

/// The author, location and length of every document.
pub fn texts_info(limit: Option<usize>) -> (r: DbQuery)
    ensures
        plain_query(r, TEXTS_INFO@, limit),
{
    with_limit(TEXTS_INFO, Vec::new(), limit)
}

/// The documents of the author called `name`.
pub fn author_info(name: &str, limit: Option<usize>) -> (r: DbQuery)
    ensures
        search_query(r, AUTHOR_INFO@, "name"@, name@, limit),
{
    string_param_query(AUTHOR_INFO, "name", name.to_owned(), limit)
}

/// What running a query amounts to.
#[derive(Debug, Clone, PartialEq, Eq)]
pub enum QueryAction {
    /// Show these rows; nothing to ask of the store.
    Show(Rows),
    /// Run this read-only script against the store.
    Run(DbQuery),
    /// Clear the screen.
    Clear,
    /// Leave the session.
    Quit,
}

/// The script, parameter name and lowercasing of each command that
/// searches with one argument.
pub open spec fn search_command(c: QueryCommand) -> Option<(Seq<char>, Seq<char>, bool)> {
    match c {
        QueryCommand::Top => Some((TOP_WORDS_STARTING_WITH@, "prefix"@, true)),
        QueryCommand::TopEnds => Some((TOP_WORDS_ENDING_WITH@, "suffix"@, true)),
        QueryCommand::Ends => Some((WORDS_ENDING_WITH@, "suffix"@, true)),
        QueryCommand::EndsTexts => Some((TEXTS_WITH_WORD_ENDING_WITH@, "suffix"@, true)),
        QueryCommand::Contains => Some((WORDS_CONTAINING@, "substring"@, true)),
        QueryCommand::ContainsTexts => Some((TEXTS_CONTAINING@, "substring"@, true)),
        QueryCommand::Word => Some((WORD_INFO@, "word"@, true)),
        QueryCommand::Author => Some((AUTHOR_INFO@, "name"@, false)),
        _ => None,
    }
}

/// The fixed script of each counting command.
pub open spec fn count_command(c: QueryCommand) -> Option<Seq<char>> {
    match c {
        QueryCommand::CountTexts => Some(COUNT_TEXTS@),
        QueryCommand::CountAuthors => Some(COUNT_AUTHORS@),
        QueryCommand::CountWords => Some(COUNT_WORDS@),
        _ => None,
    }
}

/// `r` is what running `q` amounts to.
pub open spec fn planned(q: Query, r: Result<QueryAction, QueryError>) -> bool {
    let args = q.args@;
    match q.cmd {
        QueryCommand::Help => r matches Ok(QueryAction::Show(rows)) && help_rows(rows),
        QueryCommand::Texts => if args.len() < 2 {
            r matches Ok(QueryAction::Run(s)) && plain_query(s, TEXTS_INFO@, optional_number(args, 0))
        } else {
            r matches Ok(QueryAction::Run(s)) && search_query(
                s,
                TEXTS_WITH_WORD_STARTING_WITH@,
                "prefix"@,
                lower_of(args[0]),
                optional_number(args, 1),
            )
        },
        QueryCommand::Text => if args.len() == 0 {
            r == Err::<QueryAction, QueryError>(QueryError::MissingArgs(QueryCommand::Text, 1, 0))
        } else if number_of(args[0]) is None {
            r matches Err(QueryError::InvalidArgument(a)) && a@ == args[0]
        } else {
            r matches Ok(QueryAction::Run(s)) && s.params@.len() >= 1 && int_param(
                s.params@[0],
                "text_id"@,
                number_of(args[0])->0 as int,
            ) && query_with(s, TEXT_INFO@, seq![s.params@[0]], optional_number(args, 1))
        },
        QueryCommand::Quit => r == Ok::<QueryAction, QueryError>(QueryAction::Quit),
        QueryCommand::Exit => r == Ok::<QueryAction, QueryError>(QueryAction::Quit),
        QueryCommand::Clear => r == Ok::<QueryAction, QueryError>(QueryAction::Clear),
        QueryCommand::Unknown(c) => r matches Err(QueryError::UnknownQuery(u)) && u@ == c@,
        c => if count_command(c) is Some {
            r matches Ok(QueryAction::Run(s)) && plain_query(s, count_command(c)->0, None)
        } else if args.len() == 0 {
            r == Err::<QueryAction, QueryError>(QueryError::MissingArgs(c, 1, 0))
        } else {
            let (template, name, lower) = search_command(c)->0;
            r matches Ok(QueryAction::Run(s)) && search_query(
                s,
                template,
                name,
                if lower { lower_of(args[0]) } else { args[0] },
                optional_number(args, 1),
            )
        },
    }
}

impl Query {
    /// What running the query amounts to: rows to show, a script for the
    /// store, clearing the screen or leaving; a missing or malformed
    /// argument and an unknown command are errors.
    pub fn plan(&self) -> (r: Result<QueryAction, QueryError>)
        ensures
            planned(*self, r),
    {
        let args = &self.args;
        match &self.cmd {
            QueryCommand::Help => Ok(QueryAction::Show(print_help())),
            QueryCommand::Texts => {
                if args.len() < 2 {
                    Ok(QueryAction::Run(texts_info(args.optional_at(0))))
                } else {
                    let prefix = args.get(0).unwrap();
                    Ok(QueryAction::Run(texts_with_word_starting_with(prefix.as_str(), args.optional_at(1))))
                }
            },
            QueryCommand::Text => {
                match args.get(0) {
                    None => Err(QueryError::MissingArgs(QueryCommand::Text, 1, 0)),
                    Some(a) => match parse_usize(a.as_str()) {
                        None => Err(QueryError::InvalidArgument(a.clone())),
                        Some(n) => Ok(QueryAction::Run(text_info(TextId(n), args.optional_at(1)))),
                    },
                }
            },
            QueryCommand::Quit => Ok(QueryAction::Quit),
            QueryCommand::Exit => Ok(QueryAction::Quit),
            QueryCommand::Clear => Ok(QueryAction::Clear),
            QueryCommand::Unknown(c) => Err(QueryError::UnknownQuery(c.clone())),
            QueryCommand::CountTexts => Ok(QueryAction::Run(with_limit(COUNT_TEXTS, Vec::new(), None))),
            QueryCommand::CountAuthors => Ok(QueryAction::Run(with_limit(COUNT_AUTHORS, Vec::new(), None))),
            QueryCommand::CountWords => Ok(QueryAction::Run(with_limit(COUNT_WORDS, Vec::new(), None))),
            QueryCommand::Top => match args.get(0) {
                None => Err(QueryError::MissingArgs(QueryCommand::Top, 1, 0)),
                Some(a) => Ok(QueryAction::Run(top_words_starting_with(a.as_str(), args.optional_at(1)))),
            },
            QueryCommand::TopEnds => match args.get(0) {
                None => Err(QueryError::MissingArgs(QueryCommand::TopEnds, 1, 0)),
                Some(a) => Ok(QueryAction::Run(top_words_ending_with(a.as_str(), args.optional_at(1)))),
            },
            QueryCommand::Ends => match args.get(0) {
                None => Err(QueryError::MissingArgs(QueryCommand::Ends, 1, 0)),
                Some(a) => Ok(QueryAction::Run(words_ending_with(a.as_str(), args.optional_at(1)))),
            },
            QueryCommand::EndsTexts => match args.get(0) {
                None => Err(QueryError::MissingArgs(QueryCommand::EndsTexts, 1, 0)),
                Some(a) => Ok(QueryAction::Run(texts_with_word_ending_with(a.as_str(), args.optional_at(1)))),
            },
            QueryCommand::Contains => match args.get(0) {
                None => Err(QueryError::MissingArgs(QueryCommand::Contains, 1, 0)),
                Some(a) => Ok(QueryAction::Run(words_containing(a.as_str(), args.optional_at(1)))),
            },
            QueryCommand::ContainsTexts => match args.get(0) {
                None => Err(QueryError::MissingArgs(QueryCommand::ContainsTexts, 1, 0)),
                Some(a) => Ok(QueryAction::Run(texts_containing(a.as_str(), args.optional_at(1)))),
            },
            QueryCommand::Word => match args.get(0) {
                None => Err(QueryError::MissingArgs(QueryCommand::Word, 1, 0)),
                Some(a) => Ok(QueryAction::Run(word_info(a.as_str(), args.optional_at(1)))),
            },
            QueryCommand::Author => match args.get(0) {
                None => Err(QueryError::MissingArgs(QueryCommand::Author, 1, 0)),
                Some(a) => Ok(QueryAction::Run(author_info(a.as_str(), args.optional_at(1)))),
            },
        }
    }
}

/// The commands of the language with what each does.
pub open spec fn help_entries() -> Seq<(Seq<char>, Seq<char>)> {
    seq![
        ("/top <prefix> ?<limit>"@, "Get top words starting with a prefix by count"@),
        ("/top-ends <suffix> ?<limit>"@, "Get top words ending with a suffix by count"@),
        ("/texts <prefix> ?<limit>"@, "Get texts with words starting with prefix"@),
        ("/texts ?<limit>"@, "Get all texts"@),
        ("/ends <suffix> ?<limit>"@, "Get words ending with suffix"@),
        ("/ends-texts <suffix> ?<limit>"@, "Get texts with words ending with suffix"@),
        ("/contains <substring> ?<limit>"@, "Get words containing substring"@),
        ("/contains-texts <substring> ?<limit>"@, "Get texts containing substring"@),
        ("/count-texts"@, "Get the number of texts in the database"@),
        ("/count-authors"@, "Get the number of authors in the database"@),
        ("/count-words"@, "Get the number of word rows, distinct words and words read"@),
        ("/word <word>"@, "Get all info for a word"@),
        ("/text <text_id>"@, "Get all info for a text"@),
        ("/author <name>"@, "Get all info for an author"@),
        ("/quit"@, "Quit the program"@),
        ("/exit"@, "Quit the program"@),
        ("/clear"@, "Clear the screen"@),
    ]
}

/// `rows` is the help table: a usage column and a description column.
pub open spec fn help_rows(rows: Rows) -> bool {
    &&& strings_view(rows.headers@) == seq!["Available queries:"@, "Description:"@]
    &&& rows.rows@.len() == help_entries().len()
    &&& forall|i: int|
        0 <= i < rows.rows@.len() ==> {
            &&& (#[trigger] rows.rows@[i])@.len() == 2
            &&& is_str(rows.rows@[i]@[0], help_entries()[i].0)
            &&& is_str(rows.rows@[i]@[1], help_entries()[i].1)
        }
}

fn help_row(usage: &str, description: &str) -> (r: Vec<Value>)
    ensures
        r@.len() == 2,
        is_str(r@[0], usage@),
        is_str(r@[1], description@),
{
    let mut r: Vec<Value> = Vec::new();
    r.push(Value::Str(usage.to_owned()));
    r.push(Value::Str(description.to_owned()));
    r
}

/// The table of commands, with what each does.
pub fn print_help() -> (r: Rows)
    ensures
        help_rows(r),
{
    let mut headers: Vec<String> = Vec::new();
    headers.push("Available queries:".to_owned());
    headers.push("Description:".to_owned());
    let mut rows: Vec<Vec<Value>> = Vec::new();
    rows.push(help_row("/top <prefix> ?<limit>", "Get top words starting with a prefix by count"));
    rows.push(help_row("/top-ends <suffix> ?<limit>", "Get top words ending with a suffix by count"));
    rows.push(help_row("/texts <prefix> ?<limit>", "Get texts with words starting with prefix"));
    rows.push(help_row("/texts ?<limit>", "Get all texts"));
    rows.push(help_row("/ends <suffix> ?<limit>", "Get words ending with suffix"));
    rows.push(help_row("/ends-texts <suffix> ?<limit>", "Get texts with words ending with suffix"));
    rows.push(help_row("/contains <substring> ?<limit>", "Get words containing substring"));
    rows.push(help_row("/contains-texts <substring> ?<limit>", "Get texts containing substring"));
    rows.push(help_row("/count-texts", "Get the number of texts in the database"));
    rows.push(help_row("/count-authors", "Get the number of authors in the database"));
    rows.push(help_row("/count-words", "Get the number of word rows, distinct words and words read"));
    rows.push(help_row("/word <word>", "Get all info for a word"));
    rows.push(help_row("/text <text_id>", "Get all info for a text"));
    rows.push(help_row("/author <name>", "Get all info for an author"));
    rows.push(help_row("/quit", "Quit the program"));
    rows.push(help_row("/exit", "Quit the program"));
    rows.push(help_row("/clear", "Clear the screen"));
    let r = Rows::new(headers, rows);
    assert(strings_view(r.headers@) =~= seq!["Available queries:"@, "Description:"@]);
    r
}

} // verus!
