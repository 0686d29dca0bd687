use svl_core::db::{DBError, Rows, Value};
use svl_core::search::{
    App, ExpectedType, Message, Outcome, Search, SearchError, SearchKind, SearchMode, SearchRows, SearchState,
};
use svl_core::text::{TextId, Word};

#[test]
fn kinds_and_modes_are_listed() {
    assert_eq!(SearchKind::all_kinds(), vec![SearchKind::Word, SearchKind::Author, SearchKind::Text]);
    assert_eq!(SearchMode::all_modes().len(), 5);
    assert_eq!(SearchMode::EndsWith.label(), "ends with");
}

#[test]
fn searches_compile_to_predicates() {
    let s = Search::new(SearchKind::Word, "LA".to_string(), SearchMode::StartsWith, false);
    let q = s.query("word");
    assert_eq!(q.code, "starts_with(lowercase(word), $term)");
    assert_eq!(q.params, vec![("term".to_string(), Value::Str("la".to_string()))]);
    let s = Search::new(SearchKind::Author, "Ci".to_string(), SearchMode::IsNotEqual, true);
    let q = s.query("name");
    assert_eq!(q.code, "neq(name, $term)");
    assert_eq!(q.params, vec![("term".to_string(), Value::Str("Ci".to_string()))]);
    assert_eq!(q.kind, SearchKind::Author);
}

#[test]
fn search_state_tracks_searches() {
    let mut state: SearchState<Word> = SearchState::new();
    assert!(state.is_case_sensitive());
    assert!(!state.is_searching());
    let s = Search::new(SearchKind::Word, "a".to_string(), SearchMode::Contains, true);
    state.started_search(s.clone());
    state.started_search(s.clone());
    assert!(state.is_searching());
    state.ended_search(&s);
    assert!(!state.is_searching());
    state.update_search("rosa");
    assert_eq!(state.search_term(), "rosa");
    state.update_search_results(vec![Word::from("rosa")]);
    assert_eq!(state.search_results_count(), 1);
    assert_eq!(state.search_results_iter()[0], Word::from("rosa"));
}

fn rows(headers: &[&str], rows: Vec<Vec<Value>>) -> Rows {
    Rows::new(headers.iter().map(|h| h.to_string()).collect(), rows)
}

#[test]
fn rows_decode_into_records() {
    let s = Search::new(SearchKind::Text, "x".to_string(), SearchMode::Contains, true);
    let sr = SearchRows::new(
        s,
        rows(
            &["text_id", "url", "text", "author_id"],
            vec![vec![
                Value::Int(4),
                Value::Str("u".to_string()),
                Value::Str("body".to_string()),
                Value::Int(2),
            ]],
        ),
    );
    assert_eq!(sr.position("url"), Ok(1));
    assert_eq!(sr.position("nope"), Err(SearchError::MissingColumn("nope".to_string())));
    let texts = sr.texts().unwrap();
    assert_eq!(texts[0].id, Some(TextId(4)));
    assert_eq!(texts[0].author_id, Some(2));
    assert_eq!(texts[0].text, "body");
    assert_eq!(sr.authors(), Err(SearchError::MissingColumn("name".to_string())));

    let bad = SearchRows::new(
        Search::new(SearchKind::Word, "x".to_string(), SearchMode::Contains, true),
        rows(&["word"], vec![vec![Value::Int(1)]]),
    );
    assert!(matches!(bad.words(), Err(SearchError::InvalidType(c, _)) if c == "word"));
}

#[test]
fn app_runs_a_search_and_takes_its_rows() {
    let mut app = App::new();
    assert_eq!(app.search_kind(), SearchKind::Word);
    assert_eq!(app.search_mode(), SearchMode::StartsWith);
    assert!(matches!(app.update(Message::InputChanged("ros".to_string())), Outcome::Nothing));
    assert!(matches!(app.update(Message::CaseSensitiveChanged(false)), Outcome::Nothing));
    let search = match app.update(Message::Search) {
        Outcome::RunSearch(s) => s,
        _ => panic!("expected a search"),
    };
    assert_eq!(search.term, "ros");
    assert!(!search.is_case_sensitive);
    assert!(app.is_searching());
    let found = SearchRows::new(
        search,
        rows(&["word"], vec![vec![Value::Str("rosa".to_string())], vec![Value::Str("rosam".to_string())]]),
    );
    match app.update(Message::SearchCompleted(Ok(found))) {
        Outcome::Completed(r) => assert_eq!(r, Ok(())),
        _ => panic!("expected completion"),
    }
    assert!(!app.is_searching());
    assert_eq!(app.results_count(), 2);
    assert!(matches!(
        app.update(Message::SearchCompleted(Err(SearchError::db("down")))),
        Outcome::Completed(Err(SearchError::Db(_)))
    ));
    app.update(Message::SearchKindChanged(SearchKind::Author));
    assert_eq!(app.search_term(), "");
    assert!(app.is_case_sensitive());
}

#[test]
fn searches_compile_to_scripts() {
    let s = Search::new(SearchKind::Author, "Ci".to_string(), SearchMode::StartsWith, false);
    let q = s.script();
    assert!(q.script.starts_with("?[name, url] :="));
    assert!(q.script.ends_with("starts_with(lowercase(name), $term)"));
    assert_eq!(q.params, vec![("term".to_string(), Value::Str("ci".to_string()))]);
    let s = Search::new(SearchKind::Text, "am".to_string(), SearchMode::Contains, true);
    assert!(s.script().script.ends_with("*Word { word, text_id },\n            str_includes(word, $term)"));
}

#[test]
fn search_errors_carry_their_text() {
    assert!(matches!(SearchError::other("x"), SearchError::Other(s) if s == "x"));
    assert!(matches!(
        SearchError::invalid_type("url", ExpectedType::String),
        SearchError::InvalidType(c, ExpectedType::String) if c == "url"
    ));
    assert!(matches!(SearchError::from(DBError::Cozo("bad".to_string())), SearchError::Db(s) if s == "bad"));
}

#[test]
fn decoding_reports_the_first_bad_column() {
    let s = Search::new(SearchKind::Text, "x".to_string(), SearchMode::Contains, true);
    let sr = SearchRows::new(
        s,
        rows(
            &["text_id", "url", "text", "author_id"],
            vec![vec![Value::Int(1), Value::Int(7), Value::Int(8), Value::Str("a".to_string())]],
        ),
    );
    assert_eq!(sr.texts(), Err(SearchError::InvalidType("text".to_string(), ExpectedType::String)));
    let sr = SearchRows::new(
        Search::new(SearchKind::Text, "x".to_string(), SearchMode::Contains, true),
        rows(
            &["text_id", "url", "text", "author_id"],
            vec![vec![Value::Int(1), Value::Int(7), Value::Str("b".to_string()), Value::Int(-2)]],
        ),
    );
    assert_eq!(sr.texts(), Err(SearchError::InvalidType("author_id".to_string(), ExpectedType::Usize)));
}
