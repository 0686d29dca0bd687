use svl_core::db::{DBError, Value};
use svl_core::queries::{
    parse_usize, print_help, text_info, texts_info, top_words_starting_with, Query, QueryAction,
    QueryCommand, QueryError, AUTHOR_INFO, COUNT_WORDS, TEXTS_INFO, TEXT_INFO,
    TOP_WORDS_STARTING_WITH,
};
use svl_core::text::TextId;

#[test]
fn test_parse_query() {
    assert_eq!(
        Query::parse(r#"command "arg one" arg_two "arg three""#),
        Ok(Query::new(
            "command".to_string(),
            vec![
                "arg one".to_string(),
                "arg_two".to_string(),
                "arg three".to_string()
            ]
        ))
    );

    assert_eq!(
        Query::parse(r#"command"#),
        Ok(Query::new("command".to_string(), Vec::new()))
    );

    assert_eq!(
        Query::parse(r#" some "command with" "some values   "  "#),
        Ok(Query::new(
            "some".to_string(),
            vec!["command with".to_string(), "some values   ".to_string()]
        ))
    );

    assert_eq!(
        Query::parse(" \t \t command \t \t   "),
        Ok(Query::new("command".to_string(), Vec::new()))
    );

    assert_eq!(Query::parse(r#""""#), Err(QueryError::MissingCommand));

    assert_eq!(
        Query::parse(r#""unmatched"#),
        Err(QueryError::UnmatchedQuotes)
    );

    assert_eq!(Query::parse(r#""#), Err(QueryError::EmptyQuery));
}

#[test]
fn parse_scenario_top_with_quoted_argument() {
    let q = Query::parse("top \"la\" 5").unwrap();
    assert_eq!(q.cmd, QueryCommand::Top);
    assert_eq!(q.cmd.name(), "top");
    assert_eq!(q.args.len(), 2);
    assert_eq!(q.args.get(0).unwrap(), "la");
    assert_eq!(q.args.get(1).unwrap(), "5");
    assert_eq!(q.args.optional_at(1), Some(5));
    assert_eq!(Query::parse("\"unterminated"), Err(QueryError::UnmatchedQuotes));
    assert_eq!(Query::parse(""), Err(QueryError::EmptyQuery));
    assert_eq!(Query::parse("  \n\t "), Err(QueryError::EmptyQuery));
    assert_eq!(Query::parse("\"only quoted\""), Err(QueryError::MissingCommand));
}

#[test]
fn unknown_commands_are_kept() {
    let q = Query::parse("frobnicate x").unwrap();
    assert_eq!(q.cmd, QueryCommand::Unknown("frobnicate".to_string()));
    assert_eq!(q.plan(), Err(QueryError::UnknownQuery("frobnicate".to_string())));
    assert_eq!(QueryCommand::from("contains-texts"), QueryCommand::ContainsTexts);
    assert_eq!(QueryCommand::ContainsTexts.name(), "contains-texts");
}

#[test]
fn numbers_parse_like_std() {
    assert_eq!(parse_usize("0"), Some(0));
    assert_eq!(parse_usize("+42"), Some(42));
    assert_eq!(parse_usize("18446744073709551615"), "18446744073709551615".parse::<usize>().ok());
    assert_eq!(parse_usize("99999999999999999999999"), None);
    assert_eq!(parse_usize(""), None);
    assert_eq!(parse_usize("+"), None);
    assert_eq!(parse_usize("-1"), None);
    assert_eq!(parse_usize("12a"), None);
}

#[test]
fn top_query_lowercases_and_limits() {
    let q = top_words_starting_with("LA", Some(5));
    assert_eq!(q.script, format!("{}:limit 5", TOP_WORDS_STARTING_WITH));
    assert_eq!(
        q.params,
        vec![
            ("prefix".to_string(), Value::Str("la".to_string())),
            ("limit".to_string(), Value::Int(5))
        ]
    );
    let q = top_words_starting_with("Am", None);
    assert_eq!(q.script, TOP_WORDS_STARTING_WITH);
    assert_eq!(q.params, vec![("prefix".to_string(), Value::Str("am".to_string()))]);
}

#[test]
fn plans_follow_the_command() {
    let plan = Query::parse("top la 5").unwrap().plan().unwrap();
    assert_eq!(plan, QueryAction::Run(top_words_starting_with("la", Some(5))));

    let plan = Query::parse("texts 3").unwrap().plan().unwrap();
    assert_eq!(plan, QueryAction::Run(texts_info(Some(3))));
    match &plan {
        QueryAction::Run(q) => assert_eq!(q.script, format!("{}:limit 3", TEXTS_INFO)),
        _ => panic!("expected a script"),
    }

    let plan = Query::parse("text 12").unwrap().plan().unwrap();
    assert_eq!(plan, QueryAction::Run(text_info(TextId(12), None)));
    match &plan {
        QueryAction::Run(q) => {
            assert_eq!(q.script, TEXT_INFO);
            assert_eq!(q.params, vec![("text_id".to_string(), Value::Int(12))]);
        }
        _ => panic!("expected a script"),
    }

    let plan = Query::parse("author Cicero").unwrap().plan().unwrap();
    match &plan {
        QueryAction::Run(q) => {
            assert_eq!(q.script, AUTHOR_INFO);
            assert_eq!(q.params, vec![("name".to_string(), Value::Str("Cicero".to_string()))]);
        }
        _ => panic!("expected a script"),
    }

    let plan = Query::parse("count-words").unwrap().plan().unwrap();
    match &plan {
        QueryAction::Run(q) => {
            assert_eq!(q.script, COUNT_WORDS);
            assert!(q.params.is_empty());
        }
        _ => panic!("expected a script"),
    }

    assert_eq!(Query::parse("quit").unwrap().plan(), Ok(QueryAction::Quit));
    assert_eq!(Query::parse("exit").unwrap().plan(), Ok(QueryAction::Quit));
    assert_eq!(Query::parse("clear").unwrap().plan(), Ok(QueryAction::Clear));
    assert_eq!(Query::parse("help").unwrap().plan(), Ok(QueryAction::Show(print_help())));
}

#[test]
fn plans_report_bad_arguments() {
    assert_eq!(
        Query::parse("top").unwrap().plan(),
        Err(QueryError::MissingArgs(QueryCommand::Top, 1, 0))
    );
    assert_eq!(
        Query::parse("contains-texts").unwrap().plan(),
        Err(QueryError::MissingArgs(QueryCommand::ContainsTexts, 1, 0))
    );
    assert_eq!(
        Query::parse("text abc").unwrap().plan(),
        Err(QueryError::InvalidArgument("abc".to_string()))
    );
    assert_eq!(
        Query::parse("text").unwrap().plan(),
        Err(QueryError::MissingArgs(QueryCommand::Text, 1, 0))
    );
}

#[test]
fn help_lists_every_command() {
    let help = print_help();
    assert_eq!(help.headers, vec!["Available queries:".to_string(), "Description:".to_string()]);
    assert_eq!(help.rows.len(), 17);
    assert_eq!(help.rows[0][0], Value::Str("/top <prefix> ?<limit>".to_string()));
    assert_eq!(help.rows[16][1], Value::Str("Clear the screen".to_string()));
}

#[test]
fn store_errors_become_query_errors() {
    let e = QueryError::from(DBError::Other("disk full".to_string()));
    assert_eq!(e, QueryError::DBError(DBError::Other("disk full".to_string())));
}
