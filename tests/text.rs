use svl_core::text::{tokenize, Text, TextId, Word};

fn text(txt: &str) -> Text {
    Text::new("https://example.com".into(), txt.to_string())
}

#[test]
fn test_words() {
    assert_eq!(
        text("Quī linguam Latīnam discere vult variīs modīs id facere potest.").words(),
        vec![
            Word::from("quī"),
            Word::from("linguam"),
            Word::from("latīnam"),
            Word::from("discere"),
            Word::from("vult"),
            Word::from("variīs"),
            Word::from("modīs"),
            Word::from("id"),
            Word::from("facere"),
            Word::from("potest")
        ]
    );

    assert_eq!(
        text(". Quōmodo est?").words(),
        vec![Word::from("quōmodo"), Word::from("est")]
    );

    assert_eq!(
        text(". Ita!?! Unde venis?").words(),
        vec![Word::from("ita"), Word::from("unde"), Word::from("venis")]
    );

    assert_eq!(
        text("Per variās terrās (et maria multa) iter faciēbant.").words(),
        vec![
            Word::from("per"),
            Word::from("variās"),
            Word::from("terrās"),
            Word::from("et"),
            Word::from("maria"),
            Word::from("multa"),
            Word::from("iter"),
            Word::from("faciēbant")
        ]
    );
}

#[test]
fn test_trim_latin_word() {
    assert_eq!(Text::trim_latin_word(" a..."), Some(Word::from("a")));
    assert_eq!(Text::trim_latin_word(" AB "), Some(Word::from("ab")));
    assert_eq!(Text::trim_latin_word("  est!?."), Some(Word::from("est")));
    assert_eq!(Text::trim_latin_word(". Ita!"), Some(Word::from("ita")));
    assert_eq!(
        Text::trim_latin_word(" habemus "),
        Some(Word::from("habemus"))
    );
    assert_eq!(Text::trim_latin_word("<html>"), None);
    assert_eq!(Text::trim_latin_word("<body>"), None);
    assert_eq!(Text::trim_latin_word("<head>"), None);
    assert_eq!(Text::trim_latin_word("</html>"), None);
    assert_eq!(Text::trim_latin_word("</body>"), None);
    assert_eq!(Text::trim_latin_word("</head>"), None);
    assert_eq!(Text::trim_latin_word("<p>"), None);
    assert_eq!(Text::trim_latin_word("<br/>"), None);
}

#[test]
fn tokenizing_scenario_yields_four_words() {
    let words = tokenize("hello world test text");
    assert_eq!(
        words,
        vec![
            Word::from("hello"),
            Word::from("world"),
            Word::from("test"),
            Word::from("text")
        ]
    );
}

#[test]
fn tokens_are_nonempty_lowercase_alphabetic() {
    let raw = "<p>Ave, CAESAR!</p> 42 &nbsp; x1y ... ÆTAS\tNOVA\n<br/> hrefa";
    let words = tokenize(raw);
    assert!(!words.is_empty());
    for w in &words {
        assert!(!w.is_empty());
        assert!(w.as_str().chars().all(|c| c.is_alphabetic() && !c.is_uppercase()));
    }
    assert_eq!(
        words,
        vec![
            Word::from("ave"),
            Word::from("caesar"),
            Word::from("xy"),
            Word::from("ætas"),
            Word::from("nova"),
        ]
    );
}

#[test]
fn tokenizing_twice_gives_the_same_words() {
    let raw = "Gallia est omnis dīvīsa in partēs trēs.";
    assert_eq!(tokenize(raw), tokenize(raw));
    assert_eq!(text(raw).words(), tokenize(raw));
}

#[test]
fn empty_and_separator_only_bodies_have_no_words() {
    assert!(tokenize("").is_empty());
    assert!(tokenize(" ,.;!? \t\n 123 ").is_empty());
}

#[test]
fn word_splitter_separates_on_non_letters() {
    assert!(Text::word_splitter(' '));
    assert!(Text::word_splitter('\u{a0}'));
    assert!(Text::word_splitter('.'));
    assert!(Text::word_splitter('&'));
    assert!(Text::word_splitter('—'));
    assert!(!Text::word_splitter('a'));
    assert!(!Text::word_splitter('ē'));
    assert!(!Text::word_splitter('7'));
}

#[test]
fn fragment_text_decodes_entities() {
    assert_eq!(Text::trim_latin_word("a&amp;b"), Some(Word::from("ab")));
    assert_eq!(Text::trim_latin_word("a&nbsp;b"), Some(Word::from("ab")));
    assert_eq!(Text::trim_latin_word("&nbsp;"), None);
}

#[test]
fn markup_remnants_are_dropped() {
    assert_eq!(Text::trim_latin_word("br"), None);
    assert_eq!(Text::trim_latin_word("BR"), None);
    assert_eq!(Text::trim_latin_word("nbsp"), None);
    assert_eq!(Text::trim_latin_word("brevis"), Some(Word::from("brevis")));
    assert_eq!(Text::trim_latin_word("123"), None);
    assert_eq!(Text::trim_latin_word(""), None);
    assert_eq!(Text::trim_latin_word(">x"), None);
}

#[test]
fn word_lowercases_through_unicode() {
    assert_eq!(Word::from("ÆTAS").to_lowercase(), Word::from("ætas"));
    assert_eq!(Word::from("ABC").to_lowercase().to_string(), "abc");
    assert!(Word::from("").is_empty());
}

#[test]
fn text_ids_print_in_decimal() {
    assert_eq!(TextId::new(0).to_string(), "0");
    assert_eq!(TextId::new(7).to_string(), "7");
    assert_eq!(TextId::new(1024).to_string(), "1024");
    assert_eq!(TextId::from(usize::MAX).to_string(), usize::MAX.to_string());
}

#[test]
fn set_id_keeps_the_rest() {
    let mut t = text("abc");
    t.set_id(TextId::new(3));
    assert_eq!(t.id, Some(TextId(3)));
    assert_eq!(t.text, "abc");
    assert_eq!(t.author_id, None);
}
