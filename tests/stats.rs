use svl_core::persist::{PersistSession, PersistStep};
use svl_core::stats::{PersistError, Stats};
use svl_core::text::{Text, TextId, Word};

fn doc(body: &str) -> Text {
    Text::new("URL".into(), body.into())
}

#[test]
fn add_text() {
    let mut stats = Stats::new();
    let text = Text::new(
        "URL".into(),
        "Salvē amīcē, quōmodo tē hodiē habēs? Tē nunc vidēre possum.".into(),
    );
    stats.add_text(text);

    assert_eq!(stats.texts().len(), 1);
    assert_eq!(stats.word_count(), 10);
    assert_eq!(stats.unique_word_count(), 9);
    assert_eq!(stats.global_count_of("salvē"), 1);
    assert_eq!(stats.global_count_of("amīcē"), 1);
    assert_eq!(stats.global_count_of("quōmodo"), 1);
    assert_eq!(stats.global_count_of("tē"), 2);
    assert_eq!(stats.global_count_of("hodiē"), 1);
    assert_eq!(stats.global_count_of("habēs"), 1);
    assert_eq!(stats.global_count_of("nunc"), 1);
    assert_eq!(stats.global_count_of("vidēre"), 1);
    assert_eq!(stats.global_count_of("possum"), 1);

    let text = Text::new(
        "URL".into(),
        "Quid nunc? Tibi iam respondēre possum!".into(),
    );
    stats.add_text(text);

    assert_eq!(stats.texts().len(), 2);
    assert_eq!(stats.word_count(), 16);
    assert_eq!(stats.unique_word_count(), 13);
    assert_eq!(stats.global_count_of("quid"), 1);
    assert_eq!(stats.global_count_of("possum"), 2);
}

#[test]
fn one_document_scenario() {
    let mut stats = Stats::new();
    let id = stats.add_text(doc("hello world test text"));
    assert_eq!(id, TextId(1));
    for w in ["hello", "world", "test", "text"] {
        assert_eq!(stats.global_count_of(w), 1);
        assert_eq!(stats.count_of_word(w, id), 1);
    }
    assert_eq!(stats.unique_word_count(), 4);
    assert_eq!(stats.word_count(), 4);
}

#[test]
fn two_document_scenario() {
    let mut stats = Stats::new();
    let first = stats.add_text(doc("hello world test text"));
    let second = stats.add_text(doc("more text is here?!"));
    assert_eq!((first, second), (TextId(1), TextId(2)));
    assert_eq!(stats.word_count(), 8);
    assert_eq!(stats.unique_word_count(), 7);
    assert_eq!(stats.global_count_of("text"), 2);
    assert_eq!(stats.count_of_word("text", first), 1);
    assert_eq!(stats.count_of_word("text", second), 1);
    assert_eq!(stats.count_of_word("hello", second), 0);
    assert_eq!(stats.global_count_of("absent"), 0);
}

#[test]
fn stored_body_retokenizes_to_the_counted_words() {
    let mut stats = Stats::new();
    let body = "Arma virumque canō, Trōiae quī prīmus ab ōrīs";
    stats.add_text(doc(body));
    let stored = &stats.texts()[0];
    assert_eq!(stored.id, Some(TextId(1)));
    assert_eq!(stored.text, body);
    let again = stored.words();
    assert_eq!(again, doc(body).words());
    assert_eq!(again.len(), stats.word_count());
}

#[test]
fn word_count_is_the_sum_of_global_counts() {
    let mut stats = Stats::new();
    stats.add_text(doc("x"));
    stats.add_text(doc("y"));
    let id1 = TextId(1);
    let id2 = TextId(2);
    for (id, w) in [(id1, "a"), (id2, "b"), (id1, "a"), (id2, "a"), (id1, ""), (id2, "c")] {
        stats.add_word(id, Word::from(w));
    }
    let sum: usize = stats.word_stats().iter().map(|s| s.global_count()).sum();
    assert_eq!(sum, stats.word_count());
    assert_eq!(stats.word_count(), 7);
    assert_eq!(stats.global_count_of("a"), 3);
    assert_eq!(stats.count_of_word("a", id1), 2);
    assert_eq!(stats.count_of_word("a", id2), 1);
}

#[test]
fn unique_count_is_the_table_size() {
    let mut stats = Stats::new();
    assert_eq!(stats.unique_word_count(), 0);
    stats.add_text(doc("a b a c b a"));
    assert_eq!(stats.unique_word_count(), stats.word_stats().len());
    assert_eq!(stats.unique_word_count(), 3);
    stats.add_word(TextId(1), Word::from(""));
    assert_eq!(stats.unique_word_count(), 3);
}

#[test]
fn merge_renumbers_and_recounts() {
    let mut a = Stats::new();
    a.add_text(doc("alpha beta"));
    let mut b = Stats::new();
    b.add_text(doc("beta gamma"));
    b.add_text(doc("gamma"));
    a.merge(&b);
    assert_eq!(a.texts().len(), 3);
    assert_eq!(a.texts()[2].id, Some(TextId(3)));
    assert_eq!(a.word_count(), 5);
    assert_eq!(a.global_count_of("gamma"), 2);
    assert_eq!(a.count_of_word("gamma", TextId(3)), 1);
    assert_eq!(a.unique_word_count(), 3);
}

#[test]
fn word_stats_track_documents() {
    let mut stats = Stats::new();
    stats.add_text(doc("rosa rosa"));
    stats.add_text(doc("rosa"));
    let ws = &stats.word_stats()[0];
    assert_eq!(ws.word(), &Word::from("rosa"));
    assert_eq!(ws.global_count(), 3);
    assert_eq!(ws.count(&TextId(1)), 2);
    assert_eq!(ws.count(&TextId(2)), 1);
    assert_eq!(ws.count(&TextId(3)), 0);
    assert_eq!(ws.text_ids(), vec![TextId(1), TextId(2)]);
}

fn authored(body: &str, author: usize) -> Text {
    let mut t = doc(body);
    t.author_id = Some(author);
    t
}

#[test]
fn persisted_rows_reproduce_the_counts() {
    let mut stats = Stats::new();
    stats.add_text(authored("hello world test text", 0));
    stats.add_text(authored("more text is here?!", 1));
    let plan = stats.persist_plan().unwrap();
    assert_eq!(plan.texts.len(), 2);
    assert_eq!(plan.texts[1].text_id, 2);
    assert_eq!(plan.texts[1].author_id, 1);
    assert_eq!(plan.texts[1].text, "more text is here?!");
    assert_eq!(plan.words.len(), 8);
    let total: usize = plan.words.iter().map(|r| r.count).sum();
    assert_eq!(total, stats.word_count());
    for ws in stats.word_stats() {
        let w = ws.word().to_string();
        let per_word: usize = plan.words.iter().filter(|r| r.word == w).map(|r| r.count).sum();
        assert_eq!(per_word, stats.global_count_of(&w));
    }
    let mut keys: Vec<(String, usize)> = plan.words.iter().map(|r| (r.word.clone(), r.text_id)).collect();
    keys.sort();
    keys.dedup();
    assert_eq!(keys.len(), plan.words.len());
}

#[test]
fn persisting_needs_an_author() {
    let mut stats = Stats::new();
    stats.add_text(authored("a", 0));
    stats.add_text(doc("b"));
    stats.add_text(doc("c"));
    assert_eq!(stats.persist_plan(), Err(PersistError::MissingAuthor(TextId(2))));
}

/// A store whose writes stay invisible until the transaction commits.
struct FakeStore {
    visible: Vec<String>,
    staged: Vec<String>,
    fail_on: Option<usize>,
    attempts: usize,
}

impl FakeStore {
    fn write(&mut self, row: String) -> bool {
        self.attempts += 1;
        if Some(self.attempts) == self.fail_on {
            return false;
        }
        self.staged.push(row);
        true
    }
}

fn run_session(store: &mut FakeStore, rows: &[String]) -> bool {
    let mut session = PersistSession::new(rows.len());
    loop {
        match session.next_step() {
            PersistStep::Write(i) => {
                let ok = store.write(rows[i].clone());
                session.record_write(ok);
            }
            PersistStep::Commit => {
                store.visible.append(&mut store.staged);
                session.record_close();
            }
            PersistStep::Abort => {
                store.staged.clear();
                session.record_close();
            }
            PersistStep::Done => return session.committed(),
        }
    }
}

#[test]
fn failed_write_leaves_no_rows_visible() {
    let rows: Vec<String> = (0..5).map(|i| format!("row {i}")).collect();
    let mut store = FakeStore { visible: Vec::new(), staged: Vec::new(), fail_on: Some(3), attempts: 0 };
    assert!(!run_session(&mut store, &rows));
    assert!(store.visible.is_empty());
    assert!(store.staged.is_empty());
    assert_eq!(store.attempts, 3);

    let mut store = FakeStore { visible: Vec::new(), staged: Vec::new(), fail_on: None, attempts: 0 };
    assert!(run_session(&mut store, &rows));
    assert_eq!(store.visible, rows);
}

#[test]
fn empty_session_commits_at_once() {
    let mut session = PersistSession::new(0);
    assert_eq!(session.next_step(), PersistStep::Commit);
    session.record_close();
    assert_eq!(session.next_step(), PersistStep::Done);
    assert!(session.committed());
}
